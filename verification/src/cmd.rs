//! The commands of local clients and the answers to them.
use vstd::prelude::*;

use crate::driver::peers::{PeerInfo, PeerInfoView};
use crate::ids::Id;
use crate::wire::{opt_view, views, Kind};

verus! {

/// Lines of the log that a client gets if it does not say how many.
pub const DEFAULT_TAIL_N: usize = 20;

/// Lines of the log that a client gets if it does not say how many.
pub fn default_tail_n() -> (r: usize)
    ensures
        r == DEFAULT_TAIL_N,
{
    DEFAULT_TAIL_N
}

/// What a client wants to hear.
#[derive(Debug, Clone, Copy, PartialEq, Eq, Structural)]
pub enum Channel {
    /// Answers to its commands.
    Cmd,
    /// The state, whenever it changes.
    State,
    /// The log as it is written.
    Logs,
}

/// A client's opening line.
#[derive(Debug, Clone, Copy)]
pub struct Subscribe {
    pub subscribe: Channel,
}

/// A command and the number under which it is answered.
#[derive(Debug)]
pub struct CmdRequest {
    pub id: u64,
    pub op: CmdOp,
}

/// A command. `SetFirewall` comes with a policy that the state machine takes.
#[derive(Debug)]
pub enum CmdOp {
    Status,
    Peers,
    /// Send a text as if it had been copied.
    Push { text: String },
    /// Send an image, in base64 of a PNG, as if it had been copied.
    PushImage { data: String, sensitive: bool },
    /// Get an image by its hash.
    FetchItem { hash: String },
    Pull,
    Tail { n: usize },
    SetThreshold { value: u8 },
    SetDeviceName { name: String },
    SetChargeOverride { value: bool },
    SetFavorite { hash: String, favorite: bool },
    /// Clear this device's history; favourites stay unless they are named.
    ClearHistory { include_favorites: bool },
    SetFirewall,
    /// Let an item that waits for a decision through, or drop it.
    ResolvePending { hash: String, allow: bool },
    /// Stop trusting one peer.
    Revoke { peer_id: String },
    /// Stop trusting every peer.
    Unpair,
    Shutdown,
    Reconnect,
    Toggle { on: bool },
    PairShow,
    PairAccept { pubkey_b32: String, name: String, addr: Option<String> },
    PairFromUri { uri: String, name: String },
    PairFromPin { pin: String, name: String },
    SetSelfBattery { level: u8, charging: bool },
    /// The pairs that wait for confirmation.
    PairPending,
    PairConfirm { peer_id: String, accept: bool },
    TrustList,
}

/// Where an item of the history comes from.
#[derive(Debug, Clone, Copy, PartialEq, Eq, Structural)]
pub enum HistorySource {
    Local,
    Peer,
}

/// An item of the history.
#[derive(Debug)]
pub struct HistoryItem {
    pub kind: Kind,
    pub preview: String,
    pub time: String,
    pub source: HistorySource,
    pub sensitive: bool,
    pub lamport: u64,
    pub hash: String,
    pub favorite: bool,
    pub resync: bool,
    pub source_peer_id: Option<Id>,
}

/// View of a [`HistoryItem`].
#[verifier::ext_equal]
pub ghost struct HistoryView {
    pub kind: Kind,
    pub preview: Seq<char>,
    pub time: Seq<char>,
    pub source: HistorySource,
    pub sensitive: bool,
    pub lamport: u64,
    pub hash: Seq<char>,
    pub favorite: bool,
    pub resync: bool,
    pub source_peer_id: Option<Id>,
}

impl View for HistoryItem {
    type V = HistoryView;

    open spec fn view(&self) -> HistoryView {
        HistoryView {
            kind: self.kind,
            preview: self.preview@,
            time: self.time@,
            source: self.source,
            sensitive: self.sensitive,
            lamport: self.lamport,
            hash: self.hash@,
            favorite: self.favorite,
            resync: self.resync,
            source_peer_id: self.source_peer_id,
        }
    }
}

impl Clone for HistoryItem {
    fn clone(&self) -> (r: Self)
        ensures
            r@ == self@,
    {
        HistoryItem {
            kind: self.kind,
            preview: self.preview.clone(),
            time: self.time.clone(),
            source: self.source,
            sensitive: self.sensitive,
            lamport: self.lamport,
            hash: self.hash.clone(),
            favorite: self.favorite,
            resync: self.resync,
            source_peer_id: self.source_peer_id,
        }
    }
}

/// A peer of the trust store.
#[derive(Debug)]
pub struct TrustedEntry {
    pub peer_id_hex: String,
    pub static_pub_hex: String,
    pub name: String,
}

/// View of a [`TrustedEntry`].
#[verifier::ext_equal]
pub ghost struct TrustedEntryView {
    pub peer_id_hex: Seq<char>,
    pub static_pub_hex: Seq<char>,
    pub name: Seq<char>,
}

impl View for TrustedEntry {
    type V = TrustedEntryView;

    open spec fn view(&self) -> TrustedEntryView {
        TrustedEntryView {
            peer_id_hex: self.peer_id_hex@,
            static_pub_hex: self.static_pub_hex@,
            name: self.name@,
        }
    }
}

/// A pair that waits for confirmation.
#[derive(Debug)]
pub struct PendingPairEntry {
    pub peer_id: String,
    pub name: String,
    pub sas_words: Vec<String>,
    pub addr: Option<String>,
    pub expires_in_ms: Option<u64>,
}

/// View of a [`PendingPairEntry`].
#[verifier::ext_equal]
pub ghost struct PendingEntryView {
    pub peer_id: Seq<char>,
    pub name: Seq<char>,
    pub sas_words: Seq<Seq<char>>,
    pub addr: Option<Seq<char>>,
    pub expires_in_ms: Option<u64>,
}

impl View for PendingPairEntry {
    type V = PendingEntryView;

    open spec fn view(&self) -> PendingEntryView {
        PendingEntryView {
            peer_id: self.peer_id@,
            name: self.name@,
            sas_words: views(self.sas_words@),
            addr: opt_view(self.addr),
            expires_in_ms: self.expires_in_ms,
        }
    }
}

/// The linked peer.
#[derive(Debug)]
pub struct PeerEntry {
    pub peer_id: String,
    pub name: String,
    pub addr: String,
    pub link_latency_ms: u32,
    pub battery: u8,
    pub charging: bool,
    pub linked: bool,
}

/// View of a [`PeerEntry`].
#[verifier::ext_equal]
pub ghost struct PeerEntryView {
    pub peer_id: Seq<char>,
    pub name: Seq<char>,
    pub addr: Seq<char>,
    pub link_latency_ms: u32,
    pub battery: u8,
    pub charging: bool,
    pub linked: bool,
}

impl View for PeerEntry {
    type V = PeerEntryView;

    open spec fn view(&self) -> PeerEntryView {
        PeerEntryView {
            peer_id: self.peer_id@,
            name: self.name@,
            addr: self.addr@,
            link_latency_ms: self.link_latency_ms,
            battery: self.battery,
            charging: self.charging,
            linked: self.linked,
        }
    }
}

/// What an answer carries.
pub enum CmdData {
    /// The state, with these peers.
    State { peers: Vec<PeerInfo> },
    Peers(Vec<PeerEntry>),
    /// The last `n` lines of the log.
    Tail { n: usize },
    Pull(Option<HistoryItem>),
    PairInfo {
        peer_id_hex: String,
        pubkey_b32: String,
        fingerprint_words: Vec<String>,
        addr_hint: String,
        uri: String,
        pin: Option<String>,
        pin_expires_at_ms: Option<u64>,
        tailnet_addr_hint: Option<String>,
    },
    ItemBytes { bytes: String },
    PendingPairs(Vec<PendingPairEntry>),
    TrustList(Vec<TrustedEntry>),
    PairResult { already_paired: bool },
    Pong,
}

/// View of a [`CmdData`].
#[verifier::ext_equal]
pub ghost enum CmdDataView {
    State { peers: Seq<PeerInfoView> },
    Peers(Seq<PeerEntryView>),
    Tail { n: usize },
    Pull(Option<HistoryView>),
    PairInfo {
        peer_id_hex: Seq<char>,
        pubkey_b32: Seq<char>,
        fingerprint_words: Seq<Seq<char>>,
        addr_hint: Seq<char>,
        uri: Seq<char>,
        pin: Option<Seq<char>>,
        pin_expires_at_ms: Option<u64>,
        tailnet_addr_hint: Option<Seq<char>>,
    },
    ItemBytes { bytes: Seq<char> },
    PendingPairs(Seq<PendingEntryView>),
    TrustList(Seq<TrustedEntryView>),
    PairResult { already_paired: bool },
    Pong,
}

impl View for CmdData {
    type V = CmdDataView;

    open spec fn view(&self) -> CmdDataView {
        match *self {
            CmdData::State { peers } => CmdDataView::State { peers: views(peers@) },
            CmdData::Peers(p) => CmdDataView::Peers(views(p@)),
            CmdData::Tail { n } => CmdDataView::Tail { n },
            CmdData::Pull(item) => CmdDataView::Pull(opt_view(item)),
            CmdData::PairInfo {
                peer_id_hex,
                pubkey_b32,
                fingerprint_words,
                addr_hint,
                uri,
                pin,
                pin_expires_at_ms,
                tailnet_addr_hint,
            } => CmdDataView::PairInfo {
                peer_id_hex: peer_id_hex@,
                pubkey_b32: pubkey_b32@,
                fingerprint_words: views(fingerprint_words@),
                addr_hint: addr_hint@,
                uri: uri@,
                pin: opt_view(pin),
                pin_expires_at_ms,
                tailnet_addr_hint: opt_view(tailnet_addr_hint),
            },
            CmdData::ItemBytes { bytes } => CmdDataView::ItemBytes { bytes: bytes@ },
            CmdData::PendingPairs(p) => CmdDataView::PendingPairs(views(p@)),
            CmdData::TrustList(t) => CmdDataView::TrustList(views(t@)),
            CmdData::PairResult { already_paired } => CmdDataView::PairResult { already_paired },
            CmdData::Pong => CmdDataView::Pong,
        }
    }
}

/// The answer to a command.
pub struct CmdResponse {
    /// The command's number.
    pub id: u64,
    pub ok: bool,
    pub data: Option<CmdData>,
    pub err: Option<String>,
}

/// View of a [`CmdResponse`].
#[verifier::ext_equal]
pub ghost struct CmdResponseView {
    pub id: u64,
    pub ok: bool,
    pub data: Option<CmdDataView>,
    pub err: Option<Seq<char>>,
}

impl View for CmdResponse {
    type V = CmdResponseView;

    open spec fn view(&self) -> CmdResponseView {
        CmdResponseView {
            id: self.id,
            ok: self.ok,
            data: opt_view(self.data),
            err: opt_view(self.err),
        }
    }
}

/// The answer that a command succeeded.
pub open spec fn answer(id: u64, data: Option<CmdDataView>) -> CmdResponseView {
    CmdResponseView { id, ok: true, data, err: None }
}

/// The answer that a command failed.
pub open spec fn failure(id: u64, msg: Seq<char>) -> CmdResponseView {
    CmdResponseView { id, ok: false, data: None, err: Some(msg) }
}

impl CmdResponse {
    /// The answer that a command succeeded.
    pub fn ok(id: u64, data: Option<CmdData>) -> (r: Self)
        ensures
            r@ == answer(id, opt_view(data)),
    {
        CmdResponse { id, ok: true, data, err: None }
    }

    /// The answer that a command failed.
    pub fn err(id: u64, msg: String) -> (r: Self)
        ensures
            r@ == failure(id, msg@),
    {
        CmdResponse { id, ok: false, data: None, err: Some(msg) }
    }
}

} // verus!
