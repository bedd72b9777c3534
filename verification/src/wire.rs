//! The messages that peers exchange, the events that the daemon's state machine
//! takes in, and the effects that the rules of this library ask for.
//!
//! Each type that holds text or bytes has a ghost counterpart, its view, in
//! which texts and byte strings are sequences.
use vstd::prelude::*;

use crate::ids::Id;

verus! {

/// The views of a list's elements.
pub open spec fn views<T: View>(s: Seq<T>) -> Seq<T::V> {
    Seq::new(s.len(), |i: int| s[i]@)
}

/// The view of an optional value.
pub open spec fn opt_view<T: View>(o: Option<T>) -> Option<T::V> {
    match o {
        Some(x) => Some(x@),
        None => None,
    }
}

/// Pushing onto a list pushes onto its views.
pub broadcast proof fn views_push<T: View>(s: Seq<T>, x: T)
    ensures
        #[trigger] views(s.push(x)) == views(s).push(x@),
{
    assert(views(s.push(x)) =~= views(s).push(x@));
}

/// Takes the first element off a list.
pub fn take_first<T: View>(v: &mut Vec<T>) -> (r: T)
    requires
        old(v)@.len() > 0,
    ensures
        r@ == views(old(v)@)[0],
        views(final(v)@) == views(old(v)@).skip(1),
        final(v)@.len() == old(v)@.len() - 1,
{
    let ghost before = v@;
    let r = v.remove(0);
    assert(views(v@) =~= views(before).skip(1));
    r
}

/// What kind of content a clipboard item holds.
#[derive(Debug, Clone, Copy, PartialEq, Eq, Structural)]
pub enum Kind {
    Text,
    Image,
    /// A text of a special sort, such as a link, by the sort's number.
    Special(u8),
}

/// What the firewall says of an item.
#[derive(Debug, Clone, Copy, PartialEq, Eq, Structural)]
pub enum Decision {
    /// Let it through.
    Pass,
    /// Park it until the user decides.
    Defer,
    /// Drop it.
    Block,
}

/// What the firewall says of each kind of item in one direction.
#[derive(Debug, Clone, Copy)]
pub struct Policy {
    pub text: Decision,
    pub image: Decision,
    /// For each special sort of text by its number.
    pub special: [Decision; 256],
}

impl Policy {
    /// The decision on items of `kind`.
    pub open spec fn on(self, kind: Kind) -> Decision {
        match kind {
            Kind::Text => self.text,
            Kind::Image => self.image,
            Kind::Special(sort) => self.special[sort as int],
        }
    }

    /// The decision on items of `kind`.
    pub fn decide(&self, kind: Kind) -> (r: Decision)
        ensures
            r == self.on(kind),
    {
        match kind {
            Kind::Text => self.text,
            Kind::Image => self.image,
            Kind::Special(sort) => self.special[sort as usize],
        }
    }
}

/// A clipboard item as it travels. An empty payload announces a transfer in
/// chunks.
#[derive(Debug)]
pub struct ClipboardItem {
    pub lamport: u64,
    pub hash: Id,
    pub kind: Kind,
    pub payload: Vec<u8>,
    pub sensitive: bool,
    pub wall_time_ms: u64,
    /// The device on which the item was copied.
    pub origin: Id,
    /// The origin's own counter of its items.
    pub event_seq: u64,
}

/// View of a [`ClipboardItem`].
#[verifier::ext_equal]
pub ghost struct ItemView {
    pub lamport: u64,
    pub hash: Id,
    pub kind: Kind,
    pub payload: Seq<u8>,
    pub sensitive: bool,
    pub wall_time_ms: u64,
    pub origin: Id,
    pub event_seq: u64,
}

impl View for ClipboardItem {
    type V = ItemView;

    open spec fn view(&self) -> ItemView {
        ItemView {
            lamport: self.lamport,
            hash: self.hash,
            kind: self.kind,
            payload: self.payload@,
            sensitive: self.sensitive,
            wall_time_ms: self.wall_time_ms,
            origin: self.origin,
            event_seq: self.event_seq,
        }
    }
}

/// One piece of a payload that does not fit one datagram.
#[derive(Debug)]
pub struct Chunk {
    pub item_id: Id,
    pub idx: u16,
    pub total: u16,
    pub data: Vec<u8>,
}

/// View of a [`Chunk`].
#[verifier::ext_equal]
pub ghost struct ChunkView {
    pub item_id: Id,
    pub idx: u16,
    pub total: u16,
    pub data: Seq<u8>,
}

impl View for Chunk {
    type V = ChunkView;

    open spec fn view(&self) -> ChunkView {
        ChunkView { item_id: self.item_id, idx: self.idx, total: self.total, data: self.data@ }
    }
}

/// A request for the pieces of a transfer that have not arrived.
#[derive(Debug)]
pub struct Nak {
    pub item_id: Id,
    pub want_header: bool,
    pub missing: Vec<u16>,
}

/// View of a [`Nak`].
#[verifier::ext_equal]
pub ghost struct NakView {
    pub item_id: Id,
    pub want_header: bool,
    pub missing: Seq<u16>,
}

impl View for Nak {
    type V = NakView;

    open spec fn view(&self) -> NakView {
        NakView { item_id: self.item_id, want_header: self.want_header, missing: self.missing@ }
    }
}

/// What a peer says of itself when a session starts. `caps` holds the
/// capabilities that both sides know.
#[derive(Debug)]
pub struct Hello {
    pub name: String,
    pub platform: String,
    pub caps: Vec<String>,
}

/// View of a [`Hello`].
#[verifier::ext_equal]
pub ghost struct HelloView {
    pub name: Seq<char>,
    pub platform: Seq<char>,
    pub caps: Seq<Seq<char>>,
}

impl View for Hello {
    type V = HelloView;

    open spec fn view(&self) -> HelloView {
        HelloView { name: self.name@, platform: self.platform@, caps: views(self.caps@) }
    }
}

/// A message of the peer protocol.
#[derive(Debug)]
pub enum Msg {
    ClipboardItem(ClipboardItem),
    Chunk(Chunk),
    BatteryStatus { level: u8, charging: bool },
    Heartbeat,
    Ack { hash: Id },
    Nak(Nak),
    Bye,
    Revoke,
    HandshakeInit,
    HandshakeResp,
    Hello(Hello),
    ResyncOffer { hashes: Vec<String> },
    ResyncPull { hashes: Vec<String> },
    PairConfirm { accept: bool },
    PairVerifyStarted,
}

/// View of a [`Msg`].
#[verifier::ext_equal]
pub ghost enum MsgView {
    ClipboardItem(ItemView),
    Chunk(ChunkView),
    BatteryStatus { level: u8, charging: bool },
    Heartbeat,
    Ack { hash: Id },
    Nak(NakView),
    Bye,
    Revoke,
    HandshakeInit,
    HandshakeResp,
    Hello(HelloView),
    ResyncOffer { hashes: Seq<Seq<char>> },
    ResyncPull { hashes: Seq<Seq<char>> },
    PairConfirm { accept: bool },
    PairVerifyStarted,
}

impl View for Msg {
    type V = MsgView;

    open spec fn view(&self) -> MsgView {
        match *self {
            Msg::ClipboardItem(i) => MsgView::ClipboardItem(i@),
            Msg::Chunk(c) => MsgView::Chunk(c@),
            Msg::BatteryStatus { level, charging } => MsgView::BatteryStatus { level, charging },
            Msg::Heartbeat => MsgView::Heartbeat,
            Msg::Ack { hash } => MsgView::Ack { hash },
            Msg::Nak(n) => MsgView::Nak(n@),
            Msg::Bye => MsgView::Bye,
            Msg::Revoke => MsgView::Revoke,
            Msg::HandshakeInit => MsgView::HandshakeInit,
            Msg::HandshakeResp => MsgView::HandshakeResp,
            Msg::Hello(h) => MsgView::Hello(h@),
            Msg::ResyncOffer { hashes } => MsgView::ResyncOffer { hashes: views(hashes@) },
            Msg::ResyncPull { hashes } => MsgView::ResyncPull { hashes: views(hashes@) },
            Msg::PairConfirm { accept } => MsgView::PairConfirm { accept },
            Msg::PairVerifyStarted => MsgView::PairVerifyStarted,
        }
    }
}

/// What happened, for the daemon's state machine.
#[derive(Debug)]
pub enum Event {
    /// The primary peer's link is gone.
    PeerLost { peer_id: Id },
    PeerSeen { peer_id: Id, name: String },
    PeerPlatform { platform: String },
    PeerCaps { caps: Vec<String> },
    /// The list of linked peers, or what is known of one, changed.
    MeshPeersChanged,
    BatteryChangedPeer { level: u8, charging: bool },
    BatteryChangedSelf { level: u8, charging: bool },
    /// An item arrived from the peer.
    FrameReceivedClipboard {
        item: ClipboardItem,
        preview: String,
        /// The item was asked for to catch up, not copied just now.
        resync: bool,
        peer_id: Id,
    },
    SasPairingStarted { peer_id: Id },
    SasLocalConfirmed { peer_id: Id },
    SasPeerConfirmed { peer_id: Id },
    SasPeerRejected { peer_id: Id },
    SasReset,
    /// A secondary peer takes the place of the lost primary.
    PrimaryFailover { peer_id: Id, name: String, platform: String, caps: Vec<String> },
    /// Trust in the peer is gone.
    PeerRevoked { peer_id: Id },
    HandshakeOk,
    GhostTimeout,
    SetFavorite { hash: String, favorite: bool },
    ClearHistory { include_favorites: bool },
    /// The user switched the synchronisation on.
    ToggleOn,
    ToggleOff,
    /// The user ended the pairing with every peer.
    ManualUnpair,
    /// A peer that is trusted from the start, to be named.
    SetTrustedPeer { name: String },
}

/// View of an [`Event`].
#[verifier::ext_equal]
pub ghost enum EventView {
    PeerLost { peer_id: Id },
    PeerSeen { peer_id: Id, name: Seq<char> },
    PeerPlatform { platform: Seq<char> },
    PeerCaps { caps: Seq<Seq<char>> },
    MeshPeersChanged,
    BatteryChangedPeer { level: u8, charging: bool },
    BatteryChangedSelf { level: u8, charging: bool },
    FrameReceivedClipboard { item: ItemView, preview: Seq<char>, resync: bool, peer_id: Id },
    SasPairingStarted { peer_id: Id },
    SasLocalConfirmed { peer_id: Id },
    SasPeerConfirmed { peer_id: Id },
    SasPeerRejected { peer_id: Id },
    SasReset,
    PrimaryFailover { peer_id: Id, name: Seq<char>, platform: Seq<char>, caps: Seq<Seq<char>> },
    PeerRevoked { peer_id: Id },
    HandshakeOk,
    GhostTimeout,
    SetFavorite { hash: Seq<char>, favorite: bool },
    ClearHistory { include_favorites: bool },
    ToggleOn,
    ToggleOff,
    ManualUnpair,
    SetTrustedPeer { name: Seq<char> },
}

impl View for Event {
    type V = EventView;

    open spec fn view(&self) -> EventView {
        match *self {
            Event::PeerLost { peer_id } => EventView::PeerLost { peer_id },
            Event::PeerSeen { peer_id, name } => EventView::PeerSeen { peer_id, name: name@ },
            Event::PeerPlatform { platform } => EventView::PeerPlatform { platform: platform@ },
            Event::PeerCaps { caps } => EventView::PeerCaps { caps: views(caps@) },
            Event::MeshPeersChanged => EventView::MeshPeersChanged,
            Event::BatteryChangedPeer { level, charging } => EventView::BatteryChangedPeer {
                level,
                charging,
            },
            Event::BatteryChangedSelf { level, charging } => EventView::BatteryChangedSelf {
                level,
                charging,
            },
            Event::FrameReceivedClipboard { item, preview, resync, peer_id } =>
                EventView::FrameReceivedClipboard {
                item: item@,
                preview: preview@,
                resync,
                peer_id,
            },
            Event::SasPairingStarted { peer_id } => EventView::SasPairingStarted { peer_id },
            Event::SasLocalConfirmed { peer_id } => EventView::SasLocalConfirmed { peer_id },
            Event::SasPeerConfirmed { peer_id } => EventView::SasPeerConfirmed { peer_id },
            Event::SasPeerRejected { peer_id } => EventView::SasPeerRejected { peer_id },
            Event::SasReset => EventView::SasReset,
            Event::PrimaryFailover { peer_id, name, platform, caps } =>
                EventView::PrimaryFailover {
                peer_id,
                name: name@,
                platform: platform@,
                caps: views(caps@),
            },
            Event::PeerRevoked { peer_id } => EventView::PeerRevoked { peer_id },
            Event::HandshakeOk => EventView::HandshakeOk,
            Event::GhostTimeout => EventView::GhostTimeout,
            Event::SetFavorite { hash, favorite } => EventView::SetFavorite { hash: hash@, favorite },
            Event::ClearHistory { include_favorites } => EventView::ClearHistory { include_favorites },
            Event::ToggleOn => EventView::ToggleOn,
            Event::ToggleOff => EventView::ToggleOff,
            Event::ManualUnpair => EventView::ManualUnpair,
            Event::SetTrustedPeer { name } => EventView::SetTrustedPeer { name: name@ },
        }
    }
}

/// What the state machine wants done.
#[derive(Debug)]
pub enum Action {
    /// Publish the state to the clients.
    EmitState,
    EmitLog { level: u8, text: String },
    /// Send an item that was copied on this device.
    SendItem { hash: Id, kind: Kind, payload: Vec<u8>, sensitive: bool },
    AckItem { hash: Id },
    DuplicateDropped,
    ResyncApplySuppressed,
    /// Items that waited for the user's decision were dropped.
    PendingDropped { hashes: Vec<Id> },
    WriteClipboard { kind: Kind, payload: Vec<u8>, sensitive: bool },
    OpenSession,
    CloseSession,
    SendBattery { level: u8, charging: bool },
    DropPeer,
    SendHandshake,
    StartDiscovery,
    StopDiscovery,
    BurstReplay,
}

/// View of an [`Action`].
#[verifier::ext_equal]
pub ghost enum ActionView {
    EmitState,
    EmitLog { level: u8, text: Seq<char> },
    SendItem { hash: Id, kind: Kind, payload: Seq<u8>, sensitive: bool },
    AckItem { hash: Id },
    DuplicateDropped,
    ResyncApplySuppressed,
    PendingDropped { hashes: Seq<Id> },
    WriteClipboard { kind: Kind, payload: Seq<u8>, sensitive: bool },
    OpenSession,
    CloseSession,
    SendBattery { level: u8, charging: bool },
    DropPeer,
    SendHandshake,
    StartDiscovery,
    StopDiscovery,
    BurstReplay,
}

impl View for Action {
    type V = ActionView;

    open spec fn view(&self) -> ActionView {
        match *self {
            Action::EmitState => ActionView::EmitState,
            Action::EmitLog { level, text } => ActionView::EmitLog { level, text: text@ },
            Action::SendItem { hash, kind, payload, sensitive } => ActionView::SendItem {
                hash,
                kind,
                payload: payload@,
                sensitive,
            },
            Action::AckItem { hash } => ActionView::AckItem { hash },
            Action::DuplicateDropped => ActionView::DuplicateDropped,
            Action::ResyncApplySuppressed => ActionView::ResyncApplySuppressed,
            Action::PendingDropped { hashes } => ActionView::PendingDropped { hashes: hashes@ },
            Action::WriteClipboard { kind, payload, sensitive } => ActionView::WriteClipboard {
                kind,
                payload: payload@,
                sensitive,
            },
            Action::OpenSession => ActionView::OpenSession,
            Action::CloseSession => ActionView::CloseSession,
            Action::SendBattery { level, charging } => ActionView::SendBattery { level, charging },
            Action::DropPeer => ActionView::DropPeer,
            Action::SendHandshake => ActionView::SendHandshake,
            Action::StartDiscovery => ActionView::StartDiscovery,
            Action::StopDiscovery => ActionView::StopDiscovery,
            Action::BurstReplay => ActionView::BurstReplay,
        }
    }
}

/// What a counter of the daemon's metrics counts.
#[derive(Debug, Clone, Copy, PartialEq, Eq, Structural)]
pub enum Metric {
    HeartbeatSent,
    HeartbeatReceived,
    HeartbeatMissed,
    AckReceived,
    ItemSent,
    ItemReceived,
    ItemResynced,
    DedupDrop,
    ResyncApplySuppressed,
    HandshakeStart,
    HandshakeOk,
    HandshakeFail,
    DisconnectTimeout,
}

/// The firewall decides by what an item is.
pub proof fn firewall_decides_by_kind(p: Policy, sort: u8)
    ensures
        p.on(Kind::Text) == p.text,
        p.on(Kind::Image) == p.image,
        p.on(Kind::Special(sort)) == p.special[sort as int],
{
}

} // verus!
