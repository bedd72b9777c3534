//! What the rules ask of the daemon around them.
use vstd::prelude::*;

use crate::driver::peers::{PeerInfo, PeerInfoView};
use crate::driver::resync::{OutboxEntry, OutboxView};
use crate::ids::Id;
use crate::net::SocketAddr;
use crate::wire::{
    opt_view, views, ClipboardItem, Event, EventView, ItemView, Kind, Metric, Msg, MsgView,
};

verus! {

/// Something to be done, in the order in which it is listed.
pub enum Effect {
    /// Tell the state machine.
    Emit(Event),
    /// Send a message to a peer.
    Send { to: Id, msg: Msg },
    /// Send encoded frames to a peer, with a short pause after every sixteenth.
    SendFrames { to: Id, frames: Vec<Vec<u8>> },
    /// End the peer's session; it may come back.
    EndSession { peer: Id },
    /// End the peer's session and forget its connection for good.
    PurgePeer { peer: Id },
    /// Store the trust store; a failure is only logged.
    SavePeers,
    /// Put a live secondary in the place of the lost primary, and report what
    /// came of it.
    FailOver { lost: Option<Id> },
    /// Count.
    Count(Metric),
    /// Look the item's origin and number up among those seen; on first sight take
    /// the item in, and remember it.
    Observe { item: ClipboardItem, source: Id, chunked: bool },
    /// Keep the item to be sent to peers that missed it.
    AdmitToOutbox { hash: Id, entry: OutboxEntry },
    /// Send the item on to the other linked peers; in chunks if `chunked`, else as
    /// it came.
    Relay { item: ClipboardItem, source: Id, chunked: bool },
    /// Send the item to the peer that asked for it.
    Serve { to: Id, item: ClipboardItem },
    /// Number an item that was copied here, cut it into frames, and send it out.
    FanOut { hash: Id, kind: Kind, payload: Vec<u8>, sensitive: bool },
    /// Send a message to the primary.
    SendPrimary { msg: Msg },
    /// End the primary's session.
    DropPrimary,
    /// Count the primary as heard just now.
    TouchPrimary,
    /// Publish the state with these peers to the clients.
    PublishState { peers: Vec<PeerInfo> },
    /// Log a line and publish it.
    Log { level: u8, text: String },
    /// Put an image on the system's clipboard.
    SetImage { width: u32, height: u32, rgba: Vec<u8> },
    /// Put a text on the system's clipboard.
    SetText { text: String },
    /// Let the state machine handle the event at once, and carry out what it wants.
    Handle(Event),
    /// Tell the state machine that the peer is gone for good, and go on with
    /// what it wants done.
    Retire { peer: Id },
    /// Carry out the publishing of the state.
    Announce,
    /// Take items out of those kept for peers that missed them.
    RemoveFromOutbox { hashes: Vec<Id> },
    /// Tell the state machine that this text was copied, and send out what it
    /// lets pass.
    CopiedText { hash: Id, text: String },
    /// Tell the state machine that this image was copied, and send out what it
    /// lets pass.
    CopiedImage { hash: Id, png: Vec<u8>, preview: String, sensitive: bool },
    /// Try the addresses in order for a handshake with the peer; with `verify` its
    /// user has to confirm it.
    Dial { peer: Id, key: Id, addrs: Vec<SocketAddr>, name: String, verify: bool },
    /// Show a pairing code on the network, or none.
    PublishPin { pin: Option<String> },
    /// Start to watch over the pairing code.
    WatchPin,
    SaveDeviceName,
    SaveFirewall,
    Shutdown,
    /// Note that the peer is at this address.
    SetPeerInfo { peer: Id, addr: SocketAddr },
    /// Store where the peer was reached.
    RememberAddr { peer: Id, addr: SocketAddr },
    /// Send the answer to the handshake that came from here.
    AnswerHandshake { addr: SocketAddr },
    /// Forget every item kept for peers that missed it.
    ClearOutbox,
    /// Delete the stored history.
    ClearVault,
}

/// View of an [`Effect`].
#[verifier::ext_equal]
pub ghost enum EffectView {
    Emit(EventView),
    Send { to: Id, msg: MsgView },
    SendFrames { to: Id, frames: Seq<Seq<u8>> },
    EndSession { peer: Id },
    PurgePeer { peer: Id },
    SavePeers,
    FailOver { lost: Option<Id> },
    Count(Metric),
    Observe { item: ItemView, source: Id, chunked: bool },
    AdmitToOutbox { hash: Id, entry: OutboxView },
    Relay { item: ItemView, source: Id, chunked: bool },
    Serve { to: Id, item: ItemView },
    FanOut { hash: Id, kind: Kind, payload: Seq<u8>, sensitive: bool },
    SendPrimary { msg: MsgView },
    DropPrimary,
    TouchPrimary,
    PublishState { peers: Seq<PeerInfoView> },
    Log { level: u8, text: Seq<char> },
    SetImage { width: u32, height: u32, rgba: Seq<u8> },
    SetText { text: Seq<char> },
    Handle(EventView),
    Retire { peer: Id },
    Announce,
    RemoveFromOutbox { hashes: Seq<Id> },
    CopiedText { hash: Id, text: Seq<char> },
    CopiedImage { hash: Id, png: Seq<u8>, preview: Seq<char>, sensitive: bool },
    Dial { peer: Id, key: Id, addrs: Seq<SocketAddr>, name: Seq<char>, verify: bool },
    PublishPin { pin: Option<Seq<char>> },
    WatchPin,
    SaveDeviceName,
    SaveFirewall,
    Shutdown,
    SetPeerInfo { peer: Id, addr: SocketAddr },
    RememberAddr { peer: Id, addr: SocketAddr },
    AnswerHandshake { addr: SocketAddr },
    ClearOutbox,
    ClearVault,
}

impl View for Effect {
    type V = EffectView;

    open spec fn view(&self) -> EffectView {
        match *self {
            Effect::Emit(e) => EffectView::Emit(e@),
            Effect::Send { to, msg } => EffectView::Send { to, msg: msg@ },
            Effect::SendFrames { to, frames } => EffectView::SendFrames { to, frames: views(frames@) },
            Effect::EndSession { peer } => EffectView::EndSession { peer },
            Effect::PurgePeer { peer } => EffectView::PurgePeer { peer },
            Effect::SavePeers => EffectView::SavePeers,
            Effect::FailOver { lost } => EffectView::FailOver { lost },
            Effect::Count(m) => EffectView::Count(m),
            Effect::Observe { item, source, chunked } => EffectView::Observe {
                item: item@,
                source,
                chunked,
            },
            Effect::AdmitToOutbox { hash, entry } => EffectView::AdmitToOutbox { hash, entry: entry@ },
            Effect::Relay { item, source, chunked } => EffectView::Relay { item: item@, source, chunked },
            Effect::Serve { to, item } => EffectView::Serve { to, item: item@ },
            Effect::FanOut { hash, kind, payload, sensitive } => EffectView::FanOut {
                hash,
                kind,
                payload: payload@,
                sensitive,
            },
            Effect::SendPrimary { msg } => EffectView::SendPrimary { msg: msg@ },
            Effect::DropPrimary => EffectView::DropPrimary,
            Effect::TouchPrimary => EffectView::TouchPrimary,
            Effect::PublishState { peers } => EffectView::PublishState { peers: views(peers@) },
            Effect::Log { level, text } => EffectView::Log { level, text: text@ },
            Effect::SetImage { width, height, rgba } => EffectView::SetImage {
                width,
                height,
                rgba: rgba@,
            },
            Effect::SetText { text } => EffectView::SetText { text: text@ },
            Effect::Handle(e) => EffectView::Handle(e@),
            Effect::Retire { peer } => EffectView::Retire { peer },
            Effect::Announce => EffectView::Announce,
            Effect::RemoveFromOutbox { hashes } => EffectView::RemoveFromOutbox { hashes: hashes@ },
            Effect::CopiedText { hash, text } => EffectView::CopiedText { hash, text: text@ },
            Effect::CopiedImage { hash, png, preview, sensitive } => EffectView::CopiedImage {
                hash,
                png: png@,
                preview: preview@,
                sensitive,
            },
            Effect::Dial { peer, key, addrs, name, verify } => EffectView::Dial {
                peer,
                key,
                addrs: addrs@,
                name: name@,
                verify,
            },
            Effect::PublishPin { pin } => EffectView::PublishPin { pin: opt_view(pin) },
            Effect::WatchPin => EffectView::WatchPin,
            Effect::SaveDeviceName => EffectView::SaveDeviceName,
            Effect::SaveFirewall => EffectView::SaveFirewall,
            Effect::Shutdown => EffectView::Shutdown,
            Effect::SetPeerInfo { peer, addr } => EffectView::SetPeerInfo { peer, addr },
            Effect::RememberAddr { peer, addr } => EffectView::RememberAddr { peer, addr },
            Effect::AnswerHandshake { addr } => EffectView::AnswerHandshake { addr },
            Effect::ClearOutbox => EffectView::ClearOutbox,
            Effect::ClearVault => EffectView::ClearVault,
        }
    }
}

} // verus!
