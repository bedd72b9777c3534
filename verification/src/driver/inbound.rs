//! What a message from a peer does.
use vstd::prelude::*;
use vstd::string::*;
use vstd::utf8::encode_utf8;

use crate::backoff::{after_session, peer_session_ended, state_of};
use crate::clock::{elapsed, elapsed_since, LAST_INSTANT};
use crate::driver::content::{
    content_hash, encoded_text_is_shown, label, names, preview_label, verify_content_hash,
};
use crate::driver::effects::{Effect, EffectView};
use crate::driver::inflight::{
    acknowledge, acknowledged, acknowledgement_settles_its_sender, answer_nak, copy_bytes,
    nak_frames, progressed,
};
use crate::driver::node::{confirmed, is_confirmed, Node, NodeView};
use crate::driver::peers::{
    copy_texts, has_cap, is_id, may_resync, meta_of, peer_has_cap, resync_authorized, same_texts,
    shared, shared_caps, shared_means_on_both_sides, take_meta, PeerMetaView, CAP_RESYNC, CAP_SAS_CONFIRM, CAP_VERIFY_RESTART,
};
use crate::driver::reassembly::{
    chunk_count, chunk_joins_its_transfer, complete, header_joins_its_transfer, holds_part,
    item_frames, on_chunk, on_header, sane_total, settled, transfer_ends_when_it_is_whole,
    transfer_key, transfers_stay_within_cap, travels_in_chunks,
    whole_transfer_gives_the_item_back, with_chunk, with_header, MAX_REASSEMBLIES,
};
use crate::driver::resync::{
    at_most, build_resync_offer, cleared_hex_snapshot, fresh_pulls, hashes_in_flight,
    id_text_reads_back, id_texts, in_flight_pull_hashes, kept_item_is_served,
    missing_resync_hashes, note_pulls, pulls_taken, pulls_with, requests_are_remembered,
    requests_time_out, serve_pull, served, take_pending_pull, unwanted, NotOlder, OutboxEntry,
    OutboxView,
};
use crate::handshake::{
    add_pending, keyed_by_digest, live_pairs, pended, pending_stays_within_cap, room_made,
    PendingView, MAX_PENDING_PAIRS, PAIRING_WINDOW,
};
use crate::idmap::{kept, IdMap};
use crate::ids::{no_id, same_id, zero_id, Id};
use crate::net::SocketAddr;
use crate::text::same_text;
use crate::wire::{
    opt_view, views, Chunk, ChunkView, ClipboardItem, Decision, Event, EventView, Hello, HelloView,
    ItemView, Kind, Metric, Msg, MsgView, Nak, NakView, Policy,
};

verus! {

/// What the rules need to know of the link and of the daemon when a message
/// arrives.
pub struct Link {
    pub now: u64,
    /// The primary's current or most recent peer.
    pub primary: Option<Id>,
    /// The peers with a session.
    pub linked: Vec<Id>,
    /// Since when the primary's session has been up.
    pub primary_since: u64,
    /// Since when the sender's session has been up, if it has one.
    pub sender_since: Option<u64>,
    /// The sender's address.
    pub sender_addr: Option<SocketAddr>,
    /// The words that the sender's session gives to compare.
    pub sas_words: Option<[String; 6]>,
    /// The peer whose pairing is being verified.
    pub sas_peer: Option<Id>,
    /// How far that verification is.
    pub sas_phase: String,
    /// Hashes of the history's items.
    pub history_hashes: Vec<String>,
    /// Hashes of the items at hand, newest first.
    pub outbox_hashes: Vec<Id>,
    /// The items at hand.
    pub held: IdMap<OutboxEntry>,
    /// What the firewall lets out.
    pub outbound: Policy,
    /// Most chunks of a transfer.
    pub max_chunks: u16,
    /// Most hashes of a catch-up message.
    pub max_resync_hashes: usize,
    /// How long items are kept to be sent again.
    pub outbox_max_age: u64,
    /// What this device is capable of.
    pub own_caps: Vec<String>,
}

/// The sender's pairing is being verified.
pub open spec fn in_sas_flow(l: Link, peer: Id) -> bool {
    &&& l.sas_peer == Some(peer)
    &&& live_phase(l.sas_phase@)
}

/// A phase in which a verification goes on or has just succeeded.
pub open spec fn live_phase(phase: Seq<char>) -> bool {
    phase == "showing"@ || phase == "local_confirmed"@ || phase == "peer_confirmed"@ || phase
        == "confirmed"@
}

fn sas_flow_live(link: &Link, peer: &Id) -> (r: bool)
    ensures
        r == in_sas_flow(*link, *peer),
{
    let p = link.sas_phase.as_str();
    is_id(link.sas_peer, peer) && (same_text(p, "showing") || same_text(p, "local_confirmed")
        || same_text(p, "peer_confirmed") || same_text(p, "confirmed"))
}

/// A message that carries clipboard content, or leads to some.
pub open spec fn carries_clipboard(msg: MsgView) -> bool {
    msg is ClipboardItem || msg is Chunk || msg is ResyncOffer || msg is ResyncPull
}

/// What an item that arrived whole brings about: nothing where it is not `genuine`;
/// else an acknowledgement, and a look whether it is new.
pub open spec fn reception(item: ItemView, genuine: bool, peer: Id, chunked: bool) -> Seq<EffectView> {
    if genuine {
        seq![
            EffectView::Send { to: peer, msg: MsgView::Ack { hash: item.hash } },
            EffectView::Observe { item, source: peer, chunked },
        ]
    } else {
        Seq::empty()
    }
}

/// Takes in an item that arrived whole; it is `genuine` where its hash is that of
/// its content.
pub fn receive_item(item: ClipboardItem, genuine: bool, peer: Id, chunked: bool) -> (out: Vec<Effect>)
    ensures
        views(out@) == reception(item@, genuine, peer, chunked),
{
    let ghost i = item@;
    let mut out: Vec<Effect> = Vec::new();
    if genuine {
        out.push(Effect::Send { to: peer, msg: Msg::Ack { hash: item.hash } });
        out.push(Effect::Observe { item, source: peer, chunked });
    }
    assert(views(out@) =~= reception(i, genuine, peer, chunked));
    out
}

/// What an item that may have arrived whole brings about.
pub open spec fn arrival(item: Option<ItemView>, peer: Id, chunked: bool) -> Seq<EffectView> {
    match item {
        Some(i) => reception(i, content_hash(i.kind, i.payload) == Some(i.hash), peer, chunked),
        None => Seq::empty(),
    }
}

fn arrived(item: Option<ClipboardItem>, peer: Id, chunked: bool) -> (r: Vec<Effect>)
    ensures
        views(r@) == arrival(opt_view(item), peer, chunked),
{
    match item {
        Some(i) => {
            let genuine = verify_content_hash(i.kind, i.payload.as_slice(), i.hash);
            receive_item(i, genuine, peer, chunked)
        },
        None => {
            let none: Vec<Effect> = Vec::new();
            assert(views(none@) =~= Seq::empty());
            none
        },
    }
}

/// What an item, or the header of a transfer, does.
pub open spec fn item_step(
    n: NodeView,
    now: u64,
    peer: Id,
    item: ItemView,
    after: NodeView,
    out: Seq<EffectView>,
) -> bool {
    if item.payload.len() == 0 {
        exists|done: Option<ItemView>|
            {
                &&& settled(
                    n.reassembly,
                    transfer_key(peer, item.hash),
                    with_header(
                        n.reassembly,
                        transfer_key(peer, item.hash),
                        peer,
                        item,
                        now,
                    ),
                    item.hash,
                    after.reassembly,
                    done,
                )
                &&& out == #[trigger] arrival(done, peer, true)
                &&& after == (NodeView { reassembly: after.reassembly, ..n })
            }
    } else {
        after == n && out == arrival(Some(item), peer, false)
    }
}

fn on_item(node: &mut Node, now: u64, peer: Id, item: ClipboardItem) -> (out: Vec<Effect>)
    ensures
        item_step(old(node)@, now, peer, item@, final(node)@, views(out@)),
{
    if item.payload.len() == 0 {
        let done = on_header(&mut node.reassembly, peer, &item, now);
        let ghost seen = opt_view(done);
        let out = arrived(done, peer, true);
        assert(views(out@) == arrival(seen, peer, true));
        out
    } else {
        arrived(Some(item), peer, false)
    }
}

/// What a chunk does.
pub open spec fn chunk_step(
    n: NodeView,
    now: u64,
    max_chunks: u16,
    peer: Id,
    c: ChunkView,
    after: NodeView,
    out: Seq<EffectView>,
) -> bool {
    if sane_total(c.total, max_chunks) {
        exists|done: Option<ItemView>|
            {
                &&& settled(
                    n.reassembly,
                    transfer_key(peer, c.item_id),
                    with_chunk(
                        n.reassembly,
                        transfer_key(peer, c.item_id),
                        peer,
                        c,
                        now,
                    ),
                    c.item_id,
                    after.reassembly,
                    done,
                )
                &&& out == #[trigger] arrival(done, peer, true)
                &&& after == (NodeView { reassembly: after.reassembly, ..n })
            }
    } else {
        after == n && out == Seq::<EffectView>::empty()
    }
}

fn on_chunk_msg(node: &mut Node, now: u64, max_chunks: u16, peer: Id, c: Chunk) -> (out: Vec<Effect>)
    ensures
        chunk_step(old(node)@, now, max_chunks, peer, c@, final(node)@, views(out@)),
{
    let ghost total = c.total;
    let done = on_chunk(&mut node.reassembly, peer, c, max_chunks, now);
    let ghost seen = opt_view(done);
    let out = arrived(done, peer, true);
    assert(views(out@) == arrival(seen, peer, true));
    out
}

/// What is remembered of an item that comes in.
pub open spec fn inbound_entry(item: ItemView, now: u64) -> OutboxView {
    OutboxView {
        payload: item.payload,
        kind: item.kind,
        origin: item.origin,
        seq: item.event_seq,
        created: now,
    }
}

/// The firewall says of an item that comes in; sensitive ones it lets through.
pub open spec fn inbound_decision(item: ItemView, inbound: Policy) -> Option<Decision> {
    if item.sensitive {
        None
    } else {
        Some(inbound.on(item.kind))
    }
}

/// The memory after an item was seen for the first time.
pub open spec fn first_sight_node(
    n: NodeView,
    item: ItemView,
    source: Id,
    inbound: Policy,
    now: u64,
) -> NodeView {
    NodeView {
        stage: if inbound_decision(item, inbound) == Some(Decision::Defer) && !n.stage.contains_key(
            item.hash,
        ) {
            n.stage.insert(item.hash, inbound_entry(item, now))
        } else {
            n.stage
        },
        pulls: pulls_taken(n.pulls, source, item.hash, now),
        ..n
    }
}

/// What the first sight of an item brings about: it is kept where the firewall
/// lets it pass, sent on unless the firewall blocks it, and handed to the state
/// machine. Sensitive items are sent on and never kept.
pub open spec fn first_sight_effects(
    n: NodeView,
    item: ItemView,
    source: Id,
    chunked: bool,
    inbound: Policy,
    now: u64,
) -> Seq<EffectView> {
    let decision = inbound_decision(item, inbound);
    let kept_copy = if decision == Some(Decision::Pass) {
        seq![EffectView::AdmitToOutbox { hash: item.hash, entry: inbound_entry(item, now) }]
    } else {
        Seq::empty()
    };
    let relay = if decision == Some(Decision::Block) {
        Seq::empty()
    } else {
        seq![EffectView::Relay { item, source, chunked }]
    };
    kept_copy + relay + seq![
        EffectView::Emit(
            EventView::FrameReceivedClipboard {
                item,
                preview: label(item.kind, item.payload),
                resync: n.pulls.contains_key(source) && fresh_pulls(
                    n.pulls[source],
                    now,
                ).contains_key(item.hash),
                peer_id: source,
            },
        ),
    ]
}

fn copy_item(item: &ClipboardItem) -> (r: ClipboardItem)
    ensures
        r@ == item@,
{
    let r = ClipboardItem {
        lamport: item.lamport,
        hash: item.hash,
        kind: item.kind,
        payload: copy_bytes(item.payload.as_slice()),
        sensitive: item.sensitive,
        wall_time_ms: item.wall_time_ms,
        origin: item.origin,
        event_seq: item.event_seq,
    };
    assert(r@ =~= item@);
    r
}

fn entry_of(item: &ClipboardItem, now: u64) -> (r: OutboxEntry)
    ensures
        r@ == inbound_entry(item@, now),
{
    OutboxEntry {
        payload: copy_bytes(item.payload.as_slice()),
        kind: item.kind,
        origin: item.origin,
        seq: item.event_seq,
        created: now,
    }
}

/// Takes in an item that was seen for the first time.
pub fn complete_reassembled_item(
    node: &mut Node,
    item: ClipboardItem,
    source: Id,
    chunked: bool,
    inbound: Policy,
    now: u64,
) -> (out: Vec<Effect>)
    ensures
        final(node)@ == first_sight_node(old(node)@, item@, source, inbound, now),
        views(out@) == first_sight_effects(old(node)@, item@, source, chunked, inbound, now),
{
    let ghost n = node@;
    let mut out: Vec<Effect> = Vec::new();
    let mut relay = true;
    if !item.sensitive {
        match inbound.decide(item.kind) {
            Decision::Pass => {
                out.push(Effect::AdmitToOutbox { hash: item.hash, entry: entry_of(&item, now) });
            },
            Decision::Defer => {
                if !node.stage.contains_key(&item.hash) {
                    node.stage.insert(item.hash, entry_of(&item, now));
                }
            },
            Decision::Block => {
                relay = false;
            },
        }
    }
    if relay {
        out.push(Effect::Relay { item: copy_item(&item), source, chunked });
    }
    let preview = preview_label(item.kind, item.payload.as_slice());
    let resync = take_pending_pull(&mut node.pulls, source, item.hash, now);
    out.push(Effect::Emit(Event::FrameReceivedClipboard { item, preview, resync, peer_id: source }));
    assert(views(out@) =~= first_sight_effects(n, item@, source, chunked, inbound, now));
    assert(node@ =~= first_sight_node(n, item@, source, inbound, now));
    out
}

/// The memory after a peer told its battery.
pub open spec fn battery_node(n: NodeView, peer: Id, level: u8, charging: bool) -> NodeView {
    NodeView {
        meta: n.meta.insert(
            peer,
            PeerMetaView { battery: level, charging, ..meta_of(n.meta, peer) },
        ),
        ..n
    }
}

/// What a peer's battery brings about: only the primary's concerns the state machine.
pub open spec fn battery_effects(
    n: NodeView,
    primary: Option<Id>,
    peer: Id,
    level: u8,
    charging: bool,
) -> Seq<EffectView> {
    let m = meta_of(n.meta, peer);
    let changed = if m.battery != level || m.charging != charging {
        seq![EffectView::Emit(EventView::MeshPeersChanged)]
    } else {
        Seq::empty()
    };
    let own = if primary == Some(peer) {
        seq![EffectView::Emit(EventView::BatteryChangedPeer { level, charging })]
    } else {
        Seq::empty()
    };
    changed + own
}

fn on_battery(node: &mut Node, primary: Option<Id>, peer: Id, level: u8, charging: bool) -> (out: Vec<
    Effect,
>)
    ensures
        final(node)@ == battery_node(old(node)@, peer, level, charging),
        views(out@) == battery_effects(old(node)@, primary, peer, level, charging),
{
    let ghost n = node@;
    let mut out: Vec<Effect> = Vec::new();
    let mut m = take_meta(&mut node.meta, &peer);
    if m.battery != level || m.charging != charging {
        m.battery = level;
        m.charging = charging;
        out.push(Effect::Emit(Event::MeshPeersChanged));
    }
    node.meta.insert(peer, m);
    if is_id(primary, &peer) {
        out.push(Effect::Emit(Event::BatteryChangedPeer { level, charging }));
    }
    assert(node.meta@ =~= battery_node(n, peer, level, charging).meta);
    assert(node@ =~= battery_node(n, peer, level, charging));
    assert(views(out@) =~= battery_effects(n, primary, peer, level, charging));
    out
}

fn on_heartbeat(peer: Id) -> (out: Vec<Effect>)
    ensures
        views(out@) == heartbeat_effects(peer),
{
    let mut out: Vec<Effect> = Vec::new();
    out.push(Effect::Count(Metric::HeartbeatReceived));
    out.push(Effect::Send { to: peer, msg: Msg::Ack { hash: no_id() } });
    assert(views(out@) =~= heartbeat_effects(peer));
    out
}

/// A heartbeat is answered with an acknowledgement of no item.
pub open spec fn heartbeat_effects(peer: Id) -> Seq<EffectView> {
    seq![
        EffectView::Count(Metric::HeartbeatReceived),
        EffectView::Send { to: peer, msg: MsgView::Ack { hash: zero_id() } },
    ]
}

/// The memory after an acknowledgement; that of no item answers a heartbeat.
pub open spec fn ack_node(n: NodeView, peer: Id, hash: Id) -> NodeView {
    if hash == zero_id() {
        n
    } else {
        NodeView { inflight: acknowledged(n.inflight, hash, peer), ..n }
    }
}

fn on_ack(node: &mut Node, peer: Id, hash: Id) -> (out: Vec<Effect>)
    ensures
        final(node)@ == ack_node(old(node)@, peer, hash),
        views(out@) == seq![EffectView::Count(Metric::AckReceived)],
{
    let mut out: Vec<Effect> = Vec::new();
    out.push(Effect::Count(Metric::AckReceived));
    let none = no_id();
    if !same_id(&hash, &none) {
        acknowledge(&mut node.inflight, hash, peer);
    }
    assert(views(out@) =~= seq![EffectView::Count(Metric::AckReceived)]);
    out
}

/// The frames with which a request for missing ones is answered.
pub open spec fn nak_answer(n: NodeView, nak: NakView) -> Seq<Seq<u8>> {
    if n.inflight.contains_key(nak.item_id) {
        nak_frames(n.inflight[nak.item_id].frames, nak)
    } else {
        Seq::empty()
    }
}

/// The memory after a request for missing frames.
pub open spec fn nak_node(n: NodeView, now: u64, nak: NakView) -> NodeView {
    if nak_answer(n, nak).len() > 0 {
        NodeView { inflight: progressed(n.inflight, nak.item_id, now), ..n }
    } else {
        n
    }
}

/// What a request for missing frames brings about.
pub open spec fn nak_effects(n: NodeView, peer: Id, nak: NakView) -> Seq<EffectView> {
    if nak_answer(n, nak).len() > 0 {
        seq![EffectView::SendFrames { to: peer, frames: nak_answer(n, nak) }]
    } else {
        Seq::empty()
    }
}

fn on_nak(node: &mut Node, now: u64, peer: Id, nak: Nak) -> (out: Vec<Effect>)
    ensures
        final(node)@ == nak_node(old(node)@, now, nak@),
        views(out@) == nak_effects(old(node)@, peer, nak@),
{
    let ghost n = node@;
    let mut out: Vec<Effect> = Vec::new();
    let frames = answer_nak(&mut node.inflight, &nak, now);
    proof {
        assert(views(frames@) =~= nak_answer(n, nak@));
        assert(views(frames@).len() == frames@.len());
    }
    if frames.len() > 0 {
        out.push(Effect::SendFrames { to: peer, frames });
    }
    assert(views(out@) =~= nak_effects(n, peer, nak@));
    assert(node@ =~= nak_node(n, now, nak@));
    out
}

/// The backoff after the sender's session ended.
pub open spec fn bye_backoff(n: NodeView, l: Link, peer: Id) -> Map<Id, crate::backoff::PeerBackoff> {
    let since = if l.primary == Some(peer) {
        Some(l.primary_since)
    } else {
        l.sender_since
    };
    match since {
        Some(t) => n.backoff.insert(
            peer,
            after_session(state_of(n.backoff, peer), elapsed(t, l.now)),
        ),
        None => n.backoff,
    }
}

/// The memory after a peer said goodbye.
pub open spec fn bye_node(n: NodeView, l: Link, peer: Id) -> NodeView {
    NodeView {
        backoff: bye_backoff(n, l, peer),
        meta: n.meta.remove(peer),
        echo_acked: n.echo_acked.remove(peer),
        ..n
    }
}

/// What a goodbye brings about: the sender's session ends, and only the
/// primary's concerns the state machine.
pub open spec fn bye_effects(n: NodeView, l: Link, peer: Id) -> Seq<EffectView> {
    seq![EffectView::EndSession { peer }] + delisting(n, peer) + primary_loss(l.primary, peer)
}

/// A known peer leaves the list of peers.
pub open spec fn delisting(n: NodeView, peer: Id) -> Seq<EffectView> {
    if n.meta.contains_key(peer) {
        seq![EffectView::Emit(EventView::MeshPeersChanged)]
    } else {
        Seq::empty()
    }
}

/// The primary is to be replaced, if it is `peer` that is gone.
pub open spec fn primary_loss(primary: Option<Id>, peer: Id) -> Seq<EffectView> {
    if primary == Some(peer) {
        seq![EffectView::FailOver { lost: Some(peer) }]
    } else {
        Seq::empty()
    }
}

fn on_bye(node: &mut Node, link: &Link, peer: Id) -> (out: Vec<Effect>)
    ensures
        final(node)@ == bye_node(old(node)@, *link, peer),
        views(out@) == bye_effects(old(node)@, *link, peer),
{
    let ghost n = node@;
    let mut out: Vec<Effect> = Vec::new();
    let is_primary = is_id(link.primary, &peer);
    let since = if is_primary {
        Some(link.primary_since)
    } else {
        link.sender_since
    };
    if let Some(t) = since {
        peer_session_ended(&mut node.backoff, peer, elapsed_since(t, link.now));
    }
    out.push(Effect::EndSession { peer });
    if node.meta.remove(&peer).is_some() {
        out.push(Effect::Emit(Event::MeshPeersChanged));
    }
    let _ = node.echo_acked.remove(&peer);
    if is_primary {
        out.push(Effect::FailOver { lost: Some(peer) });
    }
    assert(views(out@) =~= bye_effects(n, *link, peer));
    assert(node@ =~= bye_node(n, *link, peer));
    out
}

/// The memory after trust in a peer ended, whoever ended it: nothing of it is left.
pub open spec fn forgotten(n: NodeView, peer: Id) -> NodeView {
    NodeView {
        trusted: n.trusted.remove(peer),
        discovered: n.discovered.remove(peer),
        backoff: n.backoff.remove(peer),
        pending: n.pending.remove(peer),
        deferred: n.deferred.remove(peer),
        echo_acked: n.echo_acked.remove(peer),
        meta: n.meta.remove(peer),
        ..n
    }
}

/// The trust store is stored if `peer` leaves it.
pub open spec fn withdrawal(n: NodeView, peer: Id) -> Seq<EffectView> {
    if n.trusted.contains_key(peer) {
        seq![EffectView::SavePeers]
    } else {
        Seq::empty()
    }
}

/// What a revocation by the peer brings about.
pub open spec fn revoke_effects(n: NodeView, primary: Option<Id>, peer: Id) -> Seq<EffectView> {
    let reset = if n.pending.contains_key(peer) {
        seq![EffectView::Emit(EventView::SasReset)]
    } else {
        Seq::empty()
    };
    withdrawal(n, peer) + reset + seq![EffectView::PurgePeer { peer }] + delisting(n, peer)
        + primary_loss(primary, peer)
}

fn on_revoke(node: &mut Node, primary: Option<Id>, peer: Id) -> (out: Vec<Effect>)
    ensures
        final(node)@ == forgotten(old(node)@, peer),
        views(out@) == revoke_effects(old(node)@, primary, peer),
{
    let ghost n = node@;
    let mut out: Vec<Effect> = Vec::new();
    let removed = node.trusted.remove(&peer);
    let _ = node.discovered.remove(&peer);
    let _ = node.backoff.remove(&peer);
    if removed.is_some() {
        out.push(Effect::SavePeers);
    }
    if node.pending.remove(&peer).is_some() {
        out.push(Effect::Emit(Event::SasReset));
    }
    let _ = node.deferred.remove(&peer);
    let _ = node.echo_acked.remove(&peer);
    out.push(Effect::PurgePeer { peer });
    if node.meta.remove(&peer).is_some() {
        out.push(Effect::Emit(Event::MeshPeersChanged));
    }
    if is_id(primary, &peer) {
        out.push(Effect::FailOver { lost: Some(peer) });
    }
    assert(views(out@) =~= revoke_effects(n, primary, peer));
    assert(node@ =~= forgotten(n, peer));
    out
}

/// A hello with the capabilities that this device has too.
pub open spec fn understood(l: Link, h: HelloView) -> HelloView {
    HelloView { caps: shared(views(l.own_caps@), h.caps), ..h }
}

/// What is known of a peer after its hello, but for whether it was told that its
/// pairing waits for confirmation.
pub open spec fn greeted(m: PeerMetaView, h: HelloView) -> PeerMetaView {
    PeerMetaView {
        name: h.name,
        platform: if h.platform.len() > 0 {
            h.platform
        } else {
            m.platform
        },
        caps: h.caps,
        hello_seen: true,
        ..m
    }
}

/// The peer is to be told that its pairing waits for confirmation here: it does,
/// the peer understands that, and was not told in this session.
pub open spec fn announces_verify(n: NodeView, peer: Id, h: HelloView) -> bool {
    &&& n.pending.contains_key(peer)
    &&& h.caps.contains(CAP_VERIFY_RESTART@)
    &&& !meta_of(n.meta, peer).verify_restart_sent
}

/// The memory after a peer's hello.
pub open spec fn hello_node(n: NodeView, peer: Id, h: HelloView) -> NodeView {
    let m = greeted(meta_of(n.meta, peer), h);
    NodeView {
        meta: n.meta.insert(
            peer,
            PeerMetaView {
                verify_restart_sent: m.verify_restart_sent || announces_verify(n, peer, h),
                ..m
            },
        ),
        deferred: n.deferred.remove(peer),
        ..n
    }
}

/// What a hello says about a pairing under way: a peer that knows of mutual
/// confirmation gets the confirmation that was held back, unless a new pairing
/// waits; one that does not counts as having confirmed.
pub open spec fn hello_confirmation(n: NodeView, peer: Id, h: HelloView) -> Seq<EffectView> {
    let waits = n.pending.contains_key(peer);
    let held_back = n.deferred.contains(peer);
    if !waits && !held_back {
        Seq::empty()
    } else if !h.caps.contains(CAP_SAS_CONFIRM@) {
        seq![EffectView::Emit(EventView::SasPeerConfirmed { peer_id: peer })]
    } else if held_back && !waits {
        seq![EffectView::Send { to: peer, msg: MsgView::PairConfirm { accept: true } }]
    } else {
        Seq::empty()
    }
}

/// What a hello brings about.
pub open spec fn hello_effects(n: NodeView, l: Link, peer: Id, h: HelloView) -> Seq<EffectView> {
    let m = meta_of(n.meta, peer);
    let g = greeted(m, h);
    let changed = if g.name != m.name || g.platform != m.platform || g.caps != m.caps {
        seq![EffectView::Emit(EventView::MeshPeersChanged)]
    } else {
        Seq::empty()
    };
    let verify = if announces_verify(n, peer, h) {
        seq![EffectView::Send { to: peer, msg: MsgView::PairVerifyStarted }]
    } else {
        Seq::empty()
    };
    let offer = if !n.pending.contains_key(peer) && h.caps.contains(CAP_RESYNC@)
        && l.outbox_hashes@.len() > 0 {
        seq![
            EffectView::Send {
                to: peer,
                msg: MsgView::ResyncOffer { hashes: id_texts(l.outbox_hashes@) },
            },
        ]
    } else {
        Seq::empty()
    };
    let platform = if h.platform.len() > 0 {
        seq![EffectView::Emit(EventView::PeerPlatform { platform: h.platform })]
    } else {
        Seq::empty()
    };
    let own = if l.primary == Some(peer) {
        seq![EffectView::Emit(EventView::PeerSeen { peer_id: peer, name: h.name })] + platform + seq![
            EffectView::Emit(EventView::PeerCaps { caps: h.caps }),
        ]
    } else {
        Seq::empty()
    };
    changed + hello_confirmation(n, peer, h) + verify + offer + own
}

#[verifier::rlimit(60)]
fn on_hello(node: &mut Node, link: &Link, peer: Id, h: Hello) -> (out: Vec<Effect>)
    ensures
        final(node)@ == hello_node(old(node)@, peer, understood(*link, h@)),
        views(out@) == hello_effects(old(node)@, *link, peer, understood(*link, h@)),
{
    let ghost n = node@;
    let ghost hv = understood(*link, h@);
    let h = Hello { caps: shared_caps(&link.own_caps, &h.caps), name: h.name, platform: h.platform };
    assert(h@ =~= hv);
    let mut out: Vec<Effect> = Vec::new();
    let mut m = take_meta(&mut node.meta, &peer);
    let ghost m0 = m@;
    let mut changed = false;
    if !same_text(m.name.as_str(), h.name.as_str()) {
        m.name = h.name.clone();
        changed = true;
    }
    let has_platform = !h.platform.as_str().is_empty();
    if has_platform && !same_text(m.platform.as_str(), h.platform.as_str()) {
        m.platform = h.platform.clone();
        changed = true;
    }
    if !same_texts(&m.caps, &h.caps) {
        m.caps = copy_texts(&h.caps);
        changed = true;
    }
    m.hello_seen = true;
    assert(m@ =~= greeted(m0, hv));
    if changed {
        out.push(Effect::Emit(Event::MeshPeersChanged));
    }
    let ghost part1 = views(out@);
    let waits = node.pending.contains_key(&peer);
    let held_back = node.deferred.remove(&peer);
    if waits || held_back {
        if names(h.caps.as_slice(), CAP_SAS_CONFIRM) {
            if held_back && !waits {
                out.push(Effect::Send { to: peer, msg: Msg::PairConfirm { accept: true } });
            }
        } else {
            out.push(Effect::Emit(Event::SasPeerConfirmed { peer_id: peer }));
        }
    }
    let ghost part2 = views(out@);
    assert(part2 =~= part1 + hello_confirmation(n, peer, hv));
    if waits && names(h.caps.as_slice(), CAP_VERIFY_RESTART) && !m.verify_restart_sent {
        m.verify_restart_sent = true;
        out.push(Effect::Send { to: peer, msg: Msg::PairVerifyStarted });
    }
    node.meta.insert(peer, m);
    let ghost part3 = views(out@);
    if !waits && names(h.caps.as_slice(), CAP_RESYNC) && link.outbox_hashes.len() > 0 {
        let hashes = build_resync_offer(link.outbox_hashes.as_slice());
        out.push(Effect::Send { to: peer, msg: Msg::ResyncOffer { hashes } });
    }
    let ghost part4 = views(out@);
    if is_id(link.primary, &peer) {
        let Hello { name, platform, caps } = h;
        out.push(Effect::Emit(Event::PeerSeen { peer_id: peer, name }));
        if has_platform {
            out.push(Effect::Emit(Event::PeerPlatform { platform }));
        }
        out.push(Effect::Emit(Event::PeerCaps { caps }));
    }
    assert(views(out@) =~= hello_effects(n, *link, peer, hv));
    assert(node.meta@ =~= hello_node(n, peer, hv).meta);
    assert(node@ =~= hello_node(n, peer, hv));
    out
}

/// A hash of `set`, as a text.
pub open spec fn text_in(set: Set<Id>, t: Seq<char>) -> bool {
    exists|k: Id| #[trigger] set.contains(k) && hex_of(k) == t
}

/// The text of an id.
pub open spec fn hex_of(k: Id) -> Seq<char> {
    crate::codec::hex_text(k@)
}

/// An offered hash is worth asking for.
pub open spec fn wanted_hash(n: NodeView, l: Link, t: Seq<char>) -> bool {
    &&& !views(l.history_hashes@).contains(t)
    &&& !id_texts(l.outbox_hashes@).contains(t)
    &&& !text_in(
        kept::<u64, NotOlder>(
            n.cleared,
            (NotOlder { max_age: l.outbox_max_age, now: l.now }),
        ).dom(),
        t,
    )
    &&& !text_in(hashes_in_flight(n.pulls, l.now), t)
}

/// The offered hashes that are asked for.
pub open spec fn asked_for(n: NodeView, l: Link, offered: Seq<Seq<char>>) -> Seq<Seq<char>> {
    at_most(offered.filter(|t: Seq<char>| wanted_hash(n, l, t)), l.max_resync_hashes as nat)
}

/// The memory after an offer.
pub open spec fn offer_node(n: NodeView, l: Link, peer: Id, offered: Seq<Seq<char>>) -> NodeView {
    if may_resync(l.linked@, n.meta, peer) && asked_for(n, l, offered).len() > 0 {
        NodeView { pulls: pulls_with(n.pulls, peer, asked_for(n, l, offered), l.now), ..n }
    } else {
        n
    }
}

/// What an offer brings about.
pub open spec fn offer_effects(
    n: NodeView,
    l: Link,
    peer: Id,
    offered: Seq<Seq<char>>,
) -> Seq<EffectView> {
    if may_resync(l.linked@, n.meta, peer) && asked_for(n, l, offered).len() > 0 {
        seq![
            EffectView::Send {
                to: peer,
                msg: MsgView::ResyncPull { hashes: asked_for(n, l, offered) },
            },
        ]
    } else {
        Seq::empty()
    }
}

proof fn lemma_texts_of_set(order: Seq<Id>, set: Set<Id>, t: Seq<char>)
    requires
        order.to_set() == set,
    ensures
        id_texts(order).contains(t) <==> text_in(set, t),
{
    if id_texts(order).contains(t) {
        let i = id_texts(order).index_of(t);
        assert(order.contains(order[i]));
        assert(set.contains(order[i]));
    }
    if text_in(set, t) {
        let k = choose|k: Id| #[trigger] set.contains(k) && hex_of(k) == t;
        assert(order.to_set().contains(k));
        assert(order.contains(k));
        let i = order.index_of(k);
        assert(id_texts(order)[i] == t);
    }
}

fn on_offer(node: &mut Node, link: &Link, peer: Id, hashes: Vec<String>) -> (out: Vec<Effect>)
    ensures
        final(node)@ == offer_node(old(node)@, *link, peer, views(hashes@)),
        views(out@) == offer_effects(old(node)@, *link, peer, views(hashes@)),
{
    let ghost n = node@;
    let ghost offered = views(hashes@);
    let mut out: Vec<Effect> = Vec::new();
    if !resync_authorized(&link.linked, &node.meta, &peer) {
        assert(views(out@) =~= Seq::empty());
        return out;
    }
    let outbox = build_resync_offer(link.outbox_hashes.as_slice());
    let cleared = cleared_hex_snapshot(&node.cleared, link.outbox_max_age, link.now);
    let pulled = in_flight_pull_hashes(&node.pulls, link.now);
    let missing = missing_resync_hashes(
        hashes.as_slice(),
        link.history_hashes.as_slice(),
        outbox.as_slice(),
        cleared.as_slice(),
        pulled.as_slice(),
        link.max_resync_hashes,
    );
    proof {
        let live = kept::<u64, NotOlder>(
            n.cleared,
            (NotOlder { max_age: link.outbox_max_age, now: link.now }),
        ).dom();
        let flying = hashes_in_flight(n.pulls, link.now);
        let o1 = choose|order: Seq<Id>|
            {
                &&& order.no_duplicates()
                &&& order.to_set() == live
                &&& views(cleared@) == #[trigger] id_texts(order)
            };
        let o2 = choose|order: Seq<Id>|
            {
                &&& order.no_duplicates()
                &&& order.to_set() == flying
                &&& views(pulled@) == #[trigger] id_texts(order)
            };
        let p1 = |t: Seq<char>|
            !unwanted(
                t,
                views(link.history_hashes@),
                views(outbox@),
                views(cleared@),
                views(pulled@),
            );
        let p2 = |t: Seq<char>| wanted_hash(n, *link, t);
        assert forall|t: Seq<char>| #[trigger] p1(t) == p2(t) by {
            lemma_texts_of_set(o1, live, t);
            lemma_texts_of_set(o2, flying, t);
        }
        assert(p1 =~= p2);
        assert(views(missing@) == asked_for(n, *link, offered));
        assert(views(missing@).len() == missing@.len());
    }
    if missing.len() > 0 {
        note_pulls(&mut node.pulls, peer, &missing, link.now);
        out.push(Effect::Send { to: peer, msg: Msg::ResyncPull { hashes: missing } });
    }
    assert(views(out@) =~= offer_effects(n, *link, peer, offered));
    assert(node@ =~= offer_node(n, *link, peer, offered));
    out
}

/// What a request for items brings about: each that may be sent is sent.
pub open spec fn pull_effects(n: NodeView, l: Link, peer: Id, texts: Seq<Seq<char>>) -> Seq<EffectView> {
    if may_resync(l.linked@, n.meta, peer) {
        serving(peer, served(at_most(texts, l.max_resync_hashes as nat), l.held@, l.outbound))
    } else {
        Seq::empty()
    }
}

/// Each item of a list is sent to `peer`.
pub open spec fn serving(peer: Id, items: Seq<ItemView>) -> Seq<EffectView> {
    Seq::new(items.len(), |i: int| EffectView::Serve { to: peer, item: items[i] })
}

fn on_pull(node: &Node, link: &Link, peer: Id, hashes: Vec<String>) -> (out: Vec<Effect>)
    ensures
        views(out@) == pull_effects(node@, *link, peer, views(hashes@)),
{
    let mut out: Vec<Effect> = Vec::new();
    if !resync_authorized(&link.linked, &node.meta, &peer) {
        assert(views(out@) =~= Seq::empty());
        return out;
    }
    let items = serve_pull(&hashes, &link.held, link.outbound, link.max_resync_hashes);
    let ghost all = views(items@);
    let mut i: usize = 0;
    assert(views(out@) =~= serving(peer, all.subrange(0, 0)));
    while i < items.len()
        invariant
            i <= items@.len(),
            all == views(items@),
            views(out@) == serving(peer, all.subrange(0, i as int)),
        decreases items@.len() - i,
    {
        let ghost so_far = views(out@);
        out.push(Effect::Serve { to: peer, item: copy_item(&items[i]) });
        assert(views(out@) =~= so_far.push(
            EffectView::Serve { to: peer, item: all[i as int] },
        ));
        i = i + 1;
        assert(views(out@) =~= serving(peer, all.subrange(0, i as int)));
    }
    assert(all.subrange(0, all.len() as int) =~= all);
    out
}

/// A confirmation that finds no verification under way is echoed: the sender is
/// trusted under its key and knows of mutual confirmation.
pub open spec fn echoes(n: NodeView, l: Link, peer: Id) -> bool {
    &&& !n.pending.contains_key(peer)
    &&& !in_sas_flow(l, peer)
    &&& n.trusted.contains_key(peer)
    &&& has_cap(n.meta, peer, CAP_SAS_CONFIRM@)
}

/// The memory after the peer's user confirmed: a pairing that waits here gets a
/// full window once more.
pub open spec fn accept_node(n: NodeView, l: Link, peer: Id) -> NodeView {
    if n.pending.contains_key(peer) {
        NodeView {
            pending: n.pending.insert(
                peer,
                PendingView { expires_at: (l.now + PAIRING_WINDOW) as u64, ..n.pending[peer] },
            ),
            ..n
        }
    } else if echoes(n, l, peer) {
        NodeView { echo_acked: n.echo_acked.insert(peer), ..n }
    } else {
        n
    }
}

/// What the confirmation of the peer's user brings about.
pub open spec fn accept_effects(n: NodeView, l: Link, peer: Id) -> Seq<EffectView> {
    if n.pending.contains_key(peer) || in_sas_flow(l, peer) {
        seq![EffectView::Emit(EventView::SasPeerConfirmed { peer_id: peer })]
    } else if echoes(n, l, peer) && !n.echo_acked.contains(peer) {
        seq![EffectView::Send { to: peer, msg: MsgView::PairConfirm { accept: true } }]
    } else {
        Seq::empty()
    }
}

fn on_accept(node: &mut Node, link: &Link, peer: Id) -> (out: Vec<Effect>)
    requires
        link.now <= LAST_INSTANT,
    ensures
        final(node)@ == accept_node(old(node)@, *link, peer),
        views(out@) == accept_effects(old(node)@, *link, peer),
{
    let ghost n = node@;
    let mut out: Vec<Effect> = Vec::new();
    let had_pending = match node.pending.remove(&peer) {
        Some(mut p) => {
            p.expires_at = link.now + PAIRING_WINDOW;
            node.pending.insert(peer, p);
            true
        },
        None => false,
    };
    let ghost pending = node.pending@;
    assert(pending =~= if had_pending {
        accept_node(n, *link, peer).pending
    } else {
        n.pending
    });
    if had_pending || sas_flow_live(link, &peer) {
        out.push(Effect::Emit(Event::SasPeerConfirmed { peer_id: peer }));
    } else if node.trusted.contains_key(&peer) && peer_has_cap(&node.meta, &peer, CAP_SAS_CONFIRM) {
        if node.echo_acked.insert(peer) {
            out.push(Effect::Send { to: peer, msg: Msg::PairConfirm { accept: true } });
        }
    }
    assert(views(out@) =~= accept_effects(n, *link, peer));
    assert(node@ =~= accept_node(n, *link, peer));
    out
}

/// What the refusal of the peer's user brings about. Trust ends in any case; it
/// is reported as this pairing's verdict only where one is under way, and before
/// the link is given up.
pub open spec fn reject_effects(n: NodeView, l: Link, peer: Id) -> Seq<EffectView> {
    let verdict = if n.pending.contains_key(peer) || in_sas_flow(l, peer) {
        seq![EffectView::Emit(EventView::SasPeerRejected { peer_id: peer })]
    } else {
        Seq::empty()
    };
    withdrawal(n, peer) + seq![EffectView::PurgePeer { peer }] + delisting(n, peer) + verdict
        + primary_loss(l.primary, peer)
}

fn on_reject(node: &mut Node, link: &Link, peer: Id) -> (out: Vec<Effect>)
    ensures
        final(node)@ == forgotten(old(node)@, peer),
        views(out@) == reject_effects(old(node)@, *link, peer),
{
    let ghost n = node@;
    let mut out: Vec<Effect> = Vec::new();
    let had_pending = node.pending.remove(&peer).is_some();
    let _ = node.deferred.remove(&peer);
    let _ = node.echo_acked.remove(&peer);
    let removed = node.trusted.remove(&peer);
    let _ = node.discovered.remove(&peer);
    let _ = node.backoff.remove(&peer);
    if removed.is_some() {
        out.push(Effect::SavePeers);
    }
    out.push(Effect::PurgePeer { peer });
    if node.meta.remove(&peer).is_some() {
        out.push(Effect::Emit(Event::MeshPeersChanged));
    }
    if had_pending || sas_flow_live(link, &peer) {
        out.push(Effect::Emit(Event::SasPeerRejected { peer_id: peer }));
    }
    if is_id(link.primary, &peer) {
        out.push(Effect::FailOver { lost: Some(peer) });
    }
    assert(views(out@) =~= reject_effects(n, *link, peer));
    assert(node@ =~= forgotten(n, peer));
    out
}

/// The verification of a pairing opens again at the peer's word: the peer is
/// trusted, no verification is under way, and its session gives words to compare.
pub open spec fn reopens_verify(n: NodeView, l: Link, peer: Id) -> bool {
    &&& n.trusted.contains_key(peer)
    &&& !n.pending.contains_key(peer)
    &&& !in_sas_flow(l, peer)
    &&& l.sas_words is Some
}

/// The sender's address, or none in particular.
pub open spec fn sender_address(l: Link) -> SocketAddr {
    match l.sender_addr {
        Some(a) => a,
        None => SocketAddr::V4 { bits: 0, port: 0 },
    }
}

/// What the word of a peer that its user is shown words to compare does.
pub open spec fn verify_step(
    n: NodeView,
    l: Link,
    peer: Id,
    after: NodeView,
    out: Seq<EffectView>,
) -> bool {
    if reopens_verify(n, l, peer) {
        &&& pended(
            n.pending,
            peer,
            (PendingView {
                static_pub: n.trusted[peer].static_pub,
                name: n.trusted[peer].name,
                sas_words: views(l.sas_words->0@),
                from: sender_address(l),
                expires_at: (l.now + PAIRING_WINDOW) as u64,
            }),
            l.now,
            after.pending,
        )
        &&& after == (NodeView { pending: after.pending, ..n })
        &&& out == seq![EffectView::Emit(EventView::SasPairingStarted { peer_id: peer })]
    } else {
        after == n && out == Seq::<EffectView>::empty()
    }
}

/// A copy of six words.
pub fn copy_words(w: &[String; 6]) -> (r: [String; 6])
    ensures
        views(r@) == views(w@),
{
    let r = [w[0].clone(), w[1].clone(), w[2].clone(), w[3].clone(), w[4].clone(), w[5].clone()];
    assert(views(r@) =~= views(w@));
    r
}

fn on_verify_started(node: &mut Node, link: &Link, peer: Id) -> (out: Vec<Effect>)
    requires
        link.now <= LAST_INSTANT,
    ensures
        verify_step(old(node)@, *link, peer, final(node)@, views(out@)),
{
    let mut out: Vec<Effect> = Vec::new();
    assert(views(out@) =~= Seq::empty());
    let (static_pub, name) = match node.trusted.get(&peer) {
        Some(p) => (p.static_pub, p.name.clone()),
        None => {
            return out;
        },
    };
    if node.pending.contains_key(&peer) || sas_flow_live(link, &peer) {
        return out;
    }
    let words = match &link.sas_words {
        Some(w) => copy_words(w),
        None => {
            return out;
        },
    };
    let from = match link.sender_addr {
        Some(a) => a,
        None => SocketAddr::V4 { bits: 0, port: 0 },
    };
    add_pending(&mut node.pending, peer, static_pub, name, words, from, link.now);
    out.push(Effect::Emit(Event::SasPairingStarted { peer_id: peer }));
    assert(views(out@) =~= seq![EffectView::Emit(EventView::SasPairingStarted { peer_id: peer })]);
    out
}

/// `after` and `out` are what the message `msg` of `peer` leaves behind and
/// brings about. From a peer that is not confirmed, messages that carry clipboard
/// content do nothing.
pub open spec fn inbound_step(
    n: NodeView,
    l: Link,
    peer: Id,
    msg: MsgView,
    after: NodeView,
    out: Seq<EffectView>,
) -> bool {
    if carries_clipboard(msg) && !confirmed(n, peer) {
        after == n && out == Seq::<EffectView>::empty()
    } else {
        match msg {
            MsgView::ClipboardItem(item) => item_step(n, l.now, peer, item, after, out),
            MsgView::Chunk(c) => chunk_step(n, l.now, l.max_chunks, peer, c, after, out),
            MsgView::BatteryStatus { level, charging } => {
                &&& after == battery_node(n, peer, level, charging)
                &&& out == battery_effects(n, l.primary, peer, level, charging)
            },
            MsgView::Heartbeat => after == n && out == heartbeat_effects(peer),
            MsgView::Ack { hash } => {
                &&& after == ack_node(n, peer, hash)
                &&& out == seq![EffectView::Count(Metric::AckReceived)]
            },
            MsgView::Nak(nak) => after == nak_node(n, l.now, nak) && out == nak_effects(n, peer, nak),
            MsgView::Bye => after == bye_node(n, l, peer) && out == bye_effects(n, l, peer),
            MsgView::Revoke => after == forgotten(n, peer) && out == revoke_effects(n, l.primary, peer),
            MsgView::HandshakeInit => after == n && out == Seq::<EffectView>::empty(),
            MsgView::HandshakeResp => after == n && out == Seq::<EffectView>::empty(),
            MsgView::Hello(h) => {
                &&& after == hello_node(n, peer, understood(l, h))
                &&& out == hello_effects(n, l, peer, understood(l, h))
            },
            MsgView::ResyncOffer { hashes } => {
                &&& after == offer_node(n, l, peer, hashes)
                &&& out == offer_effects(n, l, peer, hashes)
            },
            MsgView::ResyncPull { hashes } => {
                &&& after == n
                &&& out == pull_effects(n, l, peer, hashes)
            },
            MsgView::PairConfirm { accept } => if accept {
                after == accept_node(n, l, peer) && out == accept_effects(n, l, peer)
            } else {
                after == forgotten(n, peer) && out == reject_effects(n, l, peer)
            },
            MsgView::PairVerifyStarted => verify_step(n, l, peer, after, out),
        }
    }
}

/// Takes in a message of `peer`, which its session authenticated.
pub fn dispatch_inbound_frame(node: &mut Node, link: &Link, peer: Id, msg: Msg) -> (out: Vec<Effect>)
    requires
        link.now <= LAST_INSTANT,
    ensures
        inbound_step(old(node)@, *link, peer, msg@, final(node)@, views(out@)),
{
    let clipboard = match &msg {
        Msg::ClipboardItem(_) => true,
        Msg::Chunk(_) => true,
        Msg::ResyncOffer { .. } => true,
        Msg::ResyncPull { .. } => true,
        _ => false,
    };
    let mut none: Vec<Effect> = Vec::new();
    assert(views(none@) =~= Seq::empty());
    if clipboard && !is_confirmed(node, &peer) {
        return none;
    }
    match msg {
        Msg::ClipboardItem(item) => on_item(node, link.now, peer, item),
        Msg::Chunk(c) => on_chunk_msg(node, link.now, link.max_chunks, peer, c),
        Msg::BatteryStatus { level, charging } => on_battery(node, link.primary, peer, level, charging),
        Msg::Heartbeat => on_heartbeat(peer),
        Msg::Ack { hash } => on_ack(node, peer, hash),
        Msg::Nak(nak) => on_nak(node, link.now, peer, nak),
        Msg::Bye => on_bye(node, link, peer),
        Msg::Revoke => on_revoke(node, link.primary, peer),
        Msg::HandshakeInit => none,
        Msg::HandshakeResp => none,
        Msg::Hello(h) => on_hello(node, link, peer, h),
        Msg::ResyncOffer { hashes } => on_offer(node, link, peer, hashes),
        Msg::ResyncPull { hashes } => on_pull(node, link, peer, hashes),
        Msg::PairConfirm { accept } => if accept {
            on_accept(node, link, peer)
        } else {
            on_reject(node, link, peer)
        },
        Msg::PairVerifyStarted => on_verify_started(node, link, peer),
    }
}

/// An effect that hands clipboard content, or hashes of some, to anybody.
pub open spec fn moves_clipboard(e: EffectView) -> bool {
    match e {
        EffectView::Observe { .. } => true,
        EffectView::Relay { .. } => true,
        EffectView::Serve { .. } => true,
        EffectView::AdmitToOutbox { .. } => true,
        EffectView::SendFrames { .. } => true,
        EffectView::Send { msg, .. } => carries_clipboard(msg),
        _ => false,
    }
}

/// Whatever a peer that waits for confirmation, or is not trusted, sends, no
/// clipboard content moves on its account; but for the frames of an item already
/// on its way to it, which it may ask for again.
pub proof fn unconfirmed_peer_moves_no_clipboard(
    n: NodeView,
    l: Link,
    peer: Id,
    msg: MsgView,
    after: NodeView,
    out: Seq<EffectView>,
)
    requires
        inbound_step(n, l, peer, msg, after, out),
        n.pending.contains_key(peer) || (!n.trusted.contains_key(peer) && !(msg is Hello)),
        !(msg is Nak),
    ensures
        forall|i: int| 0 <= i < out.len() ==> !moves_clipboard(#[trigger] out[i]),
{
    match msg {
        MsgView::Hello(h) => lemma_hello_is_quiet(n, l, peer, understood(l, h)),
        MsgView::Bye => assert(quiet(bye_effects(n, l, peer))),
        MsgView::Revoke => assert(quiet(revoke_effects(n, l.primary, peer))),
        MsgView::BatteryStatus { level, charging } => assert(quiet(
            battery_effects(n, l.primary, peer, level, charging),
        )),
        MsgView::PairConfirm { accept } => {
            assert(quiet(accept_effects(n, l, peer)));
            assert(quiet(reject_effects(n, l, peer)));
        },
        _ => assert(quiet(out)),
    }
}

/// Nothing in `out` moves clipboard content.
spec fn quiet(out: Seq<EffectView>) -> bool {
    forall|i: int| 0 <= i < out.len() ==> !moves_clipboard(#[trigger] out[i])
}

/// To a peer that waits for confirmation a hello hands no hashes.
proof fn lemma_hello_is_quiet(n: NodeView, l: Link, peer: Id, h: HelloView)
    requires
        n.pending.contains_key(peer),
    ensures
        quiet(hello_effects(n, l, peer, h)),
{
}

/// An item whose hash is not that of its content is neither acknowledged nor
/// looked at, nor does it change anything.
pub proof fn forged_item_is_ignored(
    n: NodeView,
    l: Link,
    peer: Id,
    item: ItemView,
    after: NodeView,
    out: Seq<EffectView>,
)
    requires
        inbound_step(n, l, peer, MsgView::ClipboardItem(item), after, out),
        item.payload.len() > 0,
        content_hash(item.kind, item.payload) != Some(item.hash),
    ensures
        after == n,
        out.len() == 0,
{
}

/// A genuine item of a confirmed peer that comes in one piece is acknowledged, and
/// then looked at.
pub proof fn genuine_item_is_acknowledged(
    n: NodeView,
    l: Link,
    peer: Id,
    item: ItemView,
    after: NodeView,
    out: Seq<EffectView>,
)
    requires
        inbound_step(n, l, peer, MsgView::ClipboardItem(item), after, out),
        n.trusted.contains_key(peer),
        !n.pending.contains_key(peer),
        item.payload.len() > 0,
        content_hash(item.kind, item.payload) == Some(item.hash),
    ensures
        after == n,
        out == seq![
            EffectView::Send { to: peer, msg: MsgView::Ack { hash: item.hash } },
            EffectView::Observe { item, source: peer, chunked: false },
        ],
{
}

/// A sensitive item is never kept or staged, and one that the firewall blocks is
/// neither kept, staged nor sent on.
pub proof fn firewall_holds_for_items(
    n: NodeView,
    item: ItemView,
    source: Id,
    chunked: bool,
    inbound: Policy,
    now: u64,
)
    ensures
        ({
            let out = first_sight_effects(n, item, source, chunked, inbound, now);
            let after = first_sight_node(n, item, source, inbound, now);
            &&& item.sensitive ==> after.stage == n.stage && forall|i: int|
                0 <= i < out.len() ==> !((#[trigger] out[i]) is AdmitToOutbox)
            &&& !item.sensitive && inbound.on(item.kind) == Decision::Block ==> after.stage == n.stage
                && forall|i: int|
                0 <= i < out.len() ==> !((#[trigger] out[i]) is AdmitToOutbox) && !(out[i] is Relay)
            &&& !item.sensitive && inbound.on(item.kind) == Decision::Defer ==> forall|i: int|
                0 <= i < out.len() ==> !((#[trigger] out[i]) is AdmitToOutbox)
        }),
{
}

/// The first peer to offer an item that waits for the user's decision stays the
/// one that it is credited to.
pub proof fn staged_item_keeps_its_first_source(
    n: NodeView,
    item: ItemView,
    source: Id,
    inbound: Policy,
    now: u64,
)
    requires
        n.stage.contains_key(item.hash),
    ensures
        first_sight_node(n, item, source, inbound, now).stage == n.stage,
{
}

/// However often a peer repeats its confirmation outside a verification, it is
/// echoed once, until its session ends.
pub proof fn confirmation_is_echoed_once(n: NodeView, first: Link, later: Link, peer: Id)
    requires
        echoes(n, first, peer),
    ensures
        ({
            let after = accept_node(n, first, peer);
            let out = accept_effects(after, later, peer);
            &&& forall|i: int| 0 <= i < out.len() ==> !((#[trigger] out[i]) is Send)
            &&& accept_node(after, later, peer).echo_acked.contains(peer)
            &&& !bye_node(after, later, peer).echo_acked.contains(peer)
        }),
{
}

/// After its hello a peer counts as capable of what both sides are capable of, and
/// of nothing else.
pub proof fn only_shared_capabilities_count(
    n: NodeView,
    l: Link,
    peer: Id,
    h: HelloView,
    after: NodeView,
    out: Seq<EffectView>,
    cap: Seq<char>,
)
    requires
        inbound_step(n, l, peer, MsgView::Hello(h), after, out),
    ensures
        has_cap(after.meta, peer, cap) == (views(l.own_caps@).contains(cap) && h.caps.contains(cap)),
{
    shared_means_on_both_sides(views(l.own_caps@), h.caps, cap);
}

/// A peer is told once in a session that its pairing waits for confirmation.
pub proof fn verify_is_announced_once(n: NodeView, peer: Id, h: HelloView, again: HelloView)
    requires
        announces_verify(n, peer, h),
    ensures
        !announces_verify(hello_node(n, peer, h), peer, again),
{
}

/// A revocation or a refusal leaves nothing of the peer, and touches no other.
pub proof fn forgetting_is_complete_and_exact(n: NodeView, peer: Id, other: Id)
    requires
        other != peer,
    ensures
        ({
            let after = forgotten(n, peer);
            &&& !after.trusted.contains_key(peer)
            &&& !after.pending.contains_key(peer)
            &&& !after.discovered.contains_key(peer)
            &&& !after.backoff.contains_key(peer)
            &&& !after.meta.contains_key(peer)
            &&& !after.deferred.contains(peer)
            &&& !after.echo_acked.contains(peer)
            &&& after.trusted.contains_key(other) == n.trusted.contains_key(other)
            &&& n.trusted.contains_key(other) ==> after.trusted[other] == n.trusted[other]
            &&& confirmed(after, other) == confirmed(n, other)
            &&& after.inflight == n.inflight
            &&& after.stage == n.stage
        }),
{
}

/// Only the primary's loss concerns the state machine: no message of another peer
/// makes the daemon replace its primary.
pub proof fn secondary_never_unseats_the_primary(
    n: NodeView,
    l: Link,
    peer: Id,
    msg: MsgView,
    after: NodeView,
    out: Seq<EffectView>,
)
    requires
        inbound_step(n, l, peer, msg, after, out),
        l.primary != Some(peer),
    ensures
        forall|i: int| 0 <= i < out.len() ==> !((#[trigger] out[i]) is FailOver),
{
    match msg {
        MsgView::ResyncPull { hashes } => assert(steady(pull_effects(n, l, peer, hashes))),
        MsgView::Hello(h) => assert(steady(hello_effects(n, l, peer, understood(l, h)))),
        MsgView::Bye => assert(steady(bye_effects(n, l, peer))),
        MsgView::Revoke => assert(steady(revoke_effects(n, l.primary, peer))),
        MsgView::BatteryStatus { level, charging } => assert(steady(
            battery_effects(n, l.primary, peer, level, charging),
        )),
        MsgView::PairConfirm { accept } => {
            assert(steady(accept_effects(n, l, peer)));
            assert(steady(reject_effects(n, l, peer)));
        },
        _ => assert(steady(out)),
    }
}

/// Nothing in `out` replaces the primary.
spec fn steady(out: Seq<EffectView>) -> bool {
    forall|i: int| 0 <= i < out.len() ==> !((#[trigger] out[i]) is FailOver)
}

/// No more hashes are asked for than a message holds, and each was offered, and is
/// neither at hand, in the history, cleared of late nor asked for already.
pub proof fn only_wanted_items_are_asked_for(n: NodeView, l: Link, offered: Seq<Seq<char>>, i: int)
    requires
        0 <= i < asked_for(n, l, offered).len(),
    ensures
        asked_for(n, l, offered).len() <= l.max_resync_hashes,
        offered.contains(asked_for(n, l, offered)[i]),
        wanted_hash(n, l, asked_for(n, l, offered)[i]),
{
    let p = |t: Seq<char>| wanted_hash(n, l, t);
    let all = offered.filter(p);
    assert(asked_for(n, l, offered)[i] == all[i]);
    offered.lemma_filter_pred(p, i);
    assert(all.contains(all[i]));
    offered.lemma_filter_contains_rev(p, all[i]);
}

/// No message gives trust: the trust store stays as it is, or loses the sender. And a
/// pair comes to wait for confirmation only for a sender that is trusted.
pub proof fn messages_give_no_trust(
    n: NodeView,
    l: Link,
    peer: Id,
    msg: MsgView,
    after: NodeView,
    out: Seq<EffectView>,
    other: Id,
)
    requires
        inbound_step(n, l, peer, msg, after, out),
    ensures
        after.trusted == n.trusted || after.trusted == n.trusted.remove(peer),
        after.pending.contains_key(other) && !n.pending.contains_key(other) ==> other == peer
            && n.trusted.contains_key(peer),
        keyed_by_digest(n.trusted) ==> keyed_by_digest(after.trusted),
{
    if msg is PairVerifyStarted && reopens_verify(n, l, peer) {
        let live = live_pairs(n.pending, l.now);
        let room = choose|room: Map<Id, PendingView>|
            #[trigger] room_made(n.pending, l.now, room) && after.pending == room.insert(
                peer,
                after.pending[peer],
            );
        assert(pended(n.pending, peer, after.pending[peer], l.now, after.pending));
        if after.pending.contains_key(other) && other != peer {
            assert(room.contains_key(other));
            assert(live.contains_key(other));
        }
    }
}

/// However many messages come in, no more transfers and no more pairs are remembered
/// than their caps allow.
pub proof fn messages_stay_within_caps(
    n: NodeView,
    l: Link,
    peer: Id,
    msg: MsgView,
    after: NodeView,
    out: Seq<EffectView>,
)
    requires
        inbound_step(n, l, peer, msg, after, out),
        n.reassembly.dom().finite(),
        n.reassembly.dom().len() <= MAX_REASSEMBLIES,
        n.pending.dom().finite(),
        n.pending.dom().len() <= MAX_PENDING_PAIRS,
    ensures
        after.reassembly.dom().finite(),
        after.reassembly.dom().len() <= MAX_REASSEMBLIES,
        after.pending.dom().finite(),
        after.pending.dom().len() <= MAX_PENDING_PAIRS,
{
    match msg {
        MsgView::ClipboardItem(item) => {
            if confirmed(n, peer) && item.payload.len() == 0 {
                let key = transfer_key(peer, item.hash);
                let r = with_header(n.reassembly, key, peer, item, l.now);
                let done = choose|done: Option<ItemView>|
                    {
                        &&& settled(n.reassembly, key, r, item.hash, after.reassembly, done)
                        &&& out == #[trigger] arrival(done, peer, true)
                        &&& after == (NodeView { reassembly: after.reassembly, ..n })
                    };
                transfers_stay_within_cap(n.reassembly, key, r, item.hash, after.reassembly, done);
            }
        },
        MsgView::Chunk(c) => {
            if confirmed(n, peer) && sane_total(c.total, l.max_chunks) {
                let key = transfer_key(peer, c.item_id);
                let r = with_chunk(n.reassembly, key, peer, c, l.now);
                let done = choose|done: Option<ItemView>|
                    {
                        &&& settled(n.reassembly, key, r, c.item_id, after.reassembly, done)
                        &&& out == #[trigger] arrival(done, peer, true)
                        &&& after == (NodeView { reassembly: after.reassembly, ..n })
                    };
                transfers_stay_within_cap(n.reassembly, key, r, c.item_id, after.reassembly, done);
            }
        },
        MsgView::PairVerifyStarted => {
            if reopens_verify(n, l, peer) {
                pending_stays_within_cap(
                    n.pending,
                    peer,
                    (PendingView {
                        static_pub: n.trusted[peer].static_pub,
                        name: n.trusted[peer].name,
                        sas_words: views(l.sas_words->0@),
                        from: sender_address(l),
                        expires_at: (l.now + PAIRING_WINDOW) as u64,
                    }),
                    l.now,
                    after.pending,
                );
            }
        },
        MsgView::PairConfirm { accept } => {
            if accept && n.pending.contains_key(peer) {
                assert(after.pending.dom() =~= n.pending.dom());
            } else if !accept {
                assert(after.pending.dom() =~= n.pending.dom().remove(peer));
            }
        },
        MsgView::Revoke => {
            assert(after.pending.dom() =~= n.pending.dom().remove(peer));
        },
        _ => {},
    }
}

/// After the hello of a peer that does not wait for confirmation, where both sides can
/// catch up and there are items at hand, the peer is offered exactly those, by their
/// hashes; otherwise it is offered nothing.
pub proof fn reconnected_peer_is_offered_what_it_may_have_missed(
    n: NodeView,
    l: Link,
    peer: Id,
    h: HelloView,
    after: NodeView,
    out: Seq<EffectView>,
)
    requires
        inbound_step(n, l, peer, MsgView::Hello(h), after, out),
    ensures
        ({
            let both = h.caps.contains("resync-1"@) && views(l.own_caps@).contains("resync-1"@);
            let offers = !n.pending.contains_key(peer) && both && l.outbox_hashes@.len() > 0;
            &&& offers ==> exists|i: int|
                0 <= i < out.len() && (#[trigger] out[i] matches EffectView::Send {
                    to,
                    msg: MsgView::ResyncOffer { hashes },
                } && {
                    &&& to == peer
                    &&& hashes.len() == l.outbox_hashes@.len()
                    &&& forall|k: int|
                        0 <= k < hashes.len() ==> #[trigger] hashes[k] == crate::codec::hex_text(
                            l.outbox_hashes@[k]@,
                        )
                })
            &&& !offers ==> forall|i: int|
                0 <= i < out.len() ==> !(#[trigger] out[i] matches EffectView::Send {
                    msg: MsgView::ResyncOffer { .. },
                    ..
                })
        }),
{
    let u = understood(l, h);
    shared_means_on_both_sides(views(l.own_caps@), h.caps, CAP_RESYNC@);
    let both = h.caps.contains("resync-1"@) && views(l.own_caps@).contains("resync-1"@);
    if !n.pending.contains_key(peer) && both && l.outbox_hashes@.len() > 0 {
        let tail: int = if l.primary == Some(peer) {
            if h.platform.len() > 0 {
                3
            } else {
                2
            }
        } else {
            0
        };
        let i = out.len() - tail - 1;
        assert(out[i] == EffectView::Send {
            to: peer,
            msg: MsgView::ResyncOffer { hashes: id_texts(l.outbox_hashes@) },
        });
    } else {
        assert(no_offer(hello_effects(n, l, peer, u)));
    }
}

/// Nothing in `out` is an offer.
spec fn no_offer(out: Seq<EffectView>) -> bool {
    forall|i: int|
        0 <= i < out.len() ==> !(#[trigger] out[i] matches EffectView::Send {
            msg: MsgView::ResyncOffer { .. },
            ..
        })
}

/// A hello is remembered: the name, the platform if it is told, and that it came.
/// Nothing else about anybody changes, but that a confirmation that was held back for
/// it is held back no more.
pub proof fn hello_is_remembered(
    n: NodeView,
    l: Link,
    peer: Id,
    h: HelloView,
    after: NodeView,
    out: Seq<EffectView>,
    other: Id,
)
    requires
        inbound_step(n, l, peer, MsgView::Hello(h), after, out),
        other != peer,
    ensures
        after.meta.contains_key(peer),
        after.meta[peer].name == h.name,
        h.platform.len() > 0 ==> after.meta[peer].platform == h.platform,
        h.platform.len() == 0 && n.meta.contains_key(peer) ==> after.meta[peer].platform
            == n.meta[peer].platform,
        after.meta[peer].hello_seen,
        n.meta.contains_key(peer) ==> after.meta[peer].battery == n.meta[peer].battery
            && after.meta[peer].charging == n.meta[peer].charging,
        after.meta.contains_key(other) == n.meta.contains_key(other),
        n.meta.contains_key(other) ==> after.meta[other] == n.meta[other],
        !after.deferred.contains(peer),
        after.deferred.contains(other) == n.deferred.contains(other),
        after == (NodeView { meta: after.meta, deferred: after.deferred, ..n }),
        l.primary == Some(peer) ==> out.contains(
            EffectView::Emit(EventView::PeerSeen { peer_id: peer, name: h.name }),
        ),
        l.primary == Some(peer) && h.platform.len() > 0 ==> out.contains(
            EffectView::Emit(EventView::PeerPlatform { platform: h.platform }),
        ),
        l.primary == Some(peer) ==> out.contains(
            EffectView::Emit(EventView::PeerCaps { caps: after.meta[peer].caps }),
        ),
        l.primary != Some(peer) ==> forall|i: int|
            0 <= i < out.len() ==> !(#[trigger] out[i] matches EffectView::Emit(
                EventView::PeerSeen { .. },
            )),
{
    if l.primary == Some(peer) {
        let last = out.len() - 1;
        assert(out[last] == EffectView::Emit(EventView::PeerCaps { caps: after.meta[peer].caps }));
        let seen = EffectView::Emit(EventView::PeerSeen { peer_id: peer, name: h.name });
        if h.platform.len() > 0 {
            assert(out[last - 1] == EffectView::Emit(
                EventView::PeerPlatform { platform: h.platform },
            ));
            assert(out[last - 2] == seen);
        } else {
            assert(out[last - 1] == seen);
        }
    }
}

/// What a hello means for a pairing under way. A peer that does not know of mutual
/// confirmation counts as having confirmed. One that does gets the confirmation that
/// was held back for its hello, unless a new pairing with it waits. Without a pairing
/// under way nothing of the kind is sent or told.
pub proof fn hello_settles_a_held_back_confirmation(
    n: NodeView,
    l: Link,
    peer: Id,
    h: HelloView,
    after: NodeView,
    out: Seq<EffectView>,
)
    requires
        inbound_step(n, l, peer, MsgView::Hello(h), after, out),
    ensures
        ({
            let knows = h.caps.contains("sas-confirm"@) && views(l.own_caps@).contains(
                "sas-confirm"@,
            );
            let waits = n.pending.contains_key(peer);
            let held_back = n.deferred.contains(peer);
            &&& out.contains(EffectView::Emit(EventView::SasPeerConfirmed { peer_id: peer })) == ((waits
                || held_back) && !knows)
            &&& out.contains(
                EffectView::Send { to: peer, msg: MsgView::PairConfirm { accept: true } },
            ) == (knows && held_back && !waits)
        }),
{
    let u = understood(l, h);
    shared_means_on_both_sides(views(l.own_caps@), h.caps, CAP_SAS_CONFIRM@);
    let told = EffectView::Emit(EventView::SasPeerConfirmed { peer_id: peer });
    let sent = EffectView::Send { to: peer, msg: MsgView::PairConfirm { accept: true } };
    let m = meta_of(n.meta, peer);
    let g = greeted(m, u);
    let k: int = if g.name != m.name || g.platform != m.platform || g.caps != m.caps {
        1
    } else {
        0
    };
    if hello_confirmation(n, peer, u).len() > 0 {
        assert(out[k] == hello_confirmation(n, peer, u)[0]);
    }
}

/// A peer whose pairing waits for confirmation here, and that understands it, is told
/// so with its first hello.
pub proof fn waiting_peer_is_told(
    n: NodeView,
    l: Link,
    peer: Id,
    h: HelloView,
    after: NodeView,
    out: Seq<EffectView>,
)
    requires
        inbound_step(n, l, peer, MsgView::Hello(h), after, out),
    ensures
        out.contains(EffectView::Send { to: peer, msg: MsgView::PairVerifyStarted })
            == (n.pending.contains_key(peer) && h.caps.contains("verify-restart"@) && views(
            l.own_caps@,
        ).contains("verify-restart"@) && !(n.meta.contains_key(peer)
            && n.meta[peer].verify_restart_sent)),
{
    let u = understood(l, h);
    shared_means_on_both_sides(views(l.own_caps@), h.caps, CAP_VERIFY_RESTART@);
    let sent = EffectView::Send { to: peer, msg: MsgView::PairVerifyStarted };
    let m = meta_of(n.meta, peer);
    let g = greeted(m, u);
    let k: int = if g.name != m.name || g.platform != m.platform || g.caps != m.caps {
        1
    } else {
        0
    };
    if announces_verify(n, peer, u) {
        assert(out[k + hello_confirmation(n, peer, u).len()] == sent);
    }
}

/// An offered item is worth asking for iff it is not in the history, not at hand, not
/// cleared of late, and not asked for already.
pub proof fn missing_items_are_wanted(n: NodeView, l: Link, h: Id)
    ensures
        wanted_hash(n, l, hex_of(h)) <==> {
            &&& !views(l.history_hashes@).contains(hex_of(h))
            &&& !l.outbox_hashes@.contains(h)
            &&& !(n.cleared.contains_key(h) && elapsed(n.cleared[h], l.now) <= l.outbox_max_age)
            &&& !exists|p: Id| #[trigger]
                n.pulls.contains_key(p) && n.pulls[p].contains_key(h) && elapsed(
                    n.pulls[p][h],
                    l.now,
                ) < 60_000
        },
{
    let t = hex_of(h);
    let live = kept::<u64, NotOlder>(
        n.cleared,
        (NotOlder { max_age: l.outbox_max_age, now: l.now }),
    ).dom();
    let flying = hashes_in_flight(n.pulls, l.now);
    lemma_text_names_one(live, h);
    lemma_text_names_one(flying, h);
    requests_time_out(n.pulls, l.now, h);
    if l.outbox_hashes@.contains(h) {
        assert(id_texts(l.outbox_hashes@)[l.outbox_hashes@.index_of(h)] == t);
    }
    if id_texts(l.outbox_hashes@).contains(t) {
        let i = id_texts(l.outbox_hashes@).index_of(t);
        id_text_reads_back(h);
        id_text_reads_back(l.outbox_hashes@[i]);
    }
}

proof fn lemma_text_names_one(set: Set<Id>, h: Id)
    ensures
        text_in(set, hex_of(h)) == set.contains(h),
{
    if text_in(set, hex_of(h)) {
        let k = choose|k: Id| #[trigger] set.contains(k) && hex_of(k) == hex_of(h);
        id_text_reads_back(h);
        id_text_reads_back(k);
    }
}

/// A peer that may catch up is asked for the offered items that are wanted, by the
/// hashes that it offered them under: for all of them, as far as one message holds
/// them. What is asked for is remembered; of another peer nothing is asked.
pub proof fn missed_items_are_asked_for(
    n: NodeView,
    l: Link,
    peer: Id,
    offered: Seq<Seq<char>>,
    after: NodeView,
    out: Seq<EffectView>,
    h: Id,
)
    requires
        inbound_step(n, l, peer, MsgView::ResyncOffer { hashes: offered }, after, out),
        offered.contains(hex_of(h)),
        wanted_hash(n, l, hex_of(h)),
        offered.len() <= l.max_resync_hashes,
    ensures
        ({
            let may = n.trusted.contains_key(peer) && !n.pending.contains_key(peer)
                && l.linked@.contains(peer) && n.meta.contains_key(peer) && n.meta[peer].caps.contains("resync-1"@);
            &&& may ==> out.len() == 1 && (out[0] matches EffectView::Send {
                to,
                msg: MsgView::ResyncPull { hashes },
            } && to == peer && hashes.contains(hex_of(h)))
            &&& may ==> after.pulls.contains_key(peer) && after.pulls[peer].contains_key(h)
                && after.pulls[peer][h] == l.now
            &&& !may ==> out.len() == 0 && after == n
        }),
{
    let p = |t: Seq<char>| wanted_hash(n, l, t);
    let t = hex_of(h);
    offered.lemma_filter_contains(p, offered.index_of(t));
    offered.lemma_filter_len(p);
    assert(asked_for(n, l, offered) == offered.filter(p));
    assert(asked_for(n, l, offered).len() > 0) by {
        assert(offered.filter(p).contains(t));
    }
    requests_are_remembered(
        n.pulls,
        peer,
        asked_for(n, l, offered),
        l.now,
        h,
        peer,
    );
}

/// A confirmed peer that may catch up and asks for an item that is kept here, and
/// that the firewall lets out, is sent it as it was kept; nothing else is sent to it.
pub proof fn missed_item_is_delivered(
    n: NodeView,
    l: Link,
    peer: Id,
    texts: Seq<Seq<char>>,
    after: NodeView,
    out: Seq<EffectView>,
    h: Id,
)
    requires
        inbound_step(n, l, peer, MsgView::ResyncPull { hashes: texts }, after, out),
        texts.len() <= l.max_resync_hashes,
        texts.contains(hex_of(h)),
        l.held@.contains_key(h),
        l.outbound.on(l.held@[h].kind) == Decision::Pass,
    ensures
        ({
            let may = n.trusted.contains_key(peer) && !n.pending.contains_key(peer)
                && l.linked@.contains(peer) && n.meta.contains_key(peer) && n.meta[peer].caps.contains("resync-1"@);
            &&& may ==> out.contains(
                EffectView::Serve {
                    to: peer,
                    item: ItemView {
                        lamport: 0,
                        hash: h,
                        kind: l.held@[h].kind,
                        payload: l.held@[h].payload,
                        sensitive: false,
                        wall_time_ms: 0,
                        origin: l.held@[h].origin,
                        event_seq: l.held@[h].seq,
                    },
                },
            )
            &&& !may ==> out.len() == 0
            &&& after == n
            &&& forall|i: int|
                0 <= i < out.len() ==> (#[trigger] out[i] matches EffectView::Serve { to, .. } && to
                    == peer)
        }),
{
    kept_item_is_served(texts, l.held@, l.outbound, h);
    let items = served(texts, l.held@, l.outbound);
    let item = ItemView {
        lamport: 0,
        hash: h,
        kind: l.held@[h].kind,
        payload: l.held@[h].payload,
        sensitive: false,
        wall_time_ms: 0,
        origin: l.held@[h].origin,
        event_seq: l.held@[h].seq,
    };
    let k = items.index_of(item);
    if confirmed(n, peer) && may_resync(l.linked@, n.meta, peer) {
        assert(out[k] == EffectView::Serve { to: peer, item });
    }
}

/// An item that is new is handed to the state machine as it came, under the peer that
/// sent it, and marked as a late one iff it was asked of that peer within the last
/// minute. It is kept for others where the firewall lets it pass, sent on unless the
/// firewall blocks it, and set aside where the user has to decide. A sensitive one is
/// sent on and never kept.
pub proof fn new_item_is_taken_in(
    n: NodeView,
    item: ItemView,
    source: Id,
    chunked: bool,
    inbound: Policy,
    now: u64,
)
    ensures
        ({
            let out = first_sight_effects(n, item, source, chunked, inbound, now);
            let after = first_sight_node(n, item, source, inbound, now);
            let entry = OutboxView {
                payload: item.payload,
                kind: item.kind,
                origin: item.origin,
                seq: item.event_seq,
                created: now,
            };
            let says = inbound.on(item.kind);
            &&& out.len() > 0 && (out.last() matches EffectView::Emit(
                EventView::FrameReceivedClipboard { item: told, resync, peer_id, .. },
            ) && {
                &&& told == item
                &&& peer_id == source
                &&& resync == (n.pulls.contains_key(source) && n.pulls[source].contains_key(item.hash)
                    && elapsed(n.pulls[source][item.hash], now) < 60_000)
            })
            &&& out.contains(EffectView::AdmitToOutbox { hash: item.hash, entry }) == (!item.sensitive
                && says == Decision::Pass)
            &&& out.contains(EffectView::Relay { item, source, chunked }) == (item.sensitive || says
                != Decision::Block)
            &&& forall|i: int|
                0 <= i < out.len() ==> (#[trigger] out[i] matches EffectView::AdmitToOutbox {
                    hash,
                    entry: e,
                } ==> hash == item.hash && e == entry) && (out[i] matches EffectView::Relay {
                    item: r,
                    ..
                } ==> r == item)
            &&& after.stage.contains_key(item.hash) == (n.stage.contains_key(item.hash) || (
            !item.sensitive && says == Decision::Defer))
            &&& after.stage.contains_key(item.hash) && !n.stage.contains_key(item.hash)
                ==> after.stage[item.hash] == entry
            &&& after == (NodeView { stage: after.stage, pulls: after.pulls, ..n })
        }),
{
    let out = first_sight_effects(n, item, source, chunked, inbound, now);
    let entry = inbound_entry(item, now);
    if !item.sensitive && inbound.on(item.kind) == Decision::Pass {
        assert(out[0] == EffectView::AdmitToOutbox { hash: item.hash, entry });
        assert(out[1] == EffectView::Relay { item, source, chunked });
    } else if item.sensitive || inbound.on(item.kind) != Decision::Block {
        assert(out[0] == EffectView::Relay { item, source, chunked });
    }
}

/// A text that is new is shown to the user as it is.
pub proof fn new_text_is_shown(
    n: NodeView,
    item: ItemView,
    source: Id,
    chunked: bool,
    inbound: Policy,
    now: u64,
    text: Seq<char>,
)
    requires
        item.kind != Kind::Image,
        item.payload == encode_utf8(text),
    ensures
        first_sight_effects(n, item, source, chunked, inbound, now).last() matches EffectView::Emit(
            EventView::FrameReceivedClipboard { preview, .. },
        ) && preview == text,
{
    encoded_text_is_shown(text);
}

/// The first `n` numbers are all in `got`.
pub open spec fn has_first(got: Set<int>, n: int) -> bool {
    forall|i: int| 0 <= i < n ==> #[trigger] got.contains(i)
}

/// A transfer whose last piece arrives from a confirmed peer gives the item that was
/// cut up: it is acknowledged under its hash and looked at, and the transfer is over.
/// Until then nothing is acknowledged, and what arrived is kept.
pub proof fn transferred_item_arrives(
    n: NodeView,
    l: Link,
    peer: Id,
    item: ItemView,
    max: nat,
    header: bool,
    got: Set<int>,
    k: int,
    after: NodeView,
    out: Seq<EffectView>,
)
    requires
        travels_in_chunks(item, max),
        0 <= k < item_frames(item, max).len(),
        item_frames(item, max).len() - 1 <= l.max_chunks,
        n.trusted.contains_key(peer),
        !n.pending.contains_key(peer),
        content_hash(item.kind, item.payload) == Some(item.hash),
        n.reassembly.contains_key(transfer_key(peer, item.hash)) ==> holds_part(
            n.reassembly[transfer_key(peer, item.hash)],
            peer,
            item,
            max,
            header,
            got,
        ),
        !n.reassembly.contains_key(transfer_key(peer, item.hash)) ==> got == Set::<int>::empty()
            && !header,
        inbound_step(n, l, peer, item_frames(item, max)[k], after, out),
    ensures
        ({
            let key = transfer_key(peer, item.hash);
            let header_now = header || k == 0;
            let got_now = if k == 0 {
                got
            } else {
                got.insert(k - 1)
            };
            let whole = header_now && has_first(got_now, item_frames(item, max).len() - 1);
            &&& whole ==> !after.reassembly.contains_key(key) && out == seq![
                EffectView::Send { to: peer, msg: MsgView::Ack { hash: item.hash } },
                EffectView::Observe {
                    item: ItemView { wall_time_ms: 0, ..item },
                    source: peer,
                    chunked: true,
                },
            ]
            &&& !whole ==> out.len() == 0 && after.reassembly.contains_key(key) && holds_part(
                after.reassembly[key],
                peer,
                item,
                max,
                header_now,
                got_now,
            )
        }),
{
    let key = transfer_key(peer, item.hash);
    let frames = item_frames(item, max);
    let count = chunk_count(item.payload.len(), max);
    assert(frames.len() == count + 1);
    let header_now = header || k == 0;
    let got_now = if k == 0 {
        got
    } else {
        got.insert(k - 1)
    };
    let r = if k == 0 {
        with_header(n.reassembly, key, peer, frames[0]->ClipboardItem_0, l.now)
    } else {
        with_chunk(n.reassembly, key, peer, frames[k]->Chunk_0, l.now)
    };
    if k == 0 {
        header_joins_its_transfer(n.reassembly, peer, item, max, header, got, l.now);
    } else {
        chunk_joins_its_transfer(n.reassembly, peer, item, max, header, got, k - 1, l.now);
        assert(sane_total((frames[k]->Chunk_0).total, l.max_chunks));
    }
    assert(holds_part(r, peer, item, max, header_now, got_now));
    whole_transfer_gives_the_item_back(r, peer, item, max, header_now, got_now);
    let done = choose|done: Option<ItemView>|
        {
            &&& settled(n.reassembly, key, r, item.hash, after.reassembly, done)
            &&& out == #[trigger] arrival(done, peer, true)
            &&& after == (NodeView { reassembly: after.reassembly, ..n })
        };
    assert(settled(n.reassembly, key, r, item.hash, after.reassembly, done));
    transfer_ends_when_it_is_whole(
        n.reassembly,
        key,
        r,
        item.hash,
        after.reassembly,
        done,
        key,
    );
    assert(complete(r) == (done is Some));
    let whole = header_now && has_first(got_now, frames.len() - 1);
    assert(complete(r) == whole);
    if whole {
        let back = ItemView { wall_time_ms: 0, ..item };
        assert(done == Some(back));
        assert(out =~= seq![
            EffectView::Send { to: peer, msg: MsgView::Ack { hash: item.hash } },
            EffectView::Observe { item: back, source: peer, chunked: true },
        ]);
        assert(!after.reassembly.contains_key(key));
    } else {
        assert(done is None);
        assert(out.len() == 0);
        assert(after.reassembly[key] == r);
    }
}

/// A peer's battery is remembered as it told it, and clients learn of a change; only
/// the primary's concerns the state machine.
pub proof fn battery_is_remembered(
    n: NodeView,
    l: Link,
    peer: Id,
    level: u8,
    charging: bool,
    after: NodeView,
    out: Seq<EffectView>,
    other: Id,
)
    requires
        inbound_step(n, l, peer, MsgView::BatteryStatus { level, charging }, after, out),
        other != peer,
    ensures
        after.meta.contains_key(peer) && after.meta[peer].battery == level
            && after.meta[peer].charging == charging,
        n.meta.contains_key(peer) ==> after.meta[peer].name == n.meta[peer].name
            && after.meta[peer].caps == n.meta[peer].caps,
        after.meta.contains_key(other) == n.meta.contains_key(other),
        n.meta.contains_key(other) ==> after.meta[other] == n.meta[other],
        after == (NodeView { meta: after.meta, ..n }),
        out.contains(EffectView::Emit(EventView::BatteryChangedPeer { level, charging })) == (l.primary
            == Some(peer)),
        n.meta.contains_key(peer) && (n.meta[peer].battery != level || n.meta[peer].charging
            != charging) ==> out.contains(EffectView::Emit(EventView::MeshPeersChanged)),
{
    let told = EffectView::Emit(EventView::BatteryChangedPeer { level, charging });
    if l.primary == Some(peer) {
        assert(out[out.len() - 1] == told);
    }
    let m = meta_of(n.meta, peer);
    if m.battery != level || m.charging != charging {
        assert(out[0] == EffectView::Emit(EventView::MeshPeersChanged));
    }
}

/// A heartbeat is answered to its sender with the acknowledgement of no item, and an
/// acknowledgement settles its sender's part of the item that it names.
pub proof fn heartbeats_and_acknowledgements_are_heard(
    n: NodeView,
    l: Link,
    peer: Id,
    hash: Id,
    after: NodeView,
    out: Seq<EffectView>,
    d: Id,
)
    ensures
        inbound_step(n, l, peer, MsgView::Heartbeat, after, out) ==> after == n && out.contains(
            EffectView::Send { to: peer, msg: MsgView::Ack { hash: zero_id() } },
        ) && out.contains(EffectView::Count(Metric::HeartbeatReceived)),
        inbound_step(n, l, peer, MsgView::Ack { hash }, after, out) ==> {
            &&& out == seq![EffectView::Count(Metric::AckReceived)]
            &&& after == (NodeView { inflight: after.inflight, ..n })
            &&& hash == zero_id() ==> after == n
            &&& hash != zero_id() ==> (after.inflight.contains_key(hash)
                && after.inflight[hash].pending_peers.contains(d)) == (n.inflight.contains_key(hash)
                && n.inflight[hash].pending_peers.contains(d) && d != peer)
        },
{
    acknowledgement_settles_its_sender(n.inflight, hash, peer, d, hash);
    if inbound_step(n, l, peer, MsgView::Heartbeat, after, out) {
        assert(out[0] == EffectView::Count(Metric::HeartbeatReceived));
        assert(out[1] == EffectView::Send { to: peer, msg: MsgView::Ack { hash: zero_id() } });
    }
}

/// A goodbye ends the sender's session and nobody else's; nothing is known of it any
/// more, but it stays trusted. If it was the primary, it is replaced.
pub proof fn goodbye_ends_the_session(
    n: NodeView,
    l: Link,
    peer: Id,
    after: NodeView,
    out: Seq<EffectView>,
    other: Id,
)
    requires
        inbound_step(n, l, peer, MsgView::Bye, after, out),
        other != peer,
    ensures
        out.contains(EffectView::EndSession { peer }),
        forall|i: int|
            0 <= i < out.len() ==> (#[trigger] out[i] matches EffectView::EndSession { peer: p } ==> p
                == peer) && !(out[i] is PurgePeer),
        out.contains(EffectView::FailOver { lost: Some(peer) }) == (l.primary == Some(peer)),
        !after.meta.contains_key(peer) && !after.echo_acked.contains(peer),
        after.meta.contains_key(other) == n.meta.contains_key(other),
        n.meta.contains_key(other) ==> after.meta[other] == n.meta[other],
        after.trusted == n.trusted && after.pending == n.pending && after.inflight == n.inflight,
        n.meta.contains_key(peer) ==> out.contains(EffectView::Emit(EventView::MeshPeersChanged)),
{
    assert(out[0] == EffectView::EndSession { peer });
    if n.meta.contains_key(peer) {
        assert(out[1] == EffectView::Emit(EventView::MeshPeersChanged));
    }
    if l.primary == Some(peer) {
        assert(out[out.len() - 1] == EffectView::FailOver { lost: Some(peer) });
    }
}

/// A peer that revokes this device, or whose user rejects the pairing, is forgotten:
/// its trust is withdrawn and that is stored, its connection ends for good, and it is
/// replaced if it was the primary.
pub proof fn revocation_is_obeyed(
    n: NodeView,
    l: Link,
    peer: Id,
    msg: MsgView,
    after: NodeView,
    out: Seq<EffectView>,
)
    requires
        inbound_step(n, l, peer, msg, after, out),
        msg == MsgView::Revoke || msg == (MsgView::PairConfirm { accept: false }),
    ensures
        !after.trusted.contains_key(peer) && !after.pending.contains_key(peer),
        after == forgotten(n, peer),
        out.contains(EffectView::SavePeers) == n.trusted.contains_key(peer),
        out.contains(EffectView::PurgePeer { peer }),
        out.contains(EffectView::FailOver { lost: Some(peer) }) == (l.primary == Some(peer)),
        msg is Revoke && n.pending.contains_key(peer) ==> out.contains(
            EffectView::Emit(EventView::SasReset),
        ),
        msg is PairConfirm ==> out.contains(
            EffectView::Emit(EventView::SasPeerRejected { peer_id: peer }),
        ) == (n.pending.contains_key(peer) || in_sas_flow(l, peer)),
{
    if n.trusted.contains_key(peer) {
        assert(out[0] == EffectView::SavePeers);
    }
    let k: int = if n.trusted.contains_key(peer) {
        1
    } else {
        0
    };
    if msg is Revoke {
        let j: int = if n.pending.contains_key(peer) {
            assert(out[k] == EffectView::Emit(EventView::SasReset));
            k + 1
        } else {
            k
        };
        assert(out[j] == EffectView::PurgePeer { peer });
    } else {
        assert(out[k] == EffectView::PurgePeer { peer });
        if n.pending.contains_key(peer) || in_sas_flow(l, peer) {
            let last = out.len() - 1 - primary_loss(l.primary, peer).len();
            assert(out[last] == EffectView::Emit(EventView::SasPeerRejected { peer_id: peer }));
        }
    }
    if l.primary == Some(peer) {
        assert(out[out.len() - 1] == EffectView::FailOver { lost: Some(peer) });
    }
}

/// The other user's confirmation counts while a verification is under way here, and
/// gives the user here a full window of ninety seconds again. Trust does not change.
pub proof fn confirmation_of_the_other_user_counts(
    n: NodeView,
    l: Link,
    peer: Id,
    after: NodeView,
    out: Seq<EffectView>,
)
    requires
        inbound_step(n, l, peer, MsgView::PairConfirm { accept: true }, after, out),
        l.now <= LAST_INSTANT,
    ensures
        after.trusted == n.trusted,
        after.pending.contains_key(peer) == n.pending.contains_key(peer),
        n.pending.contains_key(peer) ==> after.pending[peer] == (PendingView {
            expires_at: (l.now + 90_000) as u64,
            ..n.pending[peer]
        }),
        out.contains(EffectView::Emit(EventView::SasPeerConfirmed { peer_id: peer })) == (
        n.pending.contains_key(peer) || in_sas_flow(l, peer)),
{
    if n.pending.contains_key(peer) || in_sas_flow(l, peer) {
        assert(out[0] == EffectView::Emit(EventView::SasPeerConfirmed { peer_id: peer }));
    }
}

/// A request for missing frames is answered to its sender alone, with frames of the
/// item that it names; without such an item nothing is sent.
pub proof fn missing_frames_go_to_who_asks(
    n: NodeView,
    l: Link,
    peer: Id,
    nak: NakView,
    after: NodeView,
    out: Seq<EffectView>,
)
    requires
        inbound_step(n, l, peer, MsgView::Nak(nak), after, out),
    ensures
        ({
            let known = n.inflight.contains_key(nak.item_id);
            let answer = if known {
                nak_frames(n.inflight[nak.item_id].frames, nak)
            } else {
                Seq::empty()
            };
            &&& answer.len() > 0 ==> out == seq![EffectView::SendFrames { to: peer, frames: answer }]
            &&& answer.len() == 0 ==> out.len() == 0
            &&& known ==> after.inflight.contains_key(nak.item_id)
                && after.inflight[nak.item_id].pending_peers
                == n.inflight[nak.item_id].pending_peers && after.inflight[nak.item_id].frames
                == n.inflight[nak.item_id].frames
            &&& after == (NodeView { inflight: after.inflight, ..n })
        }),
{
}

/// A trusted peer whose pairing is not being verified here, and that tells that its user
/// is shown words to compare, opens the verification again: the pair waits, under the key
/// that is trusted and with the words of its session, for ninety seconds, and the state
/// machine learns of it. From anybody else, and without words, it means nothing.
pub proof fn verification_opens_again(
    n: NodeView,
    l: Link,
    peer: Id,
    after: NodeView,
    out: Seq<EffectView>,
)
    requires
        inbound_step(n, l, peer, MsgView::PairVerifyStarted, after, out),
        l.now <= LAST_INSTANT,
    ensures
        ({
            let opens = n.trusted.contains_key(peer) && !n.pending.contains_key(peer)
                && !in_sas_flow(l, peer) && l.sas_words is Some;
            &&& opens ==> out == seq![
                EffectView::Emit(EventView::SasPairingStarted { peer_id: peer }),
            ]
            &&& opens ==> after.pending.contains_key(peer) && {
                let p = after.pending[peer];
                &&& p.static_pub == n.trusted[peer].static_pub && p.name == n.trusted[peer].name
                &&& p.sas_words == views(l.sas_words->0@)
                &&& p.expires_at == l.now + 90_000
                &&& l.sender_addr matches Some(a) ==> p.from == a
            }
            &&& !opens ==> after == n && out.len() == 0
            &&& after == (NodeView { pending: after.pending, ..n })
        }),
{
    if reopens_verify(n, l, peer) {
        crate::handshake::waiting_pair_is_remembered(
            n.pending,
            peer,
            PendingView {
                static_pub: n.trusted[peer].static_pub,
                name: n.trusted[peer].name,
                sas_words: views(l.sas_words->0@),
                from: sender_address(l),
                expires_at: (l.now + PAIRING_WINDOW) as u64,
            },
            l.now,
            after.pending,
            peer,
        );
    }
}

/// A confirmation that finds no verification under way is echoed to a trusted peer that
/// knows of mutual confirmation, unless it was echoed in this session already.
pub proof fn late_confirmation_is_echoed(
    n: NodeView,
    l: Link,
    peer: Id,
    after: NodeView,
    out: Seq<EffectView>,
)
    requires
        inbound_step(n, l, peer, MsgView::PairConfirm { accept: true }, after, out),
        !n.pending.contains_key(peer),
        !in_sas_flow(l, peer),
    ensures
        ({
            let knows = n.trusted.contains_key(peer) && n.meta.contains_key(peer)
                && n.meta[peer].caps.contains("sas-confirm"@);
            out == if knows && !n.echo_acked.contains(peer) {
                seq![EffectView::Send { to: peer, msg: MsgView::PairConfirm { accept: true } }]
            } else {
                Seq::empty()
            }
        }),
{
}

/// A verification is under way with the peer that the state machine names, from when the
/// words are shown until both users have confirmed.
pub proof fn verification_is_under_way(l: Link, peer: Id)
    ensures
        in_sas_flow(l, peer) <==> l.sas_peer == Some(peer) && (l.sas_phase@ == "showing"@
            || l.sas_phase@ == "local_confirmed"@ || l.sas_phase@ == "peer_confirmed"@ || l.sas_phase@
            == "confirmed"@),
{
}

/// A session that ends with a goodbye counts for the backoff by how long it was up: after
/// fifteen seconds what the peer failed before is cleared.
pub proof fn stable_session_clears_the_backoff(
    n: NodeView,
    l: Link,
    peer: Id,
    after: NodeView,
    out: Seq<EffectView>,
    since: u64,
    other: Id,
)
    requires
        inbound_step(n, l, peer, MsgView::Bye, after, out),
        if l.primary == Some(peer) {
            since == l.primary_since
        } else {
            l.sender_since == Some(since)
        },
        other != peer,
    ensures
        after.backoff.contains_key(peer),
        elapsed(since, l.now) >= 15_000 ==> after.backoff[peer].attempt == 0
            && after.backoff[peer].next_ready_at is None,
        elapsed(since, l.now) < 15_000 ==> after.backoff[peer] == state_of(n.backoff, peer),
        after.backoff.contains_key(other) == n.backoff.contains_key(other),
        n.backoff.contains_key(other) ==> after.backoff[other] == n.backoff[other],
{
}

/// A chunk of no transfer that can be, of none or of too many chunks, is ignored.
pub proof fn absurd_chunks_are_ignored(
    n: NodeView,
    l: Link,
    peer: Id,
    c: ChunkView,
    after: NodeView,
    out: Seq<EffectView>,
)
    requires
        inbound_step(n, l, peer, MsgView::Chunk(c), after, out),
        c.total == 0 || c.total > l.max_chunks,
    ensures
        after == n,
        out.len() == 0,
{
}

} // verus!
