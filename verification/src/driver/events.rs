//! What goes on around the state machine: before and after each event, at the
//! daemon's start, and while nothing happens.
use vstd::prelude::*;
use vstd::string::*;

use crate::clock::{elapsed, elapsed_since};
use crate::driver::effects::{Effect, EffectView};
use crate::driver::inflight::{purge_peer_from_inflight, Inflight, InflightView, WithoutPeer};
use crate::driver::node::{Node, NodeView};
use crate::driver::outbound::{Desk, DeskView};
use crate::driver::peers::BATTERY_UNKNOWN;
use crate::driver::resync::OutboxEntry;
use crate::driver::store::{choose_boot_trusted_peer, lowest, BootPeer, BootView};
use crate::handshake::{TrustedPeer, TrustedView};
use crate::idmap::{updated_map, IdMap};
use crate::ids::{same_id, Id};
use crate::net::{ip_of, is_redialable_addr, redialable, SocketAddr};
use crate::text::same_text;
use crate::wire::{views, Action, ActionView, Event, EventView};

verus! {

/// The hashes of items that were dropped while they waited for a decision.
pub open spec fn dropped_hashes(actions: Seq<ActionView>) -> Set<Id>
    decreases actions.len(),
{
    if actions.len() == 0 {
        Set::empty()
    } else {
        let rest = dropped_hashes(actions.drop_last());
        match actions.last() {
            ActionView::PendingDropped { hashes } => rest.union(hashes.to_set()),
            _ => rest,
        }
    }
}

fn remove_all(stage: &mut IdMap<OutboxEntry>, hashes: &Vec<Id>)
    ensures
        final(stage)@ == old(stage)@.remove_keys(hashes@.to_set()),
{
    let ghost before = stage@;
    let mut i: usize = 0;
    assert(hashes@.subrange(0, 0) =~= Seq::empty());
    assert(stage@ =~= before.remove_keys(hashes@.subrange(0, 0).to_set()));
    while i < hashes.len()
        invariant
            i <= hashes@.len(),
            stage@ == before.remove_keys(hashes@.subrange(0, i as int).to_set()),
        decreases hashes@.len() - i,
    {
        let ghost so_far = hashes@.subrange(0, i as int);
        let ghost next = hashes@.subrange(0, i + 1);
        let _ = stage.remove(&hashes[i]);
        proof {
            assert(next =~= so_far.push(hashes@[i as int]));
            assert(next.to_set() =~= so_far.to_set().insert(hashes@[i as int])) by {
                assert forall|h: Id| next.to_set().contains(h) == so_far.to_set().insert(
                    hashes@[i as int],
                ).contains(h) by {
                    if so_far.contains(h) {
                        let k = so_far.index_of(h);
                        assert(next[k] == h);
                    }
                    if h == hashes@[i as int] {
                        assert(next[i as int] == h);
                    }
                }
            }
            assert(stage@ =~= before.remove_keys(next.to_set()));
        }
        i = i + 1;
    }
    assert(hashes@.subrange(0, hashes@.len() as int) =~= hashes@);
}

/// Takes the items that the state machine dropped while they waited out of the
/// stage.
pub fn purge_dropped_pending_from_outbox_stage(actions: &Vec<Action>, stage: &mut IdMap<OutboxEntry>)
    ensures
        final(stage)@ == old(stage)@.remove_keys(dropped_hashes(views(actions@))),
{
    let ghost before = stage@;
    let ghost all = views(actions@);
    let mut i: usize = 0;
    assert(all.subrange(0, 0) =~= Seq::empty());
    assert(stage@ =~= before.remove_keys(dropped_hashes(all.subrange(0, 0))));
    while i < actions.len()
        invariant
            i <= actions@.len(),
            all == views(actions@),
            stage@ == before.remove_keys(dropped_hashes(all.subrange(0, i as int))),
        decreases actions@.len() - i,
    {
        let ghost so_far = stage@;
        let ghost next = all.subrange(0, i + 1);
        proof {
            assert(next.drop_last() =~= all.subrange(0, i as int));
            assert(next.last() == actions@[i as int]@);
        }
        if let Action::PendingDropped { hashes } = &actions[i] {
            remove_all(stage, hashes);
        }
        assert(stage@ =~= before.remove_keys(dropped_hashes(next)));
        i = i + 1;
    }
    assert(all.subrange(0, all.len() as int) =~= all);
}

/// The memory after a wipe for safety.
pub open spec fn wiped_node(n: NodeView) -> NodeView {
    NodeView { stage: Map::empty(), inflight: Map::empty(), ..n }
}

/// What a wipe for safety brings about, before anybody is told of the new state.
pub open spec fn wipe_effects(persists: bool) -> Seq<EffectView> {
    if persists {
        seq![EffectView::ClearOutbox, EffectView::ClearVault]
    } else {
        seq![EffectView::ClearOutbox]
    }
}

/// Follows the state machine when it has wiped its history for safety, that is
/// when the number of its wipes is no longer `last_wipe_gen`: nothing that was
/// kept, staged or in flight is left, and no image.
pub fn sync_security_wipe_if_needed(
    node: &mut Node,
    desk: &mut Desk,
    last_wipe_gen: &mut u64,
    wipe_gen: u64,
    persists: bool,
) -> (out: Vec<Effect>)
    ensures
        *final(last_wipe_gen) == wipe_gen,
        wipe_gen == *old(last_wipe_gen) ==> {
            &&& final(node)@ == old(node)@
            &&& final(desk)@ == old(desk)@
            &&& views(out@) == Seq::<EffectView>::empty()
        },
        wipe_gen != *old(last_wipe_gen) ==> {
            &&& final(node)@ == wiped_node(old(node)@)
            &&& final(desk)@ == (DeskView { images: Seq::empty(), ..old(desk)@ })
            &&& views(out@) == wipe_effects(persists)
        },
{
    let ghost n = node@;
    let ghost d = desk@;
    let mut out: Vec<Effect> = Vec::new();
    if wipe_gen == *last_wipe_gen {
        assert(views(out@) =~= Seq::empty());
        return out;
    }
    *last_wipe_gen = wipe_gen;
    out.push(Effect::ClearOutbox);
    node.stage.clear();
    node.inflight.clear();
    desk.images.clear();
    if persists {
        out.push(Effect::ClearVault);
    }
    assert(node@ =~= wiped_node(n));
    assert(desk@ =~= (DeskView { images: Seq::empty(), ..d }));
    assert(views(out@) =~= wipe_effects(persists));
    out
}

/// This device's battery as it was last read.
#[derive(Debug, Clone, Copy, PartialEq, Eq, Structural)]
pub struct SelfBattery {
    pub level: u8,
    pub charging: bool,
}

/// A battery that was not read yet.
pub fn unread_battery() -> (r: SelfBattery)
    ensures
        r == (SelfBattery { level: BATTERY_UNKNOWN, charging: false }),
{
    SelfBattery { level: BATTERY_UNKNOWN, charging: false }
}

/// The battery after an event.
pub open spec fn battery_after(b: SelfBattery, e: EventView) -> SelfBattery {
    match e {
        EventView::BatteryChangedSelf { level, charging } => SelfBattery { level, charging },
        _ => b,
    }
}

/// The state machine has to know who else is linked before it handles the event.
pub open spec fn concerns_other_peers(e: EventView) -> bool {
    e is GhostTimeout || e is PeerSeen
}

/// Prepares an event: notes the battery, and says whether the handshake counts and
/// whether the state machine has to know who else is linked.
pub fn before_event(battery: &mut SelfBattery, event: &Event) -> (r: (bool, bool))
    ensures
        *final(battery) == battery_after(*old(battery), event@),
        r.0 == (event@ is HandshakeOk),
        r.1 == concerns_other_peers(event@),
{
    match event {
        Event::HandshakeOk => (true, false),
        Event::BatteryChangedSelf { level, charging } => {
            *battery = SelfBattery { level: *level, charging: *charging };
            (false, false)
        },
        Event::GhostTimeout => (false, true),
        Event::PeerSeen { .. } => (false, true),
        _ => (false, false),
    }
}

/// The items in flight after an event: none waits for a peer that is gone.
pub open spec fn inflight_after(m: Map<Id, InflightView>, e: EventView) -> Map<Id, InflightView> {
    match e {
        EventView::PeerRevoked { peer_id } => updated_map::<Inflight, WithoutPeer>(
            m,
            (WithoutPeer { peer: peer_id }),
        ),
        _ => m,
    }
}

/// The memory after an event, and what the state machine made of it, but for a wipe.
pub open spec fn event_node(n: NodeView, e: EventView, actions: Seq<ActionView>) -> NodeView {
    NodeView {
        stage: n.stage.remove_keys(dropped_hashes(actions)),
        inflight: inflight_after(n.inflight, e),
        ..n
    }
}

/// Follows the state machine once it has handled an event, and before what it
/// wants is carried out.
pub fn after_event(
    node: &mut Node,
    desk: &mut Desk,
    last_wipe_gen: &mut u64,
    wipe_gen: u64,
    persists: bool,
    event: &Event,
    actions: &Vec<Action>,
) -> (out: Vec<Effect>)
    ensures
        *final(last_wipe_gen) == wipe_gen,
        wipe_gen == *old(last_wipe_gen) ==> {
            &&& final(node)@ == event_node(old(node)@, event@, views(actions@))
            &&& final(desk)@ == old(desk)@
            &&& views(out@) == Seq::<EffectView>::empty()
        },
        wipe_gen != *old(last_wipe_gen) ==> {
            &&& final(node)@ == wiped_node(old(node)@)
            &&& final(desk)@ == (DeskView { images: Seq::empty(), ..old(desk)@ })
            &&& views(out@) == wipe_effects(persists)
        },
{
    let ghost n = node@;
    purge_dropped_pending_from_outbox_stage(actions, &mut node.stage);
    let out = sync_security_wipe_if_needed(node, desk, last_wipe_gen, wipe_gen, persists);
    if let Event::PeerRevoked { peer_id } = event {
        purge_peer_from_inflight(*peer_id, &mut node.inflight);
    }
    proof {
        if wipe_gen == *old(last_wipe_gen) {
            assert(node@ =~= event_node(n, event@, views(actions@)));
        } else {
            assert(node.inflight@ =~= Map::<Id, InflightView>::empty());
            assert(node@ =~= wiped_node(n));
        }
    }
    out
}

/// Follows the state machine once it knows that a peer is gone for good: what
/// waited for the peer goes, and if the peer was the `active` one, another has to
/// take its place.
pub fn after_retire(node: &mut Node, peer: &Id, active: &Id, actions: &Vec<Action>) -> (replace: bool)
    ensures
        final(node)@ == (NodeView {
            stage: old(node)@.stage.remove_keys(dropped_hashes(views(actions@))),
            ..old(node)@
        }),
        replace == (*active == *peer),
{
    let ghost n = node@;
    purge_dropped_pending_from_outbox_stage(actions, &mut node.stage);
    assert(node@ =~= (NodeView {
        stage: n.stage.remove_keys(dropped_hashes(views(actions@))),
        ..n
    }));
    same_id(active, peer)
}

/// After a wipe nothing is left to be sent, asked for again or fetched.
pub proof fn wipe_leaves_nothing(n: NodeView, h: Id)
    ensures
        !wiped_node(n).stage.contains_key(h),
        !wiped_node(n).inflight.contains_key(h),
        wiped_node(n).trusted == n.trusted,
{
}

/// How long a peer may be missing before it is given up.
pub const GHOST_TIMEOUT: u64 = 600_000;

/// How often it is looked whether a peer is missing.
pub const GHOST_INTERVAL: u64 = 5_000;

/// A pause from which the device must have been asleep.
pub const WAKE_JUMP: u64 = 30_000;

/// The daemon looks for a peer that it knows.
pub open spec fn missing_peer(phase: Seq<char>, peer_name: Seq<char>) -> bool {
    phase == "discovering"@ && peer_name.len() > 0
}

/// The peer has been missing for too long.
pub open spec fn ghosted(since: Option<u64>, phase: Seq<char>, peer_name: Seq<char>, now: u64) -> bool {
    missing_peer(phase, peer_name) && since is Some && elapsed(since->0, now) > GHOST_TIMEOUT
}

/// Since when the peer has been missing, after a look at `now`.
pub open spec fn missing_since(
    since: Option<u64>,
    phase: Seq<char>,
    peer_name: Seq<char>,
    now: u64,
) -> Option<u64> {
    if !missing_peer(phase, peer_name) || ghosted(since, phase, peer_name, now) {
        None
    } else if since is Some {
        since
    } else {
        Some(now)
    }
}

/// Looks whether the peer has been missing for too long, and has to be given up.
pub fn ghost_check(since: &mut Option<u64>, phase: &str, peer_name: &str, now: u64) -> (give_up: bool)
    ensures
        give_up == ghosted(*old(since), phase@, peer_name@, now),
        *final(since) == missing_since(*old(since), phase@, peer_name@, now),
{
    if same_text(phase, "discovering") && !peer_name.is_empty() {
        match *since {
            Some(start) => {
                if elapsed_since(start, now) > GHOST_TIMEOUT {
                    *since = None;
                    true
                } else {
                    false
                }
            },
            None => {
                *since = Some(now);
                false
            },
        }
    } else {
        *since = None;
        false
    }
}

/// Starts anew after a pause in which the device was asleep.
pub fn after_pause(since: &mut Option<u64>, pause_start: u64, now: u64)
    ensures
        *final(since) == if elapsed(pause_start, now) > WAKE_JUMP {
            None
        } else {
            *old(since)
        },
{
    if elapsed_since(pause_start, now) > WAKE_JUMP {
        *since = None;
    }
}

/// A peer is given up only after it was missing at two looks that lie further
/// apart than the timeout.
pub proof fn giving_up_takes_the_whole_timeout(
    phase: Seq<char>,
    peer_name: Seq<char>,
    first: u64,
    later: u64,
)
    requires
        missing_peer(phase, peer_name),
        later <= first + GHOST_TIMEOUT,
    ensures
        !ghosted(missing_since(None, phase, peer_name, first), phase, peer_name, later),
{
}

/// The peers that can be dialed from the start.
pub open spec fn boot_dials(peers: Seq<BootView>) -> Seq<(Id, SocketAddr)>
    decreases peers.len(),
{
    if peers.len() == 0 {
        Seq::empty()
    } else {
        let rest = boot_dials(peers.drop_last());
        match peers.last().last_addr {
            Some(a) => if redialable(ip_of(a)) {
                rest.push((peers.last().peer_id, a))
            } else {
                rest
            },
            None => rest,
        }
    }
}

/// Where the peers of the peers file can be dialed: an address that anybody on
/// the network can pretend to have does not count.
pub fn redial_seeds(peers: &Vec<BootPeer>) -> (r: Vec<(Id, SocketAddr)>)
    ensures
        r@ == boot_dials(views(peers@)),
{
    let ghost all = views(peers@);
    let mut r: Vec<(Id, SocketAddr)> = Vec::new();
    let mut i: usize = 0;
    assert(all.subrange(0, 0) =~= Seq::empty());
    while i < peers.len()
        invariant
            i <= peers@.len(),
            all == views(peers@),
            r@ == boot_dials(all.subrange(0, i as int)),
        decreases peers@.len() - i,
    {
        proof {
            let next = all.subrange(0, i + 1);
            assert(next.drop_last() =~= all.subrange(0, i as int));
            assert(next.last() == peers@[i as int]@);
        }
        if let Some(a) = peers[i].last_addr {
            if is_redialable_addr(a.ip()) {
                r.push((peers[i].peer_id, a));
            }
        }
        i = i + 1;
    }
    assert(all.subrange(0, all.len() as int) =~= all);
    r
}

/// The trusted peer that is named at the start.
pub open spec fn boot_choice(trusted: Map<Id, TrustedView>, primary: Option<Id>, k: Id) -> bool {
    &&& trusted.contains_key(k)
    &&& if primary is Some && trusted.contains_key(primary->0) {
        k == primary->0
    } else {
        lowest(trusted, k)
    }
}

/// What the state machine is told at the start.
pub open spec fn boot_told(named: Option<Seq<char>>, start_on: bool) -> Seq<EventView> {
    let name = match named {
        Some(n) => seq![EventView::SetTrustedPeer { name: n }],
        None => Seq::empty(),
    };
    let on = if start_on {
        seq![EventView::ToggleOn]
    } else {
        Seq::empty()
    };
    name + on
}

/// What the state machine is told at the start: a trusted peer, if there is one,
/// and to go on, where it was asked for.
pub fn boot_events(trusted: &IdMap<TrustedPeer>, primary: Option<Id>, start_on: bool) -> (r: Vec<Event>)
    ensures
        trusted@ == Map::<Id, TrustedView>::empty() ==> views(r@) == boot_told(None, start_on),
        trusted@ != Map::<Id, TrustedView>::empty() ==> exists|k: Id| #[trigger]
            boot_choice(trusted@, primary, k) && views(r@) == boot_told(
                Some(trusted@[k].name),
                start_on,
            ),
{
    let mut r: Vec<Event> = Vec::new();
    let ghost mut named: Option<Seq<char>> = None;
    let chosen = choose_boot_trusted_peer(trusted, primary);
    if let Some(p) = chosen {
        proof {
            named = Some(p.name@);
            let k = choose|k: Id| #[trigger]
                trusted@.contains_key(k) && p@ == trusted@[k] && if primary is Some
                    && trusted@.contains_key(primary->0) {
                    k == primary->0
                } else {
                    lowest(trusted@, k)
                };
            assert(boot_choice(trusted@, primary, k));
            assert(trusted@[k].name == p.name@);
            assert(trusted@.dom().contains(k));
        }
        r.push(Event::SetTrustedPeer { name: p.name });
    }
    if start_on {
        r.push(Event::ToggleOn);
    }
    assert(views(r@) =~= boot_told(named, start_on));
    r
}

/// What the state machine is told of a peer that is linked from the start.
pub open spec fn linked_from_start(peer_id: Id, name: Seq<char>) -> Seq<EventView> {
    seq![
        EventView::ToggleOn,
        EventView::PeerSeen { peer_id, name },
        EventView::HandshakeOk,
        EventView::BatteryChangedSelf { level: 80, charging: false },
        EventView::BatteryChangedPeer { level: 80, charging: false },
    ]
}

/// What the state machine is told of a peer that is linked from the start.
pub fn pre_paired_events(peer_id: Id, name: String) -> (r: Vec<Event>)
    ensures
        views(r@) == linked_from_start(peer_id, name@),
{
    let mut r: Vec<Event> = Vec::new();
    r.push(Event::ToggleOn);
    r.push(Event::PeerSeen { peer_id, name });
    r.push(Event::HandshakeOk);
    r.push(Event::BatteryChangedSelf { level: 80, charging: false });
    r.push(Event::BatteryChangedPeer { level: 80, charging: false });
    assert(views(r@) =~= linked_from_start(peer_id, name@));
    r
}

/// An item that waits for the user leaves the stage iff the state machine dropped it.
pub proof fn dropped_items_leave_the_stage(
    n: NodeView,
    e: EventView,
    actions: Seq<ActionView>,
    h: Id,
)
    requires
        n.stage.contains_key(h),
    ensures
        ({
            let after = event_node(n, e, actions);
            let dropped = exists|i: int|
                0 <= i < actions.len() && (#[trigger] actions[i] matches ActionView::PendingDropped {
                    hashes,
                } && hashes.contains(h));
            &&& after.stage.contains_key(h) == !dropped
            &&& !dropped ==> after.stage[h] == n.stage[h]
            &&& after == (NodeView { stage: after.stage, inflight: after.inflight, ..n })
        }),
{
    lemma_dropped(actions, h);
}

proof fn lemma_dropped(actions: Seq<ActionView>, h: Id)
    ensures
        dropped_hashes(actions).contains(h) <==> exists|i: int|
            0 <= i < actions.len() && (#[trigger] actions[i] matches ActionView::PendingDropped {
                hashes,
            } && hashes.contains(h)),
    decreases actions.len(),
{
    if actions.len() > 0 {
        let rest = actions.drop_last();
        lemma_dropped(rest, h);
        if dropped_hashes(rest).contains(h) {
            let i = choose|i: int|
                0 <= i < rest.len() && (#[trigger] rest[i] matches ActionView::PendingDropped {
                    hashes,
                } && hashes.contains(h));
            assert(actions[i] == rest[i]);
        }
        if let ActionView::PendingDropped { hashes } = actions.last() {
            assert(hashes.to_set().contains(h) == hashes.contains(h));
            assert(actions[actions.len() - 1] == actions.last());
        }
        if exists|i: int|
            0 <= i < actions.len() && (#[trigger] actions[i] matches ActionView::PendingDropped {
                hashes,
            } && hashes.contains(h)) {
            let i = choose|i: int|
                0 <= i < actions.len() && (#[trigger] actions[i] matches ActionView::PendingDropped {
                    hashes,
                } && hashes.contains(h));
            if i < rest.len() {
                assert(rest[i] == actions[i]);
            }
        }
    }
}

/// Once a peer is gone for good no item waits for it; other events leave what is in
/// flight as it is.
pub proof fn nothing_waits_for_a_revoked_peer(
    n: NodeView,
    e: EventView,
    actions: Seq<ActionView>,
    peer: Id,
    h: Id,
)
    ensures
        e == (EventView::PeerRevoked { peer_id: peer }) && event_node(
            n,
            e,
            actions,
        ).inflight.contains_key(h) ==> !event_node(n, e, actions).inflight[h].pending_peers.contains(
            peer,
        ),
        !(e is PeerRevoked) ==> event_node(n, e, actions).inflight == n.inflight,
{
    crate::driver::inflight::purge_leaves_nothing_to_the_peer(n.inflight, peer);
}

/// A wipe reaches what is kept for others, and the stored history where there is one;
/// whom the daemon trusts it does not touch.
pub proof fn wipe_reaches_everything_kept(n: NodeView, persists: bool)
    ensures
        wipe_effects(persists).contains(EffectView::ClearOutbox),
        wipe_effects(persists).contains(EffectView::ClearVault) == persists,
        wiped_node(n).stage == Map::<Id, crate::driver::resync::OutboxView>::empty(),
        wiped_node(n).inflight == Map::<Id, InflightView>::empty(),
        wiped_node(n) == (NodeView {
            stage: wiped_node(n).stage,
            inflight: wiped_node(n).inflight,
            ..n
        }),
{
    assert(wipe_effects(persists)[0] == EffectView::ClearOutbox);
    if persists {
        assert(wipe_effects(persists)[1] == EffectView::ClearVault);
    }
}

/// A known peer that has been looked for without a break for more than ten minutes is
/// given up; what breaks the search starts the time anew.
pub proof fn lost_peer_is_given_up(
    since: u64,
    phase: Seq<char>,
    peer_name: Seq<char>,
    now: u64,
)
    ensures
        ({
            let seeks = phase == "discovering"@ && peer_name.len() > 0;
            &&& ghosted(Some(since), phase, peer_name, now) == (seeks && elapsed(since, now) > 600_000)
            &&& !ghosted(None, phase, peer_name, now)
            &&& missing_since(None, phase, peer_name, now) == if seeks {
                Some(now)
            } else {
                None
            }
            &&& seeks && elapsed(since, now) <= 600_000 ==> missing_since(
                Some(since),
                phase,
                peer_name,
                now,
            ) == Some(since)
            &&& !seeks ==> missing_since(Some(since), phase, peer_name, now) is None
        }),
{
}

/// Every stored peer with an address that may be redialed can be dialed there from the
/// start, and no other.
pub proof fn stored_addresses_are_redialed(peers: Seq<BootView>, peer: Id, a: SocketAddr)
    ensures
        boot_dials(peers).contains((peer, a)) <==> redialable(ip_of(a)) && exists|i: int|
            0 <= i < peers.len() && (#[trigger] peers[i]).peer_id == peer && peers[i].last_addr == Some(
                a,
            ),
    decreases peers.len(),
{
    if peers.len() > 0 {
        let rest = peers.drop_last();
        let before = boot_dials(rest);
        let all = boot_dials(peers);
        let x = (peer, a);
        stored_addresses_are_redialed(rest, peer, a);
        if before.contains(x) {
            assert(all[before.index_of(x)] == x);
            let i = choose|i: int|
                0 <= i < rest.len() && (#[trigger] rest[i]).peer_id == peer && rest[i].last_addr
                    == Some(a);
            assert(peers[i] == rest[i]);
        }
        assert(peers[peers.len() - 1] == peers.last());
        if exists|i: int|
            0 <= i < peers.len() && (#[trigger] peers[i]).peer_id == peer && peers[i].last_addr
                == Some(a) {
            let i = choose|i: int|
                0 <= i < peers.len() && (#[trigger] peers[i]).peer_id == peer && peers[i].last_addr
                    == Some(a);
            if i < rest.len() {
                assert(rest[i] == peers[i]);
            } else if redialable(ip_of(a)) {
                assert(all[before.len() as int] == x);
            }
        }
        if all.contains(x) {
            let k = all.index_of(x);
            if k < before.len() {
                assert(before[k] == x);
            }
        }
    }
}

/// At the start the state machine is told the name of a trusted peer, and then to go on
/// where it was asked for.
pub proof fn start_is_told(name: Seq<char>)
    ensures
        boot_told(Some(name), true) == seq![
            EventView::SetTrustedPeer { name },
            EventView::ToggleOn,
        ],
        boot_told(Some(name), false) == seq![EventView::SetTrustedPeer { name }],
        boot_told(None, true) == seq![EventView::ToggleOn],
        boot_told(None, false).len() == 0,
{
    assert(boot_told(Some(name), true) =~= seq![
        EventView::SetTrustedPeer { name },
        EventView::ToggleOn,
    ]);
    assert(boot_told(Some(name), false) =~= seq![EventView::SetTrustedPeer { name }]);
    assert(boot_told(None, true) =~= seq![EventView::ToggleOn]);
}

/// This device's battery is the one that was told last.
pub proof fn battery_is_the_last_told(b: SelfBattery, level: u8, charging: bool, e: EventView)
    ensures
        battery_after(b, EventView::BatteryChangedSelf { level, charging }) == (SelfBattery {
            level,
            charging,
        }),
        !(e is BatteryChangedSelf) ==> battery_after(b, e) == b,
{
}

/// The trusted peer that is named at the start is the primary where that is trusted, and
/// else the one with the lowest id.
pub proof fn named_peer_at_the_start(
    trusted: Map<Id, TrustedView>,
    primary: Option<Id>,
    k: Id,
    other: Id,
)
    requires
        boot_choice(trusted, primary, k),
    ensures
        trusted.contains_key(k),
        primary matches Some(p) ==> (trusted.contains_key(p) ==> k == p),
        !(primary is Some && trusted.contains_key(primary->0)) && trusted.contains_key(other) && other
            != k ==> crate::ids::bytes_less(k@, other@),
{
}

} // verus!
