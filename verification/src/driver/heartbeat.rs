//! Keeping sessions alive, and noticing when a peer has fallen silent.
use vstd::prelude::*;

use crate::backoff::{after_session, peer_session_ended, state_of, PeerBackoff};
use crate::clock::{elapsed, elapsed_since};
use crate::driver::effects::{Effect, EffectView};
use crate::driver::peers::BATTERY_UNKNOWN;
use crate::idmap::{kept, IdMap, Keep};
use crate::ids::{same_id, Id};
use crate::wire::{views, Event, EventView, Metric, Msg, MsgView};

verus! {

/// How often peers are pinged, and how long one may be silent before a ping counts
/// as missed.
pub const HEARTBEAT_INTERVAL: u64 = 3_000;

/// Missed pings in a row after which a peer counts as gone.
pub const MAX_MISSED: u32 = 3;

/// A secondary peer's session.
#[derive(Debug, Clone, Copy)]
pub struct Secondary {
    pub peer: Id,
    /// When it was last heard.
    pub last_rx: u64,
    /// Since when its session has been up.
    pub established: Option<u64>,
}

/// What the link is like when it is time to ping.
pub struct Pulse {
    pub now: u64,
    /// The primary has a session.
    pub linked: bool,
    pub primary: Option<Id>,
    /// When the primary was last heard.
    pub last_rx: u64,
    /// Since when the primary's session has been up.
    pub established: u64,
    /// This device's battery; [`BATTERY_UNKNOWN`] before it was read.
    pub level: u8,
    pub charging: bool,
    pub secondaries: Vec<Secondary>,
}

/// The pings that were missed in a row.
pub struct Heart {
    pub primary: u32,
    pub secondary: IdMap<u32>,
}

/// View of a [`Heart`].
#[verifier::ext_equal]
pub ghost struct HeartView {
    pub primary: u32,
    pub secondary: Map<Id, u32>,
}

impl View for Heart {
    type V = HeartView;

    open spec fn view(&self) -> HeartView {
        HeartView { primary: self.primary, secondary: self.secondary@ }
    }
}

/// No ping missed yet.
pub fn new_heart() -> (r: Heart)
    ensures
        r@ == (HeartView { primary: 0, secondary: Map::empty() }),
{
    Heart { primary: 0, secondary: IdMap::new() }
}

/// Nothing was heard for longer than a ping takes.
pub open spec fn silent(last_rx: u64, now: u64) -> bool {
    elapsed(last_rx, now) > HEARTBEAT_INTERVAL
}

/// A further missed ping is one too many.
pub open spec fn last_straw(missed: u32) -> bool {
    missed + 1 >= MAX_MISSED
}

/// The primary is gone: it was silent for too many pings.
pub open spec fn primary_dies(h: HeartView, p: Pulse) -> bool {
    p.linked && silent(p.last_rx, p.now) && last_straw(h.primary)
}

/// The primary's missed pings after one more.
pub open spec fn primary_missed(h: HeartView, p: Pulse) -> u32 {
    if !p.linked {
        h.primary
    } else if !silent(p.last_rx, p.now) || last_straw(h.primary) {
        0
    } else {
        (h.primary + 1) as u32
    }
}

/// The backoff after the primary was pinged.
pub open spec fn primary_backoff(b: Map<Id, PeerBackoff>, h: HeartView, p: Pulse) -> Map<Id, PeerBackoff> {
    if primary_dies(h, p) && p.primary is Some {
        let peer = p.primary->0;
        b.insert(peer, after_session(state_of(b, peer), elapsed(p.established, p.now)))
    } else {
        b
    }
}

/// What pinging the primary brings about.
pub open spec fn primary_effects(h: HeartView, p: Pulse) -> Seq<EffectView> {
    if !p.linked {
        Seq::empty()
    } else {
        let ping = seq![
            EffectView::Count(Metric::HeartbeatSent),
            EffectView::SendPrimary { msg: MsgView::Heartbeat },
        ];
        let battery = if p.level == BATTERY_UNKNOWN {
            Seq::empty()
        } else {
            seq![
                EffectView::SendPrimary {
                    msg: MsgView::BatteryStatus { level: p.level, charging: p.charging },
                },
            ]
        };
        let missed = if silent(p.last_rx, p.now) {
            seq![EffectView::Count(Metric::HeartbeatMissed)]
        } else {
            Seq::empty()
        };
        let gone = if primary_dies(h, p) {
            seq![
                EffectView::Count(Metric::DisconnectTimeout),
                EffectView::TouchPrimary,
                EffectView::FailOver { lost: p.primary },
            ]
        } else {
            Seq::empty()
        };
        ping + battery + missed + gone
    }
}

/// The missed pings of `peer`.
pub open spec fn missed_by(m: Map<Id, u32>, peer: Id) -> u32 {
    if m.contains_key(peer) {
        m[peer]
    } else {
        0
    }
}

/// A secondary is gone.
pub open spec fn secondary_dies(m: Map<Id, u32>, s: Secondary, now: u64) -> bool {
    silent(s.last_rx, now) && last_straw(missed_by(m, s.peer))
}

/// The missed pings after a secondary was pinged.
pub open spec fn pinged(m: Map<Id, u32>, s: Secondary, now: u64) -> Map<Id, u32> {
    if !silent(s.last_rx, now) || secondary_dies(m, s, now) {
        m.remove(s.peer)
    } else {
        m.insert(s.peer, (missed_by(m, s.peer) + 1) as u32)
    }
}

/// The missed pings after secondaries were pinged in turn.
pub open spec fn all_pinged(m: Map<Id, u32>, all: Seq<Secondary>, now: u64) -> Map<Id, u32>
    decreases all.len(),
{
    if all.len() == 0 {
        m
    } else {
        pinged(all_pinged(m, all.drop_last(), now), all.last(), now)
    }
}

/// The backoff after secondaries were pinged in turn: that of one that is gone
/// counts how long its own session was up.
pub open spec fn secondary_backoff(
    b: Map<Id, PeerBackoff>,
    m: Map<Id, u32>,
    all: Seq<Secondary>,
    now: u64,
) -> Map<Id, PeerBackoff>
    decreases all.len(),
{
    if all.len() == 0 {
        b
    } else {
        let rest = secondary_backoff(b, m, all.drop_last(), now);
        let s = all.last();
        if secondary_dies(all_pinged(m, all.drop_last(), now), s, now) && s.established is Some {
            rest.insert(
                s.peer,
                after_session(state_of(rest, s.peer), elapsed(s.established->0, now)),
            )
        } else {
            rest
        }
    }
}

/// What pinging secondaries in turn brings about.
pub open spec fn secondary_effects(m: Map<Id, u32>, all: Seq<Secondary>, now: u64) -> Seq<EffectView>
    decreases all.len(),
{
    if all.len() == 0 {
        Seq::empty()
    } else {
        let s = all.last();
        let gone = if secondary_dies(all_pinged(m, all.drop_last(), now), s, now) {
            seq![
                EffectView::EndSession { peer: s.peer },
                EffectView::Emit(EventView::PeerRevoked { peer_id: s.peer }),
                EffectView::Emit(EventView::MeshPeersChanged),
            ]
        } else {
            Seq::empty()
        };
        secondary_effects(m, all.drop_last(), now) + seq![
            EffectView::Send { to: s.peer, msg: MsgView::Heartbeat },
        ] + gone
    }
}

/// Keeps the peers that are secondaries still.
pub struct AmongSecondaries {
    pub all: Vec<Secondary>,
}

/// `peer` is one of `all`.
pub open spec fn is_secondary(all: Seq<Secondary>, peer: Id) -> bool {
    exists|i: int| 0 <= i < all.len() && (#[trigger] all[i]).peer == peer
}

impl Keep<u32> for AmongSecondaries {
    open spec fn keeps(&self, key: Id, value: u32) -> bool {
        is_secondary(self.all@, key)
    }

    fn keep(&self, key: &Id, value: &u32) -> (r: bool) {
        let mut i: usize = 0;
        while i < self.all.len()
            invariant
                i <= self.all@.len(),
                forall|j: int| 0 <= j < i ==> (#[trigger] self.all@[j]).peer != *key,
            decreases self.all@.len() - i,
        {
            if same_id(&self.all[i].peer, key) {
                assert(self.all@[i as int].peer == *key);
                return true;
            }
            i = i + 1;
        }
        false
    }
}

/// The missed pings of those that are secondaries still.
pub open spec fn still_secondary(m: Map<Id, u32>, all: Vec<Secondary>) -> Map<Id, u32> {
    kept::<u32, AmongSecondaries>(m, (AmongSecondaries { all }))
}

fn copy_secondaries(all: &Vec<Secondary>) -> (r: Vec<Secondary>)
    ensures
        r@ == all@,
{
    let mut r: Vec<Secondary> = Vec::new();
    let mut i: usize = 0;
    while i < all.len()
        invariant
            i <= all@.len(),
            r@ == all@.subrange(0, i as int),
        decreases all@.len() - i,
    {
        r.push(all[i]);
        i = i + 1;
        assert(r@ =~= all@.subrange(0, i as int));
    }
    assert(r@ =~= all@);
    r
}

fn ping_primary(heart: &mut Heart, backoff: &mut IdMap<PeerBackoff>, pulse: &Pulse) -> (out: Vec<Effect>)
    ensures
        views(out@) == primary_effects(old(heart)@, *pulse),
        final(heart)@ == (HeartView {
            primary: primary_missed(old(heart)@, *pulse),
            ..old(heart)@
        }),
        final(backoff)@ == primary_backoff(old(backoff)@, old(heart)@, *pulse),
{
    let ghost h = heart@;
    let mut out: Vec<Effect> = Vec::new();
    if !pulse.linked {
        assert(views(out@) =~= Seq::empty());
        return out;
    }
    out.push(Effect::Count(Metric::HeartbeatSent));
    out.push(Effect::SendPrimary { msg: Msg::Heartbeat });
    if pulse.level != BATTERY_UNKNOWN {
        out.push(
            Effect::SendPrimary {
                msg: Msg::BatteryStatus { level: pulse.level, charging: pulse.charging },
            },
        );
    }
    if elapsed_since(pulse.last_rx, pulse.now) > HEARTBEAT_INTERVAL {
        out.push(Effect::Count(Metric::HeartbeatMissed));
        if heart.primary >= MAX_MISSED - 1 {
            out.push(Effect::Count(Metric::DisconnectTimeout));
            if let Some(peer) = pulse.primary {
                peer_session_ended(backoff, peer, elapsed_since(pulse.established, pulse.now));
            }
            out.push(Effect::TouchPrimary);
            out.push(Effect::FailOver { lost: pulse.primary });
            heart.primary = 0;
        } else {
            heart.primary = heart.primary + 1;
        }
    } else {
        heart.primary = 0;
    }
    assert(views(out@) =~= primary_effects(h, *pulse));
    out
}

fn ping_secondaries(
    missed: &mut IdMap<u32>,
    backoff: &mut IdMap<PeerBackoff>,
    all: &Vec<Secondary>,
    now: u64,
) -> (out: Vec<Effect>)
    ensures
        views(out@) == secondary_effects(old(missed)@, all@, now),
        final(missed)@ == all_pinged(old(missed)@, all@, now),
        final(backoff)@ == secondary_backoff(old(backoff)@, old(missed)@, all@, now),
{
    let ghost m = missed@;
    let ghost b = backoff@;
    let mut out: Vec<Effect> = Vec::new();
    let mut i: usize = 0;
    assert(all@.subrange(0, 0) =~= Seq::empty());
    assert(views(out@) =~= Seq::empty());
    while i < all.len()
        invariant
            i <= all@.len(),
            missed@ == all_pinged(m, all@.subrange(0, i as int), now),
            backoff@ == secondary_backoff(b, m, all@.subrange(0, i as int), now),
            views(out@) == secondary_effects(m, all@.subrange(0, i as int), now),
        decreases all@.len() - i,
    {
        let ghost so_far = views(out@);
        let ghost next = all@.subrange(0, i + 1);
        let ghost before = missed@;
        proof {
            assert(next.drop_last() =~= all@.subrange(0, i as int));
            assert(next.last() == all@[i as int]);
        }
        let s = all[i];
        out.push(Effect::Send { to: s.peer, msg: Msg::Heartbeat });
        if elapsed_since(s.last_rx, now) > HEARTBEAT_INTERVAL {
            let count: u32 = match missed.get(&s.peer) {
                Some(n) => *n,
                None => 0,
            };
            if count >= MAX_MISSED - 1 {
                if let Some(t) = s.established {
                    peer_session_ended(backoff, s.peer, elapsed_since(t, now));
                }
                out.push(Effect::EndSession { peer: s.peer });
                let _ = missed.remove(&s.peer);
                out.push(Effect::Emit(Event::PeerRevoked { peer_id: s.peer }));
                out.push(Effect::Emit(Event::MeshPeersChanged));
            } else {
                missed.insert(s.peer, count + 1);
            }
        } else {
            let _ = missed.remove(&s.peer);
        }
        assert(views(out@) =~= secondary_effects(m, next, now));
        assert(missed@ == pinged(before, s, now));
        i = i + 1;
    }
    assert(all@.subrange(0, all@.len() as int) =~= all@);
    out
}

/// Pings every peer, and drops those that fell silent. A silent primary is
/// replaced; a silent secondary only loses its own session.
pub fn heartbeat_tick(heart: &mut Heart, backoff: &mut IdMap<PeerBackoff>, pulse: &Pulse) -> (out: Vec<Effect>)
    ensures
        ({
            let m = still_secondary(old(heart)@.secondary, pulse.secondaries);
            let b = primary_backoff(old(backoff)@, old(heart)@, *pulse);
            &&& views(out@) == primary_effects(old(heart)@, *pulse) + secondary_effects(
                m,
                pulse.secondaries@,
                pulse.now,
            )
            &&& final(heart)@ == (HeartView {
                primary: primary_missed(old(heart)@, *pulse),
                secondary: all_pinged(m, pulse.secondaries@, pulse.now),
            })
            &&& final(backoff)@ == secondary_backoff(b, m, pulse.secondaries@, pulse.now)
        }),
{
    let ghost h = heart@;
    let mut out = ping_primary(heart, backoff, pulse);
    let ghost first = views(out@);
    let rule = AmongSecondaries { all: copy_secondaries(&pulse.secondaries) };
    heart.secondary.retain(&rule);
    assert(heart.secondary@ =~= still_secondary(h.secondary, pulse.secondaries));
    let mut more = ping_secondaries(&mut heart.secondary, backoff, &pulse.secondaries, pulse.now);
    let ghost second = views(more@);
    out.append(&mut more);
    assert(views(out@) =~= first + second);
    out
}

/// A secondary that falls silent does not touch the primary's link.
pub proof fn silent_secondary_spares_the_primary(m: Map<Id, u32>, all: Seq<Secondary>, now: u64)
    ensures
        forall|i: int|
            0 <= i < secondary_effects(m, all, now).len() ==> {
                let e = #[trigger] secondary_effects(m, all, now)[i];
                !(e is FailOver) && !(e is DropPrimary) && !(e matches EffectView::Emit(
                    EventView::PeerLost { .. },
                ))
            },
    decreases all.len(),
{
    if all.len() > 0 {
        let rest = secondary_effects(m, all.drop_last(), now);
        silent_secondary_spares_the_primary(m, all.drop_last(), now);
        assert forall|i: int| 0 <= i < secondary_effects(m, all, now).len() implies {
            let e = #[trigger] secondary_effects(m, all, now)[i];
            !(e is FailOver) && !(e is DropPrimary) && !(e matches EffectView::Emit(
                EventView::PeerLost { .. },
            ))
        } by {
            if i < rest.len() {
                assert(secondary_effects(m, all, now)[i] == rest[i]);
            }
        }
    }
}

/// The primary's missed pings after `n` pulses like `p`.
pub open spec fn missed_after(h: HeartView, p: Pulse, n: nat) -> HeartView
    decreases n,
{
    if n == 0 {
        h
    } else {
        let before = missed_after(h, p, (n - 1) as nat);
        HeartView { primary: primary_missed(before, p), ..before }
    }
}

/// A linked primary that stays silent is dropped on the third pulse after it was
/// last heard, and not before.
pub proof fn three_silent_pulses_end_a_session(h: HeartView, p: Pulse)
    requires
        h.primary == 0,
        p.linked,
        silent(p.last_rx, p.now),
    ensures
        !primary_dies(missed_after(h, p, 0), p),
        !primary_dies(missed_after(h, p, 1), p),
        primary_dies(missed_after(h, p, 2), p),
{
    reveal_with_fuel(missed_after, 3);
}

/// Hearing the primary once makes up for every ping it missed.
pub proof fn being_heard_clears_the_count(h: HeartView, p: Pulse)
    requires
        p.linked,
        !silent(p.last_rx, p.now),
    ensures
        primary_missed(h, p) == 0,
        !primary_dies(h, p),
{
}

/// Every peer with a session is pinged: the primary, which is also told this device's
/// battery once that was read, and each secondary by itself.
pub proof fn every_peer_is_pinged(h: HeartView, p: Pulse, m: Map<Id, u32>, i: int)
    ensures
        ({
            let out = primary_effects(h, p) + secondary_effects(m, p.secondaries@, p.now);
            &&& p.linked ==> out.contains(EffectView::SendPrimary { msg: MsgView::Heartbeat })
            &&& p.linked && p.level != 255 ==> out.contains(
                EffectView::SendPrimary {
                    msg: MsgView::BatteryStatus { level: p.level, charging: p.charging },
                },
            )
            &&& 0 <= i < p.secondaries@.len() ==> out.contains(
                EffectView::Send { to: p.secondaries@[i].peer, msg: MsgView::Heartbeat },
            )
        }),
        !p.linked ==> primary_effects(h, p).len() == 0,
{
    let first = primary_effects(h, p);
    let rest = secondary_effects(m, p.secondaries@, p.now);
    let out = first + rest;
    if p.linked {
        assert(out[1] == EffectView::SendPrimary { msg: MsgView::Heartbeat });
        if p.level != 255 {
            assert(out[2] == EffectView::SendPrimary {
                msg: MsgView::BatteryStatus { level: p.level, charging: p.charging },
            });
        }
    }
    if 0 <= i < p.secondaries@.len() {
        lemma_pings(m, p.secondaries@, p.now, i);
        let ping = EffectView::Send { to: p.secondaries@[i].peer, msg: MsgView::Heartbeat };
        assert(out[first.len() + rest.index_of(ping)] == ping);
    }
}

proof fn lemma_pings(m: Map<Id, u32>, all: Seq<Secondary>, now: u64, i: int)
    requires
        0 <= i < all.len(),
    ensures
        secondary_effects(m, all, now).contains(
            EffectView::Send { to: all[i].peer, msg: MsgView::Heartbeat },
        ),
    decreases all.len(),
{
    let rest = all.drop_last();
    let before = secondary_effects(m, rest, now);
    let out = secondary_effects(m, all, now);
    let ping = EffectView::Send { to: all[i].peer, msg: MsgView::Heartbeat };
    if i < rest.len() {
        assert(rest[i] == all[i]);
        lemma_pings(m, rest, now, i);
        assert(out[before.index_of(ping)] == ping);
    } else {
        assert(out[before.len() as int] == ping);
    }
}

/// The primary is given up on the third pulse in a row on which it has been silent for
/// more than three seconds, and then it is replaced; on any other pulse it is not.
pub proof fn silent_primary_is_replaced(h: HeartView, p: Pulse)
    ensures
        ({
            let quiet = p.linked && elapsed(p.last_rx, p.now) > 3_000;
            let out = primary_effects(h, p);
            &&& out.contains(EffectView::FailOver { lost: p.primary }) == (quiet && h.primary >= 2)
            &&& forall|i: int|
                0 <= i < out.len() ==> (#[trigger] out[i] is FailOver ==> quiet && h.primary >= 2)
            &&& out.contains(EffectView::Count(Metric::HeartbeatMissed)) == quiet
            &&& primary_missed(h, p) == if quiet && h.primary < 2 {
                (h.primary + 1) as u32
            } else if p.linked {
                0
            } else {
                h.primary
            }
        }),
{
    let out = primary_effects(h, p);
    if p.linked && elapsed(p.last_rx, p.now) > 3_000 {
        let k: int = if p.level == BATTERY_UNKNOWN {
            2
        } else {
            3
        };
        assert(out[k] == EffectView::Count(Metric::HeartbeatMissed));
        if h.primary >= 2 {
            assert(out[out.len() - 1] == EffectView::FailOver { lost: p.primary });
        }
    }
}

/// So it is with each secondary, which loses its own session; its missed pings are
/// counted apart from those of the others.
pub proof fn silent_secondary_loses_its_session(m: Map<Id, u32>, all: Seq<Secondary>, now: u64, i: int)
    requires
        0 <= i < all.len(),
        forall|j: int, k: int|
            0 <= j < k < all.len() ==> (#[trigger] all[j]).peer != (#[trigger] all[k]).peer,
    ensures
        ({
            let s = all[i];
            let missed: u32 = if m.contains_key(s.peer) {
                m[s.peer]
            } else {
                0
            };
            let quiet = elapsed(s.last_rx, now) > 3_000;
            let after = all_pinged(m, all, now);
            &&& secondary_effects(m, all, now).contains(EffectView::EndSession { peer: s.peer }) == (
            quiet && missed >= 2)
            &&& after.contains_key(s.peer) == (quiet && missed < 2)
            &&& quiet && missed < 2 ==> after[s.peer] == missed + 1
        }),
    decreases all.len(),
{
    let s = all[i];
    let rest = all.drop_last();
    let last = all.last();
    let before = secondary_effects(m, rest, now);
    let out = secondary_effects(m, all, now);
    let end = EffectView::EndSession { peer: s.peer };
    assert(forall|j: int, k: int|
        0 <= j < k < rest.len() ==> (#[trigger] rest[j]).peer != (#[trigger] rest[k]).peer) by {
        assert forall|j: int, k: int| 0 <= j < k < rest.len() implies (#[trigger] rest[j]).peer != (
        #[trigger] rest[k]).peer by {
            assert(all[j].peer != all[k].peer);
        }
    }
    if i < rest.len() {
        assert(rest[i] == s);
        assert(all[i].peer != all[all.len() - 1].peer);
        silent_secondary_loses_its_session(m, rest, now, i);
        if before.contains(end) {
            assert(out[before.index_of(end)] == end);
        }
        if out.contains(end) {
            let k = out.index_of(end);
            assert(k < before.len());
            assert(before[k] == end);
        }
    } else {
        assert(!is_secondary(rest, s.peer)) by {
            assert forall|j: int| 0 <= j < rest.len() implies (#[trigger] rest[j]).peer != s.peer by {
                assert(all[j].peer != all[i].peer);
            }
        }
        lemma_untouched(m, rest, now, s.peer);
        if secondary_dies(all_pinged(m, rest, now), s, now) {
            assert(out[before.len() as int + 1] == end);
        }
        if before.contains(end) {
            lemma_ended_is_pinged(m, rest, now, before.index_of(end));
        }
        if out.contains(end) {
            let k = out.index_of(end);
            if k < before.len() {
                assert(before[k] == end);
                lemma_ended_is_pinged(m, rest, now, k);
            }
        }
    }
}

proof fn lemma_untouched(m: Map<Id, u32>, all: Seq<Secondary>, now: u64, peer: Id)
    requires
        !is_secondary(all, peer),
    ensures
        missed_by(all_pinged(m, all, now), peer) == missed_by(m, peer),
    decreases all.len(),
{
    if all.len() > 0 {
        let rest = all.drop_last();
        assert(all[all.len() - 1].peer != peer);
        assert(!is_secondary(rest, peer)) by {
            assert forall|j: int| 0 <= j < rest.len() implies (#[trigger] rest[j]).peer != peer by {
                assert(all[j].peer != peer);
            }
        }
        lemma_untouched(m, rest, now, peer);
    }
}

proof fn lemma_ended_is_pinged(m: Map<Id, u32>, all: Seq<Secondary>, now: u64, k: int)
    requires
        0 <= k < secondary_effects(m, all, now).len(),
        secondary_effects(m, all, now)[k] is EndSession,
    ensures
        is_secondary(all, (secondary_effects(m, all, now)[k])->EndSession_peer),
    decreases all.len(),
{
    if all.len() > 0 {
        let rest = all.drop_last();
        let before = secondary_effects(m, rest, now);
        if k < before.len() {
            lemma_ended_is_pinged(m, rest, now, k);
            let peer = before[k]->EndSession_peer;
            let j = choose|j: int| 0 <= j < rest.len() && (#[trigger] rest[j]).peer == peer;
            assert(all[j].peer == peer);
        } else {
            assert(all[all.len() - 1].peer == (secondary_effects(m, all, now)[k])->EndSession_peer);
        }
    }
}

/// The missed pings of a peer count for as long as it is a secondary.
pub proof fn counts_last_as_long_as_the_secondary(m: Map<Id, u32>, all: Vec<Secondary>, peer: Id)
    ensures
        still_secondary(m, all).contains_key(peer) == (m.contains_key(peer) && exists|i: int|
            0 <= i < all@.len() && (#[trigger] all@[i]).peer == peer),
        still_secondary(m, all).contains_key(peer) ==> still_secondary(m, all)[peer] == m[peer],
{
}

/// The backoff of a primary that is given up goes by how long its session was up, and
/// nobody else's changes.
pub proof fn lost_primary_is_judged_by_its_session(
    b: Map<Id, PeerBackoff>,
    h: HeartView,
    p: Pulse,
    peer: Id,
    other: Id,
)
    requires
        p.primary == Some(peer),
        other != peer,
    ensures
        ({
            let after = primary_backoff(b, h, p);
            let given_up = p.linked && elapsed(p.last_rx, p.now) > 3_000 && h.primary >= 2;
            &&& given_up && elapsed(p.established, p.now) >= 15_000 ==> after.contains_key(peer)
                && after[peer].attempt == 0 && after[peer].next_ready_at is None
            &&& given_up && elapsed(p.established, p.now) < 15_000 ==> after.contains_key(peer)
                && after[peer] == state_of(b, peer)
            &&& !given_up ==> after == b
            &&& after.contains_key(other) == b.contains_key(other)
            &&& b.contains_key(other) ==> after[other] == b[other]
        }),
{
}

} // verus!
