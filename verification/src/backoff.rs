//! Per-peer exponential backoff with full jitter for blind redials.
//!
//! A peer that keeps failing is redialed after roughly 0.5, 1, 2, 4 and then
//! 8 seconds. A fresh discovery of the peer bypasses this pacing. Every method
//! takes the time, and the jitter its random number, from the caller.
use vstd::arithmetic::power2::{lemma2_to64, pow2};
use vstd::prelude::*;

use crate::clock::LAST_INSTANT;
use crate::codec::os_random;
use crate::idmap::IdMap;
use crate::ids::Id;

verus! {

/// Delay before jitter of the first retry, in milliseconds.
pub const INITIAL_BASE: u64 = 500;

/// Ceiling of the delay before jitter.
pub const CAP: u64 = 8_000;

/// Failed attempts after which the delay before jitter is [`CAP`].
pub const MAX_SHIFT: u32 = 4;

/// Uptime from which a session that ended counts as having been stable: well
/// above the nine seconds after which a silent peer is given up.
pub const MIN_STABLE: u64 = 15_000;

/// Time in which a peer's handshake rate limiter regains one token.
pub const REFILL_INTERVAL: u64 = 6_000;

/// What [`STEADY_STATE_FLOOR`] adds to [`REFILL_INTERVAL`].
pub const FLOOR_MARGIN: u64 = 500;

/// Least delay once the backoff has reached [`CAP`]: redials at a steady state
/// stay slower than the peer's rate limiter regains tokens.
pub const STEADY_STATE_FLOOR: u64 = REFILL_INTERVAL + FLOOR_MARGIN;

/// Backoff state of one peer.
#[derive(Debug, Clone, Copy, PartialEq, Eq, Structural)]
pub struct PeerBackoff {
    /// Failed attempts since the last reset.
    pub attempt: u32,
    /// When the next blind redial is allowed; at once if absent.
    pub next_ready_at: Option<u64>,
}

impl View for PeerBackoff {
    type V = PeerBackoff;

    open spec fn view(&self) -> PeerBackoff {
        *self
    }
}

/// The state of a peer that has not failed.
pub open spec fn fresh() -> PeerBackoff {
    PeerBackoff { attempt: 0, next_ready_at: None }
}

/// Delay before jitter after `attempt` earlier failures.
pub open spec fn base_delay(attempt: u32) -> int {
    if attempt < MAX_SHIFT {
        INITIAL_BASE * pow2(attempt as nat)
    } else {
        CAP as int
    }
}

/// Least delay of the jitter window under `base`.
pub open spec fn window_floor(base: u64) -> u64 {
    if base >= CAP {
        STEADY_STATE_FLOOR
    } else {
        base / 2
    }
}

/// `random`, uniform over all `u64`, scaled to `window_floor(base)..=base`.
pub open spec fn jittered(base: u64, random: u64) -> int {
    window_floor(base) + (random * (base - window_floor(base) + 1)) / 0x1_0000_0000_0000_0000
}

/// The state after a failure at `now` with `random` as the source of jitter.
pub open spec fn after_failure(b: PeerBackoff, now: u64, random: u64) -> PeerBackoff {
    PeerBackoff {
        attempt: if b.attempt == u32::MAX {
            b.attempt
        } else {
            (b.attempt + 1) as u32
        },
        next_ready_at: Some((now + jittered(base_delay(b.attempt) as u64, random)) as u64),
    }
}

/// The state after a session that was up for `uptime`.
pub open spec fn after_session(b: PeerBackoff, uptime: u64) -> PeerBackoff {
    if uptime >= MIN_STABLE {
        fresh()
    } else {
        b
    }
}

/// A blind redial is allowed at `now`.
pub open spec fn is_ready(b: PeerBackoff, now: u64) -> bool {
    b.next_ready_at matches Some(t) ==> now >= t
}

impl Default for PeerBackoff {
    fn default() -> (b: Self)
        ensures
            b == fresh(),
    {
        Self::new()
    }
}

impl PeerBackoff {
    /// The state of a peer that has not failed.
    pub fn new() -> (b: Self)
        ensures
            b == fresh(),
    {
        PeerBackoff { attempt: 0, next_ready_at: None }
    }

    /// True iff a blind redial is allowed at `now`: no attempt has failed yet,
    /// or the wait after the last failure is over.
    pub fn ready(&self, now: u64) -> (r: bool)
        ensures
            r == is_ready(*self, now),
    {
        match self.next_ready_at {
            None => true,
            Some(t) => now >= t,
        }
    }

    /// Records a failed attempt: schedules the next retry and counts it.
    pub fn on_attempt_failed(&mut self, now: u64, random: u64)
        requires
            now <= LAST_INSTANT,
        ensures
            *final(self) == after_failure(*old(self), now, random),
            final(self).next_ready_at == Some(
                (now + jittered(base_delay(old(self).attempt) as u64, random)) as u64,
            ),
    {
        let delay: u64 = full_jitter(base_delay_for_attempt(self.attempt), random);
        proof {
            base_delay_bounds(self.attempt);
        }
        self.next_ready_at = Some(now + delay);
        self.attempt = self.attempt.saturating_add(1);
    }

    /// Resets the state.
    pub fn on_handshake_ok(&mut self)
        ensures
            *final(self) == fresh(),
    {
        self.attempt = 0;
        self.next_ready_at = None;
    }

    /// Resets the state iff the session that just ended was up for at least
    /// [`MIN_STABLE`]: a shorter one is a flap, not a recovery.
    pub fn on_session_ended(&mut self, uptime: u64)
        ensures
            *final(self) == after_session(*old(self), uptime),
    {
        if uptime >= MIN_STABLE {
            self.attempt = 0;
            self.next_ready_at = None;
        }
    }
}

/// Delay before jitter after `attempt` earlier failures.
pub fn base_delay_for_attempt(attempt: u32) -> (r: u64)
    ensures
        r == base_delay(attempt),
        INITIAL_BASE <= r <= CAP,
{
    let shift: u32 = if attempt < MAX_SHIFT {
        attempt
    } else {
        MAX_SHIFT
    };
    proof {
        lemma2_to64();
        assert(500u64 << 0u32 == 500) by (bit_vector);
        assert(500u64 << 1u32 == 1000) by (bit_vector);
        assert(500u64 << 2u32 == 2000) by (bit_vector);
        assert(500u64 << 3u32 == 4000) by (bit_vector);
        assert(500u64 << 4u32 == 8000) by (bit_vector);
        assert(shift == 0 || shift == 1 || shift == 2 || shift == 3 || shift == 4);
    }
    INITIAL_BASE << shift
}

/// Least delay of the jitter window under `base`.
pub fn jitter_floor(base: u64) -> (r: u64)
    ensures
        r == window_floor(base),
        r <= base,
{
    if base >= CAP {
        STEADY_STATE_FLOOR
    } else {
        base / 2
    }
}

/// A delay between `window_floor(base)` and `base`, uniform in `random`.
pub fn full_jitter(base: u64, random: u64) -> (r: u64)
    ensures
        r == jittered(base, random),
        window_floor(base) <= r <= base,
        random == 0 ==> r == window_floor(base),
        random == u64::MAX ==> r == base,
{
    let floor: u64 = jitter_floor(base);
    let span: u64 = base - floor;
    proof {
        lemma_scaled(random as int, span as int);
    }
    if span == 0 {
        return floor;
    }
    assert((random as u128) * ((span + 1) as u128) <= u128::MAX) by (nonlinear_arith)
        requires
            random <= u64::MAX,
            span < u64::MAX,
    ;
    let product: u128 = random as u128 * (span + 1) as u128;
    assert(product >> 64 == product / 0x1_0000_0000_0000_0000) by (bit_vector);
    floor + (product >> 64) as u64
}

/// The scaled random number stays within the span, and reaches both ends.
proof fn lemma_scaled(random: int, span: int)
    requires
        0 <= random < 0x1_0000_0000_0000_0000,
        0 <= span < 0x1_0000_0000_0000_0000,
    ensures
        0 <= (random * (span + 1)) / 0x1_0000_0000_0000_0000 <= span,
        random == 0 ==> (random * (span + 1)) / 0x1_0000_0000_0000_0000 == 0,
        random == 0xFFFF_FFFF_FFFF_FFFF ==> (random * (span + 1)) / 0x1_0000_0000_0000_0000 == span,
{
    assert(0 <= random * (span + 1) < (span + 1) * 0x1_0000_0000_0000_0000) by (nonlinear_arith)
        requires
            0 <= random < 0x1_0000_0000_0000_0000,
            0 <= span,
    ;
    if random == 0 {
        assert(random * (span + 1) == 0) by (nonlinear_arith)
            requires
                random == 0,
        ;
    }
    if random == 0xFFFF_FFFF_FFFF_FFFF {
        assert(random * (span + 1) == span * 0x1_0000_0000_0000_0000 + (0xFFFF_FFFF_FFFF_FFFF - span))
            by (nonlinear_arith)
            requires
                random == 0xFFFF_FFFF_FFFF_FFFF,
        ;
    }
}

/// Delays before jitter lie between [`INITIAL_BASE`] and [`CAP`], and the wait
/// after any failure between half the base, or [`STEADY_STATE_FLOOR`] at the
/// cap, and the base.
pub proof fn base_delay_bounds(attempt: u32)
    ensures
        INITIAL_BASE <= base_delay(attempt) <= CAP,
        forall|random: u64|
            #![trigger jittered(base_delay(attempt) as u64, random)]
            window_floor(base_delay(attempt) as u64) <= jittered(base_delay(attempt) as u64, random)
                <= base_delay(attempt),
{
    lemma2_to64();
    let base = base_delay(attempt) as u64;
    assert forall|random: u64| #![trigger jittered(base, random)]
        window_floor(base) <= jittered(base, random) <= base by {
        lemma_scaled(random as int, base - window_floor(base));
    }
}

/// At the cap every wait is longer than the peer's rate limiter takes to regain
/// a token, so steady redials cannot drain it.
pub proof fn steady_redials_are_slower_than_the_refill(b: PeerBackoff, now: u64, random: u64)
    requires
        b.attempt >= MAX_SHIFT,
        now <= LAST_INSTANT,
    ensures
        after_failure(b, now, random).next_ready_at->0 > now + REFILL_INTERVAL,
        after_failure(b, now, random).next_ready_at->0 <= now + CAP,
{
    base_delay_bounds(b.attempt);
    lemma_scaled(random as int, CAP - STEADY_STATE_FLOOR);
}

/// A failure holds the next redial back for at least half the base delay, and no longer
/// than the whole.
pub proof fn failure_gates_the_next_redial(b: PeerBackoff, now: u64, random: u64, later: u64)
    requires
        now <= LAST_INSTANT,
    ensures
        later < now + window_floor(base_delay(b.attempt) as u64) ==> !is_ready(
            after_failure(b, now, random),
            later,
        ),
        later >= now + base_delay(b.attempt) ==> is_ready(after_failure(b, now, random), later),
{
    base_delay_bounds(b.attempt);
    assert(window_floor(base_delay(b.attempt) as u64) <= jittered(base_delay(b.attempt) as u64, random));
}

/// Delays before jitter never shrink from one failure to the next.
pub proof fn base_delay_grows(attempt: u32)
    requires
        attempt < u32::MAX,
    ensures
        base_delay(attempt) <= base_delay((attempt + 1) as u32),
        attempt < MAX_SHIFT ==> base_delay((attempt + 1) as u32) == 2 * base_delay(attempt),
{
    lemma2_to64();
}

/// The backoff state of `peer`: fresh where the map has none.
pub open spec fn state_of(map: Map<Id, PeerBackoff>, peer: Id) -> PeerBackoff {
    if map.contains_key(peer) {
        map[peer]
    } else {
        fresh()
    }
}

fn state_in(map: &IdMap<PeerBackoff>, peer: &Id) -> (r: PeerBackoff)
    ensures
        r == state_of(map@, *peer),
{
    match map.get(peer) {
        Some(b) => *b,
        None => PeerBackoff::new(),
    }
}

/// Asks whether `peer` may be redialed at `now`, giving it a fresh state if it
/// had none.
pub fn peer_ready(map: &mut IdMap<PeerBackoff>, peer: Id, now: u64) -> (r: bool)
    ensures
        final(map)@ == old(map)@.insert(peer, state_of(old(map)@, peer)),
        r == is_ready(state_of(old(map)@, peer), now),
{
    let b = state_in(map, &peer);
    map.insert(peer, b);
    b.ready(now)
}

/// Records the end of a session of `peer` that was up for `uptime`.
pub fn peer_session_ended(map: &mut IdMap<PeerBackoff>, peer: Id, uptime: u64)
    ensures
        final(map)@ == old(map)@.insert(peer, after_session(state_of(old(map)@, peer), uptime)),
{
    let mut b = state_in(map, &peer);
    b.on_session_ended(uptime);
    map.insert(peer, b);
}

/// Records a failed dial of `peer`, with `random` as the source of jitter.
pub fn peer_dial_failed_with(map: &mut IdMap<PeerBackoff>, peer: Id, now: u64, random: u64)
    requires
        now <= LAST_INSTANT,
    ensures
        final(map)@ == old(map)@.insert(
            peer,
            after_failure(state_of(old(map)@, peer), now, random),
        ),
{
    let mut b = state_in(map, &peer);
    b.on_attempt_failed(now, random);
    map.insert(peer, b);
}

/// Records a failed dial of `peer`, with the operating system's randomness as
/// the source of jitter. Where it has none to give, the wait is the longest.
pub fn peer_dial_failed(map: &mut IdMap<PeerBackoff>, peer: Id, now: u64)
    requires
        now <= LAST_INSTANT,
    ensures
        exists|random: u64|
            final(map)@ == old(map)@.insert(
                peer,
                #[trigger] after_failure(state_of(old(map)@, peer), now, random),
            ),
{
    let random: u64 = match os_random() {
        Some(random) => random,
        None => u64::MAX,
    };
    peer_dial_failed_with(map, peer, now, random);
}

/// The delay before jitter is half a second after the first failure, and then one, two
/// and four seconds, and eight from then on.
pub proof fn delays_double_to_the_cap(attempt: u32)
    ensures
        base_delay(0) == 500,
        base_delay(1) == 1_000,
        base_delay(2) == 2_000,
        base_delay(3) == 4_000,
        attempt >= 4 ==> base_delay(attempt) == 8_000,
{
    lemma2_to64();
}

/// A failure counts one attempt more and schedules the next from now; what the peer
/// failed before decides how long it waits.
pub proof fn failures_are_counted(b: PeerBackoff, now: u64, random: u64)
    requires
        now <= LAST_INSTANT,
        b.attempt < u32::MAX,
    ensures
        ({
            let after = after_failure(b, now, random);
            &&& after.attempt == b.attempt + 1
            &&& after.next_ready_at matches Some(t) && now + base_delay(b.attempt) / 2 <= t <= now
                + base_delay(b.attempt)
        }),
{
    base_delay_bounds(b.attempt);
    let base = base_delay(b.attempt) as u64;
    assert(window_floor(base) <= jittered(base, random) <= base);
}

/// A session that was up for fifteen seconds clears what the peer failed before, a
/// shorter one does not; and a peer may be redialed once its wait is over.
pub proof fn stable_sessions_clear_failures(b: PeerBackoff, uptime: u64, now: u64)
    ensures
        uptime >= 15_000 ==> after_session(b, uptime).attempt == 0 && after_session(
            b,
            uptime,
        ).next_ready_at is None,
        uptime < 15_000 ==> after_session(b, uptime) == b,
        is_ready(b, now) <==> b.next_ready_at is None || now >= b.next_ready_at->0,
{
}

} // verus!
