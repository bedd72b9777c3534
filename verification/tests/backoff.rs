use fluxsyncd::backoff::{
    base_delay_for_attempt, full_jitter, jitter_floor, peer_dial_failed, peer_dial_failed_with,
    peer_ready, peer_session_ended, PeerBackoff, CAP, MIN_STABLE, REFILL_INTERVAL,
    STEADY_STATE_FLOOR,
};
use fluxsyncd::idmap::IdMap;

const MIN: u64 = 0;
const MAX: u64 = u64::MAX;
const NOW: u64 = 1_000_000;

fn split_mix(state: &mut u64) -> u64 {
    *state = state.wrapping_add(0x9E37_79B9_7F4A_7C15);
    let mut z = *state;
    z = (z ^ (z >> 30)).wrapping_mul(0xBF58_476D_1CE4_E5B9);
    z = (z ^ (z >> 27)).wrapping_mul(0x94D0_49BB_1331_11EB);
    z ^ (z >> 31)
}

#[test]
fn growth_sequence_min_jitter_follows_floor() {
    let mut pb = PeerBackoff::new();
    let floor_ms = STEADY_STATE_FLOOR;
    let expected = [250, 500, 1000, 2000, floor_ms, floor_ms, floor_ms];
    let mut cursor = NOW;
    for &exp in &expected {
        pb.on_attempt_failed(cursor, MIN);
        let scheduled = pb.next_ready_at.expect("scheduled after failure");
        assert_eq!(scheduled - cursor, exp);
        cursor = scheduled;
    }
    assert_eq!(floor_ms, 6_500);
}

#[test]
fn growth_sequence_max_jitter_never_exceeds_cap() {
    let mut pb = PeerBackoff::new();
    let expected = [500, 1000, 2000, 4000, 8000, 8000, 8000];
    let mut cursor = NOW;
    for &exp in &expected {
        pb.on_attempt_failed(cursor, MAX);
        let scheduled = pb.next_ready_at.expect("scheduled after failure");
        let delay = scheduled - cursor;
        assert_eq!(delay, exp);
        assert!(delay <= CAP, "delay {delay:?} exceeded CAP {CAP:?}");
        cursor = scheduled;
    }
}

#[test]
fn jitter_stays_within_floor_to_base_bounds() {
    for seed in 0..64u64 {
        let mut rng = seed;
        for attempt in 0..8u32 {
            let base = base_delay_for_attempt(attempt);
            let floor = jitter_floor(base);
            let delay = full_jitter(base, split_mix(&mut rng));
            assert!(
                delay >= floor && delay <= base,
                "seed {seed} attempt {attempt}: delay {delay:?} out of [{floor:?}, {base:?}]"
            );
            assert!(base <= CAP);
        }
    }
}

#[test]
fn steady_floor_outpaces_limiter_refill() {
    assert!(
        STEADY_STATE_FLOOR > REFILL_INTERVAL,
        "at-cap redial floor ({STEADY_STATE_FLOOR:?}) must exceed the limiter's \
         sustained refill interval ({:?})",
        REFILL_INTERVAL
    );
    assert!(
        STEADY_STATE_FLOOR < CAP,
        "at-cap jitter window [{STEADY_STATE_FLOOR:?}, {CAP:?}] must be non-empty \
         (floor >= CAP would kill jitter entirely at steady state)"
    );
    let refill_per_sec = 1_000.0 / REFILL_INTERVAL as f64;
    let derived = 1.0 / (REFILL_INTERVAL as f64 / 1_000.0);
    assert!((refill_per_sec - derived).abs() < f64::EPSILON);
}

#[test]
fn ready_gates_until_scheduled_time_then_opens() {
    let mut pb = PeerBackoff::new();
    let now = NOW;
    assert!(pb.ready(now), "fresh backoff must be immediately ready");
    pb.on_attempt_failed(now, MAX);
    assert!(!pb.ready(now), "must not be ready immediately after a failure");
    assert!(!pb.ready(now + 499));
    assert!(pb.ready(now + 500));
    assert!(pb.ready(now + 501));
}

#[test]
fn reset_on_success_returns_to_fast_initial_retry() {
    let mut pb = PeerBackoff::new();
    let now = NOW;
    for _ in 0..5 {
        pb.on_attempt_failed(now, MAX);
    }
    assert!(!pb.ready(now));
    pb.on_handshake_ok();
    assert!(pb.ready(now), "reset must clear the pending wait");
    assert_eq!(pb.attempt, 0);
    pb.on_attempt_failed(now, MAX);
    assert_eq!(pb.next_ready_at.unwrap() - now, 500);
}

#[test]
fn on_session_ended_keeps_escalated_attempt_when_short_lived() {
    let mut pb = PeerBackoff::new();
    let now = NOW;
    for _ in 0..3 {
        pb.on_attempt_failed(now, MAX);
    }
    assert_eq!(pb.attempt, 3);
    pb.on_session_ended(MIN_STABLE - 1);
    assert_eq!(pb.attempt, 3, "a short-lived session must not reset backoff");
    assert!(!pb.ready(now), "the pending wait must survive the short-lived session");
}

#[test]
fn on_session_ended_resets_when_stable() {
    let mut pb = PeerBackoff::new();
    let now = NOW;
    for _ in 0..3 {
        pb.on_attempt_failed(now, MAX);
    }
    assert_eq!(pb.attempt, 3);
    pb.on_session_ended(MIN_STABLE);
    assert_eq!(pb.attempt, 0, "a session that reached MIN_STABLE must reset backoff");
    assert!(pb.ready(now), "reset must clear the pending wait");
}

#[test]
fn peers_are_independent() {
    let mut a = PeerBackoff::new();
    let mut b = PeerBackoff::new();
    let now = NOW;
    a.on_attempt_failed(now, MAX);
    a.on_attempt_failed(now, MAX);
    assert!(!a.ready(now));
    assert!(b.ready(now), "peer b must be unaffected by peer a's failures");
    b.on_attempt_failed(now, MAX);
    assert_eq!(a.attempt, 2);
    assert_eq!(b.attempt, 1);
}

#[test]
fn base_delay_doubles_up_to_the_cap() {
    let delays: Vec<u64> = (0..7).map(base_delay_for_attempt).collect();
    assert_eq!(delays, vec![500, 1000, 2000, 4000, 8000, 8000, 8000]);
    assert_eq!(base_delay_for_attempt(u32::MAX), 8000);
    assert_eq!(jitter_floor(4000), 2000);
    assert_eq!(jitter_floor(8000), 6500);
}

#[test]
fn attempts_are_counted_without_overflow() {
    let mut pb = PeerBackoff { attempt: u32::MAX, next_ready_at: None };
    pb.on_attempt_failed(NOW, MIN);
    assert_eq!(pb.attempt, u32::MAX);
    assert_eq!(pb.next_ready_at, Some(NOW + 6_500));
}

#[test]
fn backoff_map_keeps_peers_apart() {
    let mut map: IdMap<PeerBackoff> = IdMap::new();
    let (a, b) = ([1u8; 32], [2u8; 32]);
    assert!(peer_ready(&mut map, a, NOW));
    peer_dial_failed_with(&mut map, a, NOW, MAX);
    assert!(!peer_ready(&mut map, a, NOW));
    assert!(peer_ready(&mut map, b, NOW));
    peer_session_ended(&mut map, a, MIN_STABLE);
    assert!(peer_ready(&mut map, a, NOW));
}

#[test]
fn system_randomness_schedules_within_the_window() {
    let mut map: IdMap<PeerBackoff> = IdMap::new();
    let peer = [9u8; 32];
    peer_dial_failed(&mut map, peer, NOW);
    assert_eq!(map.get(&peer).unwrap().attempt, 1);
    let at = map.get(&peer).unwrap().next_ready_at.unwrap();
    assert!(at >= NOW + 250 && at <= NOW + 500);
    let mut drawn: Vec<u64> = Vec::new();
    for i in 0..16u8 {
        let p = [i; 32];
        let mut fresh: IdMap<PeerBackoff> = IdMap::new();
        for _ in 0..5 {
            peer_dial_failed(&mut fresh, p, NOW);
        }
        drawn.push(fresh.get(&p).unwrap().next_ready_at.unwrap());
    }
    assert!(drawn.iter().any(|d| *d != drawn[0]), "the jitter must vary");
}
