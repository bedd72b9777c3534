use fluxsyncd::handshake::{
    add_pending, admit_handshake, is_window_open, peer_id_for, reap_pending, reaps_primary,
    tofu_trusted_peer, undo_admission, unreap, Install, PendingPair, PrimaryLink, Refusal,
    TrustedPeer, MAX_PENDING_PAIRS, MAX_TOFU_TRUSTED_PEERS, PAIRING_WINDOW, TOFU_PLACEHOLDER_NAME,
};
use fluxsyncd::idmap::IdMap;
use fluxsyncd::net::{IpAddr, SocketAddr};

fn words() -> [String; 6] {
    std::array::from_fn(|i| format!("word{i}"))
}

fn somewhere() -> SocketAddr {
    SocketAddr::new(IpAddr::V4(0x7F00_0001), 1)
}

fn nobody() -> PrimaryLink {
    PrimaryLink { peer: None, generation: 0, live: false }
}

#[test]
fn fs030_tofu_placeholder_is_single_source() {
    let peer = tofu_trusted_peer([7u8; 32]);
    assert_eq!(peer.name, TOFU_PLACEHOLDER_NAME);
    assert_eq!(peer.name, "New Peer");
    let disk_name = peer.name.clone();
    assert_eq!(disk_name, peer.name);
}

#[test]
fn fs032_pairing_window_is_short() {
    assert!(PAIRING_WINDOW <= 90_000, "pairing window must not exceed 90s");
    assert!(PAIRING_WINDOW >= 30_000, "pairing window must stay usable for a QR scan");
}

#[test]
fn strangers_get_in_only_while_the_window_is_open() {
    let mut trusted: IdMap<TrustedPeer> = IdMap::new();
    let key = [3u8; 32];
    let r = admit_handshake(&mut trusted, key, None, &nobody(), 10);
    assert!(matches!(r, Err(Refusal::Untrusted)));
    let r = admit_handshake(&mut trusted, key, Some(10), &nobody(), 10);
    assert!(matches!(r, Err(Refusal::Untrusted)));
    assert!(trusted.is_empty());
    let a = admit_handshake(&mut trusted, key, Some(11), &nobody(), 10).expect("open");
    assert!(a.newly_trusted && a.install == Install::IfEmpty && !a.replaces_live);
    assert_eq!(a.peer_id, peer_id_for(&key));
    assert!(trusted.contains_key(&a.peer_id));
    undo_admission(&mut trusted, a.peer_id);
    assert!(trusted.is_empty());
    assert!(is_window_open(Some(11), 10) && !is_window_open(Some(10), 10));
}

#[test]
fn trusted_peers_come_back_under_their_key() {
    let mut trusted: IdMap<TrustedPeer> = IdMap::new();
    let key = [3u8; 32];
    let peer = peer_id_for(&key);
    trusted.insert(peer, TrustedPeer { static_pub: key, name: "mine".to_string() });
    let link = PrimaryLink { peer: Some(peer), generation: 4, live: true };
    let a = admit_handshake(&mut trusted, key, None, &link, 10).expect("trusted");
    assert!(!a.newly_trusted && a.replaces_live);
    assert_eq!(a.install, Install::IfGeneration(4));
    assert_eq!(a.name, "mine");
    trusted.insert(peer, TrustedPeer { static_pub: [9u8; 32], name: "mine".to_string() });
    let r = admit_handshake(&mut trusted, key, Some(99), &link, 10);
    assert!(matches!(r, Err(Refusal::KeyMismatch)));
}

#[test]
fn a_full_trust_store_takes_no_strangers() {
    let mut trusted: IdMap<TrustedPeer> = IdMap::new();
    for i in 0..MAX_TOFU_TRUSTED_PEERS {
        let mut id = [0u8; 32];
        id[0] = (i % 256) as u8;
        id[1] = (i / 256) as u8;
        trusted.insert(id, tofu_trusted_peer(id));
    }
    let r = admit_handshake(&mut trusted, [0xEE; 32], Some(99), &nobody(), 10);
    assert!(matches!(r, Err(Refusal::TrustFull)));
}

#[test]
fn pairs_that_wait_are_capped() {
    let mut pending: IdMap<PendingPair> = IdMap::new();
    for i in 0..MAX_PENDING_PAIRS as u64 + 1 {
        let mut id = [0u8; 32];
        id[0] = i as u8;
        add_pending(&mut pending, id, id, "p".to_string(), words(), somewhere(), 1_000 + i);
    }
    assert_eq!(pending.len(), MAX_PENDING_PAIRS);
    assert!(!pending.contains_key(&[0u8; 32]), "the one that expires first goes");
    add_pending(&mut pending, [0xFF; 32], [1; 32], "q".to_string(), words(), somewhere(), 1_000_000);
    assert_eq!(pending.len(), 1, "expired pairs are swept out");
    assert_eq!(pending.get(&[0xFF; 32]).unwrap().expires_at, 1_000_000 + PAIRING_WINDOW);
}

#[test]
fn pairs_nobody_confirmed_lose_their_trust() {
    let mut pending: IdMap<PendingPair> = IdMap::new();
    let mut trusted: IdMap<TrustedPeer> = IdMap::new();
    let (old, new) = ([1u8; 32], [2u8; 32]);
    for (id, at) in [(old, 0), (new, 50_000)] {
        trusted.insert(id, tofu_trusted_peer(id));
        add_pending(&mut pending, id, id, "p".to_string(), words(), somewhere(), at);
    }
    let reaped = reap_pending(&mut pending, &mut trusted, 100_000);
    assert!(!trusted.contains_key(&old) && trusted.contains_key(&new));
    assert!(!pending.contains_key(&old) && pending.contains_key(&new));
    assert!(reaps_primary(&reaped, Some(old)) && !reaps_primary(&reaped, Some(new)));
    unreap(&mut pending, &mut trusted, reaped);
    assert!(trusted.contains_key(&old) && pending.contains_key(&old));
}
