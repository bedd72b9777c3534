use fluxsyncd::backoff::PeerBackoff;
use fluxsyncd::driver::content::{clipboard_dedup_hash, encode_png, image_rgba_hash};
use fluxsyncd::driver::discovered::ResolvedPeer;
use fluxsyncd::driver::effects::Effect;
use fluxsyncd::driver::events::{after_retire, purge_dropped_pending_from_outbox_stage};
use fluxsyncd::driver::inbound::{complete_reassembled_item, dispatch_inbound_frame, Link};
use fluxsyncd::driver::inflight::{
    acknowledge, answer_nak, purge_peer_from_inflight, retransmit_tick, track_sent, Inflight,
};
use fluxsyncd::driver::node::Node;
use fluxsyncd::driver::outbound::{
    fan_out, forward_frames, forward_item, gate_outbound, serve_frames, Outgoing,
};
use fluxsyncd::driver::peers::{build_peers, shared_caps, try_primary_failover, PeerMeta};
use fluxsyncd::driver::reassembly::{
    build_item_frames, build_pending_naks, cleanup_tick, on_chunk, on_header, reassembly_key,
    Reassembly, MAX_REASSEMBLIES,
};
use fluxsyncd::driver::resync::{
    build_resync_offer, cleared_hex_snapshot, mark_cleared, missing_resync_hashes, OutboxEntry,
};
use fluxsyncd::handshake::{hex_encode, tofu_trusted_peer, PendingPair, TrustedPeer};
use fluxsyncd::idmap::{IdMap, IdSet};
use fluxsyncd::ids::Id;
use fluxsyncd::net::{IpAddr, SocketAddr};
use fluxsyncd::wire::{
    Action, Chunk, ClipboardItem, Decision, Event, Hello, Kind, Metric, Msg, Nak, Policy,
};

const NOW: u64 = 1_000_000;
const MAX_HASHES: usize = 64;

fn policy(text: Decision) -> Policy {
    Policy { text, image: Decision::Pass, special: [Decision::Pass; 256] }
}

fn pass() -> Policy {
    policy(Decision::Pass)
}

fn here() -> SocketAddr {
    SocketAddr::new(IpAddr::V4(0x7F00_0001), 1)
}

fn words() -> [String; 6] {
    std::array::from_fn(|i| format!("word{i}"))
}

fn link() -> Link {
    Link {
        now: NOW,
        primary: None,
        linked: Vec::new(),
        primary_since: 0,
        sender_since: None,
        sender_addr: Some(here()),
        sas_words: None,
        sas_peer: None,
        sas_phase: String::new(),
        history_hashes: Vec::new(),
        outbox_hashes: Vec::new(),
        held: IdMap::new(),
        outbound: pass(),
        max_chunks: 1024,
        max_resync_hashes: MAX_HASHES,
        outbox_max_age: 3_600_000,
        own_caps: texts(&["core-1", "resync-1", "sas-confirm", "verify-restart"]),
    }
}

fn pending_pair(expires_at: u64) -> PendingPair {
    PendingPair {
        static_pub: [0x42u8; 32],
        name: "pending-peer".to_string(),
        sas_words: words(),
        from: here(),
        expires_at,
    }
}

fn trusting(peer: Id) -> Node {
    let mut node = Node::new();
    node.trusted.insert(peer, tofu_trusted_peer(peer));
    node
}

fn text_item(hash: Id, text: &str, origin: Id, event_seq: u64, sensitive: bool) -> ClipboardItem {
    ClipboardItem {
        lamport: 1,
        hash,
        kind: Kind::Text,
        payload: text.as_bytes().to_vec(),
        sensitive,
        wall_time_ms: 0,
        origin,
        event_seq,
    }
}

fn admitted(out: &[Effect], hash: Id) -> bool {
    out.iter().any(|e| matches!(e, Effect::AdmitToOutbox { hash: h, .. } if *h == hash))
}

fn relayed(out: &[Effect]) -> bool {
    out.iter().any(|e| matches!(e, Effect::Relay { .. }))
}

fn set(ids: &[Id]) -> IdSet {
    let mut s = IdSet::new();
    for id in ids {
        s.insert(*id);
    }
    s
}

fn entry(text: &str) -> OutboxEntry {
    OutboxEntry {
        payload: text.as_bytes().to_vec(),
        kind: Kind::Text,
        origin: [9u8; 32],
        seq: 1,
        created: NOW,
    }
}

fn meta_with(caps: &[&str]) -> PeerMeta {
    let mut m = PeerMeta::new();
    m.caps = caps.iter().map(|c| c.to_string()).collect();
    m.hello_seen = true;
    m
}

/// The events that a failover without a live secondary reports.
fn lost_events(node: &Node, out: &[Effect]) -> Vec<Event> {
    for e in out {
        if let Effect::FailOver { lost } = e {
            return try_primary_failover(&node.meta, *lost, None);
        }
    }
    Vec::new()
}

#[test]
fn reassembly_key_namespaces_by_source_peer() {
    let item = [0xAAu8; 32];
    let peer_a = [1u8; 32];
    let peer_b = [2u8; 32];
    assert_eq!(reassembly_key(peer_a, item), reassembly_key(peer_a, item));
    assert_ne!(reassembly_key(peer_a, item), reassembly_key(peer_b, item));
    assert_ne!(reassembly_key(peer_a, item), reassembly_key(peer_a, [0xBBu8; 32]));
    assert_ne!(reassembly_key(peer_a, item), item);
}

#[test]
fn fs041_bye_frame_emits_peer_lost() {
    let peer_id = [7u8; 32];
    let mut node = Node::new();
    let l = Link { primary: Some(peer_id), ..link() };
    let out = dispatch_inbound_frame(&mut node, &l, peer_id, Msg::Bye);
    let events = lost_events(&node, &out);
    assert!(
        matches!(events.as_slice(), [Event::PeerLost { peer_id: p }] if *p == peer_id),
        "Msg::Bye must emit Event::PeerLost with the sender's peer_id"
    );
}

#[test]
fn revoke_frame_removes_trust_and_emits_peer_lost() {
    let peer_id = [7u8; 32];
    let mut node = trusting(peer_id);
    node.discovered.insert(
        peer_id,
        ResolvedPeer {
            static_pub: [0x42u8; 32],
            addr: here(),
            name: "stale-peer".to_string(),
            pair_pin: Some("123456".to_string()),
            last_seen: NOW,
        },
    );
    let mut pb = PeerBackoff::new();
    pb.on_attempt_failed(NOW, 0);
    node.backoff.insert(peer_id, pb);
    let l = Link { primary: Some(peer_id), ..link() };
    let out = dispatch_inbound_frame(&mut node, &l, peer_id, Msg::Revoke);
    assert!(!node.trusted.contains_key(&peer_id));
    assert!(!node.discovered.contains_key(&peer_id));
    assert!(!node.backoff.contains_key(&peer_id));
    let events = lost_events(&node, &out);
    assert!(matches!(events.as_slice(), [Event::PeerLost { peer_id: p }] if *p == peer_id));
    assert!(out.iter().any(|e| matches!(e, Effect::PurgePeer { peer } if *peer == peer_id)));
}

#[test]
fn fs052_gate_blocks_clipboard_from_untrusted_non_pending_peer() {
    let peer_id = [4u8; 32];
    let mut node = Node::new();
    let hash = clipboard_dedup_hash("should be blocked");
    let item = text_item(hash, "should be blocked", peer_id, 1, false);
    let out = dispatch_inbound_frame(&mut node, &link(), peer_id, Msg::ClipboardItem(item));
    assert!(out.is_empty());
    assert!(node.inflight.is_empty());
}

#[test]
fn inbound_pair_confirm_accept_refreshes_pending_and_emits_peer_confirmed() {
    let peer_id = [8u8; 32];
    let mut node = trusting(peer_id);
    node.pending.insert(peer_id, pending_pair(NOW + 5_000));
    let l = Link { primary: Some(peer_id), ..link() };
    let out = dispatch_inbound_frame(&mut node, &l, peer_id, Msg::PairConfirm { accept: true });
    let refreshed = node.pending.get(&peer_id).expect("must survive an accept").expires_at;
    assert!(refreshed > NOW + 80_000, "accept must refresh the pending window to ~90s");
    assert!(node.trusted.contains_key(&peer_id));
    assert!(matches!(
        out.as_slice(),
        [Effect::Emit(Event::SasPeerConfirmed { peer_id: p })] if *p == peer_id
    ));
}

#[test]
fn inbound_pair_confirm_accept_outside_flow_echo_acks_once_for_trusted_sas_peer() {
    let peer_id = [11u8; 32];
    let mut node = trusting(peer_id);
    node.meta.insert(peer_id, meta_with(&["core-1", "sas-confirm"]));
    let l = Link { primary: Some(peer_id), ..link() };
    let mut echoes = 0;
    for _ in 0..2 {
        for e in dispatch_inbound_frame(&mut node, &l, peer_id, Msg::PairConfirm { accept: true }) {
            match e {
                Effect::Send { to, msg: Msg::PairConfirm { accept: true } } if to == peer_id => echoes += 1,
                Effect::Emit(_) => panic!("an outside-a-flow accept must not advance the phase"),
                _ => {}
            }
        }
    }
    assert!(node.echo_acked.contains(&peer_id));
    assert_eq!(node.echo_acked.len(), 1);
    assert_eq!(echoes, 1);
    let stranger = [12u8; 32];
    let out = dispatch_inbound_frame(&mut node, &l, stranger, Msg::PairConfirm { accept: true });
    assert!(out.is_empty() && !node.echo_acked.contains(&stranger));
    let legacy = [13u8; 32];
    node.trusted.insert(legacy, tofu_trusted_peer(legacy));
    node.meta.insert(legacy, meta_with(&["core-1"]));
    dispatch_inbound_frame(&mut node, &l, legacy, Msg::PairConfirm { accept: true });
    assert!(!node.echo_acked.contains(&legacy));
}

#[test]
fn inbound_pair_verify_started_reopens_pending_for_trusted_peer_only() {
    let peer_id = [21u8; 32];
    let mut node = Node::new();
    let l = || Link { sas_words: Some(words()), linked: vec![peer_id], ..link() };
    let out = dispatch_inbound_frame(&mut node, &l(), peer_id, Msg::PairVerifyStarted);
    assert!(node.pending.is_empty() && out.is_empty());
    node.trusted.insert(peer_id, tofu_trusted_peer(peer_id));
    let out = dispatch_inbound_frame(&mut node, &l(), peer_id, Msg::PairVerifyStarted);
    let p = node.pending.get(&peer_id).expect("must insert a pending pair");
    assert_eq!(p.sas_words, words());
    let before = p.expires_at;
    assert!(out
        .iter()
        .any(|e| matches!(e, Effect::Emit(Event::SasPairingStarted { peer_id: p }) if *p == peer_id)));
    let out = dispatch_inbound_frame(
        &mut node,
        &Link { now: NOW + 1_000, ..l() },
        peer_id,
        Msg::PairVerifyStarted,
    );
    assert_eq!(node.pending.get(&peer_id).unwrap().expires_at, before);
    assert!(out.is_empty());
}

#[test]
fn inbound_pair_confirm_reject_revokes_trust_and_emits_peer_rejected() {
    let peer_id = [9u8; 32];
    let mut node = trusting(peer_id);
    node.pending.insert(peer_id, pending_pair(NOW + 60_000));
    node.deferred.insert(peer_id);
    let l = Link { primary: Some(peer_id), ..link() };
    let out = dispatch_inbound_frame(&mut node, &l, peer_id, Msg::PairConfirm { accept: false });
    assert!(!node.pending.contains_key(&peer_id));
    assert!(!node.trusted.contains_key(&peer_id));
    assert!(!node.deferred.contains(&peer_id));
    let rejected = out.iter().position(
        |e| matches!(e, Effect::Emit(Event::SasPeerRejected { peer_id: p }) if *p == peer_id),
    );
    let failover = out.iter().position(|e| matches!(e, Effect::FailOver { .. }));
    assert!(rejected.unwrap() < failover.unwrap());
    let events = lost_events(&node, &out);
    assert!(matches!(events.as_slice(), [Event::PeerLost { peer_id: p }] if *p == peer_id));
}

#[test]
fn inbound_pair_confirm_reject_from_non_pairing_peer_does_not_emit_sas_event() {
    let stray_peer = [21u8; 32];
    let other_pairing_peer = [22u8; 32];
    let mut node = trusting(stray_peer);
    let l = Link {
        primary: Some(other_pairing_peer),
        sas_phase: "showing".to_string(),
        sas_peer: Some(other_pairing_peer),
        ..link()
    };
    let out = dispatch_inbound_frame(&mut node, &l, stray_peer, Msg::PairConfirm { accept: false });
    assert!(!node.trusted.contains_key(&stray_peer));
    assert!(!out.iter().any(|e| matches!(e, Effect::Emit(_) | Effect::FailOver { .. })));
}

fn texts(list: &[&str]) -> Vec<String> {
    list.iter().map(|t| t.to_string()).collect()
}

#[test]
fn missing_resync_hashes_filters_held_and_preserves_order() {
    let offered = texts(&["aa", "bb", "cc", "dd"]);
    let history = texts(&["bb"]);
    let outbox_hashes = texts(&["dd"]);
    let missing = missing_resync_hashes(&offered, &history, &outbox_hashes, &[], &[], MAX_HASHES);
    assert_eq!(missing, texts(&["aa", "cc"]));
}

#[test]
fn missing_resync_hashes_empty_when_all_held() {
    let offered = texts(&["aa", "bb"]);
    let history = texts(&["aa"]);
    let outbox_hashes = texts(&["bb"]);
    assert!(missing_resync_hashes(&offered, &history, &outbox_hashes, &[], &[], MAX_HASHES).is_empty());
}

#[test]
fn missing_resync_hashes_excludes_cleared_but_keeps_genuinely_missing() {
    let cleared_x = "aa".repeat(32);
    let missing_y = "bb".repeat(32);
    let offered = vec![cleared_x.clone(), missing_y.clone()];
    let missing =
        missing_resync_hashes(&offered, &[], &[], std::slice::from_ref(&cleared_x), &[], MAX_HASHES);
    assert_eq!(missing, vec![missing_y]);
}

#[test]
fn missing_resync_hashes_caps_at_max_resync_hashes() {
    let offered: Vec<String> = (0..(MAX_HASHES + 5)).map(|i| format!("{i:064x}")).collect();
    let missing = missing_resync_hashes(&offered, &[], &[], &[], &[], MAX_HASHES);
    assert_eq!(missing.len(), MAX_HASHES);
    assert_eq!(missing[0], offered[0], "must keep the offer's original order");
}

#[test]
fn missing_resync_hashes_excludes_hash_with_in_flight_pull() {
    let already_pending = "aa".repeat(32);
    let genuinely_missing = "bb".repeat(32);
    let offered = vec![already_pending.clone(), genuinely_missing.clone()];
    let missing = missing_resync_hashes(
        &offered,
        &[],
        &[],
        &[],
        std::slice::from_ref(&already_pending),
        MAX_HASHES,
    );
    assert_eq!(missing, vec![genuinely_missing]);
}

#[test]
fn build_resync_offer_hex_encodes_in_given_order() {
    let h1 = [0x11u8; 32];
    let h2 = [0x22u8; 32];
    assert_eq!(build_resync_offer(&[h1, h2]), vec!["11".repeat(32), "22".repeat(32)]);
}

#[test]
fn build_resync_offer_empty_outbox_yields_empty_offer() {
    assert!(build_resync_offer(&[]).is_empty());
}

#[test]
fn complete_reassembled_item_gates_outbox_on_sensitivity() {
    let mut node = Node::new();
    let secret = clipboard_dedup_hash("secret");
    let item = text_item(secret, "secret", [2u8; 32], 1, true);
    let out = complete_reassembled_item(&mut node, item, [1u8; 32], true, pass(), NOW);
    assert!(!admitted(&out, secret), "sensitive item must not enter the outbox");
    let plain = clipboard_dedup_hash("hello");
    let item = text_item(plain, "hello", [2u8; 32], 2, false);
    let out = complete_reassembled_item(&mut node, item, [1u8; 32], true, pass(), NOW);
    assert!(admitted(&out, plain), "non-sensitive item must enter the outbox");
}

#[test]
fn complete_reassembled_item_gates_outbox_on_sensitivity_for_images() {
    let mut node = Node::new();
    for (rgba, sensitive) in [(vec![10u8, 20, 30, 255], true), (vec![40u8, 50, 60, 255], false)] {
        let png = encode_png(1, 1, rgba.clone()).expect("encode test png");
        let hash = image_rgba_hash(1, 1, &rgba);
        let mut item = text_item(hash, "", [2u8; 32], 1, sensitive);
        item.kind = Kind::Image;
        item.payload = png;
        let out = complete_reassembled_item(&mut node, item, [1u8; 32], true, pass(), NOW);
        assert_eq!(admitted(&out, hash), !sensitive);
    }
}

#[test]
fn revoke_purges_only_that_peers_staged_outbox_entry() {
    let (peer_a, peer_b) = ([0xAAu8; 32], [0xBBu8; 32]);
    let hash_a = clipboard_dedup_hash("secret-a");
    let hash_b = clipboard_dedup_hash("secret-b");
    let ask = policy(Decision::Defer);
    let mut node = Node::new();
    for (peer, hash, text) in [(peer_a, hash_a, "secret-a"), (peer_b, hash_b, "secret-b")] {
        let item = text_item(hash, text, peer, 1, false);
        let out = complete_reassembled_item(&mut node, item, peer, true, ask, NOW);
        assert!(!admitted(&out, hash));
    }
    assert_eq!(node.stage.len(), 2);
    let actions = vec![Action::PendingDropped { hashes: vec![hash_a] }];
    purge_dropped_pending_from_outbox_stage(&actions, &mut node.stage);
    assert!(node.stage.get(&hash_a).is_none());
    assert!(node.stage.get(&hash_b).is_some());
    assert!(!after_retire(&mut node, &peer_a, &peer_b, &vec![Action::EmitState]));
    assert!(after_retire(&mut node, &peer_a, &peer_a, &actions));
}

#[test]
fn complete_reassembled_item_does_not_relay_a_firewall_blocked_item() {
    let source = [0x11u8; 32];
    let downstream = [0x12u8; 32];
    let block = policy(Decision::Block);
    let mut node = Node::new();
    let run = |node: &mut Node, text: &str, sensitive: bool, policy: Policy| -> bool {
        let hash = clipboard_dedup_hash(text);
        let item = text_item(hash, text, source, 1, sensitive);
        for e in complete_reassembled_item(node, item, source, true, policy, NOW) {
            if let Effect::Relay { item, source, .. } = e {
                let frames = vec![item.payload.clone()];
                forward_frames(
                    &mut node.inflight,
                    &vec![downstream],
                    &node.pending,
                    source,
                    item.origin,
                    item.hash,
                    frames,
                    NOW,
                );
            }
        }
        node.inflight.get(&hash).is_some_and(|i| i.pending_peers.contains(&downstream))
    };
    assert!(!run(&mut node, "relay-blocked-text", false, block));
    assert!(run(&mut node, "relay-passed-text", false, pass()));
    assert!(run(&mut node, "relay-sensitive-secret", true, block));
}

#[test]
fn dispatch_inbound_frame_single_frame_item_populates_outbox_when_not_sensitive() {
    let peer_id = [9u8; 32];
    let mut node = trusting(peer_id);
    let hash = clipboard_dedup_hash("hello resync");
    let item = text_item(hash, "hello resync", [3u8; 32], 5, false);
    let out = dispatch_inbound_frame(&mut node, &link(), peer_id, Msg::ClipboardItem(item));
    let mut kept = None;
    for e in out {
        if let Effect::Observe { item, source, chunked } = e {
            assert!(!chunked);
            for e in complete_reassembled_item(&mut node, item, source, chunked, pass(), NOW) {
                if let Effect::AdmitToOutbox { hash: h, entry } = e {
                    assert_eq!(h, hash);
                    kept = Some(entry);
                }
            }
        }
    }
    let entry = kept.expect("non-sensitive single-frame item must populate the outbox");
    assert_eq!(entry.origin, [3u8; 32]);
    assert_eq!(entry.seq, 5);
    assert_eq!(entry.payload, b"hello resync");
}

#[test]
fn dispatch_inbound_frame_single_frame_item_does_not_relay_when_firewall_blocks() {
    let peer_id = [0x31u8; 32];
    let mut node = trusting(peer_id);
    let block = policy(Decision::Block);
    let hash = clipboard_dedup_hash("single-frame-relay-blocked");
    let item = text_item(hash, "single-frame-relay-blocked", peer_id, 7, false);
    for e in dispatch_inbound_frame(&mut node, &link(), peer_id, Msg::ClipboardItem(item)) {
        if let Effect::Observe { item, source, chunked } = e {
            let out = complete_reassembled_item(&mut node, item, source, chunked, block, NOW);
            assert!(!admitted(&out, hash) && !relayed(&out));
        }
    }
}

fn outgoing(hash: Id, text: &str) -> Outgoing {
    Outgoing {
        hash,
        kind: Kind::Text,
        payload: text.as_bytes().to_vec(),
        sensitive: false,
        origin: [1u8; 32],
        event_seq: 1,
        frames: vec![text.as_bytes().to_vec()],
    }
}

#[test]
fn send_item_fan_out_excludes_pending_secondary_peer() {
    let (confirmed, waiting) = ([0x51u8; 32], [0x52u8; 32]);
    let mut node = Node::new();
    node.pending.insert(waiting, pending_pair(NOW + 60_000));
    let hash = clipboard_dedup_hash("mesh secret");
    let linked = vec![confirmed, waiting];
    let out = fan_out(&mut node.inflight, &linked, &node.pending, outgoing(hash, "mesh secret"), NOW);
    let i = node.inflight.get(&hash).expect("must be inflight");
    assert!(i.pending_peers.contains(&confirmed));
    assert!(!i.pending_peers.contains(&waiting));
    assert!(admitted(&out, hash));
    assert!(out.iter().any(|e| matches!(e, Effect::Count(Metric::ItemSent))));
    assert!(!out.iter().any(|e| matches!(e, Effect::SendFrames { to, .. } if *to == waiting)));
}

#[test]
fn mesh_relay_excludes_pending_secondary_peer() {
    let (source, confirmed, waiting) = ([0x61u8; 32], [0x62u8; 32], [0x63u8; 32]);
    let mut node = trusting(source);
    node.pending.insert(waiting, pending_pair(NOW + 60_000));
    let hash = clipboard_dedup_hash("mesh relay secret");
    let linked = vec![confirmed, waiting, source];
    forward_item(
        &mut node.inflight,
        &linked,
        &node.pending,
        source,
        source,
        hash,
        b"mesh relay secret".to_vec(),
        NOW,
    );
    let i = node.inflight.get(&hash).expect("must be inflight");
    assert!(i.pending_peers.contains(&confirmed));
    assert!(!i.pending_peers.contains(&waiting));
    assert!(!i.pending_peers.contains(&source));
}

fn waiting_for(peer: Id, attempts: u8, sent: u64) -> Inflight {
    Inflight {
        frames: vec![vec![1, 2, 3]],
        attempts,
        last_sent: sent,
        first_sent: sent,
        pending_peers: set(&[peer]),
    }
}

#[test]
fn resync_pull_serve_merges_inflight_pending_peers_instead_of_replacing() {
    let puller = [0x71u8; 32];
    let other = [0x55u8; 32];
    let mut node = trusting(puller);
    node.meta.insert(puller, meta_with(&["resync-1"]));
    let hash = clipboard_dedup_hash("resync-merge-item");
    node.inflight.insert(hash, waiting_for(other, 2, NOW - 5_000));
    let mut held = IdMap::new();
    held.insert(hash, entry("resync-merge-item"));
    let l = Link { linked: vec![puller], held, ..link() };
    let pull = Msg::ResyncPull { hashes: vec![hex_encode(&hash)] };
    let out = dispatch_inbound_frame(&mut node, &l, puller, pull);
    let mut served = 0;
    for e in out {
        if let Effect::Serve { to, item } = e {
            assert_eq!((to, item.hash), (puller, hash));
            let sent = serve_frames(&mut node.inflight, to, item.hash, vec![item.payload], NOW);
            assert!(matches!(
                sent.as_slice(),
                [Effect::SendFrames { .. }, Effect::Count(Metric::ItemResynced)]
            ));
            served += 1;
        }
    }
    assert_eq!(served, 1);
    let i = node.inflight.get(&hash).expect("must still be tracked");
    assert!(i.pending_peers.contains(&other));
    assert!(i.pending_peers.contains(&puller));
}

#[test]
fn an_item_without_a_frame_is_not_counted() {
    let mut inflight: IdMap<Inflight> = IdMap::new();
    assert!(serve_frames(&mut inflight, [1; 32], [2; 32], Vec::new(), NOW).is_empty());
    assert!(inflight.is_empty());
}

#[test]
fn only_shared_capabilities_are_kept() {
    let peer = [0x31u8; 32];
    let mut node = trusting(peer);
    let hello = Hello {
        name: "p".to_string(),
        platform: String::new(),
        caps: texts(&["warp-9", "resync-1", "core-1"]),
    };
    let l = Link { primary: Some(peer), own_caps: texts(&["core-1", "resync-1"]), ..link() };
    let out = dispatch_inbound_frame(&mut node, &l, peer, Msg::Hello(hello));
    assert_eq!(node.meta.get(&peer).unwrap().caps, texts(&["resync-1", "core-1"]));
    assert!(out.iter().any(
        |e| matches!(e, Effect::Emit(Event::PeerCaps { caps }) if caps.len() == 2)
    ));
    assert_eq!(shared_caps(&texts(&["a"]), &texts(&["b", "a", "c"])), texts(&["a"]));
    assert!(shared_caps(&Vec::new(), &texts(&["b"])).is_empty());
}

#[test]
fn resync_pull_serve_skips_entries_blocked_by_live_firewall() {
    let puller = [0x72u8; 32];
    let mut node = trusting(puller);
    node.meta.insert(puller, meta_with(&["resync-1"]));
    let hash = clipboard_dedup_hash("now-blocked-item");
    let mut held = IdMap::new();
    held.insert(hash, entry("now-blocked-item"));
    let outbound = policy(Decision::Block);
    let l = Link { linked: vec![puller], held, outbound, ..link() };
    let pull = Msg::ResyncPull { hashes: vec![hex_encode(&hash)] };
    let out = dispatch_inbound_frame(&mut node, &l, puller, pull);
    assert!(!out.iter().any(|e| matches!(e, Effect::Serve { .. })));
    assert!(!out.iter().any(|e| matches!(e, Effect::Count(Metric::ItemResynced))));
}

#[test]
fn se14_verify_content_hash_gates_clipboard_item_ingestion() {
    let peer_id = [0x21u8; 32];
    let seen = |item: ClipboardItem| -> bool {
        let mut node = trusting(peer_id);
        dispatch_inbound_frame(&mut node, &link(), peer_id, Msg::ClipboardItem(item))
            .iter()
            .any(|e| matches!(e, Effect::Observe { .. }))
    };
    let honest = clipboard_dedup_hash("legit text push");
    assert!(seen(text_item(honest, "legit text push", [1u8; 32], 1, false)));
    let rgba = vec![1u8, 2, 3, 255];
    let mut image = text_item(image_rgba_hash(1, 1, &rgba), "", [1u8; 32], 2, false);
    image.kind = Kind::Image;
    image.payload = encode_png(1, 1, rgba).expect("encode test png");
    assert!(seen(image));
    assert!(!seen(text_item([0xEEu8; 32], "attacker-controlled bytes", [1u8; 32], 3, false)));
}

#[test]
fn build_pending_naks_uses_real_hash_and_true_sender_not_composite_key() {
    let source = [7u8; 32];
    let item_hash = [9u8; 32];
    let mut map: IdMap<Reassembly> = IdMap::new();
    map.insert(
        reassembly_key(source, item_hash),
        Reassembly {
            metadata: Some((1, Kind::Text, false)),
            origin: [1u8; 32],
            event_seq: 1,
            chunks: vec![Some(vec![1]), None],
            last_update: NOW,
            first_seen: NOW,
            source,
            item_hash,
        },
    );
    let naks = build_pending_naks(&map);
    assert_eq!(naks.len(), 1);
    let (dest, nak) = &naks[0];
    assert_eq!(*dest, source);
    assert_eq!(nak.item_id, item_hash);
    assert_eq!(nak.missing, vec![1]);
    assert!(!nak.want_header);
}

#[test]
fn forward_frames_merges_inflight_pending_peers_instead_of_replacing() {
    let (source, origin, new_peer) = ([0x81u8; 32], [0x82u8; 32], [0x83u8; 32]);
    let hash = [0x33u8; 32];
    let existing = [0x44u8; 32];
    let mut node = Node::new();
    node.inflight.insert(hash, waiting_for(existing, 0, NOW));
    forward_frames(
        &mut node.inflight,
        &vec![new_peer],
        &node.pending,
        source,
        origin,
        hash,
        vec![vec![9u8; 1]],
        NOW,
    );
    let i = node.inflight.get(&hash).expect("must survive the relay");
    assert!(i.pending_peers.contains(&existing));
    assert!(i.pending_peers.contains(&new_peer));
}

#[test]
fn send_item_merges_inflight_pending_peers_instead_of_replacing() {
    let confirmed = [0x84u8; 32];
    let existing = [0x66u8; 32];
    let hash = clipboard_dedup_hash("send-item-merge secret");
    let mut node = Node::new();
    node.inflight.insert(hash, waiting_for(existing, 0, NOW));
    let item = outgoing(hash, "send-item-merge secret");
    fan_out(&mut node.inflight, &vec![confirmed], &node.pending, item, NOW);
    let i = node.inflight.get(&hash).expect("must survive SendItem");
    assert!(i.pending_peers.contains(&existing));
    assert!(i.pending_peers.contains(&confirmed));
}

#[test]
fn resync_offer_from_second_peer_does_not_duplicate_an_in_flight_pull() {
    let (peer_a, peer_b) = ([0x91u8; 32], [0x92u8; 32]);
    let mut node = Node::new();
    for peer in [peer_a, peer_b] {
        node.trusted.insert(peer, tofu_trusted_peer(peer));
        node.meta.insert(peer, meta_with(&["resync-1"]));
    }
    let hash = clipboard_dedup_hash("both-peers-offer-this");
    let offer = || Msg::ResyncOffer { hashes: vec![hex_encode(&hash)] };
    let l = Link { linked: vec![peer_a, peer_b], ..link() };
    let out = dispatch_inbound_frame(&mut node, &l, peer_a, offer());
    assert!(node.pulls.get(&peer_a).is_some_and(|m| m.contains_key(&hash)));
    assert!(out.iter().any(|e| matches!(e, Effect::Send { msg: Msg::ResyncPull { .. }, .. })));
    let out = dispatch_inbound_frame(&mut node, &l, peer_b, offer());
    assert!(!node.pulls.contains_key(&peer_b));
    assert!(out.is_empty());
}

#[test]
fn outbox_stage_first_wins_matches_pending_payloads_on_same_hash_collision() {
    let (peer_a, peer_b) = ([0xAAu8; 32], [0xBBu8; 32]);
    let hash = clipboard_dedup_hash("collision-secret");
    let ask = policy(Decision::Defer);
    let mut node = Node::new();
    for peer in [peer_a, peer_b] {
        let item = text_item(hash, "collision-secret", peer, 1, false);
        complete_reassembled_item(&mut node, item, peer, true, ask, NOW);
    }
    assert_eq!(node.stage.get(&hash).expect("must still be staged").origin, peer_a);
}

#[test]
fn purge_peer_from_inflight_drops_revoked_peer_and_empties_entries() {
    let (revoked, other) = ([0xAAu8; 32], [0xBBu8; 32]);
    let (solo, shared) = ([1u8; 32], [2u8; 32]);
    let mut map: IdMap<Inflight> = IdMap::new();
    map.insert(solo, waiting_for(revoked, 0, NOW));
    let mut both = waiting_for(revoked, 0, NOW);
    both.pending_peers.insert(other);
    map.insert(shared, both);
    purge_peer_from_inflight(revoked, &mut map);
    assert!(map.get(&solo).is_none());
    let left = map.get(&shared).expect("the other peer's item must survive");
    assert!(!left.pending_peers.contains(&revoked));
    assert!(left.pending_peers.contains(&other));
}

#[test]
fn items_are_sent_again_until_acknowledged_or_given_up() {
    let (a, b) = ([1u8; 32], [2u8; 32]);
    let hash = [3u8; 32];
    let mut map: IdMap<Inflight> = IdMap::new();
    track_sent(&mut map, hash, &vec![a, b], vec![vec![7]], 0);
    assert!(retransmit_tick(&mut map, 1_999).is_empty());
    let again = retransmit_tick(&mut map, 2_000);
    let r = again.get(&hash).unwrap();
    assert!(r.to.contains(&a) && r.to.contains(&b));
    assert_eq!(r.frames, vec![vec![7]]);
    acknowledge(&mut map, hash, a);
    let again = retransmit_tick(&mut map, 4_000);
    assert!(!again.get(&hash).unwrap().to.contains(&a));
    for i in 3..7u64 {
        assert_eq!(retransmit_tick(&mut map, 2_000 * i).len(), 1);
    }
    assert!(retransmit_tick(&mut map, 14_000).is_empty());
    assert!(map.is_empty());
    track_sent(&mut map, hash, &vec![a], vec![vec![7]], 0);
    acknowledge(&mut map, hash, a);
    assert!(map.is_empty());
}

#[test]
fn missing_pieces_are_sent_again() {
    let hash = [3u8; 32];
    let mut map: IdMap<Inflight> = IdMap::new();
    let frames = vec![vec![0], vec![1], vec![2], vec![3]];
    track_sent(&mut map, hash, &vec![[1u8; 32]], frames, 0);
    let nak = Nak { item_id: hash, want_header: true, missing: vec![2, 9] };
    assert_eq!(answer_nak(&mut map, &nak, 10), vec![vec![0], vec![3]]);
    let stray = Nak { item_id: [4u8; 32], want_header: true, missing: vec![0] };
    assert!(answer_nak(&mut map, &stray, 10).is_empty());
}

#[test]
fn an_item_in_chunks_comes_out_whole() {
    let source = [5u8; 32];
    let payload: Vec<u8> = (0..25u8).collect();
    let hash = [6u8; 32];
    let frames = build_item_frames(9, hash, Kind::Text, &payload, false, [8u8; 32], 4, 10);
    assert_eq!(frames.len(), 4);
    let mut map: IdMap<Reassembly> = IdMap::new();
    let mut done = None;
    for f in frames {
        let got = match f {
            Msg::ClipboardItem(header) => on_header(&mut map, source, &header, NOW),
            Msg::Chunk(c) => on_chunk(&mut map, source, c, 1024, NOW),
            other => panic!("{other:?}"),
        };
        if got.is_some() {
            done = got;
        }
    }
    let item = done.expect("the last chunk completes it");
    assert_eq!(item.payload, payload);
    assert_eq!((item.hash, item.origin, item.event_seq, item.lamport), (hash, [8u8; 32], 4, 9));
    assert!(map.is_empty());
}

#[test]
fn transfers_are_capped_and_time_out() {
    let mut map: IdMap<Reassembly> = IdMap::new();
    for i in 0..7u8 {
        let c = Chunk { item_id: [i; 32], idx: 0, total: 2, data: vec![1] };
        assert!(on_chunk(&mut map, [9u8; 32], c, 1024, NOW + i as u64).is_none());
    }
    assert_eq!(map.len(), MAX_REASSEMBLIES);
    cleanup_tick(&mut map, NOW + 5_003);
    assert_eq!(map.len(), 3);
    let too_many = Chunk { item_id: [50u8; 32], idx: 0, total: 2_000, data: vec![1] };
    assert!(on_chunk(&mut map, [9u8; 32], too_many, 1024, NOW).is_none());
    assert_eq!(map.len(), 3);
}

#[test]
fn cleared_items_are_remembered_for_a_while() {
    let mut tombs: IdMap<u64> = IdMap::new();
    mark_cleared(&mut tombs, &vec![[1u8; 32]], 100, 0);
    assert_eq!(cleared_hex_snapshot(&tombs, 100, 100), vec!["01".repeat(32)]);
    assert!(cleared_hex_snapshot(&tombs, 100, 101).is_empty());
    mark_cleared(&mut tombs, &vec![[2u8; 32]], 100, 101);
    assert!(!tombs.contains_key(&[1u8; 32]));
}

#[test]
fn no_item_goes_out_while_the_primary_waits() {
    let primary = [1u8; 32];
    let mut pending: IdMap<PendingPair> = IdMap::new();
    pending.insert(primary, pending_pair(NOW));
    let actions = || {
        vec![
            Action::EmitState,
            Action::SendItem { hash: [2u8; 32], kind: Kind::Text, payload: vec![1], sensitive: false },
        ]
    };
    assert_eq!(gate_outbound(actions(), Some(primary), &pending).len(), 1);
    assert_eq!(gate_outbound(actions(), Some([3u8; 32]), &pending).len(), 2);
    assert_eq!(gate_outbound(actions(), None, &pending).len(), 2);
}

#[test]
fn hello_tells_the_state_machine_of_the_primary_only() {
    let (primary, second) = ([1u8; 32], [2u8; 32]);
    let mut node = trusting(primary);
    node.trusted.insert(second, tofu_trusted_peer(second));
    let l = Link { primary: Some(primary), linked: vec![primary, second], ..link() };
    let hello = || {
        Msg::Hello(Hello {
            name: "phone".to_string(),
            platform: "android".to_string(),
            caps: texts(&["core-1"]),
        })
    };
    let named = |out: &[Effect]| {
        out.iter().any(|e| matches!(e, Effect::Emit(Event::PeerPlatform { .. })))
    };
    assert!(named(&dispatch_inbound_frame(&mut node, &l, primary, hello())));
    assert!(!named(&dispatch_inbound_frame(&mut node, &l, second, hello())));
    let peers = build_peers(&l.linked, &node.meta, l.primary);
    assert_eq!(peers.len(), 2);
    assert!(peers[0].primary && !peers[1].primary);
    assert_eq!(peers[1].name, "phone");
}

#[test]
fn a_live_secondary_takes_over() {
    let mut node = Node::new();
    let second = [2u8; 32];
    let mut m = meta_with(&["core-1"]);
    m.name = "tablet".to_string();
    node.meta.insert(second, m);
    let events = try_primary_failover(&node.meta, Some([1u8; 32]), Some(second));
    assert!(matches!(
        events.as_slice(),
        [Event::PrimaryFailover { peer_id, name, .. }, Event::MeshPeersChanged]
            if *peer_id == second && name == "tablet"
    ));
    assert!(try_primary_failover(&node.meta, None, None).is_empty());
}

#[test]
fn special_texts_go_by_their_own_rule() {
    let mut inbound = pass();
    inbound.special[3] = Decision::Block;
    let link = "https://example.org";
    let hash = clipboard_dedup_hash(link);
    for (sort, allowed) in [(3, false), (4, true)] {
        let mut node = Node::new();
        let mut item = text_item(hash, link, [2u8; 32], 1, false);
        item.kind = Kind::Special(sort);
        let out = complete_reassembled_item(&mut node, item, [1u8; 32], false, inbound, NOW);
        assert_eq!(admitted(&out, hash), allowed);
        assert_eq!(relayed(&out), allowed);
    }
}

#[test]
fn trust_is_kept_under_the_peers_own_entry() {
    let peer = [3u8; 32];
    let node = trusting(peer);
    let t: &TrustedPeer = node.trusted.get(&peer).unwrap();
    assert_eq!(t.static_pub, peer);
}
