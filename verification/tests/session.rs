use fluxsyncd::driver::dialing::{on_sighting, Advert};
use fluxsyncd::driver::effects::Effect;
use fluxsyncd::driver::inbound::receive_item;
use fluxsyncd::driver::node::Node;
use fluxsyncd::driver::outbound::{note_image, Desk};
use fluxsyncd::driver::content::image_cache;
use fluxsyncd::driver::pairing::{pair_with, PairRequest, PairWay, Step};
use fluxsyncd::driver::reassembly::{chunk_under, header_under, Reassembly};
use fluxsyncd::driver::session::{
    after_answer, after_install, after_reached, after_reap, after_renewed, after_store,
    answer_handshake, reap, Answer, Caller, Reached,
};
use fluxsyncd::driver::watcher::{is_news, new_watcher};
use fluxsyncd::handshake::{
    admit_peer, peer_id_for, tofu_trusted_peer, Install, PendingPair, PrimaryLink, Refusal,
};
use fluxsyncd::idmap::IdMap;
use fluxsyncd::ids::Id;
use fluxsyncd::net::{IpAddr, SocketAddr};
use fluxsyncd::wire::{Chunk, ClipboardItem, Event, Kind, Metric, Msg};

const NOW: u64 = 1_000_000;

fn from() -> SocketAddr {
    SocketAddr::new(IpAddr::V4(0x0A00_0001), 5)
}

fn words() -> [String; 6] {
    std::array::from_fn(|i| format!("w{i}"))
}

fn caller(remote: Id) -> Caller {
    Caller { remote, from: from(), sas_words: words() }
}

fn nobody() -> PrimaryLink {
    PrimaryLink { peer: None, generation: 3, live: false }
}

fn answer(node: &mut Node, remote: Id, persists: bool) -> Answer {
    answer_handshake(node, &caller(remote), "10.0.0.1:5".to_string(), &nobody(), persists, NOW)
}

#[test]
fn a_stranger_is_stored_before_it_gets_its_session() {
    let key = [4u8; 32];
    let peer = peer_id_for(&key);
    let mut node = Node::new();
    assert!(matches!(answer(&mut node, key, true), Answer::Refuse(Refusal::Untrusted)));
    node.window = Some(NOW + 1);
    let admission = match answer(&mut node, key, true) {
        Answer::Store { record, admission } => {
            assert_eq!(record.name, "New Peer");
            assert_eq!(record.last_addr, Some("10.0.0.1:5".to_string()));
            admission
        }
        _ => panic!(),
    };
    assert!(node.trusted.contains_key(&peer) && node.pending.is_empty());
    assert!(!after_store(&mut node, &caller(key), &admission, false, NOW));
    assert!(node.trusted.is_empty() && node.pending.is_empty(), "nothing is left of it");

    let admission = match answer(&mut node, key, true) {
        Answer::Store { admission, .. } => admission,
        _ => panic!(),
    };
    assert!(after_store(&mut node, &caller(key), &admission, true, NOW));
    let pair = node.pending.get(&peer).expect("it waits for the user");
    assert_eq!((pair.expires_at, pair.static_pub), (NOW + 90_000, key));
    let out = after_install(&admission, from(), true);
    assert!(matches!(
        out.as_slice(),
        [
            Effect::SetPeerInfo { .. },
            Effect::RememberAddr { .. },
            Effect::AnswerHandshake { .. },
        ]
    ));
    let out = after_answer(admission, true);
    assert!(matches!(
        out.as_slice(),
        [Effect::Emit(Event::PeerSeen { .. }), Effect::Emit(Event::HandshakeOk)]
    ));
}

#[test]
fn an_answer_that_is_not_sent_is_a_failure() {
    let key = [4u8; 32];
    let mut node = Node::new();
    node.trusted.insert(peer_id_for(&key), tofu_trusted_peer(key));
    let admission = match answer(&mut node, key, true) {
        Answer::Install(a) => a,
        _ => panic!(),
    };
    assert!(after_install(&admission, from(), false).is_empty());
    let out = after_answer(admission, false);
    assert!(matches!(out.as_slice(), [Effect::Count(Metric::HandshakeFail)]));
}

#[test]
fn a_link_local_caller_is_answered_in_its_scope() {
    let key = [4u8; 32];
    let mut node = Node::new();
    node.trusted.insert(peer_id_for(&key), tofu_trusted_peer(key));
    let admission = match answer(&mut node, key, true) {
        Answer::Install(a) => a,
        _ => panic!(),
    };
    let bits = 0xfe80_0000_0000_0000_0000_0000_0000_0001;
    let there = SocketAddr::V6 { bits, port: 5, flowinfo: 1, scope_id: 3 };
    assert_eq!(there.ip(), IpAddr::V6(bits));
    assert_ne!(there, SocketAddr::new(IpAddr::V6(bits), 5));
    let out = after_install(&admission, there, true);
    assert!(matches!(out.last(), Some(Effect::AnswerHandshake { addr }) if *addr == there));
}

#[test]
fn a_trusted_caller_gets_its_session_at_once() {
    let key = [4u8; 32];
    let peer = peer_id_for(&key);
    let mut node = Node::new();
    node.trusted.insert(peer, tofu_trusted_peer(key));
    let live = PrimaryLink { peer: Some(peer), generation: 3, live: true };
    let r = answer_handshake(&mut node, &caller(key), String::new(), &live, true, NOW);
    let admission = match r {
        Answer::Install(a) => a,
        _ => panic!(),
    };
    assert_eq!(admission.install, Install::IfGeneration(3));
    assert!(node.pending.is_empty());
    let out = after_answer(admission, true);
    assert!(matches!(out.as_slice(), [Effect::Emit(Event::HandshakeOk)]));
    let mut node = Node::new();
    node.window = Some(NOW + 1);
    match answer(&mut node, key, false) {
        Answer::Install(a) => assert!(after_install(&a, from(), false).is_empty()),
        _ => panic!(),
    }
    assert!(node.pending.contains_key(&peer));
}

#[test]
fn a_dial_that_arrives_reports_its_peer() {
    let reached = |verify| Reached {
        peer: [1; 32],
        key: [2; 32],
        addr: from(),
        name: "tv".to_string(),
        verify,
        sas_words: words(),
    };
    let mut node = Node::new();
    assert!(after_reached(&mut node, reached(true), false, NOW).is_empty());
    assert!(node.pending.is_empty());
    assert_eq!(after_reached(&mut node, reached(false), true, NOW).len(), 4);
    assert!(node.pending.is_empty());
    let out = after_reached(&mut node, reached(true), true, NOW);
    assert!(matches!(&out[2], Effect::Emit(Event::PeerSeen { name, .. }) if name == "tv"));
    assert_eq!(node.pending.get(&[1; 32]).unwrap().static_pub, [2; 32]);
    assert!(after_renewed([1; 32], from(), false).is_empty());
    assert!(matches!(
        after_renewed([1; 32], from(), true).as_slice(),
        [Effect::SetPeerInfo { .. }, Effect::RememberAddr { .. }, Effect::Emit(Event::HandshakeOk)]
    ));
}

#[test]
fn pairs_that_waited_too_long_are_reaped() {
    let (late, live) = ([1u8; 32], [2u8; 32]);
    let mut node = Node::new();
    for (id, expires_at) in [(late, NOW), (live, NOW + 1)] {
        node.trusted.insert(id, tofu_trusted_peer(id));
        node.pending.insert(
            id,
            PendingPair {
                static_pub: id,
                name: "p".to_string(),
                sas_words: words(),
                from: from(),
                expires_at,
            },
        );
    }
    let (reaped, out) = reap(&mut node, Some(late), NOW).expect("one is late");
    assert!(matches!(out.as_slice(), [Effect::DropPrimary, Effect::Emit(Event::SasReset)]));
    assert!(!node.trusted.contains_key(&late) && node.trusted.contains_key(&live));
    after_reap(&mut node, reaped, false);
    assert!(node.trusted.contains_key(&late) && node.pending.contains_key(&late));
    let (reaped, out) = reap(&mut node, Some(live), NOW).expect("one is late");
    assert!(matches!(out.as_slice(), [Effect::Emit(Event::SasReset)]));
    after_reap(&mut node, reaped, true);
    assert!(!node.trusted.contains_key(&late));
    assert!(reap(&mut node, None, NOW).is_none());
}

#[test]
fn a_peer_is_admitted_under_its_id() {
    let mut trusted = IdMap::new();
    let a = admit_peer(&mut trusted, [1; 32], [2; 32], Some(NOW + 1), &nobody(), NOW).unwrap();
    assert!(a.newly_trusted);
    assert_eq!(trusted.get(&[1; 32]).unwrap().static_pub, [2; 32]);
    let r = admit_peer(&mut trusted, [1; 32], [3; 32], None, &nobody(), NOW);
    assert!(matches!(r, Err(Refusal::KeyMismatch)));
}

#[test]
fn a_pairing_trusts_its_peer() {
    let mut node = Node::new();
    let req = PairRequest {
        key: [2; 32],
        name: "n".to_string(),
        way: PairWay::Uri,
        hints: Vec::new(),
    };
    let o = pair_with(&mut node, [1; 32], true, true, 1, req, Ok(()), Vec::new());
    assert!(matches!(o.step, Step::Upsert { .. }));
    assert_eq!(node.trusted.get(&[1; 32]).unwrap().static_pub, [2; 32]);
}

#[test]
fn only_genuine_items_are_received() {
    let item = || ClipboardItem {
        lamport: 1,
        hash: [1; 32],
        kind: Kind::Text,
        payload: vec![1],
        sensitive: false,
        wall_time_ms: 0,
        origin: [2; 32],
        event_seq: 1,
    };
    assert!(receive_item(item(), false, [3; 32], false).is_empty());
    assert!(matches!(
        receive_item(item(), true, [3; 32], false).as_slice(),
        [Effect::Send { msg: Msg::Ack { .. }, .. }, Effect::Observe { chunked: false, .. }]
    ));
}

#[test]
fn transfers_are_kept_by_key() {
    let mut map: IdMap<Reassembly> = IdMap::new();
    let header = ClipboardItem {
        lamport: 1,
        hash: [1; 32],
        kind: Kind::Text,
        payload: Vec::new(),
        sensitive: false,
        wall_time_ms: 0,
        origin: [2; 32],
        event_seq: 1,
    };
    assert!(header_under(&mut map, [9; 32], [3; 32], &header, NOW).is_none());
    let chunk = Chunk { item_id: [1; 32], idx: 0, total: 1, data: vec![7] };
    let done = chunk_under(&mut map, [9; 32], [3; 32], chunk, 10, NOW).expect("complete");
    assert_eq!(done.payload, vec![7]);
    assert!(map.is_empty());
}

#[test]
fn news_is_told_once() {
    let mut w = new_watcher();
    let mut written = Vec::new();
    assert!(is_news(&mut w, &written, [1; 32]));
    assert!(!is_news(&mut w, &written, [1; 32]));
    written.push([2; 32]);
    assert!(!is_news(&mut w, &written, [2; 32]));
    assert_eq!(w.last_seen, Some([2; 32]));
}

#[test]
fn images_are_kept_unless_sensitive() {
    let mut d = Desk { written: Vec::new(), images: image_cache() };
    note_image(&mut d, true, [0xAB; 32], &[1, 2], false);
    assert_eq!(d.images.lookup_cached_image(&"ab".repeat(32)), Some(vec![1, 2]));
    note_image(&mut d, true, [0xCD; 32], &[3], true);
    assert!(d.images.lookup_cached_image(&"cd".repeat(32)).is_none());
    assert_eq!(d.written, vec![[0xAB; 32], [0xCD; 32]]);
    for i in 0..20u8 {
        note_image(&mut d, true, [i; 32], &[i], false);
    }
    assert_eq!(d.written.len(), 10);
}

#[test]
fn a_sighting_is_noted_under_its_peer() {
    let mut node = Node::new();
    node.trusted.insert([1; 32], tofu_trusted_peer([9; 32]));
    let advert = Advert {
        peer_id_hex: String::new(),
        static_pub_hex: String::new(),
        name: "tv".to_string(),
        addrs: vec![from()],
        pair_pin: None,
    };
    let out = on_sighting(&mut node, &[2; 32], &Vec::new(), [1; 32], [9; 32], advert, NOW);
    assert_eq!(out.len(), 1);
    assert_eq!(node.discovered.get(&[1; 32]).unwrap().static_pub, [9; 32]);
}
