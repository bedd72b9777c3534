use base64::Engine;
use fluxsyncd::cmd::{
    default_tail_n, CmdData, CmdOp, CmdResponse, HistoryItem, HistorySource, DEFAULT_TAIL_N,
};
use fluxsyncd::driver::commands::{
    after_resolve, after_setting, handle_driver_cmd, images_are_small, peer_entry, CmdContext,
    OwnIdentity, PeerState,
};
use fluxsyncd::driver::content::{clipboard_dedup_hash, encode_png, image_cache, image_rgba_hash};
use fluxsyncd::driver::discovered::ResolvedPeer;
use fluxsyncd::driver::effects::Effect;
use fluxsyncd::driver::node::Node;
use fluxsyncd::driver::outbound::Desk;
use fluxsyncd::driver::pairing::{
    after_key_check, after_save, AfterSave, Outcome, PairRequest, PairWay, Setting, Step,
};
use fluxsyncd::driver::peers::PeerMeta;
use fluxsyncd::driver::resync::OutboxEntry;
use fluxsyncd::handshake::{
    hex_encode, peer_id_for, tofu_trusted_peer, PendingPair, TrustedPeer, MAX_PERSISTED_PEERS,
};
use fluxsyncd::idmap::IdMap;
use fluxsyncd::ids::Id;
use fluxsyncd::net::{IpAddr, SocketAddr};
use fluxsyncd::uri::{
    build_pair_uri, pair_uri_error_text, parse_pair_uri, usable_addrs, PairUriError,
};
use fluxsyncd::wire::{Action, Event, Kind, Msg};

const NOW: u64 = 1_000_000;

fn addr(port: u16) -> SocketAddr {
    SocketAddr::new(IpAddr::V4(0xC0A8_0001), port)
}

fn desk() -> Desk {
    Desk { written: Vec::new(), images: image_cache() }
}

fn ctx() -> CmdContext {
    CmdContext {
        now: NOW,
        epoch_ms: Some(5_000),
        persists: true,
        on: true,
        primary: None,
        linked: Vec::new(),
        history: Vec::new(),
        battery_level: 80,
        charging: false,
        peer: PeerState {
            name: String::new(),
            link_latency_ms: 3,
            battery: 40,
            charging: true,
            inactive: false,
        },
        peer_addr: None,
        addr_texts: IdMap::new(),
        own: OwnIdentity {
            peer_id: [0xAB; 32],
            static_pub: [0x01; 32],
            words: vec!["w1".to_string(), "w2".to_string()],
        },
        lan_addr: "192.168.0.9:4000".to_string(),
        tailnet_addr: None,
        fresh_pin: "123456".to_string(),
        max_payload: 64,
        outbox_max_age: 1_000,
    }
}

fn run(node: &mut Node, c: &CmdContext, op: CmdOp) -> Outcome {
    handle_driver_cmd(node, &mut desk(), c, 7, op)
}

fn reply(o: &Outcome) -> &CmdResponse {
    match &o.step {
        Step::Done(r) => r,
        _ => panic!("not done"),
    }
}

fn refusal(o: &Outcome) -> String {
    assert!(o.effects.is_empty());
    let r = reply(o);
    assert!(!r.ok && r.id == 7 && r.data.is_none());
    r.err.clone().unwrap()
}

fn history_item(hash: &str, favorite: bool) -> HistoryItem {
    HistoryItem {
        kind: Kind::Text,
        preview: "p".to_string(),
        time: "12:00".to_string(),
        source: HistorySource::Peer,
        sensitive: false,
        lamport: 1,
        hash: hash.to_string(),
        favorite,
        resync: false,
        source_peer_id: None,
    }
}

fn waiting() -> PendingPair {
    PendingPair {
        static_pub: [9; 32],
        name: "waiting".to_string(),
        sas_words: std::array::from_fn(|i| format!("w{i}")),
        from: addr(1),
        expires_at: NOW + 1_000,
    }
}

fn b32(key: Id) -> String {
    base32::encode(base32::Alphabet::Rfc4648 { padding: false }, &key)
}

#[test]
fn questions_are_answered() {
    let mut node = Node::new();
    let (p, s) = ([1u8; 32], [2u8; 32]);
    let mut c = ctx();
    c.primary = Some(p);
    c.linked = vec![p, s];
    c.history = vec![history_item("aa", false), history_item("bb", false)];
    c.peer.name = "phone".to_string();
    c.peer_addr = Some("1.2.3.4:5".to_string());
    match &reply(&run(&mut node, &c, CmdOp::Status)).data {
        Some(CmdData::State { peers }) => {
            assert_eq!(peers.len(), 2);
            assert!(peers[0].primary && !peers[1].primary);
        }
        _ => panic!(),
    }
    match &reply(&run(&mut node, &c, CmdOp::Pull)).data {
        Some(CmdData::Pull(Some(h))) => assert_eq!(h.hash, "aa"),
        _ => panic!(),
    }
    assert!(matches!(reply(&run(&mut node, &c, CmdOp::Tail { n: 9 })).data, Some(CmdData::Tail { n: 9 })));
    match &reply(&run(&mut node, &c, CmdOp::Peers)).data {
        Some(CmdData::Peers(list)) => {
            assert_eq!(list.len(), 1);
            assert_eq!((list[0].peer_id.as_str(), list[0].addr.as_str()), ("paired", "1.2.3.4:5"));
            assert!(list[0].linked && list[0].charging && list[0].battery == 40);
        }
        _ => panic!(),
    }
    let nameless = PeerState {
        name: String::new(),
        link_latency_ms: 0,
        battery: 0,
        charging: false,
        inactive: true,
    };
    assert!(peer_entry(&nameless, &None).is_none());
    node.trusted.insert(p, tofu_trusted_peer([3u8; 32]));
    match &reply(&run(&mut node, &c, CmdOp::TrustList)).data {
        Some(CmdData::TrustList(t)) => {
            assert_eq!(t.len(), 1);
            assert_eq!(t[0].peer_id_hex, "01".repeat(32));
            assert_eq!(t[0].static_pub_hex, "03".repeat(32));
        }
        _ => panic!(),
    }
    assert_eq!(default_tail_n(), DEFAULT_TAIL_N);
}

#[test]
fn plain_orders_reach_the_state_machine() {
    let mut node = Node::new();
    let c = ctx();
    let o = run(&mut node, &c, CmdOp::Toggle { on: false });
    assert!(matches!(o.effects.as_slice(), [Effect::Handle(Event::ToggleOff)]));
    let o = run(&mut node, &c, CmdOp::SetSelfBattery { level: 5, charging: true });
    assert!(matches!(
        o.effects.as_slice(),
        [Effect::Handle(Event::BatteryChangedSelf { level: 5, charging: true })]
    ));
    let o = run(&mut node, &c, CmdOp::SetFavorite { hash: "h".to_string(), favorite: true });
    assert!(matches!(o.effects.as_slice(), [Effect::Handle(Event::SetFavorite { favorite: true, .. })]));
    let o = run(&mut node, &c, CmdOp::Shutdown);
    assert!(matches!(o.effects.as_slice(), [Effect::Shutdown]));
    assert!(reply(&o).ok);
    let o = run(&mut node, &CmdContext { primary: Some([1; 32]), ..ctx() }, CmdOp::Reconnect);
    assert!(matches!(
        o.effects.as_slice(),
        [Effect::DropPrimary, Effect::Emit(Event::PeerLost { .. })]
    ));
    assert!(matches!(reply(&o).data, Some(CmdData::Pong)));
    assert_eq!(run(&mut node, &c, CmdOp::Reconnect).effects.len(), 1);
}

#[test]
fn texts_are_pushed_trimmed_and_capped() {
    let mut node = Node::new();
    let c = ctx();
    let o = run(&mut node, &c, CmdOp::Push { text: "  hi\r\n".to_string() });
    match o.effects.as_slice() {
        [Effect::CopiedText { hash, text }] => {
            assert_eq!(text, "hi");
            assert_eq!(*hash, clipboard_dedup_hash("hi"));
        }
        _ => panic!(),
    }
    let o = run(&mut node, &c, CmdOp::Push { text: " \n".to_string() });
    assert!(o.effects.is_empty() && reply(&o).ok);
    let o = run(&mut node, &c, CmdOp::Push { text: "\u{e9}".repeat(33) });
    assert_eq!(refusal(&o), "clipboard text too large: 66 bytes (max 64 bytes)");
    let o = run(&mut node, &c, CmdOp::Push { text: "\u{e9}".repeat(32) });
    assert_eq!(o.effects.len(), 1);
}

#[test]
fn images_are_pushed_and_fetched() {
    let b64 = base64::engine::general_purpose::STANDARD;
    let mut node = Node::new();
    let mut c = ctx();
    c.max_payload = 10_000;
    let rgba = vec![1u8, 2, 3, 4];
    let png = encode_png(1, 1, rgba.clone()).unwrap();
    let data = b64.encode(&png);
    let o = run(&mut node, &c, CmdOp::PushImage { data: data.clone(), sensitive: true });
    match o.effects.as_slice() {
        [Effect::CopiedImage { hash, png: p, preview, sensitive: true }] => {
            assert_eq!(*hash, image_rgba_hash(1, 1, &rgba));
            assert_eq!(*p, png);
            assert_eq!(preview, "Image, 1 KB");
        }
        _ => panic!(),
    }
    c.max_payload = 3;
    let o = run(&mut node, &c, CmdOp::PushImage { data, sensitive: false });
    let expected = format!("push_image: image too large ({} bytes > 3 cap)", png.len());
    assert_eq!(refusal(&o), expected);
    let o = run(&mut node, &c, CmdOp::PushImage { data: b64.encode(b"x"), sensitive: false });
    assert_eq!(refusal(&o), "push_image: PNG decode failed");
    let o = run(&mut node, &c, CmdOp::PushImage { data: "!".to_string(), sensitive: false });
    let why = b64.decode("!").unwrap_err().to_string();
    assert_eq!(refusal(&o), format!("push_image: base64: {why}"));

    let mut d = desk();
    d.images.cache_image("aa".to_string(), png.clone());
    assert!(images_are_small(&d.images));
    let o = handle_driver_cmd(&mut node, &mut d, &c, 7, CmdOp::FetchItem { hash: "aa".to_string() });
    match &reply(&o).data {
        Some(CmdData::ItemBytes { bytes }) => assert_eq!(*bytes, b64.encode(&png)),
        _ => panic!(),
    }
    let o = handle_driver_cmd(&mut node, &mut d, &c, 7, CmdOp::FetchItem { hash: "bb".to_string() });
    assert_eq!(refusal(&o), "fetch_item: payload not cached");
}

#[test]
fn clearing_the_history_clears_what_hangs_on_it() {
    let (a, b) = ("aa".repeat(32), "bb".repeat(32));
    let mut node = Node::new();
    let mut d = desk();
    d.images.cache_image(a.clone(), vec![1]);
    d.images.cache_image(b.clone(), vec![2]);
    let mut c = ctx();
    c.history = vec![history_item(&a, false), history_item(&b, true), history_item("bad", false)];
    let op = CmdOp::ClearHistory { include_favorites: false };
    let o = handle_driver_cmd(&mut node, &mut d, &c, 7, op);
    assert!(matches!(
        o.effects.as_slice(),
        [
            Effect::RemoveFromOutbox { hashes },
            Effect::Handle(Event::ClearHistory { include_favorites: false }),
        ] if *hashes == vec![[0xAAu8; 32]]
    ));
    assert_eq!(node.cleared.get(&[0xAA; 32]), Some(&NOW));
    assert!(!node.cleared.contains_key(&[0xBB; 32]));
    assert!(d.images.lookup_cached_image(&a).is_none());
    assert!(d.images.lookup_cached_image(&b).is_some());
}

#[test]
fn settings_are_taken_or_refused() {
    let c = ctx();
    let mut node = Node::new();
    let o = run(&mut node, &c, CmdOp::SetThreshold { value: 300u16 as u8 });
    assert!(matches!(o.step, Step::Configure(Setting::Threshold { value: 44 })));
    let o = after_setting(&c, 7, Setting::Threshold { value: 1 }, Err("too low".to_string()));
    assert_eq!(refusal(&o), "too low");
    let o = after_setting(&c, 7, Setting::ChargeOverride { value: true }, Ok(()));
    assert!(matches!(
        o.effects.as_slice(),
        [Effect::Handle(Event::BatteryChangedSelf { level: 80, charging: false })]
    ));
    let o = after_setting(&c, 7, Setting::DeviceName { name: "x".to_string() }, Ok(()));
    assert!(matches!(o.effects.as_slice(), [Effect::SaveDeviceName, Effect::Announce]));
    let o = after_setting(&CmdContext { persists: false, ..ctx() }, 7, Setting::Firewall, Ok(()));
    assert!(matches!(o.effects.as_slice(), [Effect::Announce]));
    assert!(matches!(run(&mut node, &c, CmdOp::SetFirewall).step, Step::Configure(Setting::Firewall)));
}

#[test]
fn only_an_admitted_item_is_kept_for_others() {
    let hash = [5u8; 32];
    let text = hex_encode(&hash);
    let staged = || {
        let mut node = Node::new();
        node.stage.insert(
            hash,
            OutboxEntry {
                payload: vec![1],
                kind: Kind::Text,
                origin: [1; 32],
                seq: 1,
                created: NOW,
            },
        );
        node
    };
    let write = || vec![Action::WriteClipboard { kind: Kind::Text, payload: vec![1], sensitive: false }];
    let mut node = staged();
    let out = after_resolve(&mut node, None, &text, true, &mut write());
    assert!(matches!(out.as_slice(), [Effect::AdmitToOutbox { hash: h, .. }] if *h == hash));
    assert!(node.stage.is_empty());
    let mut node = staged();
    assert!(after_resolve(&mut node, None, &text, false, &mut write()).is_empty());
    assert!(node.stage.is_empty(), "a denied item waits no more");
    let mut node = staged();
    assert!(after_resolve(&mut node, None, &text, true, &mut vec![Action::EmitState]).is_empty());
    let mut node = staged();
    node.pending.insert([8; 32], waiting());
    let mut actions = vec![Action::SendItem {
        hash,
        kind: Kind::Text,
        payload: vec![1],
        sensitive: false,
    }];
    after_resolve(&mut node, Some([8; 32]), "nonsense", true, &mut actions);
    assert!(actions.is_empty() && node.stage.len() == 1);
    let o = run(&mut node, &ctx(), CmdOp::ResolvePending { hash: text, allow: true });
    assert!(matches!(o.step, Step::Resolve { allow: true, .. }));
}

#[test]
fn revoking_one_peer_spares_the_others() {
    let (gone, other) = ([1u8; 32], [2u8; 32]);
    let mut node = Node::new();
    node.trusted.insert(gone, tofu_trusted_peer(gone));
    node.trusted.insert(other, tofu_trusted_peer(other));
    node.meta.insert(gone, PeerMeta::new());
    let c = CmdContext { linked: vec![gone], ..ctx() };
    let o = run(&mut node, &c, CmdOp::Revoke { peer_id: hex_encode(&gone) });
    assert!(!node.trusted.contains_key(&gone) && node.trusted.contains_key(&other));
    let then_do = match o.step {
        Step::Save(t) => t,
        _ => panic!(),
    };
    let o = after_save(&mut node, &c.linked, true, 7, then_do, Ok(()));
    assert!(matches!(
        o.effects.as_slice(),
        [
            Effect::Send { msg: Msg::Revoke, .. },
            Effect::PurgePeer { .. },
            Effect::Emit(Event::MeshPeersChanged),
            Effect::Retire { .. },
        ]
    ));
    assert!(node.meta.is_empty() && reply(&o).ok);
    let o = run(&mut node, &c, CmdOp::Revoke { peer_id: "xx".to_string() });
    assert_eq!(refusal(&o), "bad hex peer_id");
    let o = run(&mut node, &c, CmdOp::Revoke { peer_id: "aabb".to_string() });
    assert_eq!(refusal(&o), "expected 32-byte peer_id");
}

#[test]
fn what_cannot_be_stored_is_taken_back() {
    let (a, b) = ([1u8; 32], [2u8; 32]);
    let mut node = Node::new();
    for p in [a, b] {
        node.trusted.insert(p, tofu_trusted_peer(p));
    }
    node.pending.insert(a, waiting());
    let c = ctx();
    let disk = || Err("disk full".to_string());
    let message = |what: &str| {
        format!("persist failed after 3 attempts: disk full; {what} rolled back, retry once disk recovers")
    };
    let fail = |node: &mut Node, o: Outcome| match o.step {
        Step::Save(t) => after_save(node, &Vec::new(), true, 7, t, disk()),
        Step::Upsert { then_do, .. } => after_save(node, &Vec::new(), true, 7, then_do, disk()),
        _ => panic!(),
    };
    let o = run(&mut node, &c, CmdOp::Unpair);
    assert!(node.trusted.is_empty());
    assert!(matches!(o.effects.as_slice(), [Effect::SendPrimary { msg: Msg::Revoke }]));
    assert_eq!(refusal(&fail(&mut node, o)), message("unpair"));
    assert_eq!(node.trusted.len(), 2);
    let o = run(&mut node, &c, CmdOp::Revoke { peer_id: hex_encode(&b) });
    assert_eq!(refusal(&fail(&mut node, o)), message("revoke"));
    assert_eq!(node.trusted.len(), 2);
    let o = run(&mut node, &c, CmdOp::PairConfirm { peer_id: hex_encode(&a), accept: false });
    assert!(node.pending.is_empty());
    assert_eq!(refusal(&fail(&mut node, o)), message("reject"));
    assert!(node.trusted.len() == 2 && node.pending.contains_key(&a));
    let req = PairRequest {
        key: [9; 32],
        name: "n".to_string(),
        way: PairWay::Uri,
        hints: Vec::new(),
    };
    let o = after_key_check(&mut node, true, true, 7, req, Ok(()), Vec::new());
    assert_eq!(node.trusted.len(), 3);
    assert_eq!(refusal(&fail(&mut node, o)), message("pair"));
    assert_eq!(node.trusted.len(), 2);
}

#[test]
fn a_known_peer_stays_trusted_when_pairing_again_is_not_stored() {
    let key = [9u8; 32];
    let peer = peer_id_for(&key);
    for way in [PairWay::Uri, PairWay::Key, PairWay::Pin(addr(7))] {
        let mut node = Node::new();
        node.trusted.insert(peer, TrustedPeer { static_pub: key, name: "old".to_string() });
        let req = PairRequest { key, name: "new".to_string(), way, hints: Vec::new() };
        let o = after_key_check(&mut node, true, true, 7, req, Ok(()), Vec::new());
        assert_eq!(node.trusted.get(&peer).unwrap().name, "new");
        let then_do = match o.step {
            Step::Upsert { then_do, .. } => then_do,
            _ => panic!(),
        };
        let o = after_save(&mut node, &Vec::new(), true, 7, then_do, Err("full".to_string()));
        assert!(refusal(&o).contains("pair rolled back") && o.effects.is_empty());
        let kept = node.trusted.get(&peer).unwrap();
        assert!(kept.static_pub == key && kept.name == "old");
    }
}

#[test]
fn unpairing_everybody() {
    let mut node = Node::new();
    node.trusted.insert([1; 32], tofu_trusted_peer([1; 32]));
    let c = CmdContext { persists: false, ..ctx() };
    let o = run(&mut node, &c, CmdOp::Unpair);
    assert!(matches!(
        o.effects.as_slice(),
        [Effect::SendPrimary { msg: Msg::Revoke }, Effect::Handle(Event::ManualUnpair)]
    ));
    assert!(reply(&o).ok && node.trusted.is_empty());
}

#[test]
fn the_users_word_on_a_pair() {
    let peer = [4u8; 32];
    let c = ctx();
    let fresh = || {
        let mut node = Node::new();
        node.trusted.insert(peer, tofu_trusted_peer(peer));
        node.pending.insert(peer, waiting());
        node
    };
    let op = |accept| CmdOp::PairConfirm { peer_id: hex_encode(&peer), accept };
    let mut node = fresh();
    let o = run(&mut node, &c, op(true));
    assert!(node.deferred.contains(&peer), "it waits for the hello");
    assert!(matches!(o.effects.as_slice(), [Effect::Handle(Event::SasLocalConfirmed { .. })]));
    let mut node = fresh();
    let mut m = PeerMeta::new();
    m.hello_seen = true;
    m.caps = vec!["sas-confirm".to_string()];
    node.meta.insert(peer, m);
    let o = run(&mut node, &c, op(true));
    assert!(matches!(
        o.effects.as_slice(),
        [
            Effect::Send { msg: Msg::PairConfirm { accept: true }, .. },
            Effect::Handle(Event::SasLocalConfirmed { .. }),
        ]
    ));
    let mut node = fresh();
    let mut m = PeerMeta::new();
    m.hello_seen = true;
    node.meta.insert(peer, m);
    let o = run(&mut node, &c, op(true));
    assert!(matches!(
        o.effects.as_slice(),
        [
            Effect::Handle(Event::SasPeerConfirmed { .. }),
            Effect::Handle(Event::SasLocalConfirmed { .. }),
        ]
    ));
    let mut node = fresh();
    let o = run(&mut node, &CmdContext { persists: false, linked: vec![peer], ..ctx() }, op(false));
    assert!(matches!(
        o.effects.as_slice(),
        [
            Effect::Send { msg: Msg::PairConfirm { accept: false }, .. },
            Effect::Send { msg: Msg::Bye, .. },
            Effect::PurgePeer { .. },
            Effect::Retire { .. },
        ]
    ));
    assert!(node.trusted.is_empty() && node.pending.is_empty());
    assert_eq!(refusal(&run(&mut node, &c, op(true))), "no pending pair with that peer_id");
}

#[test]
fn pairs_that_wait_are_listed() {
    let mut node = Node::new();
    node.pending.insert([1; 32], waiting());
    let mut late = waiting();
    late.expires_at = NOW;
    node.pending.insert([2; 32], late);
    let mut c = ctx();
    c.addr_texts.insert([1; 32], "192.168.0.1:1".to_string());
    let o = run(&mut node, &c, CmdOp::PairPending);
    match &reply(&o).data {
        Some(CmdData::PendingPairs(list)) => {
            assert_eq!(list.len(), 1);
            assert_eq!(list[0].expires_in_ms, Some(1_000));
            assert_eq!(list[0].addr, Some("192.168.0.1:1".to_string()));
            assert_eq!(list[0].sas_words.len(), 6);
        }
        _ => panic!(),
    }
    assert_eq!(node.pending.len(), 1, "expired ones are forgotten");
}

#[test]
fn showing_this_device_opens_the_window() {
    let mut node = Node::new();
    let mut c = CmdContext { on: false, ..ctx() };
    c.tailnet_addr = Some("100.64.0.1:4000".to_string());
    let o = run(&mut node, &c, CmdOp::PairShow);
    assert!(matches!(
        o.effects.as_slice(),
        [
            Effect::PublishPin { pin: Some(p) },
            Effect::WatchPin,
            Effect::Handle(Event::ToggleOn),
        ] if p == "123456"
    ));
    assert_eq!(node.window, Some(NOW + 90_000));
    match &reply(&o).data {
        Some(CmdData::PairInfo { uri, pin, pin_expires_at_ms, pubkey_b32, .. }) => {
            assert_eq!(*pubkey_b32, b32([1; 32]));
            let expected = format!(
                "fluxsync://pair/{}?a=192.168.0.9:4000,100.64.0.1:4000&f=w1.w2",
                b32([1; 32])
            );
            assert_eq!(*uri, expected);
            assert_eq!(*pin, Some("123456".to_string()));
            assert_eq!(*pin_expires_at_ms, Some(95_000));
            let parsed = parse_pair_uri(uri).unwrap();
            assert_eq!(parsed.addr_hints.len(), 2);
        }
        _ => panic!(),
    }
    let o = run(&mut node, &ctx(), CmdOp::PairShow);
    assert_eq!(o.effects.len(), 1, "one watch is enough");
}

#[test]
fn pairing_by_uri() {
    let mut node = Node::new();
    let c = ctx();
    let key = [7u8; 32];
    let uri = build_pair_uri(&b32(key), "192.168.0.1:5,nonsense", &vec!["w".to_string()]);
    let op = |uri: String| CmdOp::PairFromUri { uri, name: "phone".to_string() };
    let req = match run(&mut node, &c, op(uri)).step {
        Step::CheckKey(r) => r,
        _ => panic!(),
    };
    assert_eq!(req.key, key);
    assert_eq!(req.hints, vec!["192.168.0.1:5", "nonsense"]);
    let o = after_key_check(&mut node, true, false, 7, req, Ok(()), vec![Some(addr(5)), None]);
    let then_do = match o.step {
        Step::Upsert { entry, then_do } => {
            assert_eq!(entry.peer_id_hex, hex_encode(&peer_id_for(&key)));
            assert_eq!(entry.static_pub_hex, hex_encode(&key));
            assert!(entry.last_addr.is_none());
            then_do
        }
        _ => panic!(),
    };
    let o = after_save(&mut node, &Vec::new(), false, 7, then_do, Ok(()));
    assert!(matches!(
        o.effects.as_slice(),
        [Effect::Handle(Event::ToggleOn), Effect::Dial { peer, addrs, verify: true, .. }]
            if *peer == peer_id_for(&key) && *addrs == vec![addr(5)]
    ));
    assert!(matches!(reply(&o).data, Some(CmdData::PairResult { already_paired: false })));

    assert_eq!(
        refusal(&run(&mut node, &c, op("http://x".to_string()))),
        "bad pair uri: scheme is not fluxsync://pair/"
    );
    assert_eq!(
        refusal(&run(&mut node, &c, op("fluxsync://pair/?a=1".to_string()))),
        "bad pair uri: missing pubkey segment"
    );
    assert_eq!(
        refusal(&run(&mut node, &c, op("fluxsync://pair/1".to_string()))),
        "bad base32 pubkey in uri"
    );
    assert_eq!(
        refusal(&run(&mut node, &c, op("fluxsync://pair/MZXW6".to_string()))),
        "expected 32-byte pubkey"
    );
    assert_eq!(pair_uri_error_text(PairUriError::BadScheme), "scheme is not fluxsync://pair/");
    assert_eq!(usable_addrs(&vec![None, Some(addr(1))]), vec![addr(1)]);
}

fn request(way: PairWay) -> PairRequest {
    PairRequest { key: [7; 32], name: "n".to_string(), way, hints: Vec::new() }
}

#[test]
fn pairing_again_asks_nothing() {
    let peer = peer_id_for(&[7; 32]);
    let mut node = Node::new();
    node.trusted.insert(peer, tofu_trusted_peer([7; 32]));
    let way = PairWay::Pin(addr(3));
    let o = after_key_check(&mut node, false, true, 7, request(way), Ok(()), Vec::new());
    assert!(matches!(o.effects.as_slice(), [Effect::Dial { verify: false, .. }]));
    assert!(matches!(reply(&o).data, Some(CmdData::PairResult { already_paired: true })));
    node.pending.insert(peer, waiting());
    let o = after_key_check(&mut node, false, true, 7, request(way), Ok(()), Vec::new());
    assert!(matches!(o.effects.as_slice(), [Effect::Dial { verify: true, .. }]));
}

#[test]
fn bad_keys_and_a_full_store_are_refused() {
    let mut node = Node::new();
    let ways = [
        (PairWay::Uri, "bad pubkey in uri: low order"),
        (PairWay::Key, "bad pubkey: low order"),
        (PairWay::Pin(addr(1)), "bad pubkey from discovery: low order"),
    ];
    for (way, text) in ways {
        let bad = Err("low order".to_string());
        let o = after_key_check(&mut node, true, true, 7, request(way), bad, Vec::new());
        assert_eq!(refusal(&o), text);
    }
    for i in 0..MAX_PERSISTED_PEERS as u8 {
        node.trusted.insert([i; 32], tofu_trusted_peer([i; 32]));
    }
    let o = after_key_check(&mut node, true, true, 7, request(PairWay::Uri), Ok(()), Vec::new());
    assert_eq!(refusal(&o), "trust store full (64 peers); revoke an existing peer first");
    assert_eq!(node.trusted.len(), MAX_PERSISTED_PEERS);
}

#[test]
fn pairing_by_key() {
    let mut node = Node::new();
    let c = ctx();
    let op = |key: String, addr: Option<&str>| CmdOp::PairAccept {
        pubkey_b32: key,
        name: "n".to_string(),
        addr: addr.map(str::to_string),
    };
    assert_eq!(refusal(&run(&mut node, &c, op("1".to_string(), None))), "bad base32 pubkey");
    match run(&mut node, &c, op(b32([7; 32]), Some("x"))).step {
        Step::CheckKey(r) => assert_eq!((r.way, r.hints), (PairWay::Key, vec!["x".to_string()])),
        _ => panic!(),
    }
    let way = PairWay::Key;
    let o = after_key_check(&mut node, false, true, 7, request(way), Ok(()), vec![None]);
    assert_eq!(reply(&o).err, Some("bad addr".to_string()));
    assert!(node.trusted.contains_key(&peer_id_for(&[7; 32])), "the trust stays");
    let o = after_key_check(&mut node, false, true, 7, request(way), Ok(()), vec![Some(addr(2))]);
    assert!(reply(&o).ok && reply(&o).data.is_none() && o.effects.len() == 1);
    let o = after_key_check(&mut node, false, true, 7, request(way), Ok(()), Vec::new());
    assert!(reply(&o).ok && o.effects.is_empty());
}

#[test]
fn pairing_by_code() {
    let mut node = Node::new();
    node.discovered.insert(
        [3; 32],
        ResolvedPeer {
            static_pub: [7; 32],
            addr: addr(9),
            name: "tv".to_string(),
            pair_pin: Some("424242".to_string()),
            last_seen: NOW,
        },
    );
    let c = ctx();
    let op = |pin: &str| CmdOp::PairFromPin { pin: pin.to_string(), name: "n".to_string() };
    match run(&mut node, &c, op("424242")).step {
        Step::CheckKey(r) => assert_eq!((r.key, r.way), ([7; 32], PairWay::Pin(addr(9)))),
        _ => panic!(),
    }
    assert_eq!(refusal(&run(&mut node, &c, op("111111"))), "no_peer_with_pin");
    assert_eq!(refusal(&run(&mut node, &c, op("42424"))), "bad pin format (6 digits)");
    let later = CmdContext { now: NOW + 120_000, ..ctx() };
    assert_eq!(refusal(&run(&mut node, &later, op("424242"))), "no_peer_with_pin");
}

#[test]
fn saving_nothing_is_saved_at_once() {
    let mut node = Node::new();
    let then_do = AfterSave::Revoke { peer: [1; 32], trust: None };
    let o = after_save(&mut node, &Vec::new(), true, 7, then_do, Err("x".to_string()));
    assert!(!reply(&o).ok && node.trusted.is_empty());
}

#[test]
fn addresses_of_a_pairing_uri_keep_their_order() {
    let words = vec!["one".to_string(), "two".to_string()];
    for hints in [vec![], vec!["10.0.0.1:7"], vec!["10.0.0.1:7", "[fe80::1%3]:8", "100.64.0.9:7"]] {
        let uri = build_pair_uri("KEY", &hints.join(","), &words);
        let parsed = parse_pair_uri(&uri).unwrap();
        assert_eq!(parsed.pubkey_b32, "KEY");
        assert_eq!(parsed.addr_hints, hints);
        assert_eq!(parsed.fp_words, words);
        let read: Vec<Option<SocketAddr>> =
            (0..hints.len()).map(|i| Some(addr(i as u16))).collect();
        let all: Vec<SocketAddr> = (0..hints.len()).map(|i| addr(i as u16)).collect();
        assert_eq!(usable_addrs(&read), all);
    }
}
