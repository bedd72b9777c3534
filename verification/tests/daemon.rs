use fluxsyncd::backoff::PeerBackoff;
use fluxsyncd::cmd::{HistoryItem, HistorySource};
use fluxsyncd::config::{pending_from_start, TestPendingPair};
use fluxsyncd::driver::content::{clipboard_dedup_hash, encode_png, image_cache, image_rgba_hash};
use fluxsyncd::driver::dialing::{
    after_attempt, on_removed, on_resolved, probe_tick, start_initiator, Advert, DialStep, Probe,
};
use fluxsyncd::driver::discovered::ResolvedPeer;
use fluxsyncd::driver::effects::Effect;
use fluxsyncd::driver::events::{
    after_event, after_pause, before_event, boot_events, ghost_check, pre_paired_events,
    redial_seeds, sync_security_wipe_if_needed, unread_battery,
};
use fluxsyncd::driver::heartbeat::{heartbeat_tick, new_heart, Pulse, Secondary};
use fluxsyncd::driver::inflight::Inflight;
use fluxsyncd::driver::node::{Node, PinAd};
use fluxsyncd::driver::outbound::{dispatch, self_platform, Desk, Outlook};
use fluxsyncd::driver::pin::{pin_deadline, turn_pin};
use fluxsyncd::driver::receive::{receive, Ear, FrameKind, Receipt};
use fluxsyncd::driver::rekey::{after_rekey, pick_rekey, LinkedSession};
use fluxsyncd::driver::resync::OutboxEntry;
use fluxsyncd::driver::store::{
    choose_boot_trusted_peer, load_trusted_peers, persist_last_addr, retry_delay,
    save_current_peers, upsert_peer, BootPeer, LoadedPeer, StoredPeer,
};
use fluxsyncd::driver::vault::{
    begin_persist, entries_to_save, note_saved, wipe_done, VaultCtx, VaultEntry,
};
use fluxsyncd::driver::watcher::{look, new_watcher, seed, Clip, Copied};
use fluxsyncd::handshake::{hex_encode, peer_id_for, tofu_trusted_peer, TrustedPeer};
use fluxsyncd::idmap::{IdMap, IdSet};
use fluxsyncd::ids::Id;
use fluxsyncd::net::{
    advertised_ip, announced_ip, is_cgnat, is_local_ip, is_redialable_addr, pins_interface,
    tailnet_ip, IpAddr, SocketAddr,
};
use fluxsyncd::wire::{Action, Event, Kind, Metric, Msg};

const NOW: u64 = 1_000_000;

fn v4(a: u8, b: u8, c: u8, d: u8) -> IpAddr {
    IpAddr::V4(u32::from_be_bytes([a, b, c, d]))
}

fn at(ip: IpAddr) -> SocketAddr {
    SocketAddr::new(ip, 9999)
}

fn desk() -> Desk {
    Desk { written: Vec::new(), images: image_cache() }
}

fn stored(key: Id, name: &str, last_addr: Option<&str>) -> StoredPeer {
    StoredPeer {
        peer_id_hex: hex_encode(&peer_id_for(&key)),
        static_pub_hex: hex_encode(&key),
        name: name.to_string(),
        last_addr: last_addr.map(str::to_string),
    }
}

fn item(preview: &str, lamport: u64, hash: &str, favorite: bool) -> HistoryItem {
    HistoryItem {
        kind: Kind::Text,
        preview: preview.to_string(),
        time: "12:00".to_string(),
        source: HistorySource::Local,
        sensitive: false,
        lamport,
        hash: hash.to_string(),
        favorite,
        resync: false,
        source_peer_id: None,
    }
}

#[test]
fn fs039_trusted_peer_reloads_after_restart() {
    let static_pub = [0x42u8; 32];
    let peer_id = peer_id_for(&static_pub);
    let addr = SocketAddr::new(v4(10, 0, 0, 7), 41889);
    let loaded = load_trusted_peers(vec![LoadedPeer {
        stored: stored(static_pub, "Galaxy S21", Some("10.0.0.7:41889")),
        key_sound: true,
        addr: Some(addr),
    }]);
    assert_eq!(loaded.len(), 1, "the persisted peer must reload");
    assert_eq!(loaded[0].peer_id, peer_id, "peer_id must round-trip");
    assert_eq!(loaded[0].trust.static_pub, static_pub, "static_pub must round-trip");
    assert_eq!(loaded[0].trust.name, "Galaxy S21", "name must round-trip");
    assert_eq!(loaded[0].last_addr, Some(addr), "last_addr must parse and round-trip");
}

#[test]
fn unsound_records_are_skipped_and_the_file_is_capped() {
    let mut all = Vec::new();
    for i in 0..70u8 {
        all.push(LoadedPeer {
            stored: stored([i; 32], "p", None),
            key_sound: i != 1,
            addr: None,
        });
    }
    all[0].stored.static_pub_hex = "zz".to_string();
    let loaded = load_trusted_peers(all);
    assert_eq!(loaded.len(), 64);
    assert_eq!(loaded[0].trust.static_pub, [2u8; 32]);
}

#[test]
fn choose_boot_trusted_peer_is_deterministic() {
    let ids: [Id; 8] = [
        [0x90; 32], [0x20; 32], [0xF0; 32], [0x01; 32], [0x77; 32], [0xAA; 32], [0x55; 32], [0xC3; 32],
    ];
    let mut trusted: IdMap<TrustedPeer> = IdMap::new();
    for (i, id) in ids.iter().enumerate() {
        trusted.insert(*id, TrustedPeer { static_pub: [0u8; 32], name: format!("peer-{i}") });
    }
    let chosen = choose_boot_trusted_peer(&trusted, Some(ids[5])).expect("must be found");
    assert_eq!(chosen.name, "peer-5", "known primary id must win over the deterministic fallback");
    let chosen = choose_boot_trusted_peer(&trusted, None).expect("fallback must find an entry");
    assert_eq!(chosen.name, "peer-3");
    let chosen = choose_boot_trusted_peer(&trusted, Some([0xEEu8; 32])).expect("fallback");
    assert_eq!(chosen.name, "peer-3");
    assert!(choose_boot_trusted_peer(&IdMap::new(), Some(ids[0])).is_none());
}

#[test]
fn l4_persist_last_addr_filters_bogus_address_classes() {
    assert!(!is_redialable_addr(v4(169, 254, 1, 1)), "link-local must be rejected");
    assert!(!is_redialable_addr(v4(224, 0, 0, 1)), "multicast must be rejected");
    assert!(!is_redialable_addr(v4(0, 0, 0, 0)), "unspecified must be rejected");
    let fe80 = IpAddr::V6(0xfe80_0000_0000_0000_0000_0000_0000_0001);
    assert!(!is_redialable_addr(fe80), "IPv6 link-local must be rejected");
    assert!(is_redialable_addr(v4(192, 168, 1, 42)), "a normal LAN address must pass");
    assert!(is_redialable_addr(v4(127, 0, 0, 1)), "loopback must be allowed");
    assert!(is_redialable_addr(IpAddr::V6(1)), "IPv6 loopback must be allowed");

    let peer_id = [0x11u8; 32];
    let mut trusted: IdMap<TrustedPeer> = IdMap::new();
    trusted.insert(peer_id, TrustedPeer { static_pub: [0x22u8; 32], name: "peer".to_string() });
    let bogus = persist_last_addr(&trusted, peer_id, at(v4(169, 254, 1, 1)), "169.254.1.1:9999".to_string());
    assert!(bogus.is_none(), "a link-local last_addr must never be persisted");
    let lan = persist_last_addr(&trusted, peer_id, at(v4(192, 168, 1, 42)), "192.168.1.42:9999".to_string());
    let record = lan.expect("a normal LAN address must persist");
    assert_eq!(record.last_addr, Some("192.168.1.42:9999".to_string()));
    assert_eq!(record.peer_id_hex, "11".repeat(32));
    let unknown = persist_last_addr(&trusted, [1u8; 32], at(v4(192, 168, 1, 42)), String::new());
    assert!(unknown.is_none());
}

#[test]
fn saving_the_trust_store_keeps_addresses() {
    let (known, new) = ([1u8; 32], [2u8; 32]);
    let mut trusted: IdMap<TrustedPeer> = IdMap::new();
    trusted.insert(peer_id_for(&known), TrustedPeer { static_pub: known, name: "k".to_string() });
    trusted.insert(peer_id_for(&new), TrustedPeer { static_pub: new, name: "n".to_string() });
    let file = vec![stored(known, "old", Some("a:1")), stored([3u8; 32], "gone", Some("b:1"))];
    let saved = save_current_peers(&trusted, &file);
    assert_eq!(saved.len(), 2);
    let of = |key: Id| {
        let id = hex_encode(&peer_id_for(&key));
        saved.iter().find(|p| p.peer_id_hex == id).unwrap()
    };
    assert_eq!(of(known).last_addr, Some("a:1".to_string()));
    assert_eq!(of(known).name, "k");
    assert_eq!(of(new).last_addr, None);
}

#[test]
fn a_record_replaces_that_of_the_same_peer() {
    let mut file = vec![stored([1u8; 32], "a", None), stored([2u8; 32], "b", None)];
    upsert_peer(&mut file, stored([1u8; 32], "new", Some("x:1")));
    assert_eq!(file.len(), 2);
    assert_eq!(file[0].name, "new");
    upsert_peer(&mut file, stored([3u8; 32], "c", None));
    assert_eq!(file[2].name, "c");
    assert_eq!((retry_delay(0), retry_delay(1), retry_delay(2)), (Some(100), Some(200), None));
}

#[test]
fn c2_persister_clears_disk_vault_and_favorites_on_wipe_gen_bump() {
    let secret = item("favorited secret", 1, &"aa".repeat(32), true);
    let fresh = item("post-swap item", 2, &"bb".repeat(32), false);
    let mut vault = VaultCtx { last: Vec::new(), entries: Vec::new() };
    let mut discovered: IdMap<ResolvedPeer> = IdMap::new();
    discovered.insert(
        [0x77u8; 32],
        ResolvedPeer {
            static_pub: [0x88u8; 32],
            addr: at(v4(127, 0, 0, 1)),
            name: "stale-peer".to_string(),
            pair_pin: Some("123456".to_string()),
            last_seen: NOW,
        },
    );
    let mut backoff: IdMap<PeerBackoff> = IdMap::new();
    backoff.insert([0x77u8; 32], PeerBackoff::new());

    assert!(!begin_persist(&mut vault, &mut discovered, &mut backoff, 0, 0));
    let entries = entries_to_save(&vault, &vec![secret.clone()], NOW).expect("a change");
    assert_eq!(entries.len(), 1);
    note_saved(&mut vault, entries, vec![secret.clone()]);
    assert!(entries_to_save(&vault, &vec![secret], NOW).is_none());
    assert!(!discovered.is_empty() && !backoff.is_empty());

    assert!(begin_persist(&mut vault, &mut discovered, &mut backoff, 0, 1));
    assert_eq!(wipe_done(0, 1, false), 0, "a failed wipe is tried again");
    assert_eq!(wipe_done(0, 1, true), 1);
    let entries = entries_to_save(&vault, &vec![fresh], NOW + 1).expect("a change");
    let previews: Vec<&str> = entries.iter().map(|e| e.item.preview.as_str()).collect();
    assert_eq!(previews, vec!["post-swap item"]);
    assert!(discovered.is_empty() && backoff.is_empty());
}

#[test]
fn favourites_and_ages_survive_in_the_vault() {
    let old = |preview: &str, lamport, favorite| VaultEntry {
        item: item(preview, lamport, "h", favorite),
        created_ms: lamport * 10,
    };
    let vault = VaultCtx {
        last: Vec::new(),
        entries: vec![old("kept", 1, false), old("pinned", 2, true), old("scrolled", 3, false)],
    };
    let history = vec![item("new", 9, "n", false), item("kept", 1, "h", true)];
    let out = vault.rebuild(&history, 777);
    let seen: Vec<(&str, u64)> =
        out.iter().map(|e| (e.item.preview.as_str(), e.created_ms)).collect();
    assert_eq!(seen, vec![("new", 777), ("kept", 10), ("pinned", 20)]);
}

fn full_node() -> Node {
    let mut node = Node::new();
    node.stage.insert(
        [2u8; 32],
        OutboxEntry {
            payload: b"staged item".to_vec(),
            kind: Kind::Text,
            origin: [9u8; 32],
            seq: 2,
            created: NOW,
        },
    );
    let mut waiting = IdSet::new();
    waiting.insert([4u8; 32]);
    node.inflight.insert(
        [3u8; 32],
        Inflight {
            frames: vec![vec![1, 2, 3]],
            attempts: 0,
            last_sent: NOW,
            first_sent: NOW,
            pending_peers: waiting,
        },
    );
    node
}

#[test]
fn sync_security_wipe_if_needed_clears_outbox_and_disk_synchronously() {
    let mut node = full_node();
    let mut d = desk();
    let mut last = 0;
    let out = sync_security_wipe_if_needed(&mut node, &mut d, &mut last, 0, true);
    assert!(out.is_empty(), "must not fire when the generation hasn't advanced");
    assert!(node.inflight.get(&[3u8; 32]).is_some() && !node.stage.is_empty());
    let out = sync_security_wipe_if_needed(&mut node, &mut d, &mut last, 1, true);
    assert!(matches!(out.as_slice(), [Effect::ClearOutbox, Effect::ClearVault]));
    assert_eq!(last, 1, "must record the new generation");
    assert!(node.stage.is_empty() && node.inflight.is_empty());
    let out = sync_security_wipe_if_needed(&mut node, &mut d, &mut last, 1, true);
    assert!(out.is_empty(), "must not re-fire for a generation already handled");
}

#[test]
fn sync_security_wipe_if_needed_clears_image_cache() {
    let stashed = "dd".repeat(32);
    let mut node = Node::new();
    let mut d = desk();
    d.images.cache_image(stashed.clone(), vec![7, 8, 9]);
    let mut last = 0;
    let out = sync_security_wipe_if_needed(&mut node, &mut d, &mut last, 1, false);
    assert!(matches!(out.as_slice(), [Effect::ClearOutbox]));
    assert!(d.images.lookup_cached_image(&stashed).is_none());
}

fn outlook(os_clipboard: bool) -> Outlook {
    Outlook {
        linked: Vec::new(),
        primary: None,
        own_name: "me".to_string(),
        own_platform: self_platform("linux").to_string(),
        own_caps: vec!["core-1".to_string()],
        max_payload: 1 << 24,
        os_clipboard,
    }
}

#[test]
fn write_clipboard_populates_desktop_image_cache_gated_by_sensitivity_and_wipe() {
    let meta = IdMap::new();
    let mut d = desk();
    let write = |d: &mut Desk, rgba: &Vec<u8>, sensitive: bool| -> (String, Vec<u8>) {
        let png = encode_png(1, 1, rgba.clone()).expect("encode test PNG");
        let action = Action::WriteClipboard { kind: Kind::Image, payload: png.clone(), sensitive };
        dispatch(d, &outlook(true), &meta, vec![action]);
        (hex_encode(&image_rgba_hash(1, 1, rgba)), png)
    };
    let (hash, png) = write(&mut d, &vec![0xff, 0x00, 0x00, 0xff], false);
    assert_eq!(d.images.lookup_cached_image(&hash), Some(png));
    let (hash2, _) = write(&mut d, &vec![0x00, 0xff, 0x00, 0xff], true);
    assert!(d.images.lookup_cached_image(&hash2).is_none());
    let mut node = Node::new();
    let mut last = 0;
    sync_security_wipe_if_needed(&mut node, &mut d, &mut last, 1, false);
    assert!(d.images.lookup_cached_image(&hash).is_none());
}

#[test]
fn what_the_daemon_writes_it_does_not_send_back() {
    let meta = IdMap::new();
    let mut d = desk();
    let action = Action::WriteClipboard {
        kind: Kind::Text,
        payload: b"from the peer\r\n".to_vec(),
        sensitive: false,
    };
    let out = dispatch(&mut d, &outlook(true), &meta, vec![action]);
    assert!(out.iter().any(|e| matches!(e, Effect::SetText { .. })));
    let mut w = new_watcher();
    let clip = Clip::Text { text: "from the peer\n".to_string() };
    assert!(matches!(look(&mut w, &d.written, clip, 100), Copied::Nothing));
    let clip = Clip::Text { text: " by the user ".to_string() };
    assert!(matches!(look(&mut w, &d.written, clip, 100), Copied::Text { text } if text == "by the user"));
    let clip = Clip::Text { text: "by the user".to_string() };
    assert!(matches!(look(&mut w, &d.written, clip, 100), Copied::Nothing), "seen already");
    let clip = Clip::Text { text: "too long".to_string() };
    assert!(matches!(look(&mut w, &d.written, clip, 3), Copied::Nothing));
    assert!(matches!(look(&mut w, &d.written, Clip::Text { text: "  ".to_string() }, 9), Copied::Nothing));
}

#[test]
fn images_are_looked_at_by_their_pixels() {
    let mut w = new_watcher();
    let image = || Clip::Image { width: 1, height: 1, rgba: vec![1, 2, 3, 4] };
    match look(&mut w, &Vec::new(), image(), 10_000) {
        Copied::Image { hash, png, preview } => {
            assert_eq!(hash, image_rgba_hash(1, 1, &[1, 2, 3, 4]));
            assert_eq!(preview, "Image 1\u{d7}1, 1 KB");
            assert!(png.len() > 8);
        }
        other => panic!("{other:?}"),
    }
    assert!(matches!(look(&mut w, &Vec::new(), image(), 10_000), Copied::Nothing));
    let mut w = new_watcher();
    assert!(matches!(look(&mut w, &Vec::new(), image(), 5), Copied::Nothing), "over the cap");
    let torn = Clip::Image { width: 2, height: 2, rgba: vec![1] };
    assert!(matches!(look(&mut w, &Vec::new(), torn, 10_000), Copied::Nothing));
}

#[test]
fn what_was_copied_before_a_session_stays_here() {
    let mut w = new_watcher();
    let clip = || Clip::Text { text: "old".to_string() };
    seed(&mut w, 55, &clip());
    assert_eq!(w.last_seen, Some(clipboard_dedup_hash("old")));
    assert!(matches!(look(&mut w, &Vec::new(), clip(), 100), Copied::Nothing));
    seed(&mut w, 55, &Clip::Text { text: "other".to_string() });
    assert_eq!(w.last_seen, Some(clipboard_dedup_hash("old")), "seeded once for a session");
    seed(&mut w, 56, &Clip::Nothing);
    assert_eq!(w.last_seen, Some(clipboard_dedup_hash("old")));
}

fn pulse(now: u64, last_rx: u64) -> Pulse {
    Pulse {
        now,
        linked: true,
        primary: Some([1u8; 32]),
        last_rx,
        established: 0,
        level: 255,
        charging: false,
        secondaries: Vec::new(),
    }
}

#[test]
fn a_silent_primary_is_given_up_on_the_third_miss() {
    let mut heart = new_heart();
    let mut backoff: IdMap<PeerBackoff> = IdMap::new();
    let gone = |out: &[Effect]| out.iter().any(|e| matches!(e, Effect::FailOver { lost: Some(p) } if *p == [1u8; 32]));
    assert!(!gone(&heartbeat_tick(&mut heart, &mut backoff, &pulse(10_000, 0))));
    assert!(!gone(&heartbeat_tick(&mut heart, &mut backoff, &pulse(13_000, 0))));
    let out = heartbeat_tick(&mut heart, &mut backoff, &pulse(16_000, 0));
    assert!(gone(&out));
    assert!(out.iter().any(|e| matches!(e, Effect::TouchPrimary)));
    assert!(out.iter().any(|e| matches!(e, Effect::Count(Metric::DisconnectTimeout))));
    assert!(backoff.contains_key(&[1u8; 32]));
    heartbeat_tick(&mut heart, &mut backoff, &pulse(19_000, 0));
    heartbeat_tick(&mut heart, &mut backoff, &pulse(22_000, 21_000));
    assert!(!gone(&heartbeat_tick(&mut heart, &mut backoff, &pulse(30_000, 0))));
    let out = heartbeat_tick(&mut heart, &mut backoff, &Pulse { linked: false, ..pulse(33_000, 0) });
    assert!(out.is_empty());
}

#[test]
fn the_battery_goes_out_with_the_ping() {
    let mut heart = new_heart();
    let mut backoff: IdMap<PeerBackoff> = IdMap::new();
    let p = Pulse { level: 42, charging: true, ..pulse(10_000, 10_000) };
    let out = heartbeat_tick(&mut heart, &mut backoff, &p);
    assert!(out.iter().any(|e| matches!(
        e,
        Effect::SendPrimary { msg: Msg::BatteryStatus { level: 42, charging: true } }
    )));
    let out = heartbeat_tick(&mut heart, &mut backoff, &pulse(10_000, 10_000));
    assert_eq!(out.len(), 2, "not before it was read");
}

#[test]
fn a_silent_secondary_only_loses_its_own_session() {
    let mut heart = new_heart();
    let mut backoff: IdMap<PeerBackoff> = IdMap::new();
    let (silent, loud) = ([2u8; 32], [3u8; 32]);
    let mut last: Vec<Effect> = Vec::new();
    for now in [10_000, 13_000, 16_000] {
        let p = Pulse {
            linked: false,
            secondaries: vec![
                Secondary { peer: silent, last_rx: 0, established: Some(0) },
                Secondary { peer: loud, last_rx: now, established: Some(0) },
            ],
            ..pulse(now, now)
        };
        last = heartbeat_tick(&mut heart, &mut backoff, &p);
    }
    assert!(matches!(
        last.as_slice(),
        [
            Effect::Send { to: a, msg: Msg::Heartbeat },
            Effect::EndSession { peer: b },
            Effect::Emit(Event::PeerRevoked { peer_id: c }),
            Effect::Emit(Event::MeshPeersChanged),
            Effect::Send { to: d, msg: Msg::Heartbeat },
        ] if *a == silent && *b == silent && *c == silent && *d == loud
    ));
    assert!(backoff.contains_key(&silent) && !backoff.contains_key(&loud));
}

#[test]
fn rekey_watchdog_rekeys_a_secondary_session() {
    let (peer_a, peer_b) = ([0x0Au8; 32], [0x0Bu8; 32]);
    let mut trusted: IdMap<TrustedPeer> = IdMap::new();
    for p in [peer_a, peer_b] {
        trusted.insert(p, TrustedPeer { static_pub: p, name: "peer".to_string() });
    }
    let session = |peer: Id, ours: bool| LinkedSession {
        peer,
        established: Some(0),
        due: true,
        ours,
        addr: Some(at(v4(127, 0, 0, 1))),
        generation: Some(7),
    };
    let sessions = vec![session(peer_a, false), session(peer_b, true)];
    let r = pick_rekey(&trusted, &sessions, false, 60).expect("the secondary is due");
    assert_eq!((r.peer, r.key, r.generation, r.age), (peer_b, peer_b, 7, 60));
    assert!(pick_rekey(&trusted, &sessions, true, 60).is_none(), "one handshake at a time");
    let mut half = session(peer_a, true);
    half.addr = None;
    let r = pick_rekey(&trusted, &vec![half, session(peer_b, true)], false, 60).unwrap();
    assert_eq!(r.peer, peer_b);
    let mut backoff: IdMap<PeerBackoff> = IdMap::new();
    let out = after_rekey(&mut backoff, peer_b, 60, false);
    assert!(matches!(out.as_slice(), [Effect::Count(Metric::HandshakeFail)]));
    assert!(backoff.is_empty(), "a failed renewal does not count against the peer");
    assert!(after_rekey(&mut backoff, peer_b, 60, true).is_empty());
    assert!(backoff.contains_key(&peer_b));
}

fn probe() -> Probe {
    Probe {
        now: NOW,
        own_key: [1u8; 32],
        primary: None,
        primary_linked: false,
        primary_addr: None,
        linked: Vec::new(),
        roaming: IdMap::new(),
        persisted: IdMap::new(),
    }
}

fn dialed(out: &[Effect]) -> Vec<(Id, SocketAddr)> {
    out.iter()
        .map(|e| match e {
            Effect::Dial { peer, addrs, verify, .. } => {
                assert!(!verify);
                assert_eq!(addrs.len(), 1);
                (*peer, addrs[0])
            }
            _ => panic!("only dials"),
        })
        .collect()
}

#[test]
fn lost_peers_are_dialed_where_they_were() {
    let (p, s) = ([5u8; 32], [6u8; 32]);
    let mut node = Node::new();
    for id in [p, s] {
        node.trusted.insert(id, TrustedPeer { static_pub: [9u8; 32], name: "x".to_string() });
    }
    let (here, there) = (at(v4(10, 0, 0, 1)), at(v4(10, 0, 0, 2)));
    let mut c = probe();
    c.primary = Some(p);
    c.primary_addr = Some(here);
    c.roaming.insert(p, vec![here]);
    c.persisted.insert(s, there);
    let mut got = dialed(&probe_tick(&mut node, &c));
    got.sort_by_key(|(id, _)| *id);
    assert_eq!(got, vec![(p, here), (s, there)]);
    node.backoff.insert(p, PeerBackoff { attempt: 1, next_ready_at: Some(NOW + 1) });
    assert_eq!(dialed(&probe_tick(&mut node, &c)), vec![(s, there)], "its backoff holds the primary");
    c.linked = vec![s];
    assert!(probe_tick(&mut node, &c).is_empty());
    c.now = NOW + 1;
    assert_eq!(dialed(&probe_tick(&mut node, &c)), vec![(p, here)]);
    c.own_key = [9u8; 32];
    assert!(probe_tick(&mut node, &c).is_empty(), "the other side dials");
    c.own_key = [1u8; 32];
    c.primary_linked = true;
    assert!(probe_tick(&mut node, &c).is_empty());
}

fn advert(key: Id) -> Advert {
    Advert {
        peer_id_hex: hex_encode(&peer_id_for(&key)),
        static_pub_hex: hex_encode(&key),
        name: "phone".to_string(),
        addrs: vec![at(v4(10, 0, 0, 3))],
        pair_pin: Some("123456".to_string()),
    }
}

#[test]
fn announcements_are_noted_and_trusted_peers_dialed() {
    let key = [9u8; 32];
    let peer = peer_id_for(&key);
    let mut node = Node::new();
    assert!(on_resolved(&mut node, &[1u8; 32], &Vec::new(), advert(key), NOW).is_empty());
    assert_eq!(node.discovered.get(&peer).unwrap().name, "phone");
    assert!(node.trusted.is_empty());
    node.trusted.insert(peer, TrustedPeer { static_pub: key, name: "x".to_string() });
    let out = on_resolved(&mut node, &[1u8; 32], &Vec::new(), advert(key), NOW);
    assert!(matches!(out.as_slice(), [Effect::Dial { peer: p, verify: false, .. }] if *p == peer));
    assert!(on_resolved(&mut node, &[1u8; 32], &vec![peer], advert(key), NOW).is_empty());
    assert!(on_resolved(&mut node, &[0xFFu8; 32], &Vec::new(), advert(key), NOW).is_empty());
    let mut forged = advert(key);
    forged.peer_id_hex = "ab".repeat(32);
    let before = node.discovered.len();
    assert!(on_resolved(&mut node, &[1u8; 32], &Vec::new(), forged, NOW).is_empty());
    assert_eq!(node.discovered.len(), before);
    assert!(on_removed(true, Some(peer)).is_empty());
    assert_eq!(on_removed(false, Some(peer)).len(), 1);
    assert!(on_removed(false, None).is_empty());
}

#[test]
fn addresses_are_tried_in_order() {
    let addrs = vec![at(v4(10, 0, 0, 1)), at(v4(10, 0, 0, 2))];
    let mut backoff: IdMap<PeerBackoff> = IdMap::new();
    let peer = [4u8; 32];
    assert_eq!(start_initiator(false, &addrs), Some(addrs[0]));
    assert_eq!(start_initiator(true, &addrs), None);
    assert_eq!(start_initiator(false, &Vec::new()), None);
    let (step, out) = after_attempt(&mut backoff, peer, &addrs, 0, false, NOW);
    assert_eq!(step, DialStep::Try(addrs[1]));
    assert!(matches!(out.as_slice(), [Effect::Count(Metric::HandshakeFail)]));
    assert!(backoff.is_empty());
    let (step, _) = after_attempt(&mut backoff, peer, &addrs, 1, false, NOW);
    assert_eq!(step, DialStep::GiveUp);
    assert_eq!(backoff.get(&peer).unwrap().attempt, 1);
    let (step, out) = after_attempt(&mut backoff, peer, &addrs, 1, true, NOW);
    assert!(step == DialStep::Linked && out.is_empty());
    assert_eq!(backoff.get(&peer).unwrap().attempt, 1, "being linked proves nothing yet");
}

#[test]
fn datagrams_are_sorted() {
    let lan = at(v4(192, 168, 0, 5));
    let wan = at(v4(8, 8, 8, 8));
    let ear = Ear { lan_only: true, persists: true, initiator_waits: false, current: Some(lan) };
    let mut stored = None;
    for kind in [FrameKind::HandshakeInit, FrameKind::HandshakeResp, FrameKind::Encrypted] {
        assert_eq!(receive(&ear, &mut stored, wan, kind), Receipt::Drop);
    }
    assert_eq!(receive(&ear, &mut stored, lan, FrameKind::HandshakeInit), Receipt::AnswerIfAllowed);
    assert_eq!(receive(&ear, &mut stored, lan, FrameKind::HandshakeResp), Receipt::Drop);
    let waiting = Ear { initiator_waits: true, ..ear };
    assert_eq!(receive(&waiting, &mut stored, lan, FrameKind::HandshakeResp), Receipt::HandOver);
    assert_eq!(receive(&waiting, &mut stored, lan, FrameKind::Other), Receipt::Drop);
    assert_eq!(
        receive(&waiting, &mut stored, lan, FrameKind::Encrypted),
        Receipt::Deliver { remember: true }
    );
    assert_eq!(
        receive(&waiting, &mut stored, lan, FrameKind::Encrypted),
        Receipt::Deliver { remember: false }
    );
    assert_eq!(stored, Some(lan));
    let anywhere = Ear { lan_only: false, ..waiting };
    assert_eq!(
        receive(&anywhere, &mut stored, wan, FrameKind::Encrypted),
        Receipt::Deliver { remember: false }
    );
}

#[test]
fn the_code_turns_while_the_window_is_open() {
    let mut node = Node::new();
    assert_eq!(pin_deadline(&node), None);
    node.window = Some(NOW + 10);
    node.pin = Some(PinAd { pin: "111111".to_string(), expires_at: NOW });
    assert_eq!(pin_deadline(&node), Some(NOW));
    let (on, out) = turn_pin(&mut node, NOW, "222222".to_string());
    assert!(on);
    assert!(matches!(out.as_slice(), [Effect::PublishPin { pin: Some(p) }] if p == "222222"));
    assert_eq!(pin_deadline(&node), Some(NOW + 90_000));
    let (on, out) = turn_pin(&mut node, NOW + 10, "333333".to_string());
    assert!(!on && node.pin.is_none());
    assert!(matches!(out.as_slice(), [Effect::PublishPin { pin: None }]));
}

#[test]
fn a_missing_peer_is_given_up_after_ten_minutes() {
    let mut since = None;
    assert!(!ghost_check(&mut since, "discovering", "phone", NOW));
    assert_eq!(since, Some(NOW));
    assert!(!ghost_check(&mut since, "discovering", "phone", NOW + 600_000));
    assert!(ghost_check(&mut since, "discovering", "phone", NOW + 600_001));
    assert_eq!(since, None);
    ghost_check(&mut since, "discovering", "phone", NOW);
    ghost_check(&mut since, "linked", "phone", NOW);
    assert_eq!(since, None);
    ghost_check(&mut since, "discovering", "", NOW);
    assert_eq!(since, None);
    since = Some(5);
    after_pause(&mut since, NOW, NOW + 30_000);
    assert_eq!(since, Some(5));
    after_pause(&mut since, NOW, NOW + 30_001);
    assert_eq!(since, None);
}

#[test]
fn events_leave_their_trace() {
    let mut battery = unread_battery();
    assert_eq!(battery.level, 255);
    assert_eq!(before_event(&mut battery, &Event::HandshakeOk), (true, false));
    let ev = Event::BatteryChangedSelf { level: 7, charging: true };
    assert_eq!(before_event(&mut battery, &ev), (false, false));
    assert_eq!((battery.level, battery.charging), (7, true));
    assert_eq!(before_event(&mut battery, &Event::GhostTimeout), (false, true));

    let mut node = full_node();
    let mut d = desk();
    let mut last = 3;
    let gone = Event::PeerRevoked { peer_id: [4u8; 32] };
    let dropped = vec![Action::PendingDropped { hashes: vec![[2u8; 32]] }];
    assert!(after_event(&mut node, &mut d, &mut last, 3, true, &gone, &dropped).is_empty());
    assert!(node.stage.is_empty() && node.inflight.is_empty());
    let mut node = full_node();
    let out = after_event(&mut node, &mut d, &mut last, 4, true, &Event::GhostTimeout, &Vec::new());
    assert_eq!(out.len(), 2);
    assert!(node.stage.is_empty() && node.inflight.is_empty());
}

#[test]
fn the_start_tells_of_a_trusted_peer() {
    let mut trusted: IdMap<TrustedPeer> = IdMap::new();
    assert!(boot_events(&trusted, None, false).is_empty());
    trusted.insert([2u8; 32], TrustedPeer { static_pub: [2u8; 32], name: "two".to_string() });
    trusted.insert([1u8; 32], TrustedPeer { static_pub: [1u8; 32], name: "one".to_string() });
    let events = boot_events(&trusted, None, true);
    assert!(matches!(
        events.as_slice(),
        [Event::SetTrustedPeer { name }, Event::ToggleOn] if name == "one"
    ));
    assert_eq!(pre_paired_events([1u8; 32], "x".to_string()).len(), 5);
    let peer = |id: Id, addr| BootPeer { peer_id: id, trust: tofu_trusted_peer(id), last_addr: addr };
    let peers = vec![
        peer([1u8; 32], Some(at(v4(169, 254, 0, 1)))),
        peer([2u8; 32], None),
        peer([3u8; 32], Some(at(v4(10, 0, 0, 1)))),
    ];
    assert_eq!(redial_seeds(&peers), vec![([3u8; 32], at(v4(10, 0, 0, 1)))]);
    let t = TestPendingPair {
        peer_id: [1u8; 32],
        static_pub: [2u8; 32],
        name: "n".to_string(),
        sas_words: std::array::from_fn(|i| format!("w{i}")),
        from: at(v4(127, 0, 0, 1)),
        expires_in: 50,
    };
    assert_eq!(pending_from_start(t, NOW).expires_at, NOW + 50);
}

#[test]
fn addresses_are_classed() {
    assert!(is_local_ip(v4(127, 9, 9, 9)) && is_local_ip(v4(10, 0, 0, 1)));
    assert!(is_local_ip(v4(172, 31, 0, 1)) && !is_local_ip(v4(172, 32, 0, 1)));
    assert!(is_local_ip(v4(192, 168, 4, 4)) && is_local_ip(v4(169, 254, 4, 4)));
    assert!(!is_local_ip(v4(8, 8, 8, 8)) && !is_local_ip(v4(100, 64, 0, 1)));
    assert!(is_local_ip(IpAddr::V6(1)));
    assert!(is_local_ip(IpAddr::V6(0xfd00_0000_0000_0000_0000_0000_0000_0001)));
    assert!(is_local_ip(IpAddr::V6(0xfe80_0000_0000_0000_0000_0000_0000_0001)));
    assert!(is_local_ip(IpAddr::V6(0xffff_c0a8_0001)), "IPv4 in IPv6 form");
    assert!(!is_local_ip(IpAddr::V6(0xffff_0808_0808)));
    assert!(!is_local_ip(IpAddr::V6(0x2001_0db8_0000_0000_0000_0000_0000_0001)));
    assert!(is_cgnat(v4(100, 64, 0, 1)) && is_cgnat(v4(100, 127, 255, 255)));
    assert!(!is_cgnat(v4(100, 128, 0, 1)) && !is_cgnat(v4(100, 63, 0, 1)));
    assert_eq!(tailnet_ip(Some(v4(100, 64, 0, 1))), Some(v4(100, 64, 0, 1)));
    assert_eq!(tailnet_ip(Some(v4(10, 0, 0, 1))), None);
    let out = Some(v4(10, 0, 0, 1));
    assert_eq!(advertised_ip(Some(v4(0, 0, 0, 0)), out), v4(10, 0, 0, 1));
    assert_eq!(advertised_ip(None, out), v4(10, 0, 0, 1));
    assert_eq!(advertised_ip(Some(v4(10, 0, 0, 2)), out), v4(10, 0, 0, 2));
    assert_eq!(advertised_ip(Some(v4(10, 0, 0, 2)), None), v4(10, 0, 0, 2));
    assert_eq!(advertised_ip(Some(v4(0, 0, 0, 0)), None), v4(0, 0, 0, 0));
    assert_eq!(announced_ip(v4(0, 0, 0, 0)), v4(127, 0, 0, 1));
    assert_eq!(announced_ip(v4(10, 0, 0, 2)), v4(10, 0, 0, 2));
    assert!(pins_interface(v4(10, 0, 0, 1)));
    assert!(!pins_interface(v4(127, 0, 0, 1)) && !pins_interface(IpAddr::V6(0)));
}

#[test]
fn platforms_have_names() {
    assert_eq!(self_platform("macos"), "macos");
    assert_eq!(self_platform("linux"), "linux");
}
