//! How the daemon is set up.
use vstd::prelude::*;
use vstd::string::*;

use crate::clock::LAST_INSTANT;
use crate::handshake::{PendingPair, PendingView};
use crate::ids::Id;
use crate::net::SocketAddr;
use crate::wire::views;

verus! {

/// A name that this device might have.
#[derive(Debug)]
pub struct NameCandidate {
    pub name: String,
    /// It is the notation of an IP address.
    pub is_ip: bool,
}

/// A name that says something to the user of another device.
pub open spec fn usable(c: NameCandidate) -> bool {
    c.name@.len() > 0 && !c.is_ip
}

/// The first usable name, or the default.
pub open spec fn chosen_name(candidates: Seq<NameCandidate>, default: Seq<char>) -> Seq<char>
    decreases candidates.len(),
{
    if candidates.len() == 0 {
        default
    } else if usable(candidates[0]) {
        candidates[0].name@
    } else {
        chosen_name(candidates.drop_first(), default)
    }
}

/// Computes [`chosen_name`]. `candidates` holds what the system calls this device,
/// best first.
pub fn hostname_or(candidates: &Vec<NameCandidate>, default: &str) -> (r: String)
    ensures
        r@ == chosen_name(candidates@, default@),
{
    let mut i: usize = 0;
    assert(candidates@.skip(0) =~= candidates@);
    while i < candidates.len()
        invariant
            i <= candidates@.len(),
            chosen_name(candidates@.skip(i as int), default@) == chosen_name(candidates@, default@),
        decreases candidates@.len() - i,
    {
        assert(candidates@.skip(i as int)[0] == candidates@[i as int]);
        assert(candidates@.skip(i as int).drop_first() =~= candidates@.skip(i + 1));
        if !candidates[i].name.as_str().is_empty() && !candidates[i].is_ip {
            return candidates[i].name.clone();
        }
        i = i + 1;
    }
    default.to_owned()
}

/// A peer with a session from the start.
#[derive(Debug)]
pub struct TestPair {
    pub peer_addr: SocketAddr,
    pub peer_name: String,
    pub peer_id: Id,
}

/// A pair that waits for confirmation from the start.
#[derive(Debug)]
pub struct TestPendingPair {
    pub peer_id: Id,
    pub static_pub: Id,
    pub name: String,
    pub sas_words: [String; 6],
    pub from: SocketAddr,
    /// In milliseconds.
    pub expires_in: u64,
}

/// The pair that waits.
pub fn pending_from_start(t: TestPendingPair, now: u64) -> (r: PendingPair)
    requires
        now <= LAST_INSTANT,
        t.expires_in <= LAST_INSTANT,
    ensures
        r@ == (PendingView {
            static_pub: t.static_pub,
            name: t.name@,
            sas_words: views(t.sas_words@),
            from: t.from,
            expires_at: (now + t.expires_in) as u64,
        }),
{
    PendingPair {
        static_pub: t.static_pub,
        name: t.name,
        sas_words: t.sas_words,
        from: t.from,
        expires_at: now + t.expires_in,
    }
}

/// How the daemon is set up. Its identity and its clock come with it.
#[derive(Debug)]
pub struct DaemonConfig {
    pub peer_name_self: String,
    pub udp_port: u16,
    /// The address to bind to.
    pub udp_bind: String,
    pub ipc_path: String,
    /// Keys that are trusted from the start.
    pub trusted_peer_keys: Vec<Id>,
    /// Where things are stored between runs; nothing is without it.
    pub keystore_dir: Option<String>,
    pub charge_override: bool,
    pub disable_clipboard: bool,
    /// Neither announce this device nor look for announcements.
    pub disable_mdns: bool,
    /// Switch the synchronisation on at the start.
    pub start_on: bool,
    pub last_peer_addr: Option<SocketAddr>,
    pub test_pair: Option<TestPair>,
    pub test_pending_pair: Option<TestPendingPair>,
    /// Only sources in the local network count, for every datagram.
    pub lan_only_handshakes: bool,
}

impl DaemonConfig {
    /// The usual setup.
    pub fn new(udp_port: u16, ipc_path: String, names: &Vec<NameCandidate>) -> (r: Self)
        ensures
            r.peer_name_self@ == chosen_name(names@, "this device"@),
            r.udp_port == udp_port,
            r.udp_bind@ == "0.0.0.0"@,
            r.ipc_path == ipc_path,
            r.trusted_peer_keys@.len() == 0,
            r.keystore_dir is None,
            r.charge_override,
            !r.disable_clipboard,
            !r.disable_mdns,
            !r.start_on,
            r.last_peer_addr is None,
            r.test_pair is None,
            r.test_pending_pair is None,
            r.lan_only_handshakes,
    {
        DaemonConfig {
            peer_name_self: hostname_or(names, "this device"),
            udp_port,
            udp_bind: "0.0.0.0".to_owned(),
            ipc_path,
            trusted_peer_keys: Vec::new(),
            keystore_dir: None,
            charge_override: true,
            disable_clipboard: false,
            disable_mdns: false,
            start_on: false,
            last_peer_addr: None,
            test_pair: None,
            test_pending_pair: None,
            lan_only_handshakes: true,
        }
    }
}

/// Announcements are made and looked for unless that is switched off, or a session
/// was there from the start.
pub fn runs_mdns(disable_mdns: bool, has_session: bool) -> (r: bool)
    ensures
        r == (!disable_mdns && !has_session),
{
    !disable_mdns && !has_session
}

/// The first name that is neither empty nor an address is taken; without one, the
/// default.
pub proof fn first_usable_name_is_taken(candidates: Seq<NameCandidate>, default: Seq<char>, i: int)
    ensures
        0 <= i < candidates.len() && candidates[i].name@.len() > 0 && !candidates[i].is_ip && (forall|
            j: int,
        |
            0 <= j < i ==> (#[trigger] candidates[j]).name@.len() == 0 || candidates[j].is_ip)
            ==> chosen_name(candidates, default) == candidates[i].name@,
        (forall|j: int|
            0 <= j < candidates.len() ==> (#[trigger] candidates[j]).name@.len() == 0
                || candidates[j].is_ip) ==> chosen_name(candidates, default) == default,
    decreases candidates.len(),
{
    if candidates.len() > 0 {
        let rest = candidates.drop_first();
        first_usable_name_is_taken(rest, default, i - 1);
        assert(forall|j: int| 0 <= j < rest.len() ==> #[trigger] rest[j] == candidates[j + 1]);
    }
}

} // verus!
