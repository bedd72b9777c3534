//! Peers that were seen on the network of late, trusted or not.
use vstd::prelude::*;
use vstd::string::*;

use crate::clock::{elapsed, elapsed_since};
use crate::idmap::{kept, IdMap, Keep};
use crate::ids::Id;
use crate::net::SocketAddr;
use crate::text::same_text;
use crate::wire::opt_view;

verus! {

/// How long a peer counts as seen.
pub const DISCOVERY_CACHE_TTL: u64 = 120_000;

/// Number of seen peers from which new ones are not remembered.
pub const MAX_DISCOVERED: usize = 256;

/// A peer as it was last seen.
pub struct ResolvedPeer {
    pub static_pub: Id,
    pub addr: SocketAddr,
    pub name: String,
    /// The code under which it can be paired with, while it shows one.
    pub pair_pin: Option<String>,
    pub last_seen: u64,
}

/// View of a [`ResolvedPeer`].
#[verifier::ext_equal]
pub ghost struct ResolvedView {
    pub static_pub: Id,
    pub addr: SocketAddr,
    pub name: Seq<char>,
    pub pair_pin: Option<Seq<char>>,
    pub last_seen: u64,
}

impl View for ResolvedPeer {
    type V = ResolvedView;

    open spec fn view(&self) -> ResolvedView {
        ResolvedView {
            static_pub: self.static_pub,
            addr: self.addr,
            name: self.name@,
            pair_pin: opt_view(self.pair_pin),
            last_seen: self.last_seen,
        }
    }
}

/// Keeps the peers that were seen within [`DISCOVERY_CACHE_TTL`].
pub struct SeenLately {
    pub now: u64,
}

impl Keep<ResolvedPeer> for SeenLately {
    open spec fn keeps(&self, key: Id, value: ResolvedView) -> bool {
        elapsed(value.last_seen, self.now) < DISCOVERY_CACHE_TTL
    }

    fn keep(&self, key: &Id, value: &ResolvedPeer) -> (r: bool) {
        elapsed_since(value.last_seen, self.now) < DISCOVERY_CACHE_TTL
    }
}

/// The peers of `m` that were seen lately.
pub open spec fn seen_lately(m: Map<Id, ResolvedView>, now: u64) -> Map<Id, ResolvedView> {
    kept::<ResolvedPeer, SeenLately>(m, (SeenLately { now }))
}

/// The seen peers after `peer` was seen at `now`.
pub open spec fn after_seeing(
    m: Map<Id, ResolvedView>,
    peer: Id,
    entry: ResolvedView,
    now: u64,
) -> Map<Id, ResolvedView> {
    let lately = seen_lately(m, now);
    if lately.dom().len() < MAX_DISCOVERED || lately.contains_key(peer) {
        lately.insert(peer, entry)
    } else {
        lately
    }
}

/// Remembers a peer that was seen; forgets those not seen lately. Among too many
/// a new one is not remembered.
pub fn note_seen(cache: &mut IdMap<ResolvedPeer>, peer: Id, entry: ResolvedPeer, now: u64)
    ensures
        final(cache)@ == after_seeing(old(cache)@, peer, entry@, now),
{
    cache.retain(&SeenLately { now });
    if cache.len() < MAX_DISCOVERED || cache.contains_key(&peer) {
        cache.insert(peer, entry);
    }
}

/// However many advertisements come in, no more than [`MAX_DISCOVERED`] peers are
/// remembered.
pub proof fn discovery_is_bounded(m: Map<Id, ResolvedView>, peer: Id, entry: ResolvedView, now: u64)
    requires
        m.dom().finite(),
        m.dom().len() <= MAX_DISCOVERED,
    ensures
        after_seeing(m, peer, entry, now).dom().finite(),
        after_seeing(m, peer, entry, now).dom().len() <= MAX_DISCOVERED,
{
    let lately = seen_lately(m, now);
    assert(lately.dom().subset_of(m.dom()));
    vstd::set_lib::lemma_len_subset(lately.dom(), m.dom());
    assert(lately.insert(peer, entry).dom() =~= lately.dom().insert(peer));
}

/// Where `peer` was seen lately.
pub open spec fn address_hint(m: Map<Id, ResolvedView>, peer: Id, now: u64) -> Option<SocketAddr> {
    if m.contains_key(peer) && elapsed(m[peer].last_seen, now) < DISCOVERY_CACHE_TTL {
        Some(m[peer].addr)
    } else {
        None
    }
}

/// Computes [`address_hint`].
pub fn hint_for(cache: &IdMap<ResolvedPeer>, peer: &Id, now: u64) -> (r: Option<SocketAddr>)
    ensures
        r == address_hint(cache@, *peer, now),
{
    match cache.get(peer) {
        Some(e) => if elapsed_since(e.last_seen, now) < DISCOVERY_CACHE_TTL {
            Some(e.addr)
        } else {
            None
        },
        None => None,
    }
}

/// `peer` was seen lately and shows the code `pin`.
pub open spec fn shows_pin(m: Map<Id, ResolvedView>, peer: Id, pin: Seq<char>, now: u64) -> bool {
    &&& m.contains_key(peer)
    &&& elapsed(m[peer].last_seen, now) < DISCOVERY_CACHE_TTL
    &&& m[peer].pair_pin == Some(pin)
}

/// The key and address of a peer that shows the code `pin`; any one of several.
pub fn find_by_pin(cache: &IdMap<ResolvedPeer>, pin: &str, now: u64) -> (r: Option<(Id, SocketAddr)>)
    ensures
        match r {
            Some((key, addr)) => exists|peer: Id|
                #[trigger] shows_pin(cache@, peer, pin@, now) && cache@[peer].static_pub == key
                    && cache@[peer].addr == addr,
            None => forall|peer: Id| !#[trigger] shows_pin(cache@, peer, pin@, now),
        },
{
    let keys = cache.keys();
    let mut i: usize = 0;
    while i < keys.len()
        invariant
            i <= keys@.len(),
            forall|k: Id| #[trigger] keys@.contains(k) <==> cache@.contains_key(k),
            forall|j: int| 0 <= j < i ==> !shows_pin(cache@, #[trigger] keys@[j], pin@, now),
        decreases keys@.len() - i,
    {
        let k = keys[i];
        if let Some(e) = cache.get(&k) {
            if elapsed_since(e.last_seen, now) < DISCOVERY_CACHE_TTL {
                if let Some(p) = &e.pair_pin {
                    if same_text(p.as_str(), pin) {
                        assert(shows_pin(cache@, k, pin@, now));
                        return Some((e.static_pub, e.addr));
                    }
                }
            }
        }
        i = i + 1;
    }
    proof {
        assert forall|peer: Id| !#[trigger] shows_pin(cache@, peer, pin@, now) by {
            if cache@.contains_key(peer) {
                assert(keys@.contains(peer));
                assert(keys@[keys@.index_of(peer)] == peer);
            }
        }
    }
    None
}

/// A device that was seen is remembered as it was seen, unless too many others were
/// seen of late; those seen within two minutes stay remembered, the others do not.
pub proof fn seen_device_is_remembered(
    m: Map<Id, ResolvedView>,
    peer: Id,
    entry: ResolvedView,
    now: u64,
    other: Id,
)
    requires
        m.dom().finite(),
    ensures
        ({
            let after = after_seeing(m, peer, entry, now);
            &&& m.dom().len() < 256 || (m.contains_key(peer) && elapsed(m[peer].last_seen, now)
                < 120_000) ==> after.contains_key(peer) && after[peer] == entry
            &&& other != peer ==> after.contains_key(other) == (m.contains_key(other) && elapsed(
                m[other].last_seen,
                now,
            ) < 120_000)
            &&& other != peer && after.contains_key(other) ==> after[other] == m[other]
        }),
{
    let lately = seen_lately(m, now);
    assert(lately.dom().subset_of(m.dom()));
    vstd::set_lib::lemma_len_subset(lately.dom(), m.dom());
}

/// A device is looked for where it was seen last, for two minutes after.
pub proof fn seen_device_is_found_again(m: Map<Id, ResolvedView>, peer: Id, now: u64)
    requires
        m.contains_key(peer),
    ensures
        address_hint(m, peer, now) == if elapsed(m[peer].last_seen, now) < 120_000 {
            Some(m[peer].addr)
        } else {
            None
        },
        address_hint(m.remove(peer), peer, now) is None,
{
}

} // verus!
