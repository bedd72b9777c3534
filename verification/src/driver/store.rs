//! The peers file: what is written of the trust store, and what is read back.
use vstd::prelude::*;
use vstd::string::*;

use crate::codec::{hex_encode_bytes, hex_text};
use crate::driver::resync::{decode_hex32, id_of_text};
use crate::handshake::{peer_id_for, peer_id_of, TrustedPeer, TrustedView, MAX_PERSISTED_PEERS};
use crate::idmap::IdMap;
use crate::ids::{bytes_less, id_less, id_order_is_total, id_order_is_transitive, same_id, Id};
use crate::net::{ip_of, is_redialable_addr, redialable, SocketAddr};
use crate::text::same_text;
use crate::wire::{opt_view, take_first, views};

verus! {

/// Times that the peers file is written before giving up.
pub const PEERS_PERSIST_ATTEMPTS: u32 = 3;

/// Wait before the first repeated attempt, in milliseconds; each further one
/// waits twice as long.
pub const PERSIST_RETRY_BASE: u64 = 100;

/// A peer in the peers file.
#[derive(Debug)]
pub struct StoredPeer {
    pub peer_id_hex: String,
    pub static_pub_hex: String,
    pub name: String,
    /// Where it was last reached.
    pub last_addr: Option<String>,
}

/// View of a [`StoredPeer`].
#[verifier::ext_equal]
pub ghost struct StoredView {
    pub peer_id_hex: Seq<char>,
    pub static_pub_hex: Seq<char>,
    pub name: Seq<char>,
    pub last_addr: Option<Seq<char>>,
}

impl View for StoredPeer {
    type V = StoredView;

    open spec fn view(&self) -> StoredView {
        StoredView {
            peer_id_hex: self.peer_id_hex@,
            static_pub_hex: self.static_pub_hex@,
            name: self.name@,
            last_addr: opt_view(self.last_addr),
        }
    }
}

/// The record of a peer.
pub open spec fn stored_record(
    peer: Id,
    static_pub: Id,
    name: Seq<char>,
    last_addr: Option<Seq<char>>,
) -> StoredView {
    StoredView {
        peer_id_hex: hex_text(peer@),
        static_pub_hex: hex_text(static_pub@),
        name,
        last_addr,
    }
}

/// The record of a peer.
pub fn stored_peer(peer: Id, static_pub: Id, name: String, last_addr: Option<String>) -> (r: StoredPeer)
    ensures
        r@ == stored_record(peer, static_pub, name@, opt_view(last_addr)),
{
    StoredPeer {
        peer_id_hex: hex_encode_bytes(peer.as_slice()),
        static_pub_hex: hex_encode_bytes(static_pub.as_slice()),
        name,
        last_addr,
    }
}

/// A record of the peers file, with what could be said of it: whether its key is
/// one that a peer can have, and the address that it names, if it can be read.
#[derive(Debug)]
pub struct LoadedPeer {
    pub stored: StoredPeer,
    pub key_sound: bool,
    pub addr: Option<SocketAddr>,
}

/// View of a [`LoadedPeer`].
#[verifier::ext_equal]
pub ghost struct LoadedView {
    pub stored: StoredView,
    pub key_sound: bool,
    pub addr: Option<SocketAddr>,
}

impl View for LoadedPeer {
    type V = LoadedView;

    open spec fn view(&self) -> LoadedView {
        LoadedView { stored: self.stored@, key_sound: self.key_sound, addr: self.addr }
    }
}

/// A peer that is trusted from the start.
pub struct BootPeer {
    pub peer_id: Id,
    pub trust: TrustedPeer,
    pub last_addr: Option<SocketAddr>,
}

/// View of a [`BootPeer`].
#[verifier::ext_equal]
pub ghost struct BootView {
    pub peer_id: Id,
    pub trust: TrustedView,
    pub last_addr: Option<SocketAddr>,
}

impl View for BootPeer {
    type V = BootView;

    open spec fn view(&self) -> BootView {
        BootView { peer_id: self.peer_id, trust: self.trust@, last_addr: self.last_addr }
    }
}

/// The trust that a record gives: none where its key is no key.
pub open spec fn boot_peer(p: LoadedView) -> Option<BootView> {
    match id_of_text(p.stored.static_pub_hex) {
        Ok(static_pub) => if p.key_sound {
            Some(
                BootView {
                    peer_id: peer_id_of(static_pub),
                    trust: TrustedView { static_pub, name: p.stored.name },
                    last_addr: p.addr,
                },
            )
        } else {
            None
        },
        Err(_) => None,
    }
}

/// The trust that records give, in their order.
pub open spec fn boot_peers(ps: Seq<LoadedView>) -> Seq<BootView>
    decreases ps.len(),
{
    if ps.len() == 0 {
        Seq::empty()
    } else {
        let rest = boot_peers(ps.drop_last());
        match boot_peer(ps.last()) {
            Some(b) => rest.push(b),
            None => rest,
        }
    }
}

/// The first of a list up to the cap of the peers file.
pub open spec fn capped(s: Seq<BootView>) -> Seq<BootView> {
    if s.len() <= MAX_PERSISTED_PEERS {
        s
    } else {
        s.take(MAX_PERSISTED_PEERS as int)
    }
}

/// The peers that are trusted from the start: those of the peers file, without
/// the records whose key is no key, and of too many the first ones.
pub fn load_trusted_peers(stored: Vec<LoadedPeer>) -> (r: Vec<BootPeer>)
    ensures
        views(r@) == capped(boot_peers(views(stored@))),
{
    let ghost all = views(stored@);
    let mut rest = stored;
    let mut out: Vec<BootPeer> = Vec::new();
    let ghost mut i: int = 0;
    proof {
        assert(all.subrange(0, 0) =~= Seq::empty());
        assert(views(out@) =~= boot_peers(all.subrange(0, 0)));
        assert(views(rest@) =~= all.skip(0));
    }
    while rest.len() > 0
        invariant
            0 <= i <= all.len(),
            views(rest@) == all.skip(i),
            views(out@) == boot_peers(all.subrange(0, i)),
        decreases rest@.len(),
    {
        assert(views(rest@).len() == rest@.len());
        let p = take_first(&mut rest);
        proof {
            assert(all[i] == p@);
            let next = all.subrange(0, i + 1);
            assert(next.drop_last() =~= all.subrange(0, i));
            assert(next.last() == p@);
            assert(all.skip(i).skip(1) =~= all.skip(i + 1));
        }
        let ghost before = views(out@);
        if let Ok(static_pub) = decode_hex32(p.stored.static_pub_hex.as_str()) {
            if p.key_sound {
                let peer_id = peer_id_for(&static_pub);
                let entry = BootPeer {
                    peer_id,
                    trust: TrustedPeer { static_pub, name: p.stored.name },
                    last_addr: p.addr,
                };
                out.push(entry);
                assert(views(out@) =~= before.push(entry@));
            }
        }
        proof {
            i = i + 1;
        }
    }
    proof {
        assert(views(rest@).len() == 0);
        assert(all.subrange(0, i) =~= all);
    }
    let ghost whole = views(out@);
    if out.len() > MAX_PERSISTED_PEERS {
        out.truncate(MAX_PERSISTED_PEERS);
        assert(views(out@) =~= whole.take(MAX_PERSISTED_PEERS as int));
    }
    out
}

/// What is trusted from the start is trusted under the digest of its key.
pub proof fn boot_trust_is_keyed_by_digest(ps: Seq<LoadedView>, i: int)
    requires
        0 <= i < boot_peers(ps).len(),
    ensures
        boot_peers(ps)[i].peer_id == peer_id_of(boot_peers(ps)[i].trust.static_pub),
    decreases ps.len(),
{
    if ps.len() > 0 {
        let rest = boot_peers(ps.drop_last());
        if i < rest.len() {
            boot_trust_is_keyed_by_digest(ps.drop_last(), i);
        }
    }
}

/// The address of the last record under `peer_hex`.
pub open spec fn kept_addr(existing: Seq<StoredView>, peer_hex: Seq<char>) -> Option<Seq<char>>
    decreases existing.len(),
{
    if existing.len() == 0 {
        None
    } else if existing.last().peer_id_hex == peer_hex {
        existing.last().last_addr
    } else {
        kept_addr(existing.drop_last(), peer_hex)
    }
}

fn addr_kept_for(existing: &Vec<StoredPeer>, peer_hex: &str) -> (r: Option<String>)
    ensures
        opt_view(r) == kept_addr(views(existing@), peer_hex@),
{
    let ghost all = views(existing@);
    let mut i: usize = existing.len();
    assert(all.subrange(0, all.len() as int) =~= all);
    while i > 0
        invariant
            i <= existing@.len(),
            all == views(existing@),
            kept_addr(all.subrange(0, i as int), peer_hex@) == kept_addr(all, peer_hex@),
        decreases i,
    {
        proof {
            let now = all.subrange(0, i as int);
            assert(now.last() == existing@[i - 1]@);
            assert(now.drop_last() =~= all.subrange(0, i - 1));
        }
        i = i - 1;
        if same_text(existing[i].peer_id_hex.as_str(), peer_hex) {
            return existing[i].last_addr.clone();
        }
    }
    None
}

/// The record of a trusted peer; the address that the file had of it stays.
pub open spec fn record_of(
    trusted: Map<Id, TrustedView>,
    existing: Seq<StoredView>,
    peer: Id,
) -> StoredView {
    stored_record(
        peer,
        trusted[peer].static_pub,
        trusted[peer].name,
        kept_addr(existing, hex_text(peer@)),
    )
}

/// The records of the trust store, in no particular order. Each keeps the address
/// that the peers file `existing` had of it.
pub fn save_current_peers(trusted: &IdMap<TrustedPeer>, existing: &Vec<StoredPeer>) -> (r: Vec<
    StoredPeer,
>)
    ensures
        exists|order: Seq<Id>|
            {
                &&& order.no_duplicates()
                &&& order.to_set() == trusted@.dom()
                &&& views(r@) == #[trigger] records_in(trusted@, views(existing@), order)
            },
{
    let keys = trusted.keys();
    let mut r: Vec<StoredPeer> = Vec::new();
    let mut i: usize = 0;
    while i < keys.len()
        invariant
            i <= keys@.len(),
            forall|k: Id| #[trigger] keys@.contains(k) <==> trusted@.contains_key(k),
            r@.len() == i,
            forall|j: int|
                0 <= j < i ==> (#[trigger] r@[j])@ == record_of(trusted@, views(existing@), keys@[j]),
        decreases keys@.len() - i,
    {
        let peer = keys[i];
        assert(keys@.contains(peer));
        if let Some(p) = trusted.get(&peer) {
            let text = hex_encode_bytes(peer.as_slice());
            let addr = addr_kept_for(existing, text.as_str());
            r.push(stored_peer(peer, p.static_pub, p.name.clone(), addr));
        }
        i = i + 1;
    }
    assert(views(r@) =~= records_in(trusted@, views(existing@), keys@));
    r
}

/// The records of the peers `order`.
pub open spec fn records_in(
    trusted: Map<Id, TrustedView>,
    existing: Seq<StoredView>,
    order: Seq<Id>,
) -> Seq<StoredView> {
    Seq::new(order.len(), |i: int| record_of(trusted, existing, order[i]))
}

/// How long to wait before writing the peers file once more, after the attempt
/// numbered `attempt` from zero failed; nothing when it is time to give up.
pub fn retry_delay(attempt: u32) -> (r: Option<u64>)
    ensures
        r == if attempt + 1 < PEERS_PERSIST_ATTEMPTS {
            Some((PERSIST_RETRY_BASE * vstd::arithmetic::power2::pow2(attempt as nat)) as u64)
        } else {
            None::<u64>
        },
{
    proof {
        vstd::arithmetic::power2::lemma2_to64();
    }
    if attempt == 0 {
        Some(PERSIST_RETRY_BASE)
    } else if attempt == 1 {
        Some(2 * PERSIST_RETRY_BASE)
    } else {
        None
    }
}

/// The records after one was put in: in place of the first of the same peer, or at
/// the end.
pub open spec fn upserted(stored: Seq<StoredView>, entry: StoredView) -> Seq<StoredView>
    decreases stored.len(),
{
    if stored.len() == 0 {
        seq![entry]
    } else if stored[0].peer_id_hex == entry.peer_id_hex {
        stored.update(0, entry)
    } else {
        seq![stored[0]] + upserted(stored.drop_first(), entry)
    }
}

/// Puts a record in: in place of the first of the same peer, or at the end.
pub fn upsert_peer(stored: &mut Vec<StoredPeer>, entry: StoredPeer)
    ensures
        views(final(stored)@) == upserted(views(old(stored)@), entry@),
{
    let ghost all = views(stored@);
    let mut i: usize = 0;
    assert(all.skip(0) =~= all);
    assert(all.take(0) + upserted(all.skip(0), entry@) =~= upserted(all, entry@));
    while i < stored.len()
        invariant
            i <= stored@.len(),
            all == views(stored@),
            all == views(old(stored)@),
            all.take(i as int) + upserted(all.skip(i as int), entry@) == upserted(all, entry@),
        decreases stored@.len() - i,
    {
        assert(all.skip(i as int)[0] == all[i as int]);
        if same_text(stored[i].peer_id_hex.as_str(), entry.peer_id_hex.as_str()) {
            assert(upserted(all.skip(i as int), entry@) == all.skip(i as int).update(0, entry@));
            stored[i] = entry;
            assert(views(stored@) =~= all.take(i as int) + all.skip(i as int).update(0, entry@));
            return;
        }
        proof {
            assert(all.skip(i as int).drop_first() =~= all.skip(i + 1));
            assert(all.take(i as int) + (seq![all[i as int]] + upserted(all.skip(i + 1), entry@))
                =~= all.take(i + 1) + upserted(all.skip(i + 1), entry@));
        }
        i = i + 1;
    }
    proof {
        assert(all.skip(i as int) =~= Seq::empty());
        assert(all.take(i as int) =~= all);
    }
    stored.push(entry);
    assert(views(stored@) =~= all.push(entry@));
    assert(all.push(entry@) =~= all + seq![entry@]);
}

/// The record that remembers where `peer` was reached: none for an address that
/// must not be redialed, nor for a peer that is not trusted.
pub open spec fn last_addr_record(
    trusted: Map<Id, TrustedView>,
    peer: Id,
    addr: SocketAddr,
    text: Seq<char>,
) -> Option<StoredView> {
    if redialable(ip_of(addr)) && trusted.contains_key(peer) {
        Some(stored_record(peer, trusted[peer].static_pub, trusted[peer].name, Some(text)))
    } else {
        None
    }
}

/// Decides what to remember of where `peer` was reached. `text` is the address as
/// it is written.
pub fn persist_last_addr(trusted: &IdMap<TrustedPeer>, peer: Id, addr: SocketAddr, text: String) -> (r:
    Option<StoredPeer>)
    ensures
        opt_view(r) == last_addr_record(trusted@, peer, addr, text@),
{
    if !is_redialable_addr(addr.ip()) {
        return None;
    }
    match trusted.get(&peer) {
        Some(p) => Some(stored_peer(peer, p.static_pub, p.name.clone(), Some(text))),
        None => None,
    }
}

/// The address from which a message came is to be remembered: it is not the one
/// remembered last, and it is the primary's current one.
pub open spec fn new_address(
    remembered: Option<SocketAddr>,
    from: SocketAddr,
    current: Option<SocketAddr>,
) -> bool {
    remembered != Some(from) && current == Some(from)
}

/// Decides [`new_address`].
pub fn address_changed(
    remembered: Option<SocketAddr>,
    from: SocketAddr,
    current: Option<SocketAddr>,
) -> (r: bool)
    ensures
        r == new_address(remembered, from, current),
{
    let known = match remembered {
        Some(a) => a == from,
        None => false,
    };
    let is_current = match current {
        Some(a) => a == from,
        None => false,
    };
    !known && is_current
}

/// `k` is the first id of `m` in byte order.
pub open spec fn lowest<V>(m: Map<Id, V>, k: Id) -> bool {
    &&& m.contains_key(k)
    &&& forall|j: Id| #[trigger] m.contains_key(j) && j != k ==> bytes_less(k@, j@)
}

/// The trusted peer that the daemon names at its start: the primary's if it is
/// known, else the one with the lowest id.
pub fn choose_boot_trusted_peer(trusted: &IdMap<TrustedPeer>, primary_id: Option<Id>) -> (r: Option<
    TrustedPeer,
>)
    ensures
        match r {
            Some(p) => exists|k: Id|
                {
                    &&& #[trigger] trusted@.contains_key(k)
                    &&& p@ == trusted@[k]
                    &&& if primary_id is Some && trusted@.contains_key(primary_id->0) {
                        k == primary_id->0
                    } else {
                        lowest(trusted@, k)
                    }
                },
            None => trusted@ == Map::<Id, TrustedView>::empty(),
        },
{
    if let Some(id) = primary_id {
        if let Some(p) = trusted.get(&id) {
            let chosen = p.clone();
            assert(trusted@.contains_key(id) && chosen@ == trusted@[id]);
            return Some(chosen);
        }
    }
    let keys = trusted.keys();
    if keys.len() == 0 {
        assert(trusted@.dom() =~= Set::empty()) by {
            assert forall|k: Id| !trusted@.dom().contains(k) by {
                assert(!keys@.contains(k));
            }
        }
        assert(trusted@ =~= Map::<Id, TrustedView>::empty());
        return None;
    }
    let mut best: Id = keys[0];
    let mut i: usize = 1;
    while i < keys.len()
        invariant
            1 <= i <= keys@.len(),
            keys@.contains(best),
            forall|j: int| 0 <= j < i ==> (#[trigger] keys@[j]) == best || bytes_less(best@, keys@[j]@),
        decreases keys@.len() - i,
    {
        let k = keys[i];
        let ghost before = best;
        if id_less(&k, &best) {
            best = k;
            assert forall|j: int| 0 <= j < i + 1 implies (#[trigger] keys@[j]) == best || bytes_less(
                best@,
                keys@[j]@,
            ) by {
                if j < i && keys@[j] != before {
                    id_order_is_transitive(best, before, keys@[j]);
                }
            }
        } else if !same_id(&k, &best) {
            proof {
                id_order_is_total(k, best);
            }
        }
        i = i + 1;
    }
    proof {
        assert(trusted@.contains_key(best));
        assert forall|j: Id| #[trigger] trusted@.contains_key(j) && j != best implies bytes_less(best@, j@) by {
            assert(keys@.contains(j));
            assert(keys@[keys@.index_of(j)] == j);
        }
        assert(lowest(trusted@, best));
    }
    match trusted.get(&best) {
        Some(p) => {
            let chosen = p.clone();
            assert(trusted@.contains_key(best) && chosen@ == trusted@[best]);
            Some(chosen)
        },
        None => None,
    }
}

/// What is written of a trusted peer brings the same trust back at the next start: under
/// its key, with its name, and under the digest of the key.
pub proof fn stored_trust_is_trusted_again(
    trusted: Map<Id, TrustedView>,
    existing: Seq<StoredView>,
    order: Seq<Id>,
    peer: Id,
    p: LoadedView,
)
    requires
        order.to_set() == trusted.dom(),
        trusted.contains_key(peer),
        p.stored == record_of(trusted, existing, peer),
        p.key_sound,
    ensures
        records_in(trusted, existing, order).contains(p.stored),
        p.stored.peer_id_hex == hex_text(peer@),
        boot_peer(p) == Some(
            BootView {
                peer_id: peer_id_of(trusted[peer].static_pub),
                trust: trusted[peer],
                last_addr: p.addr,
            },
        ),
{
    crate::driver::resync::id_text_reads_back(trusted[peer].static_pub);
    assert(order.to_set().contains(peer));
    assert(order.contains(peer));
    assert(records_in(trusted, existing, order)[order.index_of(peer)] == p.stored);
}

/// Nothing is written but the trusted peers, each once, and each with the address that
/// the file had of it last.
pub proof fn only_trusted_peers_are_stored(
    trusted: Map<Id, TrustedView>,
    existing: Seq<StoredView>,
    order: Seq<Id>,
    i: int,
    k: int,
)
    requires
        order.no_duplicates(),
        order.to_set() == trusted.dom(),
        0 <= i < records_in(trusted, existing, order).len(),
    ensures
        records_in(trusted, existing, order).len() == trusted.dom().len(),
        ({
            let r = records_in(trusted, existing, order)[i];
            &&& exists|p: Id| #[trigger]
                trusted.contains_key(p) && r.peer_id_hex == hex_text(p@) && r.static_pub_hex
                    == hex_text(trusted[p].static_pub@) && r.name == trusted[p].name
            &&& 0 <= k < existing.len() && existing[k].peer_id_hex == r.peer_id_hex && (forall|j: int|
                k < j < existing.len() ==> (#[trigger] existing[j]).peer_id_hex != r.peer_id_hex)
                ==> r.last_addr == existing[k].last_addr
            &&& (forall|j: int|
                0 <= j < existing.len() ==> (#[trigger] existing[j]).peer_id_hex != r.peer_id_hex)
                ==> r.last_addr is None
        }),
{
    let r = records_in(trusted, existing, order)[i];
    order.unique_seq_to_set();
    assert(order.contains(order[i]));
    assert(order.to_set().contains(order[i]));
    assert(trusted.contains_key(order[i]));
    lemma_kept_addr(existing, r.peer_id_hex, k);
}

proof fn lemma_kept_addr(existing: Seq<StoredView>, hex: Seq<char>, k: int)
    ensures
        0 <= k < existing.len() && existing[k].peer_id_hex == hex && (forall|j: int|
            k < j < existing.len() ==> (#[trigger] existing[j]).peer_id_hex != hex) ==> kept_addr(
            existing,
            hex,
        ) == existing[k].last_addr,
        (forall|j: int| 0 <= j < existing.len() ==> (#[trigger] existing[j]).peer_id_hex != hex)
            ==> kept_addr(existing, hex) is None,
    decreases existing.len(),
{
    if existing.len() > 0 {
        let rest = existing.drop_last();
        let last = existing.len() - 1;
        lemma_kept_addr(rest, hex, k);
        assert(existing[last] == existing.last());
        assert(forall|j: int| 0 <= j < rest.len() ==> #[trigger] rest[j] == existing[j]);
    }
}

/// Every record with a sound key is trusted at the start, under that key and its name,
/// with the address that could be read of it; a record without one is left out.
pub proof fn sound_records_are_trusted(ps: Seq<LoadedView>, i: int, key: Id)
    requires
        0 <= i < ps.len(),
        ps[i].stored.static_pub_hex == hex_text(key@),
    ensures
        ps[i].key_sound ==> boot_peers(ps).contains(
            (BootView {
                peer_id: peer_id_of(key),
                trust: TrustedView { static_pub: key, name: ps[i].stored.name },
                last_addr: ps[i].addr,
            }),
        ),
        !ps[i].key_sound ==> boot_peer(ps[i]) is None,
        boot_peers(ps).len() <= ps.len(),
    decreases ps.len(),
{
    crate::driver::resync::id_text_reads_back(key);
    lemma_boot_len(ps);
    let rest = ps.drop_last();
    let before = boot_peers(rest);
    let all = boot_peers(ps);
    if ps[i].key_sound {
        let b = boot_peer(ps[i])->0;
        if i < rest.len() {
            assert(rest[i] == ps[i]);
            sound_records_are_trusted(rest, i, key);
            assert(all[before.index_of(b)] == b);
        } else {
            assert(all[before.len() as int] == b);
        }
    }
}

proof fn lemma_boot_len(ps: Seq<LoadedView>)
    ensures
        boot_peers(ps).len() <= ps.len(),
    decreases ps.len(),
{
    if ps.len() > 0 {
        lemma_boot_len(ps.drop_last());
    }
}

/// A record that is put in is there afterwards, records of other peers stay as they were
/// and where they were, and none is lost: the list grows only where the peer was not in
/// it.
pub proof fn record_is_put_in(stored: Seq<StoredView>, entry: StoredView, i: int)
    ensures
        upserted(stored, entry).contains(entry),
        0 <= i < stored.len() && stored[i].peer_id_hex != entry.peer_id_hex ==> upserted(
            stored,
            entry,
        )[i] == stored[i],
        (exists|j: int|
            0 <= j < stored.len() && (#[trigger] stored[j]).peer_id_hex == entry.peer_id_hex)
            ==> upserted(stored, entry).len() == stored.len(),
        (forall|j: int|
            0 <= j < stored.len() ==> (#[trigger] stored[j]).peer_id_hex != entry.peer_id_hex)
            ==> upserted(stored, entry) == stored.push(entry),
    decreases stored.len(),
{
    let after = upserted(stored, entry);
    if stored.len() == 0 {
        assert(after[0] == entry);
        assert(after =~= stored.push(entry));
    } else if stored[0].peer_id_hex == entry.peer_id_hex {
        assert(after[0] == entry);
    } else {
        let rest = stored.drop_first();
        let tail = upserted(rest, entry);
        record_is_put_in(rest, entry, i - 1);
        assert(after[tail.index_of(entry) + 1] == entry);
        if 0 < i < stored.len() {
            assert(rest[i - 1] == stored[i]);
        }
        if exists|j: int|
            0 <= j < stored.len() && (#[trigger] stored[j]).peer_id_hex == entry.peer_id_hex {
            let j = choose|j: int|
                0 <= j < stored.len() && (#[trigger] stored[j]).peer_id_hex == entry.peer_id_hex;
            assert(rest[j - 1].peer_id_hex == entry.peer_id_hex);
        }
        if forall|j: int|
            0 <= j < stored.len() ==> (#[trigger] stored[j]).peer_id_hex != entry.peer_id_hex {
            assert forall|j: int| 0 <= j < rest.len() implies (#[trigger] rest[j]).peer_id_hex
                != entry.peer_id_hex by {
                assert(stored[j + 1].peer_id_hex != entry.peer_id_hex);
            }
            assert(after =~= stored.push(entry));
        }
    }
}

/// Where a trusted peer was reached is stored under its own id, key and name, unless it
/// is an address that must not be redialed.
pub proof fn last_address_is_stored(
    trusted: Map<Id, TrustedView>,
    peer: Id,
    addr: SocketAddr,
    text: Seq<char>,
)
    ensures
        last_addr_record(trusted, peer, addr, text) is Some == (trusted.contains_key(peer)
            && redialable(ip_of(addr))),
        last_addr_record(trusted, peer, addr, text) matches Some(r) ==> r.peer_id_hex == hex_text(
            peer@,
        ) && r.static_pub_hex == hex_text(trusted[peer].static_pub@) && r.name
            == trusted[peer].name && r.last_addr == Some(text),
{
}

/// At most sixty-four stored peers are trusted at the start, the first ones of the file.
pub proof fn first_stored_peers_are_trusted(s: Seq<BootView>, i: int)
    ensures
        capped(s).len() == if s.len() <= 64 {
            s.len() as int
        } else {
            64
        },
        0 <= i < capped(s).len() ==> capped(s)[i] == s[i],
{
}

} // verus!
