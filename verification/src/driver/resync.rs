//! Catching up after a reconnect: which items a peer is offered, which offered
//! ones are asked for, and which of those asked for are served.
use vstd::prelude::*;

use crate::clock::{elapsed, elapsed_since};
use crate::codec::{hex_reads_back, hex_bytes, hex_decode_text, hex_encode_bytes, hex_text, is_hex};
use crate::driver::content::names;
use crate::driver::inflight::copy_bytes;
use crate::idmap::{is_least, kept, IdMap, IdSet, Keep, Rank};
use crate::ids::Id;
use crate::wire::{views, ClipboardItem, Decision, ItemView, Kind, Policy};

verus! {

/// Most hashes of cleared items that are remembered.
pub const MAX_CLEARED_TOMBSTONE: usize = 4096;

/// How long an item that was asked for is expected.
pub const RESYNC_PULL_TIMEOUT: u64 = 60_000;

/// Why a text is no id.
#[derive(Debug, Clone, Copy, PartialEq, Eq, Structural)]
pub enum IdError {
    /// It is not hexadecimal.
    BadHex,
    /// It does not write out 32 bytes.
    WrongLength,
}

/// The id with these bytes.
pub open spec fn id_of_bytes(bytes: Seq<u8>) -> Id {
    choose|id: Id| id@ == bytes
}

/// The id that a text writes out in hexadecimal.
pub open spec fn id_of_text(s: Seq<char>) -> Result<Id, IdError> {
    if !is_hex(s) {
        Err(IdError::BadHex)
    } else if s.len() != 64 {
        Err(IdError::WrongLength)
    } else {
        Ok(id_of_bytes(hex_bytes(s)))
    }
}

/// An id is the id with its bytes.
pub proof fn id_has_its_bytes(id: Id)
    ensures
        id_of_bytes(id@) == id,
{
    let found = id_of_bytes(id@);
    assert(found@ == id@);
    assert(found =~= id);
}

/// The text of an id reads back as the id, so that it names no other.
pub proof fn id_text_reads_back(id: Id)
    ensures
        id_of_text(hex_text(id@)) == Ok::<Id, IdError>(id),
{
    hex_reads_back(id@);
    id_has_its_bytes(id);
}

/// The bytes of a list as an id, if there are 32 of them.
pub fn id_from_bytes(bytes: &Vec<u8>) -> (r: Option<Id>)
    ensures
        match r {
            Some(id) => id@ == bytes@,
            None => bytes@.len() != 32,
        },
{
    if bytes.len() != 32 {
        return None;
    }
    let mut id: Id = [0u8; 32];
    let mut i: usize = 0;
    while i < 32
        invariant
            i <= 32,
            bytes@.len() == 32,
            forall|j: int| 0 <= j < i ==> id@[j] == bytes@[j],
        decreases 32 - i,
    {
        id[i] = bytes[i];
        i = i + 1;
    }
    assert(id@ =~= bytes@);
    Some(id)
}

/// Reads an id in hexadecimal.
pub fn decode_hex32(s: &str) -> (r: Result<Id, IdError>)
    ensures
        match r {
            Ok(id) => id_of_text(s@) == Ok::<Id, IdError>(id) && id@ == hex_bytes(s@),
            Err(e) => id_of_text(s@) == Err::<Id, IdError>(e),
        },
{
    match hex_decode_text(s) {
        None => Err(IdError::BadHex),
        Some(bytes) => {
            assert(bytes@.len() == s@.len() / 2);
            match id_from_bytes(&bytes) {
                Some(id) => {
                    proof {
                        id_has_its_bytes(id);
                    }
                    Ok(id)
                },
                None => Err(IdError::WrongLength),
            }
        },
    }
}

/// An item kept to be sent to peers that missed it.
pub struct OutboxEntry {
    pub payload: Vec<u8>,
    pub kind: Kind,
    pub origin: Id,
    pub seq: u64,
    pub created: u64,
}

/// View of an [`OutboxEntry`].
#[verifier::ext_equal]
pub ghost struct OutboxView {
    pub payload: Seq<u8>,
    pub kind: Kind,
    pub origin: Id,
    pub seq: u64,
    pub created: u64,
}

impl View for OutboxEntry {
    type V = OutboxView;

    open spec fn view(&self) -> OutboxView {
        OutboxView {
            payload: self.payload@,
            kind: self.kind,
            origin: self.origin,
            seq: self.seq,
            created: self.created,
        }
    }
}

/// The texts of some ids.
pub open spec fn id_texts(ids: Seq<Id>) -> Seq<Seq<char>> {
    Seq::new(ids.len(), |i: int| hex_text(ids[i]@))
}

/// The hashes that a peer is offered: those of the items at hand, in their order.
pub fn build_resync_offer(outbox_hashes: &[Id]) -> (r: Vec<String>)
    ensures
        views(r@) == id_texts(outbox_hashes@),
{
    let mut r: Vec<String> = Vec::new();
    let mut i: usize = 0;
    while i < outbox_hashes.len()
        invariant
            i <= outbox_hashes@.len(),
            views(r@) == id_texts(outbox_hashes@).subrange(0, i as int),
        decreases outbox_hashes@.len() - i,
    {
        let ghost before = views(r@);
        let text = hex_encode_bytes(outbox_hashes[i].as_slice());
        r.push(text);
        assert(views(r@) =~= before.push(hex_text(outbox_hashes@[i as int]@)));
        i = i + 1;
        assert(views(r@) =~= id_texts(outbox_hashes@).subrange(0, i as int));
    }
    assert(views(r@) =~= id_texts(outbox_hashes@));
    r
}

/// A hash that there is no reason to ask for: the item is in the history or at
/// hand, was cleared on purpose, or has been asked for already.
pub open spec fn unwanted(
    h: Seq<char>,
    history: Seq<Seq<char>>,
    outbox: Seq<Seq<char>>,
    cleared: Seq<Seq<char>>,
    pulled: Seq<Seq<char>>,
) -> bool {
    history.contains(h) || outbox.contains(h) || cleared.contains(h) || pulled.contains(h)
}

/// The first `max` of a list.
pub open spec fn at_most<T>(s: Seq<T>, max: nat) -> Seq<T> {
    if s.len() <= max {
        s
    } else {
        s.take(max as int)
    }
}

/// The offered hashes to ask for: those that are wanted, in the offer's order,
/// and no more than `max_resync_hashes`.
pub fn missing_resync_hashes(
    offered: &[String],
    history_hashes: &[String],
    outbox_hashes: &[String],
    cleared_hashes: &[String],
    pending_pull_hashes: &[String],
    max_resync_hashes: usize,
) -> (r: Vec<String>)
    ensures
        views(r@) == at_most(
            views(offered@).filter(
                |h: Seq<char>|
                    !unwanted(
                        h,
                        views(history_hashes@),
                        views(outbox_hashes@),
                        views(cleared_hashes@),
                        views(pending_pull_hashes@),
                    ),
            ),
            max_resync_hashes as nat,
        ),
{
    let ghost wanted = |h: Seq<char>|
        !unwanted(
            h,
            views(history_hashes@),
            views(outbox_hashes@),
            views(cleared_hashes@),
            views(pending_pull_hashes@),
        );
    let ghost all = views(offered@);
    let mut r: Vec<String> = Vec::new();
    let mut i: usize = 0;
    proof {
        reveal(Seq::filter);
        assert(all.subrange(0, 0) =~= Seq::empty());
        assert(views(r@) =~= at_most(all.subrange(0, 0).filter(wanted), max_resync_hashes as nat));
    }
    while i < offered.len()
        invariant
            i <= offered@.len(),
            all == views(offered@),
            wanted == |h: Seq<char>|
                !unwanted(
                    h,
                    views(history_hashes@),
                    views(outbox_hashes@),
                    views(cleared_hashes@),
                    views(pending_pull_hashes@),
                ),
            views(r@) == at_most(all.subrange(0, i as int).filter(wanted), max_resync_hashes as nat),
        decreases offered@.len() - i,
    {
        let ghost before = views(r@);
        let ghost kept = all.subrange(0, i as int).filter(wanted);
        proof {
            reveal(Seq::filter);
            let next = all.subrange(0, i + 1);
            assert(next.drop_last() =~= all.subrange(0, i as int));
            assert(next.last() == offered@[i as int]@);
        }
        let h = offered[i].as_str();
        if !names(history_hashes, h) && !names(outbox_hashes, h) && !names(cleared_hashes, h) && !names(
            pending_pull_hashes,
            h,
        ) {
            if r.len() < max_resync_hashes {
                r.push(offered[i].clone());
                assert(views(r@) =~= before.push(offered@[i as int]@));
            }
            assert(all.subrange(0, i + 1).filter(wanted) =~= kept.push(offered@[i as int]@));
        } else {
            assert(all.subrange(0, i + 1).filter(wanted) =~= kept);
        }
        i = i + 1;
        assert(views(r@) =~= at_most(
            all.subrange(0, i as int).filter(wanted),
            max_resync_hashes as nat,
        ));
    }
    assert(all.subrange(0, all.len() as int) =~= all);
    r
}

/// Keeps the times that are at most `max_age` ago.
pub struct NotOlder {
    pub max_age: u64,
    pub now: u64,
}

impl Keep<u64> for NotOlder {
    open spec fn keeps(&self, key: Id, value: u64) -> bool {
        elapsed(value, self.now) <= self.max_age
    }

    fn keep(&self, key: &Id, value: &u64) -> (r: bool) {
        elapsed_since(*value, self.now) <= self.max_age
    }
}

/// Ranks times.
pub struct ByTime;

impl Rank<u64> for ByTime {
    open spec fn rank(&self, value: u64) -> u64 {
        value
    }

    fn rank_of(&self, value: &u64) -> (r: u64) {
        *value
    }
}

/// `m` with every id of `hashes` set to `now`.
pub open spec fn all_stamped(m: Map<Id, u64>, hashes: Seq<Id>, now: u64) -> Map<Id, u64>
    decreases hashes.len(),
{
    if hashes.len() == 0 {
        m
    } else {
        all_stamped(m, hashes.drop_last(), now).insert(hashes.last(), now)
    }
}

proof fn lemma_all_stamped(m: Map<Id, u64>, hashes: Seq<Id>, now: u64)
    requires
        m.dom().finite(),
    ensures
        all_stamped(m, hashes, now).dom().finite(),
        forall|h: Id| #[trigger]
            hashes.contains(h) ==> all_stamped(m, hashes, now).contains_key(h) && all_stamped(
                m,
                hashes,
                now,
            )[h] == now,
    decreases hashes.len(),
{
    if hashes.len() > 0 {
        let rest = hashes.drop_last();
        lemma_all_stamped(m, rest, now);
        assert(all_stamped(m, hashes, now).dom() =~= all_stamped(m, rest, now).dom().insert(
            hashes.last(),
        ));
        assert forall|h: Id| #[trigger] hashes.contains(h) implies all_stamped(
            m,
            hashes,
            now,
        ).contains_key(h) && all_stamped(m, hashes, now)[h] == now by {
            let i = hashes.index_of(h);
            if i < rest.len() {
                assert(rest[i] == h);
                assert(rest.contains(h));
            } else {
                assert(h == hashes.last());
            }
        }
    }
}

/// The entries of `all` from `now` on.
pub open spec fn stamped_since(all: Map<Id, u64>, now: u64) -> Set<Id> {
    all.dom().filter(|k: Id| all[k] >= now)
}

/// What was cleared just now is remembered, as long as what was cleared just now
/// is not more than the cap.
pub proof fn clearing_is_remembered(
    before: Map<Id, u64>,
    hashes: Seq<Id>,
    now: u64,
    cap: nat,
    after: Map<Id, u64>,
    h: Id,
)
    requires
        before.dom().finite(),
        oldest_evicted(all_stamped(before, hashes, now), cap, after),
        stamped_since(all_stamped(before, hashes, now), now).len() <= cap,
        hashes.contains(h),
    ensures
        after.contains_key(h) && after[h] == now,
{
    let all = all_stamped(before, hashes, now);
    lemma_all_stamped(before, hashes, now);
    assert(all.dom().contains(h));
    if !after.contains_key(h) {
        assert(after.dom().subset_of(all.dom().remove(h))) by {
            assert forall|k: Id| after.dom().contains(k) implies all.dom().remove(h).contains(k) by {
                assert(after.contains_key(k));
                assert(all.dom().contains(k));
            }
        }
        vstd::set_lib::lemma_len_subset(after.dom(), all.dom().remove(h));
        assert(after.dom().len() == cap);
        let late = stamped_since(all, now);
        assert(after.dom().insert(h).subset_of(late)) by {
            assert forall|k: Id| after.dom().insert(h).contains(k) implies late.contains(k) by {
                if k != h {
                    assert(all.contains_key(h) && !after.contains_key(h) && after.contains_key(k));
                    assert(all.dom().contains(k));
                    assert(all[h] <= all[k]);
                }
            }
        }
        assert(late.subset_of(all.dom()));
        vstd::set_lib::lemma_len_subset(late, all.dom());
        vstd::set_lib::lemma_len_subset(after.dom().insert(h), late);
        assert(false);
    } else {
        assert(after.dom().contains(h));
    }
}

/// `after` is what is left of `all` at a size of at most `cap` when the oldest
/// entries go first.
pub open spec fn oldest_evicted(all: Map<Id, u64>, cap: nat, after: Map<Id, u64>) -> bool {
    &&& after.submap_of(all)
    &&& after.dom().len() == if all.dom().len() > cap {
        cap
    } else {
        all.dom().len()
    }
    &&& forall|gone: Id, left: Id|
        #![trigger all.contains_key(gone), after.contains_key(left)]
        all.contains_key(gone) && !after.contains_key(gone) && after.contains_key(left) ==> all[gone]
            <= all[left]
}

/// Remembers that items were cleared on purpose: forgets the entries older than
/// `max_age`, stamps the new ones, and evicts the oldest beyond the cap.
pub fn mark_cleared(tombstone: &mut IdMap<u64>, hashes: &Vec<Id>, max_age: u64, now: u64)
    ensures
        hashes@.len() == 0 ==> final(tombstone)@ == old(tombstone)@,
        hashes@.len() > 0 ==> oldest_evicted(
            all_stamped(
                kept::<u64, NotOlder>(old(tombstone)@, (NotOlder { max_age, now })),
                hashes@,
                now,
            ),
            MAX_CLEARED_TOMBSTONE as nat,
            final(tombstone)@,
        ),
{
    if hashes.len() == 0 {
        return;
    }
    tombstone.retain(&NotOlder { max_age, now });
    let ghost live = tombstone@;
    let mut i: usize = 0;
    assert(hashes@.subrange(0, 0) =~= Seq::empty());
    while i < hashes.len()
        invariant
            i <= hashes@.len(),
            tombstone@ == all_stamped(live, hashes@.subrange(0, i as int), now),
        decreases hashes@.len() - i,
    {
        proof {
            let next = hashes@.subrange(0, i + 1);
            assert(next.drop_last() =~= hashes@.subrange(0, i as int));
            assert(next.last() == hashes@[i as int]);
        }
        tombstone.insert(hashes[i], now);
        i = i + 1;
    }
    assert(hashes@.subrange(0, hashes@.len() as int) =~= hashes@);
    let ghost all = tombstone@;
    let mut n: usize = tombstone.len();
    while n > MAX_CLEARED_TOMBSTONE
        invariant
            n == tombstone@.dom().len(),
            tombstone@.dom().finite(),
            tombstone@.submap_of(all),
            n <= all.dom().len(),
            n == all.dom().len() || n >= MAX_CLEARED_TOMBSTONE,
            forall|gone: Id, left: Id|
                #![trigger all.contains_key(gone), tombstone@.contains_key(left)]
                all.contains_key(gone) && !tombstone@.contains_key(gone) && tombstone@.contains_key(left)
                    ==> all[gone] <= all[left],
        decreases n,
    {
        let ghost before = tombstone@;
        match tombstone.least(&ByTime) {
            Some(oldest) => {
                assert(is_least::<u64, ByTime>(before, ByTime, oldest));
                let _ = tombstone.remove(&oldest);
                assert(tombstone@.dom() =~= before.dom().remove(oldest));
                assert forall|gone: Id, left: Id|
                    #![trigger all.contains_key(gone), tombstone@.contains_key(left)]
                    all.contains_key(gone) && !tombstone@.contains_key(gone)
                        && tombstone@.contains_key(left) implies all[gone] <= all[left] by {
                    assert(before.contains_key(left));
                    assert(all.dom().contains(left));
                    assert(before[left] == all[left]);
                    if gone == oldest {
                        assert(all.dom().contains(gone) && before.dom().contains(gone));
                        assert(before[gone] == all[gone]);
                        assert(ByTime.rank(before[oldest]) <= ByTime.rank(before[left]));
                    } else {
                        assert(!before.contains_key(gone));
                    }
                }
            },
            None => {
                assert(before.dom() =~= Set::empty());
            },
        }
        n = n - 1;
    }
}

/// The hashes of the items that were cleared at most `max_age` ago, each once, in
/// no particular order.
pub fn cleared_hex_snapshot(tombstone: &IdMap<u64>, max_age: u64, now: u64) -> (r: Vec<String>)
    ensures
        exists|order: Seq<Id>|
            {
                &&& order.no_duplicates()
                &&& order.to_set() == kept::<u64, NotOlder>(
                    tombstone@,
                    (NotOlder { max_age, now }),
                ).dom()
                &&& views(r@) == #[trigger] id_texts(order)
            },
{
    let live = live_keys(tombstone, max_age, now);
    build_resync_offer(live.as_slice())
}

/// The keys whose time is at most `max_age` ago.
fn live_keys(times: &IdMap<u64>, max_age: u64, now: u64) -> (r: Vec<Id>)
    ensures
        r@.no_duplicates(),
        r@.to_set() == kept::<u64, NotOlder>(times@, (NotOlder { max_age, now })).dom(),
{
    let ghost live = kept::<u64, NotOlder>(times@, (NotOlder { max_age, now }));
    let keys = times.keys();
    let mut r: Vec<Id> = Vec::new();
    let mut i: usize = 0;
    while i < keys.len()
        invariant
            i <= keys@.len(),
            keys@.no_duplicates(),
            live == kept::<u64, NotOlder>(times@, (NotOlder { max_age, now })),
            forall|k: Id| #[trigger] keys@.contains(k) <==> times@.contains_key(k),
            r@.no_duplicates(),
            forall|k: Id|
                #[trigger] r@.contains(k) <==> exists|j: int| 0 <= j < i && keys@[j] == k && live.contains_key(k),
        decreases keys@.len() - i,
    {
        let k = keys[i];
        assert(keys@.contains(k));
        let ghost before = r@;
        if let Some(t) = times.get(&k) {
            if elapsed_since(*t, now) <= max_age {
                assert(!before.contains(k)) by {
                    if before.contains(k) {
                        let j = choose|j: int| 0 <= j < i && keys@[j] == k && live.contains_key(k);
                        assert(keys@[j] == keys@[i as int]);
                    }
                }
                r.push(k);
                assert(r@.no_duplicates());
            }
        }
        proof {
            assert forall|x: Id| #[trigger] r@.contains(x) <==> exists|j: int|
                0 <= j < i + 1 && keys@[j] == x && live.contains_key(x) by {
                if r@.contains(x) {
                    if x == k && r@.len() > before.len() {
                        assert(keys@[i as int] == x);
                    } else {
                        let p = r@.index_of(x);
                        assert(before[p] == x || (p == before.len() && x == k));
                        if before.contains(x) {
                            let j = choose|j: int| 0 <= j < i && keys@[j] == x && live.contains_key(x);
                            assert(0 <= j < i + 1 && keys@[j] == x);
                        }
                    }
                }
                if exists|j: int| 0 <= j < i + 1 && keys@[j] == x && live.contains_key(x) {
                    let j = choose|j: int| 0 <= j < i + 1 && keys@[j] == x && live.contains_key(x);
                    if j < i {
                        assert(before.contains(x));
                        assert(r@[before.index_of(x)] == x);
                    } else {
                        assert(r@[before.len() as int] == x);
                    }
                }
            }
        }
        i = i + 1;
    }
    proof {
        assert forall|k: Id| r@.to_set().contains(k) <==> live.contains_key(k) by {
            if live.contains_key(k) {
                assert(keys@.contains(k));
                let j = keys@.index_of(k);
                assert(keys@[j] == k);
                assert(r@.contains(k));
            }
        }
        assert(r@.to_set() =~= live.dom());
    }
    r
}

/// Keeps the requests that are still expected to be answered.
pub struct Fresh {
    pub now: u64,
}

impl Keep<u64> for Fresh {
    open spec fn keeps(&self, key: Id, value: u64) -> bool {
        elapsed(value, self.now) < RESYNC_PULL_TIMEOUT
    }

    fn keep(&self, key: &Id, value: &u64) -> (r: bool) {
        elapsed_since(*value, self.now) < RESYNC_PULL_TIMEOUT
    }
}

/// The requests of `m` that are still expected to be answered.
pub open spec fn fresh_pulls(m: Map<Id, u64>, now: u64) -> Map<Id, u64> {
    kept::<u64, Fresh>(m, (Fresh { now }))
}

/// The hashes that some peer is still expected to deliver.
pub open spec fn hashes_in_flight(pulls: Map<Id, Map<Id, u64>>, now: u64) -> Set<Id> {
    Set::new(
        |h: Id|
            exists|p: Id| #[trigger] pulls.contains_key(p) && fresh_pulls(pulls[p], now).contains_key(h),
    )
}

fn add_fresh(out: &mut IdSet, per_peer: &IdMap<u64>, now: u64)
    ensures
        final(out)@ == old(out)@ + fresh_pulls(per_peer@, now).dom(),
{
    let ghost before = out@;
    let ghost fresh = fresh_pulls(per_peer@, now);
    let keys = per_peer.keys();
    let mut i: usize = 0;
    while i < keys.len()
        invariant
            i <= keys@.len(),
            forall|k: Id| #[trigger] keys@.contains(k) <==> per_peer@.contains_key(k),
            fresh == fresh_pulls(per_peer@, now),
            forall|k: Id|
                #[trigger] out@.contains(k) <==> before.contains(k) || (fresh.contains_key(k) && exists|j: int|
                    0 <= j < i && keys@[j] == k),
        decreases keys@.len() - i,
    {
        let k = keys[i];
        assert(keys@.contains(k));
        let ghost so_far = out@;
        if let Some(t) = per_peer.get(&k) {
            if elapsed_since(*t, now) < RESYNC_PULL_TIMEOUT {
                let _ = out.insert(k);
            }
        }
        proof {
            assert forall|x: Id| #[trigger] out@.contains(x) <==> before.contains(x) || (
            fresh.contains_key(x) && exists|j: int| 0 <= j < i + 1 && keys@[j] == x) by {
                assert(so_far.contains(x) <==> before.contains(x) || (fresh.contains_key(x) && exists|
                    j: int,
                |
                    0 <= j < i && keys@[j] == x));
                if fresh.contains_key(x) && exists|j: int| 0 <= j < i && keys@[j] == x {
                    let j = choose|j: int| 0 <= j < i && keys@[j] == x;
                    assert(0 <= j < i + 1 && keys@[j] == x);
                }
                if x == k {
                    assert(keys@[i as int] == x);
                }
            }
        }
        i = i + 1;
    }
    proof {
        assert forall|k: Id| #[trigger] out@.contains(k) <==> (before + fresh.dom()).contains(k) by {
            if fresh.contains_key(k) {
                assert(keys@.contains(k));
                assert(keys@[keys@.index_of(k)] == k);
            }
        }
        assert(out@ =~= before + fresh.dom());
    }
}

/// The hashes that some peer is still expected to deliver, each once, in no
/// particular order.
pub fn in_flight_pull_hashes(pulls: &IdMap<IdMap<u64>>, now: u64) -> (r: Vec<String>)
    ensures
        exists|order: Seq<Id>|
            {
                &&& order.no_duplicates()
                &&& order.to_set() == hashes_in_flight(pulls@, now)
                &&& views(r@) == #[trigger] id_texts(order)
            },
{
    let mut out = IdSet::new();
    let peers = pulls.keys();
    let mut i: usize = 0;
    while i < peers.len()
        invariant
            i <= peers@.len(),
            forall|k: Id| #[trigger] peers@.contains(k) <==> pulls@.contains_key(k),
            forall|h: Id|
                #[trigger] out@.contains(h) <==> exists|j: int|
                    0 <= j < i && fresh_pulls(pulls@[#[trigger] peers@[j]], now).contains_key(h),
        decreases peers@.len() - i,
    {
        assert(peers@.contains(peers@[i as int]));
        let ghost so_far = out@;
        if let Some(per_peer) = pulls.get(&peers[i]) {
            add_fresh(&mut out, per_peer, now);
        }
        proof {
            assert forall|h: Id| #[trigger] out@.contains(h) <==> exists|j: int|
                0 <= j < i + 1 && fresh_pulls(pulls@[#[trigger] peers@[j]], now).contains_key(h) by {
                assert(so_far.contains(h) <==> exists|j: int|
                    0 <= j < i && fresh_pulls(pulls@[#[trigger] peers@[j]], now).contains_key(h));
                if so_far.contains(h) {
                    let j = choose|j: int|
                        0 <= j < i && fresh_pulls(pulls@[#[trigger] peers@[j]], now).contains_key(h);
                    assert(0 <= j < i + 1 && fresh_pulls(pulls@[peers@[j]], now).contains_key(h));
                }
                if fresh_pulls(pulls@[peers@[i as int]], now).contains_key(h) {
                    assert(out@.contains(h));
                }
            }
        }
        i = i + 1;
    }
    proof {
        assert forall|h: Id| #[trigger] out@.contains(h) <==> hashes_in_flight(pulls@, now).contains(h) by {
            if out@.contains(h) {
                let j = choose|j: int|
                    0 <= j < peers@.len() && fresh_pulls(
                        pulls@[#[trigger] peers@[j]],
                        now,
                    ).contains_key(h);
                assert(peers@.contains(peers@[j]));
                assert(pulls@.contains_key(peers@[j]));
            }
            if hashes_in_flight(pulls@, now).contains(h) {
                let p = choose|p: Id| #[trigger]
                    pulls@.contains_key(p) && fresh_pulls(pulls@[p], now).contains_key(h);
                assert(peers@.contains(p));
                assert(peers@[peers@.index_of(p)] == p);
            }
        }
        assert(out@ =~= hashes_in_flight(pulls@, now));
    }
    let order = out.to_vec();
    build_resync_offer(order.as_slice())
}

/// The requests after those for `hashes` went to `peer` at `now`; texts that are
/// no ids are not remembered.
pub open spec fn pulls_with(
    pulls: Map<Id, Map<Id, u64>>,
    peer: Id,
    hashes: Seq<Seq<char>>,
    now: u64,
) -> Map<Id, Map<Id, u64>> {
    let before = if pulls.contains_key(peer) {
        pulls[peer]
    } else {
        Map::empty()
    };
    pulls.insert(
        peer,
        Map::new(
            |h: Id| before.contains_key(h) || asked(hashes, h),
            |h: Id|
                if asked(hashes, h) {
                    now
                } else {
                    before[h]
                },
        ),
    )
}

/// Some text of `hashes` writes out `h`.
pub open spec fn asked(hashes: Seq<Seq<char>>, h: Id) -> bool {
    exists|i: int|
        0 <= i < hashes.len() && id_of_text(#[trigger] hashes[i]) == Ok::<Id, IdError>(h)
}

/// Remembers that `hashes` were asked of `peer`.
pub fn note_pulls(pulls: &mut IdMap<IdMap<u64>>, peer: Id, hashes: &Vec<String>, now: u64)
    ensures
        final(pulls)@ == pulls_with(old(pulls)@, peer, views(hashes@), now),
{
    let mut per_peer = match pulls.remove(&peer) {
        Some(m) => m,
        None => IdMap::new(),
    };
    let ghost before = per_peer@;
    let ghost texts = views(hashes@);
    let mut i: usize = 0;
    assert(per_peer@ =~= stamped_first(before, texts, 0, now));
    while i < hashes.len()
        invariant
            i <= hashes@.len(),
            texts == views(hashes@),
            per_peer@ == stamped_first(before, texts, i as int, now),
        decreases hashes@.len() - i,
    {
        let ghost so_far = per_peer@;
        let text = hashes[i].as_str();
        assert(texts[i as int] == text@);
        match decode_hex32(text) {
            Ok(hash) => {
                per_peer.insert(hash, now);
                proof {
                    assert forall|h: Id|
                        #![trigger asked(texts.take(i + 1), h)]
                        #![trigger asked(texts.take(i as int), h)]
                        asked(texts.take(i + 1), h) <==> (asked(texts.take(i as int), h) || h == hash) by {
                        lemma_asked_step(texts, i as int, h);
                    }
                    assert(per_peer@ =~= stamped_first(before, texts, i + 1, now));
                }
            },
            Err(_) => {
                proof {
                    assert forall|h: Id|
                        #![trigger asked(texts.take(i + 1), h)]
                        #![trigger asked(texts.take(i as int), h)]
                        asked(texts.take(i + 1), h) <==> asked(texts.take(i as int), h) by {
                        lemma_asked_step(texts, i as int, h);
                    }
                    assert(per_peer@ =~= stamped_first(before, texts, i + 1, now));
                }
            },
        }
        i = i + 1;
    }
    assert(texts.take(texts.len() as int) =~= texts);
    pulls.insert(peer, per_peer);
    assert(pulls@ =~= pulls_with(old(pulls)@, peer, texts, now));
}

/// `before` with the ids among the first `n` texts set to `now`.
spec fn stamped_first(before: Map<Id, u64>, texts: Seq<Seq<char>>, n: int, now: u64) -> Map<Id, u64> {
    Map::new(
        |h: Id| before.contains_key(h) || asked(texts.take(n), h),
        |h: Id|
            if asked(texts.take(n), h) {
                now
            } else {
                before[h]
            },
    )
}

proof fn lemma_asked_step(texts: Seq<Seq<char>>, i: int, h: Id)
    requires
        0 <= i < texts.len(),
    ensures
        asked(texts.take(i + 1), h) <==> (asked(texts.take(i), h) || id_of_text(texts[i]) == Ok::<Id, IdError>(h)),
{
    let a = texts.take(i);
    let b = texts.take(i + 1);
    if asked(a, h) {
        let j = choose|j: int|
            0 <= j < a.len() && id_of_text(#[trigger] a[j]) == Ok::<Id, IdError>(h);
        assert(b[j] == a[j]);
    }
    if id_of_text(texts[i]) == Ok::<Id, IdError>(h) {
        assert(b[i] == texts[i]);
    }
    if asked(b, h) {
        let j = choose|j: int|
            0 <= j < b.len() && id_of_text(#[trigger] b[j]) == Ok::<Id, IdError>(h);
        if j < i {
            assert(a[j] == b[j]);
        }
    }
}

/// The requests after an item that `peer` may have been asked for arrived.
pub open spec fn pulls_taken(
    pulls: Map<Id, Map<Id, u64>>,
    peer: Id,
    hash: Id,
    now: u64,
) -> Map<Id, Map<Id, u64>> {
    if !pulls.contains_key(peer) {
        pulls
    } else {
        let left = fresh_pulls(pulls[peer], now).remove(hash);
        if left == Map::<Id, u64>::empty() {
            pulls.remove(peer)
        } else {
            pulls.insert(peer, left)
        }
    }
}

/// Says whether `hash` was asked of `peer` and is still expected, and expects it
/// no longer; forgets the requests to the peer that were not answered in time.
pub fn take_pending_pull(pulls: &mut IdMap<IdMap<u64>>, peer: Id, hash: Id, now: u64) -> (found: bool)
    ensures
        final(pulls)@ == pulls_taken(old(pulls)@, peer, hash, now),
        found == (old(pulls)@.contains_key(peer) && fresh_pulls(
            old(pulls)@[peer],
            now,
        ).contains_key(hash)),
{
    match pulls.remove(&peer) {
        None => {
            assert(pulls@ =~= old(pulls)@);
            false
        },
        Some(mut per_peer) => {
            per_peer.retain(&Fresh { now });
            let found = per_peer.remove(&hash).is_some();
            if !per_peer.is_empty() {
                pulls.insert(peer, per_peer);
            }
            assert(pulls@ =~= pulls_taken(old(pulls)@, peer, hash, now));
            found
        },
    }
}

/// A delivery answers a request once: the same item is a fresh copy the next time.
pub proof fn pull_is_answered_once(
    pulls: Map<Id, Map<Id, u64>>,
    peer: Id,
    hash: Id,
    now: u64,
    later: u64,
)
    ensures
        ({
            let after = pulls_taken(pulls, peer, hash, now);
            !(after.contains_key(peer) && fresh_pulls(after[peer], later).contains_key(hash))
        }),
{
}

/// An item that is not wanted again while it is expected: what was asked of one
/// peer is not asked of another before the request times out.
pub proof fn pulled_hash_is_in_flight(
    pulls: Map<Id, Map<Id, u64>>,
    peer: Id,
    hashes: Seq<Seq<char>>,
    hash: Id,
    now: u64,
    later: u64,
)
    requires
        asked(hashes, hash),
        now <= later < now + RESYNC_PULL_TIMEOUT,
    ensures
        hashes_in_flight(pulls_with(pulls, peer, hashes, now), later).contains(hash),
{
    let after = pulls_with(pulls, peer, hashes, now);
    assert(after.contains_key(peer));
    assert(fresh_pulls(after[peer], later).contains_key(hash));
}

/// The item that is sent for an entry of the outbox.
pub open spec fn served_item(hash: Id, e: OutboxView) -> ItemView {
    ItemView {
        lamport: 0,
        hash,
        kind: e.kind,
        payload: e.payload,
        sensitive: false,
        wall_time_ms: 0,
        origin: e.origin,
        event_seq: e.seq,
    }
}

/// What is sent for one requested hash: nothing where it is no id, the item is
/// not at hand, or the firewall does not let its kind out.
pub open spec fn served_for(text: Seq<char>, held: Map<Id, OutboxView>, out: Policy) -> Option<ItemView> {
    match id_of_text(text) {
        Err(_) => None,
        Ok(h) => if held.contains_key(h) && out.on(held[h].kind) == Decision::Pass {
            Some(served_item(h, held[h]))
        } else {
            None
        },
    }
}

/// What is sent for a list of requested hashes, in their order.
pub open spec fn served(texts: Seq<Seq<char>>, held: Map<Id, OutboxView>, out: Policy) -> Seq<ItemView>
    decreases texts.len(),
{
    if texts.len() == 0 {
        Seq::empty()
    } else {
        let rest = served(texts.drop_last(), held, out);
        match served_for(texts.last(), held, out) {
            Some(item) => rest.push(item),
            None => rest,
        }
    }
}

/// The items to send for a request: for each of the first `max` hashes the item,
/// if it is at hand and the firewall lets it out.
pub fn serve_pull(hashes: &Vec<String>, held: &IdMap<OutboxEntry>, out: Policy, max: usize) -> (r: Vec<
    ClipboardItem,
>)
    ensures
        views(r@) == served(at_most(views(hashes@), max as nat), held@, out),
{
    let ghost all = views(hashes@);
    let n: usize = if hashes.len() <= max {
        hashes.len()
    } else {
        max
    };
    let mut r: Vec<ClipboardItem> = Vec::new();
    let mut i: usize = 0;
    assert(all.subrange(0, 0) =~= Seq::empty());
    assert(views(r@) =~= served(all.subrange(0, 0), held@, out));
    while i < n
        invariant
            i <= n <= hashes@.len(),
            all == views(hashes@),
            views(r@) == served(all.subrange(0, i as int), held@, out),
        decreases n - i,
    {
        proof {
            let next = all.subrange(0, i + 1);
            assert(next.drop_last() =~= all.subrange(0, i as int));
            assert(next.last() == hashes@[i as int]@);
        }
        let ghost before = views(r@);
        if let Ok(hash) = decode_hex32(hashes[i].as_str()) {
            if let Some(e) = held.get(&hash) {
                if matches!(out.decide(e.kind), Decision::Pass) {
                    let item = ClipboardItem {
                        lamport: 0,
                        hash,
                        kind: e.kind,
                        payload: copy_bytes(e.payload.as_slice()),
                        sensitive: false,
                        wall_time_ms: 0,
                        origin: e.origin,
                        event_seq: e.seq,
                    };
                    assert(item@ =~= served_item(hash, held@[hash]));
                    r.push(item);
                    assert(views(r@) =~= before.push(item@));
                }
            }
        }
        i = i + 1;
        assert(views(r@) =~= served(all.subrange(0, i as int), held@, out));
    }
    assert(all.subrange(0, n as int) =~= at_most(all, max as nat));
    r
}

/// What is sent to a peer that asks for it is kept here, and passes the firewall as
/// it is now.
pub proof fn served_items_pass_the_firewall(
    texts: Seq<Seq<char>>,
    held: Map<Id, OutboxView>,
    out: Policy,
    i: int,
)
    requires
        0 <= i < served(texts, held, out).len(),
    ensures
        ({
            let item = served(texts, held, out)[i];
            &&& out.on(item.kind) == Decision::Pass
            &&& held.contains_key(item.hash)
            &&& item.payload == held[item.hash].payload
            &&& item.origin == held[item.hash].origin && item.event_seq == held[item.hash].seq
        }),
    decreases texts.len(),
{
    let rest = served(texts.drop_last(), held, out);
    if i < rest.len() {
        served_items_pass_the_firewall(texts.drop_last(), held, out, i);
        assert(served(texts, held, out)[i] == rest[i]);
    }
}

/// An item that is kept, whose kind the firewall lets out, is sent to a peer that asks
/// for it by its hash, as it was when it was kept.
pub proof fn kept_item_is_served(
    texts: Seq<Seq<char>>,
    held: Map<Id, OutboxView>,
    out: Policy,
    h: Id,
)
    requires
        texts.contains(hex_text(h@)),
        held.contains_key(h),
        out.on(held[h].kind) == Decision::Pass,
    ensures
        served(texts, held, out).contains(
            (ItemView {
                lamport: 0,
                hash: h,
                kind: held[h].kind,
                payload: held[h].payload,
                sensitive: false,
                wall_time_ms: 0,
                origin: held[h].origin,
                event_seq: held[h].seq,
            }),
        ),
    decreases texts.len(),
{
    let rest = texts.drop_last();
    let before = served(rest, held, out);
    let all = served(texts, held, out);
    let item = served_item(h, held[h]);
    let t = hex_text(h@);
    id_text_reads_back(h);
    if texts.last() == t {
        assert(all[before.len() as int] == item);
    } else {
        let i = texts.index_of(t);
        assert(rest[i] == t);
        assert(rest.contains(t));
        kept_item_is_served(rest, held, out, h);
        assert(all[before.index_of(item)] == item);
    }
}

/// Nothing is sent that was not asked for, and nothing twice for one request.
pub proof fn only_requested_items_are_served(
    texts: Seq<Seq<char>>,
    held: Map<Id, OutboxView>,
    out: Policy,
    i: int,
)
    requires
        0 <= i < served(texts, held, out).len(),
    ensures
        served(texts, held, out).len() <= texts.len(),
        exists|k: int|
            0 <= k < texts.len() && id_of_text(#[trigger] texts[k]) == Ok::<Id, IdError>(
                served(texts, held, out)[i].hash,
            ),
        !served(texts, held, out)[i].sensitive,
    decreases texts.len(),
{
    if texts.len() > 0 {
        let rest = texts.drop_last();
        let before = served(rest, held, out);
        lemma_served_len(rest, held, out);
        if i < before.len() {
            only_requested_items_are_served(rest, held, out, i);
            let k = choose|k: int|
                0 <= k < rest.len() && id_of_text(#[trigger] rest[k]) == Ok::<Id, IdError>(
                    before[i].hash,
                );
            assert(texts[k] == rest[k]);
        } else {
            assert(id_of_text(texts[texts.len() - 1]) == Ok::<Id, IdError>(
                served(texts, held, out)[i].hash,
            ));
        }
    }
}

proof fn lemma_served_len(texts: Seq<Seq<char>>, held: Map<Id, OutboxView>, out: Policy)
    ensures
        served(texts, held, out).len() <= texts.len(),
    decreases texts.len(),
{
    if texts.len() > 0 {
        lemma_served_len(texts.drop_last(), held, out);
    }
}

/// What a peer was asked for counts as asked of it, from then on and for a minute;
/// what was asked of others, and before, is remembered as it was.
pub proof fn requests_are_remembered(
    pulls: Map<Id, Map<Id, u64>>,
    peer: Id,
    hashes: Seq<Seq<char>>,
    now: u64,
    h: Id,
    other: Id,
)
    ensures
        ({
            let after = pulls_with(pulls, peer, hashes, now);
            &&& after.contains_key(peer)
            &&& hashes.contains(hex_text(h@)) ==> after[peer].contains_key(h) && after[peer][h] == now
            &&& pulls.contains_key(peer) && pulls[peer].contains_key(h) ==> after[peer].contains_key(h)
            &&& after[peer].contains_key(h) ==> after[peer][h] == now || (pulls.contains_key(peer)
                && pulls[peer].contains_key(h) && after[peer][h] == pulls[peer][h])
            &&& other != peer ==> after.contains_key(other) == pulls.contains_key(other)
            &&& other != peer && pulls.contains_key(other) ==> after[other] == pulls[other]
        }),
{
    if hashes.contains(hex_text(h@)) {
        id_text_reads_back(h);
        let i = hashes.index_of(hex_text(h@));
        assert(id_of_text(hashes[i]) == Ok::<Id, IdError>(h));
    }
}

/// An item that arrives is expected of its sender no longer; what else is expected
/// stays so, unless a minute has passed, and so does what others owe.
pub proof fn delivery_settles_one_request(
    pulls: Map<Id, Map<Id, u64>>,
    peer: Id,
    hash: Id,
    now: u64,
    h: Id,
    other: Id,
)
    ensures
        ({
            let after = pulls_taken(pulls, peer, hash, now);
            let owed = pulls.contains_key(peer) && pulls[peer].contains_key(h) && elapsed(
                pulls[peer][h],
                now,
            ) < 60_000;
            &&& (after.contains_key(peer) && after[peer].contains_key(h)) == (owed && h != hash)
            &&& owed && h != hash ==> after[peer][h] == pulls[peer][h]
            &&& other != peer ==> after.contains_key(other) == pulls.contains_key(other)
            &&& other != peer && pulls.contains_key(other) ==> after[other] == pulls[other]
        }),
{
    if pulls.contains_key(peer) {
        let left = fresh_pulls(pulls[peer], now).remove(hash);
        if left.contains_key(h) {
            assert(left != Map::<Id, u64>::empty());
        }
    }
}

/// What the peer of a device owes it is what was asked within the last minute.
pub proof fn requests_time_out(pulls: Map<Id, Map<Id, u64>>, now: u64, h: Id)
    ensures
        hashes_in_flight(pulls, now).contains(h) <==> exists|p: Id| #[trigger]
            pulls.contains_key(p) && pulls[p].contains_key(h) && elapsed(pulls[p][h], now) < 60_000,
{
    if hashes_in_flight(pulls, now).contains(h) {
        let p = choose|p: Id| #[trigger]
            pulls.contains_key(p) && fresh_pulls(pulls[p], now).contains_key(h);
        assert(pulls.contains_key(p) && pulls[p].contains_key(h));
    }
    if exists|p: Id| #[trigger]
        pulls.contains_key(p) && pulls[p].contains_key(h) && elapsed(pulls[p][h], now) < 60_000 {
        let p = choose|p: Id| #[trigger]
            pulls.contains_key(p) && pulls[p].contains_key(h) && elapsed(pulls[p][h], now) < 60_000;
        assert(fresh_pulls(pulls[p], now).contains_key(h));
    }
}

/// Of a list that is too long the first ones are taken, in their order.
pub proof fn first_ones_are_taken<T>(s: Seq<T>, max: nat, i: int)
    ensures
        at_most(s, max).len() == if s.len() <= max {
            s.len()
        } else {
            max
        },
        0 <= i < at_most(s, max).len() ==> at_most(s, max)[i] == s[i],
{
}

/// What is cleared is stamped with the time of now, and what was cleared before keeps its
/// stamp.
pub proof fn clearings_are_stamped(m: Map<Id, u64>, hashes: Seq<Id>, now: u64, h: Id)
    ensures
        ({
            let after = all_stamped(m, hashes, now);
            &&& after.contains_key(h) == (m.contains_key(h) || hashes.contains(h))
            &&& hashes.contains(h) ==> after[h] == now
            &&& !hashes.contains(h) && m.contains_key(h) ==> after[h] == m[h]
        }),
    decreases hashes.len(),
{
    if hashes.len() > 0 {
        let rest = hashes.drop_last();
        clearings_are_stamped(m, rest, now, h);
        if rest.contains(h) {
            assert(hashes[rest.index_of(h)] == h);
        }
        assert(hashes[hashes.len() - 1] == hashes.last());
        if hashes.contains(h) && hashes.last() != h {
            assert(rest[hashes.index_of(h)] == h);
        }
    }
}

/// A clearing is remembered for as long as items are kept, and not longer.
pub proof fn clearings_are_remembered_for_a_while(m: Map<Id, u64>, max_age: u64, now: u64, h: Id)
    ensures
        kept::<u64, NotOlder>(m, (NotOlder { max_age, now })).contains_key(h) == (m.contains_key(h)
            && elapsed(m[h], now) <= max_age),
{
}

/// An item is offered under the hash that it is asked for by: an offer lists the text of
/// every hash at hand, each of which reads back as the hash.
pub proof fn offers_can_be_read(ids: Seq<Id>, i: int)
    requires
        0 <= i < ids.len(),
    ensures
        id_texts(ids).len() == ids.len(),
        id_of_text(id_texts(ids)[i]) == Ok::<Id, IdError>(ids[i]),
{
    id_text_reads_back(ids[i]);
}

/// Below the cap nothing that was cleared is forgotten; above it, what is forgotten was
/// cleared no later than what is remembered, and no more is forgotten than has to be.
pub proof fn oldest_clearings_are_forgotten_first(
    all: Map<Id, u64>,
    cap: nat,
    after: Map<Id, u64>,
    h: Id,
    left: Id,
)
    requires
        all.dom().finite(),
        oldest_evicted(all, cap, after),
    ensures
        all.dom().len() <= cap && all.contains_key(h) ==> after.contains_key(h) && after[h] == all[h],
        all.contains_key(h) && !after.contains_key(h) && after.contains_key(left) ==> all[h]
            <= all[left],
        after.contains_key(h) ==> all.contains_key(h) && after[h] == all[h],
        all.dom().len() > cap ==> after.dom().len() == cap,
{
    assert(after.dom().subset_of(all.dom())) by {
        assert forall|k: Id| after.dom().contains(k) implies all.dom().contains(k) by {
            assert(after.contains_key(k));
        }
    }
    if all.dom().len() <= cap && all.contains_key(h) && !after.contains_key(h) {
        vstd::set_lib::lemma_len_subset(after.dom(), all.dom().remove(h));
    }
}

} // verus!
