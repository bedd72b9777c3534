//! The history on disk: when it is written, what is written, and how a wipe
//! reaches it.
use vstd::prelude::*;
use vstd::string::*;

use crate::backoff::PeerBackoff;
use crate::cmd::{HistoryItem, HistoryView};
use crate::driver::discovered::{ResolvedPeer, ResolvedView};
use crate::idmap::IdMap;
use crate::ids::{same_id, Id};
use crate::text::same_text;
use crate::wire::views;

verus! {

/// An item of the stored history.
#[derive(Debug)]
pub struct VaultEntry {
    pub item: HistoryItem,
    /// When it was first stored.
    pub created_ms: u64,
}

/// View of a [`VaultEntry`].
#[verifier::ext_equal]
pub ghost struct VaultEntryView {
    pub item: HistoryView,
    pub created_ms: u64,
}

impl View for VaultEntry {
    type V = VaultEntryView;

    open spec fn view(&self) -> VaultEntryView {
        VaultEntryView { item: self.item@, created_ms: self.created_ms }
    }
}

impl Clone for VaultEntry {
    fn clone(&self) -> (r: Self)
        ensures
            r@ == self@,
    {
        VaultEntry { item: self.item.clone(), created_ms: self.created_ms }
    }
}

/// What is known of the stored history.
pub struct VaultCtx {
    /// The history as it was last stored.
    pub last: Vec<HistoryItem>,
    /// The entries as they were last stored.
    pub entries: Vec<VaultEntry>,
}

/// View of a [`VaultCtx`].
#[verifier::ext_equal]
pub ghost struct VaultView {
    pub last: Seq<HistoryView>,
    pub entries: Seq<VaultEntryView>,
}

impl View for VaultCtx {
    type V = VaultView;

    open spec fn view(&self) -> VaultView {
        VaultView { last: views(self.last@), entries: views(self.entries@) }
    }
}

/// Both are the same copy, whatever the user has marked since.
pub open spec fn same_copy(a: HistoryView, b: HistoryView) -> bool {
    a.hash == b.hash && a.lamport == b.lamport
}

fn is_same_copy(a: &HistoryItem, b: &HistoryItem) -> (r: bool)
    ensures
        r == same_copy(a@, b@),
{
    same_text(a.hash.as_str(), b.hash.as_str()) && a.lamport == b.lamport
}

/// When `item` was first stored: `now` where it was not.
pub open spec fn created_of(entries: Seq<VaultEntryView>, item: HistoryView, now: u64) -> u64
    decreases entries.len(),
{
    if entries.len() == 0 {
        now
    } else if same_copy(entries[0].item, item) {
        entries[0].created_ms
    } else {
        created_of(entries.drop_first(), item, now)
    }
}

/// The history holds `item`.
pub open spec fn holds(history: Seq<HistoryView>, item: HistoryView) -> bool {
    exists|i: int| 0 <= i < history.len() && same_copy(#[trigger] history[i], item)
}

/// A favourite that the history no longer holds.
pub open spec fn scrolled_out(history: Seq<HistoryView>, e: VaultEntryView) -> bool {
    e.item.favorite && !holds(history, e.item)
}

/// What is to be stored: the history, each item with the time at which it was
/// first stored, and the favourites that are no longer in it.
pub open spec fn rebuilt(
    entries: Seq<VaultEntryView>,
    history: Seq<HistoryView>,
    now: u64,
) -> Seq<VaultEntryView> {
    Seq::new(
        history.len(),
        |i: int|
            VaultEntryView { item: history[i], created_ms: created_of(entries, history[i], now) },
    ) + entries.filter(|e: VaultEntryView| scrolled_out(history, e))
}

fn created_at(entries: &Vec<VaultEntry>, item: &HistoryItem, now: u64) -> (r: u64)
    ensures
        r == created_of(views(entries@), item@, now),
{
    let ghost all = views(entries@);
    let mut i: usize = 0;
    assert(all.skip(0) =~= all);
    while i < entries.len()
        invariant
            i <= entries@.len(),
            all == views(entries@),
            created_of(all.skip(i as int), item@, now) == created_of(all, item@, now),
        decreases entries@.len() - i,
    {
        assert(all.skip(i as int)[0] == entries@[i as int]@);
        assert(all.skip(i as int).drop_first() =~= all.skip(i + 1));
        if is_same_copy(&entries[i].item, item) {
            return entries[i].created_ms;
        }
        i = i + 1;
    }
    now
}

fn is_held(history: &Vec<HistoryItem>, item: &HistoryItem) -> (r: bool)
    ensures
        r == holds(views(history@), item@),
{
    let mut i: usize = 0;
    while i < history.len()
        invariant
            i <= history@.len(),
            forall|j: int| 0 <= j < i ==> !same_copy(#[trigger] views(history@)[j], item@),
        decreases history@.len() - i,
    {
        assert(views(history@)[i as int] == history@[i as int]@);
        if is_same_copy(&history[i], item) {
            return true;
        }
        i = i + 1;
    }
    false
}

impl VaultCtx {
    /// What is to be stored of `history`.
    pub fn rebuild(&self, history: &Vec<HistoryItem>, now: u64) -> (r: Vec<VaultEntry>)
        ensures
            views(r@) == rebuilt(self@.entries, views(history@), now),
    {
        let ghost h = views(history@);
        let ghost all = views(self.entries@);
        let mut r: Vec<VaultEntry> = Vec::new();
        let mut i: usize = 0;
        while i < history.len()
            invariant
                i <= history@.len(),
                all == views(self.entries@),
                r@.len() == i,
                forall|j: int|
                    0 <= j < i ==> (#[trigger] r@[j])@ == (VaultEntryView {
                        item: history@[j]@,
                        created_ms: created_of(all, history@[j]@, now),
                    }),
            decreases history@.len() - i,
        {
            let item = &history[i];
            let created_ms = created_at(&self.entries, item, now);
            r.push(VaultEntry { item: item.clone(), created_ms });
            i = i + 1;
        }
        let ghost first = views(r@);
        let ghost p = |e: VaultEntryView| scrolled_out(h, e);
        let mut k: usize = 0;
        proof {
            reveal(Seq::filter);
            assert(all.subrange(0, 0) =~= Seq::empty());
            assert(views(r@) =~= first + all.subrange(0, 0).filter(p));
        }
        while k < self.entries.len()
            invariant
                k <= self.entries@.len(),
                all == views(self.entries@),
                h == views(history@),
                p == |e: VaultEntryView| scrolled_out(h, e),
                views(r@) == first + all.subrange(0, k as int).filter(p),
            decreases self.entries@.len() - k,
        {
            let ghost before = views(r@);
            proof {
                reveal(Seq::filter);
                let next = all.subrange(0, k + 1);
                assert(next.drop_last() =~= all.subrange(0, k as int));
                assert(next.last() == self.entries@[k as int]@);
            }
            let e = &self.entries[k];
            if e.item.favorite && !is_held(history, &e.item) {
                r.push(e.clone());
                assert(views(r@) =~= before.push(e@));
                assert(views(r@) =~= first + all.subrange(0, k as int).filter(p).push(e@));
            }
            k = k + 1;
        }
        proof {
            assert(all.subrange(0, all.len() as int) =~= all);
            assert(first =~= Seq::new(
                h.len(),
                |i: int| VaultEntryView { item: h[i], created_ms: created_of(all, h[i], now) },
            ));
        }
        r
    }
}

/// A favourite is stored for as long as nobody wipes the history, however far it
/// has scrolled out of it.
pub proof fn favourites_stay_stored(
    entries: Seq<VaultEntryView>,
    history: Seq<HistoryView>,
    now: u64,
    e: VaultEntryView,
)
    requires
        entries.contains(e),
        e.item.favorite,
    ensures
        exists|i: int|
            0 <= i < rebuilt(entries, history, now).len() && same_copy(
                (#[trigger] rebuilt(entries, history, now)[i]).item,
                e.item,
            ),
{
    let out = rebuilt(entries, history, now);
    let p = |e: VaultEntryView| scrolled_out(history, e);
    if holds(history, e.item) {
        let i = choose|i: int| 0 <= i < history.len() && same_copy(#[trigger] history[i], e.item);
        assert(out[i].item == history[i]);
    } else {
        entries.lemma_filter_contains(p, entries.index_of(e));
        let k = entries.filter(p).index_of(e);
        assert(out[history.len() + k] == e);
    }
}

/// An item keeps the time at which it was first stored, also when the user marks
/// it as a favourite in between.
pub proof fn stored_items_keep_their_age(
    entries: Seq<VaultEntryView>,
    history: Seq<HistoryView>,
    now: u64,
    i: int,
    k: int,
)
    requires
        0 <= i < history.len(),
        0 <= k < entries.len(),
        same_copy(entries[k].item, history[i]),
        forall|j: int| 0 <= j < k ==> !same_copy((#[trigger] entries[j]).item, history[i]),
    ensures
        rebuilt(entries, history, now)[i].created_ms == entries[k].created_ms,
        rebuilt(entries, history, now)[i].item == history[i],
    decreases k,
{
    lemma_created_of(entries, history[i], now, k);
}

proof fn lemma_created_of(entries: Seq<VaultEntryView>, item: HistoryView, now: u64, k: int)
    requires
        0 <= k < entries.len(),
        same_copy(entries[k].item, item),
        forall|j: int| 0 <= j < k ==> !same_copy((#[trigger] entries[j]).item, item),
    ensures
        created_of(entries, item, now) == entries[k].created_ms,
    decreases k,
{
    if k > 0 {
        let rest = entries.drop_first();
        assert(!same_copy(entries[0].item, item));
        assert forall|j: int| 0 <= j < k - 1 implies !same_copy((#[trigger] rest[j]).item, item) by {
            assert(rest[j] == entries[j + 1]);
        }
        lemma_created_of(rest, item, now, k - 1);
    }
}

fn same_item(a: &HistoryItem, b: &HistoryItem) -> (r: bool)
    ensures
        r == (a@ == b@),
{
    let same_peer = match (a.source_peer_id, b.source_peer_id) {
        (Some(x), Some(y)) => same_id(&x, &y),
        (None, None) => true,
        _ => false,
    };
    assert(same_peer == (a.source_peer_id == b.source_peer_id));
    same_peer && a.kind == b.kind && same_text(a.preview.as_str(), b.preview.as_str())
        && same_text(a.time.as_str(), b.time.as_str()) && a.source == b.source && a.sensitive
        == b.sensitive && a.lamport == b.lamport && same_text(a.hash.as_str(), b.hash.as_str())
        && a.favorite == b.favorite && a.resync == b.resync
}

fn same_history(a: &Vec<HistoryItem>, b: &Vec<HistoryItem>) -> (r: bool)
    ensures
        r == (views(a@) == views(b@)),
{
    if a.len() != b.len() {
        assert(views(a@).len() != views(b@).len());
        return false;
    }
    let mut i: usize = 0;
    while i < a.len()
        invariant
            i <= a@.len(),
            a@.len() == b@.len(),
            forall|j: int| 0 <= j < i ==> (#[trigger] views(a@)[j]) == views(b@)[j],
        decreases a@.len() - i,
    {
        assert(views(a@)[i as int] == a@[i as int]@ && views(b@)[i as int] == b@[i as int]@);
        if !same_item(&a[i], &b[i]) {
            return false;
        }
        i = i + 1;
    }
    assert(views(a@) =~= views(b@));
    true
}

/// Starts to store a change of the state. Where the state's history was wiped
/// since the wipe `last_wipe_gen`, what was stored before is forgotten, with what
/// was seen of the network, and the stored history has to be deleted.
pub fn begin_persist(
    vault: &mut VaultCtx,
    discovered: &mut IdMap<ResolvedPeer>,
    backoff: &mut IdMap<PeerBackoff>,
    last_wipe_gen: u64,
    wipe_gen: u64,
) -> (wipe: bool)
    ensures
        wipe == (wipe_gen != last_wipe_gen),
        !wipe ==> {
            &&& final(vault)@ == old(vault)@
            &&& final(discovered)@ == old(discovered)@
            &&& final(backoff)@ == old(backoff)@
        },
        wipe ==> {
            &&& final(vault)@ == (VaultView { last: Seq::empty(), entries: Seq::empty() })
            &&& final(discovered)@ == Map::<Id, ResolvedView>::empty()
            &&& final(backoff)@ == Map::<Id, PeerBackoff>::empty()
        },
{
    if wipe_gen == last_wipe_gen {
        return false;
    }
    vault.entries = Vec::new();
    vault.last = Vec::new();
    assert(vault@ =~= (VaultView { last: Seq::empty(), entries: Seq::empty() }));
    discovered.clear();
    backoff.clear();
    true
}

/// The wipe that counts as done: `wipe_gen` only once the stored history is gone.
pub open spec fn done_wipe(last_wipe_gen: u64, wipe_gen: u64, deleted: bool) -> u64 {
    if deleted {
        wipe_gen
    } else {
        last_wipe_gen
    }
}

/// Computes [`done_wipe`].
pub fn wipe_done(last_wipe_gen: u64, wipe_gen: u64, deleted: bool) -> (r: u64)
    ensures
        r == done_wipe(last_wipe_gen, wipe_gen, deleted),
{
    if deleted {
        wipe_gen
    } else {
        last_wipe_gen
    }
}

/// What has to be stored: nothing where the history is as it was last stored.
pub fn entries_to_save(vault: &VaultCtx, history: &Vec<HistoryItem>, now: u64) -> (r: Option<
    Vec<VaultEntry>,
>)
    ensures
        match r {
            Some(entries) => views(history@) != vault@.last && views(entries@) == rebuilt(
                vault@.entries,
                views(history@),
                now,
            ),
            None => views(history@) == vault@.last,
        },
{
    if same_history(history, &vault.last) {
        None
    } else {
        Some(vault.rebuild(history, now))
    }
}

/// Notes what was stored.
pub fn note_saved(vault: &mut VaultCtx, entries: Vec<VaultEntry>, history: Vec<HistoryItem>)
    ensures
        final(vault)@ == (VaultView { last: views(history@), entries: views(entries@) }),
{
    vault.entries = entries;
    vault.last = history;
}

/// A wipe that did not reach the disk is tried again with the next change, and one
/// that did is not.
pub proof fn failed_wipe_is_tried_again(last_wipe_gen: u64, wipe_gen: u64, deleted: bool)
    requires
        wipe_gen != last_wipe_gen,
    ensures
        (wipe_gen != done_wipe(last_wipe_gen, wipe_gen, deleted)) == !deleted,
{
}

/// After a wipe nothing of what was stored before is stored again: only what the
/// history holds now, as new.
pub proof fn wipe_forgets_favourites(history: Seq<HistoryView>, now: u64)
    ensures
        rebuilt(Seq::empty(), history, now) == Seq::new(
            history.len(),
            |i: int| VaultEntryView { item: history[i], created_ms: now },
        ),
{
    let none: Seq<VaultEntryView> = Seq::empty();
    reveal(Seq::filter);
    assert(none.filter(|e: VaultEntryView| scrolled_out(history, e)) =~= Seq::empty());
    assert(rebuilt(none, history, now) =~= Seq::new(
        history.len(),
        |i: int| VaultEntryView { item: history[i], created_ms: now },
    ));
}

/// Every item of the history is stored, in its order and as it is; one that was not
/// stored before with the time of now. Beside them only favourites are stored, as they
/// were stored before.
pub proof fn history_is_stored(
    entries: Seq<VaultEntryView>,
    history: Seq<HistoryView>,
    now: u64,
    i: int,
)
    requires
        0 <= i < rebuilt(entries, history, now).len(),
    ensures
        ({
            let all = rebuilt(entries, history, now);
            &&& all.len() >= history.len()
            &&& i < history.len() ==> all[i].item == history[i]
            &&& i < history.len() && (forall|k: int|
                0 <= k < entries.len() ==> (#[trigger] entries[k]).item.hash != history[i].hash)
                ==> all[i].created_ms == now
            &&& i >= history.len() ==> entries.contains(all[i]) && all[i].item.favorite
        }),
{
    let p = |e: VaultEntryView| scrolled_out(history, e);
    let all = rebuilt(entries, history, now);
    if i < history.len() {
        if forall|k: int|
            0 <= k < entries.len() ==> (#[trigger] entries[k]).item.hash != history[i].hash {
            lemma_never_stored(entries, history[i], now);
        }
    } else {
        let rest = entries.filter(p);
        let k = i - history.len();
        assert(all[i] == rest[k]);
        entries.lemma_filter_pred(p, k);
        assert(rest.contains(rest[k]));
        entries.lemma_filter_contains_rev(p, rest[k]);
    }
}

proof fn lemma_never_stored(entries: Seq<VaultEntryView>, item: HistoryView, now: u64)
    requires
        forall|k: int| 0 <= k < entries.len() ==> (#[trigger] entries[k]).item.hash != item.hash,
    ensures
        created_of(entries, item, now) == now,
    decreases entries.len(),
{
    if entries.len() > 0 {
        let rest = entries.drop_first();
        assert(entries[0].item.hash != item.hash);
        assert forall|k: int| 0 <= k < rest.len() implies (#[trigger] rest[k]).item.hash
            != item.hash by {
            assert(entries[k + 1].item.hash != item.hash);
        }
        lemma_never_stored(rest, item, now);
    }
}

} // verus!
