//! Items that do not fit one datagram: cutting them into chunks, and putting the
//! chunks together again.
//!
//! A transfer starts with a header, the item with an empty payload, followed by
//! the chunks of the payload. Datagrams arrive in any order, twice or not at all.
use vstd::prelude::*;

use crate::clock::{elapsed, elapsed_since};
use crate::codec::{blake3_digest, blake3_hash};
use crate::driver::inflight::copy_bytes;
use crate::idmap::{is_least, kept, IdMap, Keep, Rank};
use crate::ids::{no_id, zero_id, Id};
use crate::wire::{
    opt_view, views, Chunk, ChunkView, ClipboardItem, ItemView, Kind, Msg, MsgView, Nak, NakView,
};

verus! {

/// Most transfers that are put together at a time.
pub const MAX_REASSEMBLIES: usize = 5;

/// Age at which an unfinished transfer is dropped.
pub const REASSEMBLY_MAX_AGE: u64 = 60_000;

/// Silence after which an unfinished transfer is dropped.
pub const REASSEMBLY_MAX_IDLE: u64 = 5_000;

/// Most chunks that one request for missing frames names.
pub const NAK_MISSING_PER_FRAME: usize = 400;

/// How often what is missing of transfers is asked for again.
pub const NAK_INTERVAL: u64 = 700;

/// A transfer that is being put together.
pub struct Reassembly {
    /// From the header, once it arrived: lamport time, kind, sensitivity.
    pub metadata: Option<(u64, Kind, bool)>,
    pub origin: Id,
    pub event_seq: u64,
    /// The chunks by index; no chunk is known yet if it is empty.
    pub chunks: Vec<Option<Vec<u8>>>,
    pub last_update: u64,
    pub first_seen: u64,
    /// The peer that sends this transfer.
    pub source: Id,
    /// The item's content hash.
    pub item_hash: Id,
}

/// View of an optional chunk.
pub open spec fn chunk_view(c: Option<Vec<u8>>) -> Option<Seq<u8>> {
    match c {
        Some(v) => Some(v@),
        None => None,
    }
}

/// Views of a list of optional chunks.
pub open spec fn chunk_views(s: Seq<Option<Vec<u8>>>) -> Seq<Option<Seq<u8>>> {
    Seq::new(s.len(), |i: int| chunk_view(s[i]))
}

/// View of a [`Reassembly`].
#[verifier::ext_equal]
pub ghost struct ReassemblyView {
    pub metadata: Option<(u64, Kind, bool)>,
    pub origin: Id,
    pub event_seq: u64,
    pub chunks: Seq<Option<Seq<u8>>>,
    pub last_update: u64,
    pub first_seen: u64,
    pub source: Id,
    pub item_hash: Id,
}

impl View for Reassembly {
    type V = ReassemblyView;

    open spec fn view(&self) -> ReassemblyView {
        ReassemblyView {
            metadata: self.metadata,
            origin: self.origin,
            event_seq: self.event_seq,
            chunks: chunk_views(self.chunks@),
            last_update: self.last_update,
            first_seen: self.first_seen,
            source: self.source,
            item_hash: self.item_hash,
        }
    }
}

/// The key under which the transfer of an item from a peer is kept: transfers of
/// one item from two peers do not mix.
pub open spec fn transfer_key(source: Id, item_id: Id) -> Id {
    blake3_digest(source@ + item_id@)
}

/// Computes [`transfer_key`].
pub fn reassembly_key(source: Id, item_id: Id) -> (r: Id)
    ensures
        r == transfer_key(source, item_id),
{
    let mut buf: Vec<u8> = Vec::new();
    buf.extend_from_slice(source.as_slice());
    buf.extend_from_slice(item_id.as_slice());
    assert(buf@ =~= source@ + item_id@);
    blake3_hash(buf.as_slice())
}

/// Number of chunks of a payload.
pub open spec fn chunk_count(len: nat, max: nat) -> nat {
    ((len + max - 1) / max as int) as nat
}

/// The bytes of chunk `i` of a payload.
pub open spec fn chunk_data(payload: Seq<u8>, max: nat, i: int) -> Seq<u8> {
    payload.subrange(
        i * max,
        if (i + 1) * max <= payload.len() {
            (i + 1) * max
        } else {
            payload.len() as int
        },
    )
}

/// The frames of an item: itself if its payload fits one chunk, else a header
/// and the chunks.
pub open spec fn item_frames(item: ItemView, max: nat) -> Seq<MsgView> {
    if item.payload.len() <= max {
        seq![MsgView::ClipboardItem(ItemView { wall_time_ms: 0, ..item })]
    } else {
        let n = chunk_count(item.payload.len(), max);
        seq![
            MsgView::ClipboardItem(ItemView { wall_time_ms: 0, payload: Seq::empty(), ..item }),
        ] + Seq::new(
            n,
            |i: int|
                MsgView::Chunk(
                    ChunkView {
                        item_id: item.hash,
                        idx: i as u16,
                        total: n as u16,
                        data: chunk_data(item.payload, max, i),
                    },
                ),
        )
    }
}

proof fn lemma_chunk_bounds(len: int, max: int, i: int)
    requires
        0 < max,
        0 <= len,
        0 <= i,
    ensures
        0 <= i * max,
        (i + 1) * max == i * max + max,
        i < chunk_count(len as nat, max as nat) <==> i * max < len,
        0 <= chunk_count(len as nat, max as nat) <= len,
{
    assert(0 <= i * max) by (nonlinear_arith)
        requires
            0 <= i,
            0 < max,
    ;
    assert((i + 1) * max == i * max + max) by (nonlinear_arith);
    let n = (len + max - 1) / max;
    assert(n * max <= len + max - 1 < (n + 1) * max) by (nonlinear_arith)
        requires
            n == (len + max - 1) / max,
            0 < max,
            0 <= len,
    ;
    assert(0 <= n) by (nonlinear_arith)
        requires
            n == (len + max - 1) / max,
            0 < max,
            0 <= len,
    ;
    assert(n <= len) by (nonlinear_arith)
        requires
            n * max <= len + max - 1,
            0 < max,
            0 <= len,
            0 <= n,
    ;
    if i < n {
        assert(i * max < len) by (nonlinear_arith)
            requires
                i + 1 <= n,
                n * max <= len + max - 1,
                0 < max,
        ;
    }
    if i * max < len {
        assert(i < n) by (nonlinear_arith)
            requires
                i * max < len,
                len + max - 1 < (n + 1) * max,
                0 < max,
        ;
    }
}

/// The frames in which an item travels, none of them with more than
/// `max_chunk_data` bytes of payload.
pub fn build_item_frames(
    lamport: u64,
    hash: Id,
    kind: Kind,
    payload: &[u8],
    sensitive: bool,
    origin: Id,
    event_seq: u64,
    max_chunk_data: usize,
) -> (r: Vec<Msg>)
    requires
        max_chunk_data > 0,
    ensures
        views(r@) == item_frames(
            (ItemView {
                lamport,
                hash,
                kind,
                payload: payload@,
                sensitive,
                wall_time_ms: 0,
                origin,
                event_seq,
            }),
            max_chunk_data as nat,
        ),
{
    let ghost item = ItemView {
        lamport,
        hash,
        kind,
        payload: payload@,
        sensitive,
        wall_time_ms: 0,
        origin,
        event_seq,
    };
    let ghost max = max_chunk_data as nat;
    let mut frames: Vec<Msg> = Vec::new();
    if payload.len() <= max_chunk_data {
        frames.push(
            Msg::ClipboardItem(
                ClipboardItem {
                    lamport,
                    hash,
                    kind,
                    payload: copy_bytes(payload),
                    sensitive,
                    wall_time_ms: 0,
                    origin,
                    event_seq,
                },
            ),
        );
        assert(views(frames@) =~= item_frames(item, max));
        return frames;
    }
    frames.push(
        Msg::ClipboardItem(
            ClipboardItem {
                lamport,
                hash,
                kind,
                payload: Vec::new(),
                sensitive,
                wall_time_ms: 0,
                origin,
                event_seq,
            },
        ),
    );
    let ghost n = chunk_count(payload@.len(), max);
    proof {
        lemma_chunk_bounds(payload@.len() as int, max as int, 0);
    }
    let full: usize = payload.len() / max_chunk_data;
    let rest: usize = payload.len() % max_chunk_data;
    proof {
        let (len, m, q, r) = (payload@.len() as int, max as int, full as int, rest as int);
        assert(len == m * q + r && 0 <= r < m && 0 <= q) by (nonlinear_arith)
            requires
                0 < m,
                0 <= len,
                q == len / m,
                r == len % m,
        ;
        assert(n == q + if r > 0 { 1int } else { 0int }) by (nonlinear_arith)
            requires
                len == m * q + r,
                0 <= r < m,
                n == (len + m - 1) / m,
        ;
    }
    let total: usize = if rest > 0 {
        full + 1
    } else {
        full
    };
    assert(views(frames@) =~= item_frames(item, max).subrange(0, 1));
    let mut i: usize = 0;
    let mut from: usize = 0;
    while i < total
        invariant
            max == max_chunk_data,
            max > 0,
            item.payload == payload@,
            item.hash == hash,
            payload@.len() > max,
            n == chunk_count(payload@.len(), max),
            total == n,
            i <= total,
            i < total ==> from == i * max,
            i < total ==> from < payload@.len(),
            item_frames(item, max).len() == n + 1,
            views(frames@) == item_frames(item, max).subrange(0, i + 1),
        decreases total - i,
    {
        proof {
            lemma_chunk_bounds(payload@.len() as int, max as int, i as int);
            lemma_chunk_bounds(payload@.len() as int, max as int, i + 1);
        }
        let to: usize = if payload.len() - from >= max_chunk_data {
            from + max_chunk_data
        } else {
            payload.len()
        };
        let data = copy_bytes(vstd::slice::slice_subrange(payload, from, to));
        let ghost before = views(frames@);
        let chunk = Chunk { item_id: hash, idx: i as u16, total: total as u16, data };
        frames.push(Msg::Chunk(chunk));
        proof {
            assert(chunk@.data =~= chunk_data(item.payload, max, i as int));
            assert(views(frames@) =~= before.push(MsgView::Chunk(chunk@)));
            assert(item_frames(item, max)[i + 1] == MsgView::Chunk(chunk@));
            assert(views(frames@) =~= item_frames(item, max).subrange(0, i + 2));
        }
        i = i + 1;
        from = to;
    }
    assert(views(frames@) =~= item_frames(item, max));
    frames
}

/// Ranks transfers by when something of them last arrived.
pub struct ByLastUpdate;

impl Rank<Reassembly> for ByLastUpdate {
    open spec fn rank(&self, value: ReassemblyView) -> u64 {
        value.last_update
    }

    fn rank_of(&self, value: &Reassembly) -> (r: u64) {
        value.last_update
    }
}

/// `room` is `m` with room for the transfer `key`: where it is new and `m` is at
/// the cap, one transfer that was silent longest is dropped.
pub open spec fn room_for(m: Map<Id, ReassemblyView>, key: Id, room: Map<Id, ReassemblyView>) -> bool {
    if !m.contains_key(key) && m.dom().len() >= MAX_REASSEMBLIES {
        exists|victim: Id|
            #[trigger] is_least::<Reassembly, ByLastUpdate>(m, ByLastUpdate, victim) && room
                == m.remove(victim)
    } else {
        room == m
    }
}

fn make_room(map: &mut IdMap<Reassembly>, key: &Id)
    ensures
        room_for(old(map)@, *key, final(map)@),
        final(map)@.contains_key(*key) == old(map)@.contains_key(*key),
{
    let ghost before = map@;
    if !map.contains_key(key) && map.len() >= MAX_REASSEMBLIES {
        if let Some(victim) = map.least(&ByLastUpdate) {
            let _ = map.remove(&victim);
            assert(is_least::<Reassembly, ByLastUpdate>(before, ByLastUpdate, victim));
        }
    }
}

/// The bytes of a list of chunks, one after the other.
pub open spec fn joined(chunks: Seq<Option<Seq<u8>>>) -> Seq<u8>
    decreases chunks.len(),
{
    if chunks.len() == 0 {
        Seq::empty()
    } else {
        joined(chunks.drop_last()) + match chunks.last() {
            Some(data) => data,
            None => Seq::empty(),
        }
    }
}

/// Some chunk is known, and none is missing.
pub open spec fn all_here(chunks: Seq<Option<Seq<u8>>>) -> bool {
    chunks.len() > 0 && forall|i: int| 0 <= i < chunks.len() ==> (#[trigger] chunks[i]) is Some
}

/// Nothing of the transfer is missing.
pub open spec fn complete(r: ReassemblyView) -> bool {
    r.metadata is Some && all_here(r.chunks)
}

/// The item that a complete transfer carried.
pub open spec fn carried(r: ReassemblyView, hash: Id) -> ItemView {
    ItemView {
        lamport: (r.metadata->0).0,
        hash,
        kind: (r.metadata->0).1,
        payload: joined(r.chunks),
        sensitive: (r.metadata->0).2,
        wall_time_ms: 0,
        origin: r.origin,
        event_seq: r.event_seq,
    }
}

/// The transfer under `key` after its header arrived at `now`.
pub open spec fn with_header(
    m: Map<Id, ReassemblyView>,
    key: Id,
    peer: Id,
    item: ItemView,
    now: u64,
) -> ReassemblyView {
    let metadata = Some((item.lamport, item.kind, item.sensitive));
    if m.contains_key(key) {
        ReassemblyView {
            metadata,
            origin: item.origin,
            event_seq: item.event_seq,
            last_update: now,
            ..m[key]
        }
    } else {
        ReassemblyView {
            metadata,
            origin: item.origin,
            event_seq: item.event_seq,
            chunks: Seq::empty(),
            last_update: now,
            first_seen: now,
            source: peer,
            item_hash: item.hash,
        }
    }
}

/// No chunk of a transfer of `total` chunks.
pub open spec fn no_chunks(total: u16) -> Seq<Option<Seq<u8>>> {
    Seq::new(total as nat, |i: int| None)
}

/// The chunks known after one more arrived; an index past the end changes nothing.
pub open spec fn chunks_with(chunks: Seq<Option<Seq<u8>>>, c: ChunkView) -> Seq<Option<Seq<u8>>> {
    let slots = if chunks.len() == 0 {
        no_chunks(c.total)
    } else {
        chunks
    };
    if c.idx < slots.len() {
        slots.update(c.idx as int, Some(c.data))
    } else {
        slots
    }
}

/// The transfer under `key` after a chunk arrived at `now`.
pub open spec fn with_chunk(
    m: Map<Id, ReassemblyView>,
    key: Id,
    peer: Id,
    c: ChunkView,
    now: u64,
) -> ReassemblyView {
    if m.contains_key(key) {
        ReassemblyView { chunks: chunks_with(m[key].chunks, c), last_update: now, ..m[key] }
    } else {
        ReassemblyView {
            metadata: None,
            origin: zero_id(),
            event_seq: 0,
            chunks: chunks_with(Seq::empty(), c),
            last_update: now,
            first_seen: now,
            source: peer,
            item_hash: c.item_id,
        }
    }
}

/// What becomes of the transfers when the one under `key` is now `r`: a complete
/// one leaves and gives its item.
pub open spec fn settled(
    m: Map<Id, ReassemblyView>,
    key: Id,
    r: ReassemblyView,
    hash: Id,
    after: Map<Id, ReassemblyView>,
    item: Option<ItemView>,
) -> bool {
    exists|room: Map<Id, ReassemblyView>|
        #[trigger] room_for(m, key, room) && if complete(r) {
            after == room.remove(key) && item == Some(carried(r, hash))
        } else {
            after == room.insert(key, r) && item is None
        }
}

fn has_all(chunks: &Vec<Option<Vec<u8>>>) -> (r: bool)
    ensures
        r == all_here(chunk_views(chunks@)),
{
    let mut i: usize = 0;
    while i < chunks.len()
        invariant
            i <= chunks@.len(),
            forall|j: int| 0 <= j < i ==> (#[trigger] chunks@[j]) is Some,
        decreases chunks@.len() - i,
    {
        if chunks[i].is_none() {
            assert(chunk_views(chunks@)[i as int] is None);
            return false;
        }
        i = i + 1;
    }
    proof {
        assert forall|j: int| 0 <= j < chunks@.len() implies (#[trigger] chunk_views(chunks@)[j]) is Some by {
            assert(chunks@[j] is Some);
        }
    }
    chunks.len() > 0
}

fn join(chunks: Vec<Option<Vec<u8>>>) -> (r: Vec<u8>)
    ensures
        r@ == joined(chunk_views(chunks@)),
{
    let ghost all = chunk_views(chunks@);
    let mut out: Vec<u8> = Vec::new();
    let mut i: usize = 0;
    assert(all.subrange(0, 0) =~= Seq::empty());
    while i < chunks.len()
        invariant
            i <= chunks@.len(),
            all == chunk_views(chunks@),
            out@ == joined(all.subrange(0, i as int)),
        decreases chunks@.len() - i,
    {
        proof {
            let next = all.subrange(0, i + 1);
            assert(next.drop_last() =~= all.subrange(0, i as int));
            assert(next.last() == chunk_view(chunks@[i as int]));
        }
        let ghost before = out@;
        match &chunks[i] {
            Some(data) => {
                out.extend_from_slice(data.as_slice());
                assert(out@ =~= before + data@);
            },
            None => {
                assert(out@ =~= before + Seq::<u8>::empty());
            },
        }
        i = i + 1;
    }
    assert(all.subrange(0, all.len() as int) =~= all);
    out
}

/// Takes the entry `r` back into the map, or out of it for good if it is complete.
fn settle(map: &mut IdMap<Reassembly>, key: Id, r: Reassembly, hash: Id) -> (item: Option<
    ClipboardItem,
>)
    ensures
        match item {
            Some(i) => complete(r@) && i@ == carried(r@, hash) && final(map)@ == old(map)@,
            None => !complete(r@) && final(map)@ == old(map)@.insert(key, r@),
        },
{
    if has_all(&r.chunks) {
        if let Some((lamport, kind, sensitive)) = r.metadata {
            let payload = join(r.chunks);
            return Some(
                ClipboardItem {
                    lamport,
                    hash,
                    kind,
                    payload,
                    sensitive,
                    wall_time_ms: 0,
                    origin: r.origin,
                    event_seq: r.event_seq,
                },
            );
        }
    }
    map.insert(key, r);
    None
}

/// Takes in the header of the transfer under `key`, the item with an empty payload,
/// which may come after its chunks.
pub fn header_under(map: &mut IdMap<Reassembly>, key: Id, peer: Id, item: &ClipboardItem, now: u64) -> (done:
    Option<ClipboardItem>)
    ensures
        settled(
            old(map)@,
            key,
            with_header(old(map)@, key, peer, item@, now),
            item.hash,
            final(map)@,
            opt_view(done),
        ),
{
    let ghost before = map@;
    make_room(map, &key);
    let ghost room = map@;
    let metadata = Some((item.lamport, item.kind, item.sensitive));
    let r = match map.remove(&key) {
        Some(mut r) => {
            r.metadata = metadata;
            r.origin = item.origin;
            r.event_seq = item.event_seq;
            r.last_update = now;
            r
        },
        None => Reassembly {
            metadata,
            origin: item.origin,
            event_seq: item.event_seq,
            chunks: Vec::new(),
            last_update: now,
            first_seen: now,
            source: peer,
            item_hash: item.hash,
        },
    };
    assert(r@ =~= with_header(before, key, peer, item@, now));
    let done = settle(map, key, r, item.hash);
    proof {
        assert(room_for(before, key, room));
        if done is None {
            assert(map@ =~= room.insert(key, r@));
        }
    }
    done
}

/// Takes in the header of a transfer: those of different peers are kept apart.
pub fn on_header(map: &mut IdMap<Reassembly>, peer: Id, item: &ClipboardItem, now: u64) -> (done:
    Option<ClipboardItem>)
    ensures
        settled(
            old(map)@,
            transfer_key(peer, item.hash),
            with_header(old(map)@, transfer_key(peer, item.hash), peer, item@, now),
            item.hash,
            final(map)@,
            opt_view(done),
        ),
{
    let key = reassembly_key(peer, item.hash);
    header_under(map, key, peer, item, now)
}

/// A number of chunks that is worth putting together.
pub open spec fn sane_total(total: u16, max_chunks: u16) -> bool {
    0 < total <= max_chunks
}

/// What a chunk of the transfer under `key` does: one whose total is none or more
/// than `max_chunks` is dropped.
pub open spec fn chunk_taken(
    m: Map<Id, ReassemblyView>,
    key: Id,
    peer: Id,
    c: ChunkView,
    max_chunks: u16,
    now: u64,
    after: Map<Id, ReassemblyView>,
    done: Option<ItemView>,
) -> bool {
    if sane_total(c.total, max_chunks) {
        settled(m, key, with_chunk(m, key, peer, c, now), c.item_id, after, done)
    } else {
        after == m && done is None
    }
}

/// Takes in a chunk of the transfer under `key`.
pub fn chunk_under(
    map: &mut IdMap<Reassembly>,
    key: Id,
    peer: Id,
    c: Chunk,
    max_chunks: u16,
    now: u64,
) -> (done: Option<ClipboardItem>)
    ensures
        chunk_taken(old(map)@, key, peer, c@, max_chunks, now, final(map)@, opt_view(done)),
{
    if c.total > max_chunks || c.total == 0 {
        return None;
    }
    let ghost before = map@;
    make_room(map, &key);
    let ghost room = map@;
    let mut r = match map.remove(&key) {
        Some(r) => r,
        None => Reassembly {
            metadata: None,
            origin: no_id(),
            event_seq: 0,
            chunks: Vec::new(),
            last_update: now,
            first_seen: now,
            source: peer,
            item_hash: c.item_id,
        },
    };
    r.last_update = now;
    let ghost known = chunk_views(r.chunks@);
    if r.chunks.len() == 0 {
        r.chunks = empty_slots(c.total);
    }
    let ghost slots = chunk_views(r.chunks@);
    let at: usize = c.idx as usize;
    if at < r.chunks.len() {
        let ghost raw = r.chunks@;
        let mut chunks: Vec<Option<Vec<u8>>> = Vec::new();
        std::mem::swap(&mut chunks, &mut r.chunks);
        chunks[at] = Some(c.data);
        r.chunks = chunks;
        assert(chunk_views(r.chunks@) =~= slots.update(at as int, Some(c.data@)));
    }
    proof {
        assert(known.len() == 0 ==> known =~= Seq::empty());
        assert(chunk_views(r.chunks@) =~= chunks_with(known, c@));
        assert(r@ =~= with_chunk(before, key, peer, c@, now));
    }
    let done = settle(map, key, r, c.item_id);
    proof {
        assert(room_for(before, key, room));
        if done is None {
            assert(map@ =~= room.insert(key, r@));
        }
    }
    done
}

/// Takes in a chunk of a transfer: those of different peers are kept apart.
pub fn on_chunk(map: &mut IdMap<Reassembly>, peer: Id, c: Chunk, max_chunks: u16, now: u64) -> (done:
    Option<ClipboardItem>)
    ensures
        chunk_taken(
            old(map)@,
            transfer_key(peer, c.item_id),
            peer,
            c@,
            max_chunks,
            now,
            final(map)@,
            opt_view(done),
        ),
{
    let key = reassembly_key(peer, c.item_id);
    chunk_under(map, key, peer, c, max_chunks, now)
}

fn empty_slots(total: u16) -> (r: Vec<Option<Vec<u8>>>)
    ensures
        chunk_views(r@) == no_chunks(total),
{
    let mut r: Vec<Option<Vec<u8>>> = Vec::new();
    let mut i: u16 = 0;
    while i < total
        invariant
            i <= total,
            r@.len() == i,
            forall|j: int| 0 <= j < i ==> (#[trigger] r@[j]) is None,
        decreases total - i,
    {
        r.push(None);
        i = i + 1;
    }
    assert(chunk_views(r@) =~= no_chunks(total));
    r
}

/// Keeps the transfers that are young and not silent.
pub struct Progressing {
    pub now: u64,
}

impl Keep<Reassembly> for Progressing {
    open spec fn keeps(&self, key: Id, value: ReassemblyView) -> bool {
        &&& elapsed(value.first_seen, self.now) < REASSEMBLY_MAX_AGE
        &&& elapsed(value.last_update, self.now) < REASSEMBLY_MAX_IDLE
    }

    fn keep(&self, key: &Id, value: &Reassembly) -> (r: bool) {
        elapsed_since(value.first_seen, self.now) < REASSEMBLY_MAX_AGE && elapsed_since(
            value.last_update,
            self.now,
        ) < REASSEMBLY_MAX_IDLE
    }
}

/// Drops the transfers that are too old or have been silent too long.
pub fn cleanup_tick(map: &mut IdMap<Reassembly>, now: u64)
    ensures
        final(map)@ == kept::<Reassembly, Progressing>(old(map)@, (Progressing { now })),
{
    map.retain(&Progressing { now });
}

/// `r` is what is known of the transfer of `item` from `peer` once the chunks
/// `got`, and the header if `header`, have arrived.
pub open spec fn holds_part(
    r: ReassemblyView,
    peer: Id,
    item: ItemView,
    max: nat,
    header: bool,
    got: Set<int>,
) -> bool {
    let n = chunk_count(item.payload.len(), max);
    &&& r.source == peer
    &&& r.item_hash == item.hash
    &&& if header {
        &&& r.metadata == Some((item.lamport, item.kind, item.sensitive))
        &&& r.origin == item.origin
        &&& r.event_seq == item.event_seq
    } else {
        r.metadata is None
    }
    &&& forall|i: int| #[trigger] got.contains(i) ==> 0 <= i < n
    &&& if got == Set::<int>::empty() {
        r.chunks.len() == 0
    } else {
        &&& r.chunks.len() == n
        &&& forall|i: int|
            0 <= i < n ==> #[trigger] r.chunks[i] == if got.contains(i) {
                Some(chunk_data(item.payload, max, i))
            } else {
                None
            }
    }
}

/// An item that travels in chunks, each of which the protocol can number.
pub open spec fn travels_in_chunks(item: ItemView, max: nat) -> bool {
    &&& 0 < max < item.payload.len()
    &&& chunk_count(item.payload.len(), max) <= u16::MAX
}

/// Whatever of a transfer has arrived before it, the header joins it.
pub proof fn header_joins_its_transfer(
    m: Map<Id, ReassemblyView>,
    peer: Id,
    item: ItemView,
    max: nat,
    header: bool,
    got: Set<int>,
    now: u64,
)
    requires
        travels_in_chunks(item, max),
        m.contains_key(transfer_key(peer, item.hash)) ==> holds_part(
            m[transfer_key(peer, item.hash)],
            peer,
            item,
            max,
            header,
            got,
        ),
        !m.contains_key(transfer_key(peer, item.hash)) ==> got == Set::<int>::empty(),
    ensures
        item_frames(item, max)[0] is ClipboardItem,
        holds_part(
            with_header(
                m,
                transfer_key(peer, item.hash),
                peer,
                item_frames(item, max)[0]->ClipboardItem_0,
                now,
            ),
            peer,
            item,
            max,
            true,
            got,
        ),
{
}

/// Whatever of a transfer has arrived before it, in whatever order, a chunk joins
/// it, and a chunk that comes twice changes nothing.
pub proof fn chunk_joins_its_transfer(
    m: Map<Id, ReassemblyView>,
    peer: Id,
    item: ItemView,
    max: nat,
    header: bool,
    got: Set<int>,
    i: int,
    now: u64,
)
    requires
        travels_in_chunks(item, max),
        0 <= i < chunk_count(item.payload.len(), max),
        m.contains_key(transfer_key(peer, item.hash)) ==> holds_part(
            m[transfer_key(peer, item.hash)],
            peer,
            item,
            max,
            header,
            got,
        ),
        !m.contains_key(transfer_key(peer, item.hash)) ==> got == Set::<int>::empty() && !header,
    ensures
        item_frames(item, max)[i + 1] is Chunk,
        holds_part(
            with_chunk(
                m,
                transfer_key(peer, item.hash),
                peer,
                item_frames(item, max)[i + 1]->Chunk_0,
                now,
            ),
            peer,
            item,
            max,
            header,
            got.insert(i),
        ),
{
    let n = chunk_count(item.payload.len(), max);
    let c = item_frames(item, max)[i + 1]->Chunk_0;
    assert(c.idx == i && c.total == n && c.data == chunk_data(item.payload, max, i));
    let r = with_chunk(m, transfer_key(peer, item.hash), peer, c, now);
    let key = transfer_key(peer, item.hash);
    assert(got.insert(i) != Set::<int>::empty()) by {
        assert(got.insert(i).contains(i));
    }
    if m.contains_key(key) {
        if got == Set::<int>::empty() {
            assert(m[key].chunks.len() == 0);
        }
    }
}

/// Once the header and every chunk have arrived, the transfer is complete and
/// gives back the item that was cut up; before, it is not complete.
pub proof fn whole_transfer_gives_the_item_back(
    r: ReassemblyView,
    peer: Id,
    item: ItemView,
    max: nat,
    header: bool,
    got: Set<int>,
)
    requires
        travels_in_chunks(item, max),
        holds_part(r, peer, item, max, header, got),
    ensures
        complete(r) <==> header && forall|i: int|
            0 <= i < chunk_count(item.payload.len(), max) ==> #[trigger] got.contains(i),
        complete(r) ==> carried(r, item.hash) == (ItemView { wall_time_ms: 0, ..item }),
{
    let n = chunk_count(item.payload.len(), max);
    lemma_chunk_bounds(item.payload.len() as int, max as int, 0);
    if complete(r) {
        assert forall|i: int| 0 <= i < n implies #[trigger] got.contains(i) by {
            assert(r.chunks[i] is Some);
        }
        lemma_joined(item.payload, max, r.chunks, n as int);
        assert(r.chunks.subrange(0, n as int) =~= r.chunks);
        lemma_chunk_bounds(item.payload.len() as int, max as int, n as int);
    }
    if header && forall|i: int| 0 <= i < n ==> #[trigger] got.contains(i) {
        assert(got.contains(0));
        assert forall|i: int| 0 <= i < r.chunks.len() implies (#[trigger] r.chunks[i]) is Some by {
            assert(got.contains(i));
        }
    }
}

/// The first `k` chunks of a payload make up its beginning.
proof fn lemma_joined(payload: Seq<u8>, max: nat, chunks: Seq<Option<Seq<u8>>>, k: int)
    requires
        0 < max,
        0 <= k <= chunks.len(),
        k <= chunk_count(payload.len(), max),
        forall|i: int|
            0 <= i < k ==> #[trigger] chunks[i] == Some(chunk_data(payload, max, i)),
    ensures
        joined(chunks.subrange(0, k)) == payload.subrange(
            0,
            if k * max <= payload.len() {
                k * max
            } else {
                payload.len() as int
            },
        ),
        0 <= k * max,
    decreases k,
{
    lemma_chunk_bounds(payload.len() as int, max as int, k);
    if k > 0 {
        lemma_chunk_bounds(payload.len() as int, max as int, k - 1);
        lemma_joined(payload, max, chunks, k - 1);
        let now = chunks.subrange(0, k);
        assert(now.drop_last() =~= chunks.subrange(0, k - 1));
        assert(now.last() == chunks[k - 1]);
        let start = (k - 1) * max;
        assert(payload.subrange(0, start) + chunk_data(payload, max, k - 1) =~= payload.subrange(
            0,
            if k * max <= payload.len() {
                k * max
            } else {
                payload.len() as int
            },
        ));
    } else {
        assert(k * max == 0) by (nonlinear_arith)
            requires
                k == 0,
        ;
        assert(chunks.subrange(0, 0) =~= Seq::empty());
        assert(payload.subrange(0, 0) =~= Seq::empty());
    }
}

/// The indices of the chunks that are missing, in order.
pub open spec fn missing_chunks(chunks: Seq<Option<Seq<u8>>>) -> Seq<u16>
    decreases chunks.len(),
{
    if chunks.len() == 0 {
        Seq::empty()
    } else {
        let rest = missing_chunks(chunks.drop_last());
        if chunks.last() is None {
            rest.push((chunks.len() - 1) as u16)
        } else {
            rest
        }
    }
}

/// The request for what is missing of a transfer: nothing while no chunk is
/// known, nor where nothing is missing.
pub open spec fn nak_for(r: ReassemblyView) -> Option<NakView> {
    let missing = missing_chunks(r.chunks);
    if r.chunks.len() == 0 || (missing.len() == 0 && r.metadata is Some) {
        None
    } else {
        Some(
            NakView {
                item_id: r.item_hash,
                want_header: r.metadata is None,
                missing: missing.take(
                    if missing.len() <= NAK_MISSING_PER_FRAME {
                        missing.len() as int
                    } else {
                        NAK_MISSING_PER_FRAME as int
                    },
                ),
            },
        )
    }
}

/// Computes [`nak_for`].
fn nak_of(r: &Reassembly) -> (nak: Option<Nak>)
    ensures
        match nak {
            Some(n) => nak_for(r@) == Some(n@),
            None => nak_for(r@) is None,
        },
{
    if r.chunks.len() == 0 {
        return None;
    }
    let ghost all = chunk_views(r.chunks@);
    let mut missing: Vec<u16> = Vec::new();
    let mut i: usize = 0;
    assert(all.subrange(0, 0) =~= Seq::empty());
    while i < r.chunks.len()
        invariant
            i <= r.chunks@.len(),
            all == chunk_views(r.chunks@),
            missing@ == clipped(missing_chunks(all.subrange(0, i as int))),
        decreases r.chunks@.len() - i,
    {
        proof {
            let next = all.subrange(0, i + 1);
            assert(next.drop_last() =~= all.subrange(0, i as int));
            assert(next.last() == chunk_view(r.chunks@[i as int]));
        }
        let ghost before = missing_chunks(all.subrange(0, i as int));
        if r.chunks[i].is_none() && missing.len() < NAK_MISSING_PER_FRAME {
            missing.push(i as u16);
        }
        i = i + 1;
        assert(missing@ =~= clipped(missing_chunks(all.subrange(0, i as int))));
    }
    assert(all.subrange(0, all.len() as int) =~= all);
    let want_header = r.metadata.is_none();
    if missing.len() == 0 && !want_header {
        return None;
    }
    let nak = Nak { item_id: r.item_hash, want_header, missing };
    assert(nak_for(r@) == Some(nak@));
    Some(nak)
}

/// The first [`NAK_MISSING_PER_FRAME`] of a list of indices.
spec fn clipped(s: Seq<u16>) -> Seq<u16> {
    s.take(
        if s.len() <= NAK_MISSING_PER_FRAME {
            s.len() as int
        } else {
            NAK_MISSING_PER_FRAME as int
        },
    )
}

/// The requests for the transfers of `m` under `keys`, in that order, each with
/// the peer that it goes to.
pub open spec fn naks_for(m: Map<Id, ReassemblyView>, keys: Seq<Id>) -> Seq<(Id, NakView)>
    decreases keys.len(),
{
    if keys.len() == 0 {
        Seq::empty()
    } else {
        let rest = naks_for(m, keys.drop_last());
        match nak_for(m[keys.last()]) {
            Some(nak) => rest.push((m[keys.last()].source, nak)),
            None => rest,
        }
    }
}

/// Views of a list of addressed requests.
pub open spec fn nak_views(s: Seq<(Id, Nak)>) -> Seq<(Id, NakView)> {
    Seq::new(s.len(), |i: int| (s[i].0, s[i].1@))
}

/// The requests for what is missing of each transfer, each with the peer that
/// sends the transfer, in no particular order.
pub fn build_pending_naks(map: &IdMap<Reassembly>) -> (r: Vec<(Id, Nak)>)
    ensures
        exists|order: Seq<Id>|
            order.no_duplicates() && order.to_set() == map@.dom() && nak_views(r@)
                == #[trigger] naks_for(map@, order),
{
    let keys = map.keys();
    let mut out: Vec<(Id, Nak)> = Vec::new();
    let mut i: usize = 0;
    assert(keys@.subrange(0, 0) =~= Seq::empty());
    while i < keys.len()
        invariant
            i <= keys@.len(),
            forall|k: Id| #[trigger] keys@.contains(k) <==> map@.contains_key(k),
            nak_views(out@) =~= naks_for(map@, keys@.subrange(0, i as int)),
        decreases keys@.len() - i,
    {
        proof {
            let next = keys@.subrange(0, i + 1);
            assert(next.drop_last() =~= keys@.subrange(0, i as int));
            assert(next.last() == keys@[i as int]);
            assert(keys@.contains(keys@[i as int]));
        }
        if let Some(r) = map.get(&keys[i]) {
            let ghost before = nak_views(out@);
            if let Some(nak) = nak_of(r) {
                let ghost pushed = (r.source, nak@);
                out.push((r.source, nak));
                assert(nak_views(out@) =~= before.push(pushed));
            }
        }
        i = i + 1;
    }
    assert(keys@.subrange(0, keys@.len() as int) =~= keys@);
    out
}

/// However many transfers are begun, no more than [`MAX_REASSEMBLIES`] are
/// remembered at a time.
pub proof fn transfers_stay_within_cap(
    m: Map<Id, ReassemblyView>,
    key: Id,
    r: ReassemblyView,
    hash: Id,
    after: Map<Id, ReassemblyView>,
    item: Option<ItemView>,
)
    requires
        m.dom().finite(),
        m.dom().len() <= MAX_REASSEMBLIES,
        settled(m, key, r, hash, after, item),
    ensures
        after.dom().finite(),
        after.dom().len() <= MAX_REASSEMBLIES,
{
    let room = choose|room: Map<Id, ReassemblyView>|
        #[trigger] room_for(m, key, room) && if complete(r) {
            after == room.remove(key) && item == Some(carried(r, hash))
        } else {
            after == room.insert(key, r) && item is None
        };
    if !m.contains_key(key) && m.dom().len() >= MAX_REASSEMBLIES {
        let victim = choose|victim: Id|
            #[trigger] is_least::<Reassembly, ByLastUpdate>(m, ByLastUpdate, victim) && room
                == m.remove(victim);
        assert(room.dom() =~= m.dom().remove(victim));
    }
    assert(room.remove(key).dom() =~= room.dom().remove(key));
    assert(room.insert(key, r).dom() =~= room.dom().insert(key));
}

/// The bytes of payload that a frame carries.
pub open spec fn bytes_in(frame: MsgView) -> Seq<u8> {
    match frame {
        MsgView::ClipboardItem(item) => item.payload,
        MsgView::Chunk(c) => c.data,
        _ => Seq::empty(),
    }
}

/// The bytes of payload that a list of frames carries, one after the other.
pub open spec fn bytes_of(frames: Seq<MsgView>) -> Seq<u8>
    decreases frames.len(),
{
    if frames.len() == 0 {
        Seq::empty()
    } else {
        bytes_of(frames.drop_last()) + bytes_in(frames.last())
    }
}

/// The frames of an item carry its payload, whole and in order. An item that fits
/// travels in one frame, which is the item itself. A larger one starts with the
/// item without its payload, and goes on with chunks that are numbered in order,
/// name the item and their number, and are neither empty nor too large.
pub proof fn frames_carry_the_item(item: ItemView, max: nat, k: int)
    requires
        max > 0,
    ensures
        ({
            let frames = item_frames(item, max);
            &&& bytes_of(frames) == item.payload
            &&& frames[0] matches MsgView::ClipboardItem(first) && {
                &&& first.lamport == item.lamport && first.hash == item.hash && first.kind == item.kind
                &&& first.sensitive == item.sensitive && first.origin == item.origin
                &&& first.event_seq == item.event_seq
                &&& first.payload.len() == 0 || first.payload == item.payload
            }
            &&& item.payload.len() <= max ==> frames.len() == 1
            &&& item.payload.len() > max ==> bytes_in(frames[0]).len() == 0
            &&& item.payload.len() > max && 0 < k < frames.len() ==> (frames[k] matches MsgView::Chunk(c)
                && {
                &&& c.item_id == item.hash
                &&& 0 < c.data.len() <= max
                &&& frames.len() <= 0x1_0000 ==> c.idx == k - 1 && c.total == frames.len() - 1
            })
        }),
{
    let frames = item_frames(item, max);
    if item.payload.len() <= max {
        reveal_with_fuel(bytes_of, 2);
        assert(frames.drop_last() =~= Seq::empty());
        assert(bytes_of(frames) =~= item.payload);
    } else {
        let n = chunk_count(item.payload.len(), max);
        assert(frames.len() == n + 1);
        lemma_chunk_bounds(item.payload.len() as int, max as int, n as int);
        lemma_frame_bytes(item, max, n as int);
        assert(frames.subrange(0, n as int + 1) =~= frames);
        if 0 < k < frames.len() {
            lemma_chunk_bounds(item.payload.len() as int, max as int, k - 1);
            assert(k * max == (k - 1) * max + max);
        }
        assert(item.payload.subrange(0, item.payload.len() as int) =~= item.payload);
    }
}

/// The header and the first `k` chunks carry the beginning of the payload.
proof fn lemma_frame_bytes(item: ItemView, max: nat, k: int)
    requires
        0 < max < item.payload.len(),
        0 <= k <= chunk_count(item.payload.len(), max),
    ensures
        0 <= k * max,
        bytes_of(item_frames(item, max).subrange(0, k + 1)) == item.payload.subrange(
            0,
            if k * max <= item.payload.len() {
                k * max
            } else {
                item.payload.len() as int
            },
        ),
    decreases k,
{
    let frames = item_frames(item, max);
    let first = frames.subrange(0, k + 1);
    if k == 0 {
        reveal_with_fuel(bytes_of, 2);
        assert(first.drop_last() =~= Seq::empty());
        assert(bytes_of(first) =~= Seq::empty());
        assert(item.payload.subrange(0, 0) =~= Seq::empty());
        assert(k * max == 0) by (nonlinear_arith)
            requires
                k == 0,
        ;
    } else {
        lemma_frame_bytes(item, max, k - 1);
        lemma_chunk_bounds(item.payload.len() as int, max as int, k - 1);
        assert(first.drop_last() =~= frames.subrange(0, k));
        assert(first.last() == frames[k]);
        let end = if k * max <= item.payload.len() {
            k * max
        } else {
            item.payload.len() as int
        };
        assert(bytes_in(frames[k]) == chunk_data(item.payload, max, k - 1));
        assert(k * max == (k - 1) * max + max);
        assert((k - 1) * max < item.payload.len());
        assert(bytes_of(first) == bytes_of(frames.subrange(0, k)) + bytes_in(frames[k]));
        assert(bytes_of(frames.subrange(0, k - 1 + 1)) == item.payload.subrange(0, (k - 1) * max));
        assert(chunk_data(item.payload, max, k - 1) == item.payload.subrange((k - 1) * max, end));
        assert(item.payload.subrange(0, (k - 1) * max) + item.payload.subrange((k - 1) * max, end)
            =~= item.payload.subrange(0, end));
        assert(bytes_of(first) == item.payload.subrange(0, end));
    }
}

/// The piece of a transfer that makes it whole takes it off the list and gives its
/// item; any other is kept, and gives none. Another transfer is dropped only for want
/// of room, and otherwise stays as it is.
pub proof fn transfer_ends_when_it_is_whole(
    m: Map<Id, ReassemblyView>,
    key: Id,
    r: ReassemblyView,
    hash: Id,
    after: Map<Id, ReassemblyView>,
    item: Option<ItemView>,
    other: Id,
)
    requires
        settled(m, key, r, hash, after, item),
    ensures
        item is Some <==> r.metadata is Some && r.chunks.len() > 0 && forall|i: int|
            0 <= i < r.chunks.len() ==> #[trigger] r.chunks[i] is Some,
        item is Some ==> item->0 == carried(r, hash) && !after.contains_key(key),
        item is None ==> after.contains_key(key) && after[key] == r,
        other != key && after.contains_key(other) ==> m.contains_key(other) && after[other]
            == m[other],
        other != key && m.contains_key(other) && (m.contains_key(key) || m.dom().len() < 5) ==> after.contains_key(
            other,
        ),
{
    let room = choose|room: Map<Id, ReassemblyView>|
        #[trigger] room_for(m, key, room) && if complete(r) {
            after == room.remove(key) && item == Some(carried(r, hash))
        } else {
            after == room.insert(key, r) && item is None
        };
    assert(room_for(m, key, room));
    if other != key && after.contains_key(other) {
        assert(room.contains_key(other));
    }
}

/// The index `i` of a chunk that is missing is among those that are listed, and
/// nothing else is.
proof fn lemma_missing(chunks: Seq<Option<Seq<u8>>>)
    requires
        chunks.len() <= 0x1_0000,
    ensures
        forall|i: int|
            0 <= i < chunks.len() ==> (missing_chunks(chunks).contains(i as u16) <==> (
            #[trigger] chunks[i]) is None),
        forall|k: int|
            0 <= k < missing_chunks(chunks).len() ==> (#[trigger] missing_chunks(chunks)[k])
                < chunks.len(),
    decreases chunks.len(),
{
    if chunks.len() > 0 {
        let rest = chunks.drop_last();
        let before = missing_chunks(rest);
        let now = missing_chunks(chunks);
        lemma_missing(rest);
        let last = chunks.len() - 1;
        assert forall|i: int| 0 <= i < chunks.len() implies (now.contains(i as u16) <==> (
        #[trigger] chunks[i]) is None) by {
            if i < last {
                assert(rest[i] == chunks[i]);
                if before.contains(i as u16) {
                    assert(now[before.index_of(i as u16)] == i as u16);
                }
                if now.contains(i as u16) {
                    let k = now.index_of(i as u16);
                    assert(k < before.len());
                    assert(before[k] == i as u16);
                }
            } else {
                if chunks[i] is None {
                    assert(now[before.len() as int] == i as u16);
                } else if now.contains(i as u16) {
                    let k = now.index_of(i as u16);
                    assert(before[k] < rest.len());
                }
            }
        }
        assert forall|k: int| 0 <= k < now.len() implies (#[trigger] now[k]) < chunks.len() by {
            if k < before.len() {
                assert(before[k] < rest.len());
            }
        }
    }
}

/// What is missing of a transfer is asked for, under the item's hash: the header if
/// it has not arrived, and chunks that have not, all of them where one request holds
/// them. Nothing is asked for while no chunk is known, nor of a whole transfer.
pub proof fn missing_pieces_are_asked_for(r: ReassemblyView, i: int)
    requires
        r.chunks.len() <= 0xFFFF,
    ensures
        nak_for(r) is None <==> r.chunks.len() == 0 || (r.metadata is Some && forall|j: int|
            0 <= j < r.chunks.len() ==> #[trigger] r.chunks[j] is Some),
        nak_for(r) matches Some(nak) ==> {
            &&& nak.item_id == r.item_hash
            &&& nak.want_header == (r.metadata is None)
            &&& forall|k: int|
                0 <= k < nak.missing.len() ==> (#[trigger] nak.missing[k]) < r.chunks.len()
                    && r.chunks[nak.missing[k] as int] is None
            &&& nak.missing.len() <= 400
            &&& 0 <= i < r.chunks.len() && r.chunks[i] is None && nak.missing.len() < 400
                ==> nak.missing.contains(i as u16)
        },
{
    let missing = missing_chunks(r.chunks);
    lemma_missing(r.chunks);
    if missing.len() > 0 {
        let j = missing[0] as int;
        assert(missing.contains(j as u16));
        assert(r.chunks[j] is None);
    }
    if exists|j: int| 0 <= j < r.chunks.len() && #[trigger] r.chunks[j] is None {
        let j = choose|j: int| 0 <= j < r.chunks.len() && #[trigger] r.chunks[j] is None;
        assert(missing.contains(j as u16));
    }
    if let Some(nak) = nak_for(r) {
        assert forall|k: int| 0 <= k < nak.missing.len() implies (#[trigger] nak.missing[k])
            < r.chunks.len() && r.chunks[nak.missing[k] as int] is None by {
            assert(nak.missing[k] == missing[k]);
            assert(missing.contains(missing[k] as int as u16));
        }
        if 0 <= i < r.chunks.len() && r.chunks[i] is None && nak.missing.len() < 400 {
            assert(missing.contains(i as u16));
            assert(nak.missing =~= missing);
        }
    }
}

/// Every transfer of which something is missing is asked for once, of the peer that
/// sends it, and nothing else is asked for.
pub proof fn every_transfer_is_asked_for(m: Map<Id, ReassemblyView>, order: Seq<Id>, k: Id, i: int)
    requires
        order.no_duplicates(),
        order.to_set() == m.dom(),
    ensures
        m.contains_key(k) && nak_for(m[k]) is Some ==> naks_for(m, order).contains(
            (m[k].source, nak_for(m[k])->0),
        ),
        0 <= i < naks_for(m, order).len() ==> exists|from: Id| #[trigger]
            m.contains_key(from) && naks_for(m, order)[i].0 == m[from].source && Some(
                naks_for(m, order)[i].1,
            ) == nak_for(m[from]),
        naks_for(m, order).len() <= m.dom().len(),
{
    lemma_naks(m, order);
    order.unique_seq_to_set();
    if m.contains_key(k) {
        assert(order.to_set().contains(k));
        assert(order.contains(k));
    }
    if 0 <= i < naks_for(m, order).len() {
        let from = choose|from: Id| #[trigger]
            order.contains(from) && naks_for(m, order)[i].0 == m[from].source && Some(
                naks_for(m, order)[i].1,
            ) == nak_for(m[from]);
        assert(order.to_set().contains(from));
        assert(m.contains_key(from));
    }
}

proof fn lemma_naks(m: Map<Id, ReassemblyView>, order: Seq<Id>)
    ensures
        naks_for(m, order).len() <= order.len(),
        forall|k: Id| #[trigger]
            order.contains(k) && nak_for(m[k]) is Some ==> naks_for(m, order).contains(
                (m[k].source, nak_for(m[k])->0),
            ),
        forall|i: int|
            0 <= i < naks_for(m, order).len() ==> exists|from: Id| #[trigger]
                order.contains(from) && (#[trigger] naks_for(m, order)[i]).0 == m[from].source && Some(
                    naks_for(m, order)[i].1,
                ) == nak_for(m[from]),
    decreases order.len(),
{
    if order.len() > 0 {
        let rest = order.drop_last();
        let last = order.last();
        lemma_naks(m, rest);
        let before = naks_for(m, rest);
        let now = naks_for(m, order);
        assert(order.contains(order[order.len() - 1]));
        assert forall|k: Id| #[trigger]
            order.contains(k) && nak_for(m[k]) is Some implies now.contains(
            (m[k].source, nak_for(m[k])->0),
        ) by {
            let x = (m[k].source, nak_for(m[k])->0);
            if k == last {
                assert(now[before.len() as int] == x);
            } else {
                assert(rest[order.index_of(k)] == k);
                assert(rest.contains(k));
                assert(now[before.index_of(x)] == x);
            }
        }
        assert forall|i: int| 0 <= i < now.len() implies exists|from: Id| #[trigger]
            order.contains(from) && (#[trigger] now[i]).0 == m[from].source && Some(now[i].1)
                == nak_for(m[from]) by {
            if i < before.len() {
                let from = choose|from: Id| #[trigger]
                    rest.contains(from) && before[i].0 == m[from].source && Some(before[i].1)
                        == nak_for(m[from]);
                assert(order[rest.index_of(from)] == from);
                assert(order.contains(from));
            } else {
                assert(order.contains(last));
            }
        }
    }
}

/// A transfer that is a minute old, or has been silent for five seconds, is dropped;
/// the others stay as they are.
pub proof fn stalled_transfers_are_dropped(m: Map<Id, ReassemblyView>, now: u64, k: Id)
    requires
        m.contains_key(k),
    ensures
        ({
            let after = kept::<Reassembly, Progressing>(m, (Progressing { now }));
            &&& after.contains_key(k) == (elapsed(m[k].first_seen, now) < 60_000 && elapsed(
                m[k].last_update,
                now,
            ) < 5_000)
            &&& after.contains_key(k) ==> after[k] == m[k]
        }),
{
}

/// Transfers of different items, or from different peers, are kept apart, as far as
/// digests tell byte strings apart.
pub proof fn transfers_are_kept_apart(source: Id, item: Id, source2: Id, item2: Id)
    ensures
        crate::driver::content::digests_differ() && transfer_key(source, item) == transfer_key(
            source2,
            item2,
        ) ==> source == source2 && item == item2,
{
    if crate::driver::content::digests_differ() && transfer_key(source, item) == transfer_key(
        source2,
        item2,
    ) {
        let a = source@ + item@;
        let b = source2@ + item2@;
        assert(a == b);
        assert(a.subrange(0, 32) =~= source@);
        assert(b.subrange(0, 32) =~= source2@);
        assert(a.skip(32) =~= item@);
        assert(b.skip(32) =~= item2@);
        assert(source =~= source2);
        assert(item =~= item2);
    }
}

/// A transfer that has to make room for another has been silent at least as long as any
/// that stays.
pub proof fn longest_silent_transfer_makes_room(
    m: Map<Id, ReassemblyView>,
    key: Id,
    r: ReassemblyView,
    hash: Id,
    after: Map<Id, ReassemblyView>,
    item: Option<ItemView>,
    gone: Id,
    left: Id,
)
    requires
        settled(m, key, r, hash, after, item),
        gone != key && m.contains_key(gone) && !after.contains_key(gone),
        left != key && after.contains_key(left),
    ensures
        m[gone].last_update <= m[left].last_update,
{
    let room = choose|room: Map<Id, ReassemblyView>|
        #[trigger] room_for(m, key, room) && if complete(r) {
            after == room.remove(key) && item == Some(carried(r, hash))
        } else {
            after == room.insert(key, r) && item is None
        };
    assert(room_for(m, key, room));
    assert(room.contains_key(left));
    assert(!room.contains_key(gone));
    let victim = choose|victim: Id|
        #[trigger] is_least::<Reassembly, ByLastUpdate>(m, ByLastUpdate, victim) && room == m.remove(
            victim,
        );
    assert(m.contains_key(left));
}

} // verus!
