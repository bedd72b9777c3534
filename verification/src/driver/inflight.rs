//! Items that were sent and not yet acknowledged by every peer they went to.
//!
//! Datagrams get lost. Until each target has acknowledged an item, its frames
//! are kept and sent again: all of them on a timer, single ones on request.
use vstd::prelude::*;

use crate::clock::{elapsed, elapsed_since};
use crate::idmap::{derived_map, updated_map, Derive, IdMap, IdSet, Update};
use crate::ids::Id;
use crate::wire::{views, Nak, NakView};

verus! {

/// Time without an acknowledgement after which an item is sent again.
pub const RETRANSMIT_INTERVAL: u64 = 2_000;

/// Times that an item is sent again before it is given up.
pub const MAX_RETRANSMIT: u8 = 6;

/// Age at which an item is given up, whatever progress it makes.
pub const INFLIGHT_MAX_AGE: u64 = 90_000;

/// An item that some peers have not acknowledged.
pub struct Inflight {
    /// Its encoded frames: for an item in chunks the header, then chunk after chunk.
    pub frames: Vec<Vec<u8>>,
    /// Times that it was sent again.
    pub attempts: u8,
    pub last_sent: u64,
    pub first_sent: u64,
    /// The peers that have not acknowledged it.
    pub pending_peers: IdSet,
}

/// View of an [`Inflight`].
#[verifier::ext_equal]
pub ghost struct InflightView {
    pub frames: Seq<Seq<u8>>,
    pub attempts: u8,
    pub last_sent: u64,
    pub first_sent: u64,
    pub pending_peers: Set<Id>,
}

impl View for Inflight {
    type V = InflightView;

    open spec fn view(&self) -> InflightView {
        InflightView {
            frames: views(self.frames@),
            attempts: self.attempts,
            last_sent: self.last_sent,
            first_sent: self.first_sent,
            pending_peers: self.pending_peers@,
        }
    }
}

/// The items in flight after one went out to `targets` at `now`: peers that an
/// earlier sending still waits for stay pending.
pub open spec fn after_sending(
    m: Map<Id, InflightView>,
    hash: Id,
    targets: Set<Id>,
    frames: Seq<Seq<u8>>,
    now: u64,
) -> Map<Id, InflightView> {
    if m.contains_key(hash) {
        m.insert(
            hash,
            InflightView {
                frames,
                last_sent: now,
                pending_peers: m[hash].pending_peers + targets,
                ..m[hash]
            },
        )
    } else {
        m.insert(
            hash,
            InflightView {
                frames,
                attempts: 0,
                last_sent: now,
                first_sent: now,
                pending_peers: targets,
            },
        )
    }
}

/// Adds every id of `more` to `set`.
fn extend_set(set: &mut IdSet, more: &Vec<Id>)
    ensures
        final(set)@ == old(set)@ + more@.to_set(),
{
    let ghost before = set@;
    let mut i: usize = 0;
    assert(more@.subrange(0, 0).to_set() =~= Set::empty());
    assert(set@ =~= before + more@.subrange(0, 0).to_set());
    while i < more.len()
        invariant
            i <= more@.len(),
            set@ == before + more@.subrange(0, i as int).to_set(),
        decreases more@.len() - i,
    {
        let _ = set.insert(more[i]);
        proof {
            let now = more@.subrange(0, i + 1);
            assert(now =~= more@.subrange(0, i as int).push(more@[i as int]));
            assert forall|x: Id| now.contains(x) <==> (more@.subrange(0, i as int).contains(x) || x
                == more@[i as int]) by {
                if more@.subrange(0, i as int).contains(x) {
                    let j = more@.subrange(0, i as int).index_of(x);
                    assert(now[j] == x);
                }
                if x == more@[i as int] {
                    assert(now[i as int] == x);
                }
            }
            assert(set@ =~= before + now.to_set());
        }
        i = i + 1;
    }
    assert(more@.subrange(0, more@.len() as int) =~= more@);
}

/// Remembers that an item went out to `targets`, merging with what is still
/// pending of an earlier sending of the same item.
pub fn track_sent(
    inflight: &mut IdMap<Inflight>,
    hash: Id,
    targets: &Vec<Id>,
    frames: Vec<Vec<u8>>,
    now: u64,
)
    ensures
        final(inflight)@ == after_sending(old(inflight)@, hash, targets@.to_set(), views(frames@), now),
{
    match inflight.remove(&hash) {
        Some(mut item) => {
            extend_set(&mut item.pending_peers, targets);
            item.frames = frames;
            item.last_sent = now;
            let ghost before = inflight@;
            inflight.insert(hash, item);
            assert(inflight@ =~= after_sending(
                old(inflight)@,
                hash,
                targets@.to_set(),
                views(frames@),
                now,
            ));
        },
        None => {
            let mut pending_peers = IdSet::new();
            extend_set(&mut pending_peers, targets);
            assert(pending_peers@ =~= targets@.to_set());
            inflight.insert(
                hash,
                Inflight { frames, attempts: 0, last_sent: now, first_sent: now, pending_peers },
            );
            assert(inflight@ =~= after_sending(
                old(inflight)@,
                hash,
                targets@.to_set(),
                views(frames@),
                now,
            ));
        },
    }
}

/// The items in flight after `peer` acknowledged one.
pub open spec fn acknowledged(m: Map<Id, InflightView>, hash: Id, peer: Id) -> Map<Id, InflightView> {
    if !m.contains_key(hash) {
        m
    } else {
        let left = m[hash].pending_peers.remove(peer);
        if left == Set::<Id>::empty() {
            m.remove(hash)
        } else {
            m.insert(hash, InflightView { pending_peers: left, ..m[hash] })
        }
    }
}

/// Takes note of `peer`'s acknowledgement: the item is done when no peer is left.
pub fn acknowledge(inflight: &mut IdMap<Inflight>, hash: Id, peer: Id)
    ensures
        final(inflight)@ == acknowledged(old(inflight)@, hash, peer),
{
    match inflight.remove(&hash) {
        Some(mut item) => {
            let _ = item.pending_peers.remove(&peer);
            if !item.pending_peers.is_empty() {
                inflight.insert(hash, item);
            }
            assert(inflight@ =~= acknowledged(old(inflight)@, hash, peer));
        },
        None => {
            assert(inflight@ =~= old(inflight)@);
        },
    }
}

/// Takes a peer off the waiting list of every item.
pub struct WithoutPeer {
    pub peer: Id,
}

impl Update<Inflight> for WithoutPeer {
    open spec fn updated(&self, key: Id, value: InflightView) -> Option<InflightView> {
        let left = value.pending_peers.remove(self.peer);
        if left == Set::<Id>::empty() {
            None
        } else {
            Some(InflightView { pending_peers: left, ..value })
        }
    }

    fn update(&self, key: &Id, value: Inflight) -> (r: Option<Inflight>) {
        let mut item = value;
        let _ = item.pending_peers.remove(&self.peer);
        if item.pending_peers.is_empty() {
            None
        } else {
            Some(item)
        }
    }
}

/// Stops waiting for a peer that is gone for good; items that only it had not
/// acknowledged are dropped.
pub fn purge_peer_from_inflight(peer_id: Id, inflight: &mut IdMap<Inflight>)
    ensures
        final(inflight)@ == updated_map::<Inflight, WithoutPeer>(
            old(inflight)@,
            (WithoutPeer { peer: peer_id }),
        ),
{
    inflight.update_each(&WithoutPeer { peer: peer_id });
}

/// After a purge nothing waits for the peer, no item waits for nobody, and what
/// waits for other peers still does.
pub proof fn purge_leaves_nothing_to_the_peer(m: Map<Id, InflightView>, peer: Id)
    ensures
        ({
            let after = updated_map::<Inflight, WithoutPeer>(m, (WithoutPeer { peer }));
            &&& forall|h: Id|
                #![trigger after[h]]
                after.contains_key(h) ==> !after[h].pending_peers.contains(peer)
                    && after[h].pending_peers != Set::<Id>::empty() && after[h].frames == m[h].frames
            &&& forall|h: Id, other: Id|
                other != peer && m.contains_key(h) && #[trigger] m[h].pending_peers.contains(other)
                    ==> after.contains_key(h) && after[h].pending_peers.contains(other)
        }),
{
    let rule = WithoutPeer { peer };
    let after = updated_map::<Inflight, WithoutPeer>(m, rule);
    assert forall|h: Id| #![trigger after[h]] after.contains_key(h) implies
        !after[h].pending_peers.contains(peer) && after[h].pending_peers != Set::<Id>::empty()
        && after[h].frames == m[h].frames by {
        assert(rule.updated(h, m[h]) is Some);
        assert(after[h] == rule.updated(h, m[h])->0);
    }
    assert forall|h: Id, other: Id|
        other != peer && m.contains_key(h) && #[trigger] m[h].pending_peers.contains(
            other,
        ) implies after.contains_key(h) && after[h].pending_peers.contains(other) by {
        assert(m[h].pending_peers.remove(peer).contains(other));
        assert(rule.updated(h, m[h]) is Some);
    }
}

/// An item is given up at `now`: too old, or due once more after the last try.
pub open spec fn given_up(item: InflightView, now: u64) -> bool {
    ||| elapsed(item.first_sent, now) > INFLIGHT_MAX_AGE
    ||| elapsed(item.last_sent, now) >= RETRANSMIT_INTERVAL && item.attempts >= MAX_RETRANSMIT
}

/// An item is sent again at `now`.
pub open spec fn due(item: InflightView, now: u64) -> bool {
    !given_up(item, now) && elapsed(item.last_sent, now) >= RETRANSMIT_INTERVAL
}

/// What the retransmit timer makes of an item.
pub struct Retransmit {
    pub now: u64,
}

impl Update<Inflight> for Retransmit {
    open spec fn updated(&self, key: Id, value: InflightView) -> Option<InflightView> {
        if given_up(value, self.now) {
            None
        } else if due(value, self.now) {
            Some(
                InflightView {
                    attempts: (value.attempts + 1) as u8,
                    last_sent: self.now,
                    ..value
                },
            )
        } else {
            Some(value)
        }
    }

    fn update(&self, key: &Id, value: Inflight) -> (r: Option<Inflight>) {
        let mut item = value;
        if elapsed_since(item.first_sent, self.now) > INFLIGHT_MAX_AGE {
            return None;
        }
        if elapsed_since(item.last_sent, self.now) < RETRANSMIT_INTERVAL {
            return Some(item);
        }
        if item.attempts >= MAX_RETRANSMIT {
            return None;
        }
        item.attempts = item.attempts + 1;
        item.last_sent = self.now;
        Some(item)
    }
}

/// Frames to send again, and to whom.
pub struct Resend {
    pub to: IdSet,
    pub frames: Vec<Vec<u8>>,
}

/// View of a [`Resend`].
#[verifier::ext_equal]
pub ghost struct ResendView {
    pub to: Set<Id>,
    pub frames: Seq<Seq<u8>>,
}

impl View for Resend {
    type V = ResendView;

    open spec fn view(&self) -> ResendView {
        ResendView { to: self.to@, frames: views(self.frames@) }
    }
}

/// A copy of a byte string.
pub fn copy_bytes(bytes: &[u8]) -> (r: Vec<u8>)
    ensures
        r@ == bytes@,
{
    let mut r: Vec<u8> = Vec::new();
    r.extend_from_slice(bytes);
    assert(r@ =~= bytes@);
    r
}

/// A copy of a list of frames.
pub fn copy_frames(frames: &Vec<Vec<u8>>) -> (r: Vec<Vec<u8>>)
    ensures
        views(r@) == views(frames@),
{
    let mut r: Vec<Vec<u8>> = Vec::new();
    let mut i: usize = 0;
    while i < frames.len()
        invariant
            i <= frames@.len(),
            r@.len() == i,
            forall|j: int| 0 <= j < i ==> (#[trigger] r@[j])@ == frames@[j]@,
        decreases frames@.len() - i,
    {
        r.push(copy_bytes(frames[i].as_slice()));
        i = i + 1;
    }
    assert(views(r@) =~= views(frames@));
    r
}

/// A copy of a set of ids.
fn copy_set(set: &IdSet) -> (r: IdSet)
    ensures
        r@ == set@,
{
    let ids = set.to_vec();
    let mut r = IdSet::new();
    extend_set(&mut r, &ids);
    assert(r@ =~= set@);
    r
}

impl Derive<Inflight, Resend> for Retransmit {
    open spec fn derived(&self, key: Id, value: InflightView) -> Option<ResendView> {
        if due(value, self.now) {
            Some(ResendView { to: value.pending_peers, frames: value.frames })
        } else {
            None
        }
    }

    fn derive_from(&self, key: &Id, value: &Inflight) -> (r: Option<Resend>) {
        if elapsed_since(value.first_sent, self.now) > INFLIGHT_MAX_AGE || elapsed_since(
            value.last_sent,
            self.now,
        ) < RETRANSMIT_INTERVAL || value.attempts >= MAX_RETRANSMIT {
            None
        } else {
            Some(Resend { to: copy_set(&value.pending_peers), frames: copy_frames(&value.frames) })
        }
    }
}

/// The retransmit timer's tick: gives up the items that are too old or were sent
/// too often, and says which frames of the others go out again, to whom.
pub fn retransmit_tick(inflight: &mut IdMap<Inflight>, now: u64) -> (r: IdMap<Resend>)
    ensures
        final(inflight)@ == updated_map::<Inflight, Retransmit>(old(inflight)@, (Retransmit { now })),
        r@ == derived_map::<Inflight, Resend, Retransmit>(old(inflight)@, (Retransmit { now })),
{
    let rule = Retransmit { now };
    let resends = inflight.derive_map(&rule);
    inflight.update_each(&rule);
    resends
}

/// Every tick that sends an item again counts, so an item goes out again at most
/// [`MAX_RETRANSMIT`] times on the timer; and none outlives [`INFLIGHT_MAX_AGE`].
pub proof fn retransmission_is_bounded(m: Map<Id, InflightView>, now: u64)
    requires
        forall|h: Id| #[trigger] m.contains_key(h) ==> m[h].attempts <= MAX_RETRANSMIT,
    ensures
        ({
            let after = updated_map::<Inflight, Retransmit>(m, (Retransmit { now }));
            let sent = derived_map::<Inflight, Resend, Retransmit>(m, (Retransmit { now }));
            &&& forall|h: Id| #[trigger] after.contains_key(h) ==> after[h].attempts <= MAX_RETRANSMIT
            &&& forall|h: Id|
                #![trigger sent.contains_key(h)]
                sent.contains_key(h) ==> after.contains_key(h) && after[h].attempts == m[h].attempts + 1
            &&& forall|h: Id| #[trigger]
                after.contains_key(h) ==> elapsed(after[h].first_sent, now) <= INFLIGHT_MAX_AGE
        }),
{
}

/// The frames of an item that `nak` asks for, in the order in which it names them.
pub open spec fn nak_frames(frames: Seq<Seq<u8>>, nak: NakView) -> Seq<Seq<u8>> {
    let header = if nak.want_header && frames.len() > 0 {
        seq![frames[0]]
    } else {
        Seq::empty()
    };
    header + chunk_frames(frames, nak.missing)
}

/// The frames of the chunks `missing`: chunk `i` is frame `i + 1`; indices past
/// the end give none.
pub open spec fn chunk_frames(frames: Seq<Seq<u8>>, missing: Seq<u16>) -> Seq<Seq<u8>>
    decreases missing.len(),
{
    if missing.len() == 0 {
        Seq::empty()
    } else {
        let rest = chunk_frames(frames, missing.drop_last());
        if missing.last() + 1 < frames.len() {
            rest.push(frames[missing.last() + 1])
        } else {
            rest
        }
    }
}

/// The items in flight after a request that some of its frames answer, at `now`.
pub open spec fn progressed(m: Map<Id, InflightView>, hash: Id, now: u64) -> Map<Id, InflightView> {
    m.insert(hash, InflightView { last_sent: now, ..m[hash] })
}

/// Answers a request for missing frames. As long as requests make progress, the
/// item is not sent again as a whole.
pub fn answer_nak(inflight: &mut IdMap<Inflight>, nak: &Nak, now: u64) -> (r: Vec<Vec<u8>>)
    ensures
        old(inflight)@.contains_key(nak.item_id) ==> views(r@) == nak_frames(
            old(inflight)@[nak.item_id].frames,
            nak@,
        ),
        !old(inflight)@.contains_key(nak.item_id) ==> r@.len() == 0,
        final(inflight)@ == if r@.len() > 0 {
            progressed(old(inflight)@, nak.item_id, now)
        } else {
            old(inflight)@
        },
{
    let mut out: Vec<Vec<u8>> = Vec::new();
    if let Some(item) = inflight.get(&nak.item_id) {
        let ghost frames = views(item.frames@);
        if nak.want_header && item.frames.len() > 0 {
            out.push(copy_bytes(item.frames[0].as_slice()));
        }
        let ghost header = views(out@);
        assert(header =~= nak_frames(frames, (NakView { missing: Seq::empty(), ..nak@ })));
        let mut i: usize = 0;
        assert(nak.missing@.subrange(0, 0) =~= Seq::empty());
        assert(views(out@) =~= header + chunk_frames(frames, nak.missing@.subrange(0, 0)));
        while i < nak.missing.len()
            invariant
                i <= nak.missing@.len(),
                frames == views(item.frames@),
                views(out@) == header + chunk_frames(frames, nak.missing@.subrange(0, i as int)),
            decreases nak.missing@.len() - i,
        {
            let at: usize = nak.missing[i] as usize + 1;
            proof {
                let now = nak.missing@.subrange(0, i + 1);
                assert(now.drop_last() =~= nak.missing@.subrange(0, i as int));
                assert(now.last() == nak.missing@[i as int]);
            }
            let ghost before = views(out@);
            if at < item.frames.len() {
                out.push(copy_bytes(item.frames[at].as_slice()));
                assert(views(out@) =~= before.push(frames[at as int]));
            }
            i = i + 1;
            assert(views(out@) =~= header + chunk_frames(frames, nak.missing@.subrange(0, i as int)));
        }
        assert(nak.missing@.subrange(0, nak.missing@.len() as int) =~= nak.missing@);
        assert(views(out@) =~= nak_frames(frames, nak@));
    }
    if out.len() > 0 {
        if let Some(mut item) = inflight.remove(&nak.item_id) {
            item.last_sent = now;
            inflight.insert(nak.item_id, item);
        }
        assert(inflight@ =~= progressed(old(inflight)@, nak.item_id, now));
    }
    out
}

/// An item that goes out waits for every peer it goes to, beside those that it waits
/// for already, with the frames that went out last; no other item changes.
pub proof fn sending_waits_for_every_target(
    m: Map<Id, InflightView>,
    hash: Id,
    targets: Set<Id>,
    frames: Seq<Seq<u8>>,
    now: u64,
    d: Id,
    other: Id,
)
    ensures
        ({
            let after = after_sending(m, hash, targets, frames, now);
            &&& after.contains_key(hash)
            &&& after[hash].frames == frames
            &&& after[hash].last_sent == now
            &&& after[hash].pending_peers.contains(d) == (targets.contains(d) || (m.contains_key(hash)
                && m[hash].pending_peers.contains(d)))
            &&& m.contains_key(hash) ==> after[hash].attempts == m[hash].attempts
                && after[hash].first_sent == m[hash].first_sent
            &&& !m.contains_key(hash) ==> after[hash].attempts == 0 && after[hash].first_sent == now
            &&& other != hash ==> after.contains_key(other) == m.contains_key(other)
            &&& other != hash && m.contains_key(other) ==> after[other] == m[other]
        }),
{
}

/// An acknowledgement takes its sender, and nobody else, off those that the item
/// waits for; the item is done when nobody is left, and no other item changes.
pub proof fn acknowledgement_settles_its_sender(
    m: Map<Id, InflightView>,
    hash: Id,
    peer: Id,
    d: Id,
    other: Id,
)
    ensures
        ({
            let after = acknowledged(m, hash, peer);
            let waits = |x: Id| m.contains_key(hash) && m[hash].pending_peers.contains(x);
            &&& (after.contains_key(hash) && after[hash].pending_peers.contains(d)) == (waits(d) && d
                != peer)
            &&& waits(d) && d != peer ==> after[hash].frames == m[hash].frames && after[hash].attempts
                == m[hash].attempts && after[hash].last_sent == m[hash].last_sent
                && after[hash].first_sent == m[hash].first_sent
            &&& (forall|x: Id| #[trigger] waits(x) ==> x == peer) ==> !after.contains_key(hash)
            &&& other != hash ==> after.contains_key(other) == m.contains_key(other)
            &&& other != hash && m.contains_key(other) ==> after[other] == m[other]
        }),
{
    let waits = |x: Id| m.contains_key(hash) && m[hash].pending_peers.contains(x);
    if m.contains_key(hash) {
        let left = m[hash].pending_peers.remove(peer);
        if waits(d) && d != peer {
            assert(left.contains(d));
        }
        if forall|x: Id| #[trigger] waits(x) ==> x == peer {
            assert forall|x: Id| !left.contains(x) by {
                if left.contains(x) {
                    assert(waits(x));
                }
            }
            assert(left =~= Set::<Id>::empty());
        }
    }
}

/// On the timer an item that was last sent two seconds ago or more goes out again, all
/// of it, to exactly the peers that have not acknowledged it, and that is counted; one
/// sent since then is left alone. After six repeats, or ninety seconds, it is given up.
pub proof fn unacknowledged_item_is_sent_again(m: Map<Id, InflightView>, now: u64, h: Id)
    requires
        m.contains_key(h),
    ensures
        ({
            let after = updated_map::<Inflight, Retransmit>(m, (Retransmit { now }));
            let sent = derived_map::<Inflight, Resend, Retransmit>(m, (Retransmit { now }));
            let idle = elapsed(m[h].last_sent, now);
            let age = elapsed(m[h].first_sent, now);
            if age > 90_000 || (idle >= 2_000 && m[h].attempts >= 6) {
                !after.contains_key(h) && !sent.contains_key(h)
            } else if idle >= 2_000 {
                &&& sent.contains_key(h)
                &&& sent[h].to == m[h].pending_peers
                &&& sent[h].frames == m[h].frames
                &&& after.contains_key(h)
                &&& after[h] == (InflightView {
                    attempts: (m[h].attempts + 1) as u8,
                    last_sent: now,
                    ..m[h]
                })
            } else {
                after.contains_key(h) && after[h] == m[h] && !sent.contains_key(h)
            }
        }),
{
}

/// A request for missing frames is answered with the header, if it is wanted, and then
/// with the frame of every chunk that it names and that there is, in its order: chunk
/// `i` is frame `i + 1`.
pub proof fn missing_frames_are_sent_again(frames: Seq<Seq<u8>>, nak: NakView, k: int)
    requires
        frames.len() > 0,
        forall|j: int| 0 <= j < nak.missing.len() ==> #[trigger] nak.missing[j] + 1 < frames.len(),
        0 <= k < nak.missing.len(),
    ensures
        ({
            let head: int = if nak.want_header {
                1
            } else {
                0
            };
            let sent = nak_frames(frames, nak);
            &&& sent.len() == head + nak.missing.len()
            &&& nak.want_header ==> sent[0] == frames[0]
            &&& sent[head + k] == frames[nak.missing[k] + 1]
        }),
{
    lemma_chunk_frames(frames, nak.missing);
}

proof fn lemma_chunk_frames(frames: Seq<Seq<u8>>, missing: Seq<u16>)
    requires
        forall|j: int| 0 <= j < missing.len() ==> #[trigger] missing[j] + 1 < frames.len(),
    ensures
        chunk_frames(frames, missing).len() == missing.len(),
        forall|j: int|
            0 <= j < missing.len() ==> #[trigger] chunk_frames(frames, missing)[j] == frames[missing[j]
                + 1],
    decreases missing.len(),
{
    if missing.len() > 0 {
        let rest = missing.drop_last();
        assert forall|j: int| 0 <= j < rest.len() implies #[trigger] rest[j] + 1 < frames.len() by {
            assert(rest[j] == missing[j]);
        }
        lemma_chunk_frames(frames, rest);
        assert(missing[missing.len() - 1] + 1 < frames.len());
    }
}

/// Frames are sent again only of the item that was asked for, and only such as it has.
pub proof fn only_own_frames_are_sent_again(frames: Seq<Seq<u8>>, nak: NakView, f: Seq<u8>)
    requires
        nak_frames(frames, nak).contains(f),
    ensures
        frames.contains(f),
{
    let sent = nak_frames(frames, nak);
    let k = sent.index_of(f);
    let rest = chunk_frames(frames, nak.missing);
    lemma_chunk_frames_are_own(frames, nak.missing);
    if nak.want_header && frames.len() > 0 {
        if k == 0 {
            assert(frames[0] == f);
        } else {
            assert(rest[k - 1] == f);
        }
    } else {
        assert(rest[k] == f);
    }
}

proof fn lemma_chunk_frames_are_own(frames: Seq<Seq<u8>>, missing: Seq<u16>)
    ensures
        forall|j: int|
            0 <= j < chunk_frames(frames, missing).len() ==> frames.contains(
                #[trigger] chunk_frames(frames, missing)[j],
            ),
    decreases missing.len(),
{
    if missing.len() > 0 {
        lemma_chunk_frames_are_own(frames, missing.drop_last());
        let rest = chunk_frames(frames, missing.drop_last());
        let all = chunk_frames(frames, missing);
        assert forall|j: int| 0 <= j < all.len() implies frames.contains(#[trigger] all[j]) by {
            if j < rest.len() {
                assert(frames.contains(rest[j]));
            }
        }
    }
}

} // verus!
