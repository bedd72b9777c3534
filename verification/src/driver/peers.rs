//! What is known of the linked peers, and who takes over when the primary is lost.
use vstd::prelude::*;
use vstd::string::*;

use crate::driver::content::names;
use crate::idmap::IdMap;
use crate::ids::{same_id, Id};
use crate::text::same_text;
use crate::wire::{views, Event, EventView};

verus! {

/// A battery level that is not known.
pub const BATTERY_UNKNOWN: u8 = 255;

/// Capability: an item missed while unlinked can be caught up.
pub const CAP_RESYNC: &'static str = "resync-1";

/// Capability: both users confirm a pairing.
pub const CAP_SAS_CONFIRM: &'static str = "sas-confirm";

/// Capability: the verification of a pairing can be opened again.
pub const CAP_VERIFY_RESTART: &'static str = "verify-restart";

/// What is known of a peer.
pub struct PeerMeta {
    pub name: String,
    pub platform: String,
    /// The capabilities that both sides know.
    pub caps: Vec<String>,
    pub battery: u8,
    pub charging: bool,
    /// Its hello arrived, so that `caps` is what it said.
    pub hello_seen: bool,
    /// It was told in this session that its pairing waits for confirmation here.
    pub verify_restart_sent: bool,
}

/// View of a [`PeerMeta`].
#[verifier::ext_equal]
pub ghost struct PeerMetaView {
    pub name: Seq<char>,
    pub platform: Seq<char>,
    pub caps: Seq<Seq<char>>,
    pub battery: u8,
    pub charging: bool,
    pub hello_seen: bool,
    pub verify_restart_sent: bool,
}

impl View for PeerMeta {
    type V = PeerMetaView;

    open spec fn view(&self) -> PeerMetaView {
        PeerMetaView {
            name: self.name@,
            platform: self.platform@,
            caps: views(self.caps@),
            battery: self.battery,
            charging: self.charging,
            hello_seen: self.hello_seen,
            verify_restart_sent: self.verify_restart_sent,
        }
    }
}

/// What is known of a peer that has not said anything.
pub open spec fn unknown_peer() -> PeerMetaView {
    PeerMetaView {
        name: Seq::empty(),
        platform: Seq::empty(),
        caps: Seq::empty(),
        battery: BATTERY_UNKNOWN,
        charging: false,
        hello_seen: false,
        verify_restart_sent: false,
    }
}

impl PeerMeta {
    /// What is known of a peer that has not said anything.
    pub fn new() -> (r: Self)
        ensures
            r@ == unknown_peer(),
    {
        let r = PeerMeta {
            name: String::new(),
            platform: String::new(),
            caps: Vec::new(),
            battery: BATTERY_UNKNOWN,
            charging: false,
            hello_seen: false,
            verify_restart_sent: false,
        };
        assert(r@ =~= unknown_peer());
        r
    }
}

/// What is known of `peer`.
pub open spec fn meta_of(meta: Map<Id, PeerMetaView>, peer: Id) -> PeerMetaView {
    if meta.contains_key(peer) {
        meta[peer]
    } else {
        unknown_peer()
    }
}

/// Takes out what is known of `peer`.
pub fn take_meta(meta: &mut IdMap<PeerMeta>, peer: &Id) -> (r: PeerMeta)
    ensures
        r@ == meta_of(old(meta)@, *peer),
        final(meta)@ == old(meta)@.remove(*peer),
{
    match meta.remove(peer) {
        Some(m) => m,
        None => PeerMeta::new(),
    }
}

/// `peer` is known to have the capability `cap`.
pub open spec fn has_cap(meta: Map<Id, PeerMetaView>, peer: Id, cap: Seq<char>) -> bool {
    meta.contains_key(peer) && meta[peer].caps.contains(cap)
}

/// Decides [`has_cap`].
pub fn peer_has_cap(meta: &IdMap<PeerMeta>, peer: &Id, cap: &str) -> (r: bool)
    ensures
        r == has_cap(meta@, *peer, cap@),
{
    match meta.get(peer) {
        Some(m) => names(m.caps.as_slice(), cap),
        None => false,
    }
}

/// The capabilities that a peer named and this device has too, as the peer ordered
/// them. Others are dropped: they never stand in the way of a session.
pub open spec fn shared(own: Seq<Seq<char>>, said: Seq<Seq<char>>) -> Seq<Seq<char>> {
    said.filter(|c: Seq<char>| own.contains(c))
}

/// Computes [`shared`].
pub fn shared_caps(own: &Vec<String>, said: &Vec<String>) -> (r: Vec<String>)
    ensures
        views(r@) == shared(views(own@), views(said@)),
{
    let ghost all = views(said@);
    let ghost has = |c: Seq<char>| views(own@).contains(c);
    let mut r: Vec<String> = Vec::new();
    let mut i: usize = 0;
    proof {
        reveal(Seq::filter);
        assert(all.subrange(0, 0) =~= Seq::empty());
        assert(views(r@) =~= all.subrange(0, 0).filter(has));
    }
    while i < said.len()
        invariant
            i <= said@.len(),
            all == views(said@),
            has == |c: Seq<char>| views(own@).contains(c),
            views(r@) == all.subrange(0, i as int).filter(has),
        decreases said@.len() - i,
    {
        let ghost before = views(r@);
        proof {
            reveal(Seq::filter);
            let next = all.subrange(0, i + 1);
            assert(next.drop_last() =~= all.subrange(0, i as int));
            assert(next.last() == said@[i as int]@);
        }
        if names(own.as_slice(), said[i].as_str()) {
            r.push(said[i].clone());
            assert(views(r@) =~= before.push(said@[i as int]@));
        }
        i = i + 1;
    }
    assert(all.subrange(0, all.len() as int) =~= all);
    r
}

/// A capability is shared iff both sides have it.
pub proof fn shared_means_on_both_sides(own: Seq<Seq<char>>, said: Seq<Seq<char>>, c: Seq<char>)
    ensures
        shared(own, said).contains(c) == (own.contains(c) && said.contains(c)),
    decreases said.len(),
{
    reveal(Seq::filter);
    if said.len() > 0 {
        let rest = said.drop_last();
        shared_means_on_both_sides(own, rest, c);
        let before = shared(own, rest);
        assert(said =~= rest.push(said.last()));
        if own.contains(said.last()) {
            assert(shared(own, said) == before.push(said.last()));
            lemma_push_contains(before, said.last(), c);
        }
        lemma_push_contains(rest, said.last(), c);
    }
}

proof fn lemma_push_contains(s: Seq<Seq<char>>, last: Seq<char>, c: Seq<char>)
    ensures
        s.push(last).contains(c) == (s.contains(c) || last == c),
{
    let t = s.push(last);
    if s.contains(c) {
        assert(t[s.index_of(c)] == c);
    }
    assert(t[s.len() as int] == last);
}

/// A copy of a list of texts.
pub fn copy_texts(texts: &Vec<String>) -> (r: Vec<String>)
    ensures
        views(r@) == views(texts@),
{
    let mut r: Vec<String> = Vec::new();
    let mut i: usize = 0;
    while i < texts.len()
        invariant
            i <= texts@.len(),
            r@.len() == i,
            forall|j: int| 0 <= j < i ==> (#[trigger] r@[j])@ == texts@[j]@,
        decreases texts@.len() - i,
    {
        r.push(texts[i].clone());
        i = i + 1;
    }
    assert(views(r@) =~= views(texts@));
    r
}

/// Decides whether two lists hold the same texts in the same order.
pub fn same_texts(a: &Vec<String>, b: &Vec<String>) -> (r: bool)
    ensures
        r == (views(a@) == views(b@)),
{
    if a.len() != b.len() {
        assert(views(a@).len() != views(b@).len());
        return false;
    }
    let mut i: usize = 0;
    while i < a.len()
        invariant
            i <= a@.len(),
            a@.len() == b@.len(),
            forall|j: int| 0 <= j < i ==> (#[trigger] a@[j])@ == b@[j]@,
        decreases a@.len() - i,
    {
        if !same_text(a[i].as_str(), b[i].as_str()) {
            assert(views(a@)[i as int] != views(b@)[i as int]);
            return false;
        }
        i = i + 1;
    }
    assert(views(a@) =~= views(b@));
    true
}

/// Decides whether `id` is in `list`.
pub fn lists_id(list: &Vec<Id>, id: &Id) -> (r: bool)
    ensures
        r == list@.contains(*id),
{
    let mut i: usize = 0;
    while i < list.len()
        invariant
            i <= list@.len(),
            forall|j: int| 0 <= j < i ==> list@[j] != *id,
        decreases list@.len() - i,
    {
        if same_id(&list[i], id) {
            return true;
        }
        i = i + 1;
    }
    false
}

/// Decides whether `who` is `id`.
pub fn is_id(who: Option<Id>, id: &Id) -> (r: bool)
    ensures
        r == (who == Some(*id)),
{
    match who {
        Some(w) => same_id(&w, id),
        None => false,
    }
}

/// A linked peer as clients see it.
pub struct PeerInfo {
    pub peer_id: Id,
    pub name: String,
    pub platform: String,
    pub battery: u8,
    pub charging: bool,
    /// It is the peer that the rest of the state describes.
    pub primary: bool,
    pub caps: Vec<String>,
}

/// View of a [`PeerInfo`].
#[verifier::ext_equal]
pub ghost struct PeerInfoView {
    pub peer_id: Id,
    pub name: Seq<char>,
    pub platform: Seq<char>,
    pub battery: u8,
    pub charging: bool,
    pub primary: bool,
    pub caps: Seq<Seq<char>>,
}

impl View for PeerInfo {
    type V = PeerInfoView;

    open spec fn view(&self) -> PeerInfoView {
        PeerInfoView {
            peer_id: self.peer_id,
            name: self.name@,
            platform: self.platform@,
            battery: self.battery,
            charging: self.charging,
            primary: self.primary,
            caps: views(self.caps@),
        }
    }
}

/// What clients see of the linked peer `id`.
pub open spec fn info_of(meta: Map<Id, PeerMetaView>, primary: Option<Id>, id: Id) -> PeerInfoView {
    let m = meta_of(meta, id);
    PeerInfoView {
        peer_id: id,
        name: m.name,
        platform: m.platform,
        battery: m.battery,
        charging: m.charging,
        primary: primary == Some(id),
        caps: m.caps,
    }
}

/// The linked peers as clients see them: a peer without a session does not show.
pub fn build_peers(linked: &Vec<Id>, meta: &IdMap<PeerMeta>, primary: Option<Id>) -> (r: Vec<PeerInfo>)
    ensures
        views(r@) == Seq::new(linked@.len(), |i: int| info_of(meta@, primary, linked@[i])),
{
    let mut r: Vec<PeerInfo> = Vec::new();
    let mut i: usize = 0;
    while i < linked.len()
        invariant
            i <= linked@.len(),
            r@.len() == i,
            forall|j: int| 0 <= j < i ==> (#[trigger] r@[j])@ == info_of(meta@, primary, linked@[j]),
        decreases linked@.len() - i,
    {
        let id = linked[i];
        let is_primary = is_id(primary, &id);
        let info = match meta.get(&id) {
            Some(m) => PeerInfo {
                peer_id: id,
                name: m.name.clone(),
                platform: m.platform.clone(),
                battery: m.battery,
                charging: m.charging,
                primary: is_primary,
                caps: copy_texts(&m.caps),
            },
            None => PeerInfo {
                peer_id: id,
                name: String::new(),
                platform: String::new(),
                battery: BATTERY_UNKNOWN,
                charging: false,
                primary: is_primary,
                caps: Vec::new(),
            },
        };
        assert(info@ =~= info_of(meta@, primary, id));
        r.push(info);
        i = i + 1;
    }
    assert(views(r@) =~= Seq::new(linked@.len(), |i: int| info_of(meta@, primary, linked@[i])));
    r
}

/// A catch-up message of `peer` counts: it is linked and both sides can catch up.
pub open spec fn may_resync(linked: Seq<Id>, meta: Map<Id, PeerMetaView>, peer: Id) -> bool {
    linked.contains(peer) && has_cap(meta, peer, CAP_RESYNC@)
}

/// Decides [`may_resync`].
pub fn resync_authorized(linked: &Vec<Id>, meta: &IdMap<PeerMeta>, peer: &Id) -> (r: bool)
    ensures
        r == may_resync(linked@, meta@, *peer),
{
    lists_id(linked, peer) && peer_has_cap(meta, peer, CAP_RESYNC)
}

/// What happens when the primary `lost` is gone: a secondary that was promoted
/// takes its place; without one the link is lost.
pub open spec fn failover_events(
    meta: Map<Id, PeerMetaView>,
    lost: Option<Id>,
    promoted: Option<Id>,
) -> Seq<EventView> {
    match promoted {
        Some(id) => {
            let m = meta_of(meta, id);
            seq![
                EventView::PrimaryFailover {
                    peer_id: id,
                    name: m.name,
                    platform: m.platform,
                    caps: m.caps,
                },
                EventView::MeshPeersChanged,
            ]
        },
        None => match lost {
            Some(peer_id) => seq![EventView::PeerLost { peer_id }],
            None => Seq::empty(),
        },
    }
}

/// Computes [`failover_events`]. `promoted` is the live secondary that was put in
/// the primary's place, if there was one.
pub fn try_primary_failover(meta: &IdMap<PeerMeta>, lost: Option<Id>, promoted: Option<Id>) -> (r: Vec<
    Event,
>)
    ensures
        views(r@) == failover_events(meta@, lost, promoted),
{
    let mut r: Vec<Event> = Vec::new();
    match promoted {
        Some(id) => {
            let (name, platform, caps) = match meta.get(&id) {
                Some(m) => (m.name.clone(), m.platform.clone(), copy_texts(&m.caps)),
                None => (String::new(), String::new(), Vec::new()),
            };
            proof {
                let none: Seq<String> = Seq::empty();
                assert(views(none) =~= Seq::empty());
                assert(views(caps@) =~= meta_of(meta@, id).caps);
            }
            r.push(Event::PrimaryFailover { peer_id: id, name, platform, caps });
            r.push(Event::MeshPeersChanged);
        },
        None => {
            if let Some(peer_id) = lost {
                r.push(Event::PeerLost { peer_id });
            }
        },
    }
    assert(views(r@) =~= failover_events(meta@, lost, promoted));
    r
}

/// When the primary is lost, the secondary that was promoted takes over under its own
/// id and with what is known of it, and clients learn of it; only where there is none
/// does the link count as lost.
pub proof fn secondary_takes_over(meta: Map<Id, PeerMetaView>, lost: Id, next: Id)
    ensures
        ({
            let events = failover_events(meta, Some(lost), Some(next));
            &&& events.contains(EventView::MeshPeersChanged)
            &&& events.len() > 0 && (events[0] matches EventView::PrimaryFailover {
                peer_id,
                name,
                platform,
                caps,
            } && {
                &&& peer_id == next
                &&& meta.contains_key(next) ==> name == meta[next].name && platform
                    == meta[next].platform && caps == meta[next].caps
            })
            &&& forall|i: int| 0 <= i < events.len() ==> !(#[trigger] events[i] is PeerLost)
        }),
        failover_events(meta, Some(lost), None) == seq![EventView::PeerLost { peer_id: lost }],
        failover_events(meta, None, None).len() == 0,
{
    let events = failover_events(meta, Some(lost), Some(next));
    assert(events[1] == EventView::MeshPeersChanged);
}

/// A peer may catch up iff it has a session and both sides said that they can.
pub proof fn catching_up_takes_a_session_and_the_capability(
    linked: Seq<Id>,
    meta: Map<Id, PeerMetaView>,
    peer: Id,
)
    ensures
        may_resync(linked, meta, peer) == (linked.contains(peer) && meta.contains_key(peer)
            && meta[peer].caps.contains("resync-1"@)),
{
}

} // verus!
