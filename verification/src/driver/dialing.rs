//! Finding peers again: who is dialed, where, and when.
use vstd::prelude::*;
use vstd::string::*;

use crate::backoff::{is_ready, peer_dial_failed, peer_ready, state_of, after_failure, PeerBackoff};
use crate::clock::{elapsed, LAST_INSTANT};
use crate::driver::discovered::{
    address_hint, after_seeing, hint_for, note_seen, ResolvedPeer, ResolvedView,
};
use crate::driver::effects::{Effect, EffectView};
use crate::driver::node::{Node, NodeView};
use crate::driver::peers::{is_id, lists_id};
use crate::driver::resync::{decode_hex32, id_of_text};
use crate::handshake::{peer_id_for, peer_id_of, TrustedPeer, TrustedView};
use crate::idmap::IdMap;
use crate::ids::{bytes_less, id_less, id_order_is_total, same_id, Id};
use crate::net::SocketAddr;
use crate::wire::{opt_view, views, Event, EventView, Metric};

verus! {

/// How often it is looked whether a peer is to be dialed.
pub const PROBE_INTERVAL: u64 = 200;

/// How long after its start the daemon looks for the first time.
pub const PROBE_DELAY: u64 = 2_000;

/// What is known of the link when it is time to look for peers.
pub struct Probe {
    pub now: u64,
    /// This device's key.
    pub own_key: Id,
    pub primary: Option<Id>,
    /// The primary has a session.
    pub primary_linked: bool,
    /// Where the primary was last.
    pub primary_addr: Option<SocketAddr>,
    /// The peers with a session.
    pub linked: Vec<Id>,
    /// Where each peer has been, the primary among them.
    pub roaming: IdMap<Vec<SocketAddr>>,
    /// Where each peer was when the daemon started, as far as it was stored.
    pub persisted: IdMap<SocketAddr>,
}

fn lists_addr(list: &Vec<SocketAddr>, addr: SocketAddr) -> (r: bool)
    ensures
        r == list@.contains(addr),
{
    let mut i: usize = 0;
    while i < list.len()
        invariant
            i <= list@.len(),
            forall|j: int| 0 <= j < i ==> list@[j] != addr,
        decreases list@.len() - i,
    {
        if list[i] == addr {
            return true;
        }
        i = i + 1;
    }
    false
}

/// `list` with one more address, unless it is there.
pub open spec fn with_addr(list: Seq<SocketAddr>, addr: Option<SocketAddr>) -> Seq<SocketAddr> {
    match addr {
        Some(a) => if list.contains(a) {
            list
        } else {
            list.push(a)
        },
        None => list,
    }
}

fn note_addr(list: &mut Vec<SocketAddr>, addr: Option<SocketAddr>)
    ensures
        final(list)@ == with_addr(old(list)@, addr),
{
    if let Some(a) = addr {
        if !lists_addr(list, a) {
            list.push(a);
        }
    }
}

/// Where `peer` has been.
pub open spec fn roamed(c: Probe, peer: Id) -> Seq<SocketAddr> {
    if c.roaming@.contains_key(peer) {
        c.roaming@[peer]
    } else {
        Seq::empty()
    }
}

/// Where `peer` was when the daemon started.
pub open spec fn stored_addr(c: Probe, peer: Id) -> Option<SocketAddr> {
    if c.persisted@.contains_key(peer) {
        Some(c.persisted@[peer])
    } else {
        None
    }
}

fn roamed_by(ctx: &Probe, peer: &Id) -> (r: Vec<SocketAddr>)
    ensures
        r@ == roamed(*ctx, *peer),
{
    let mut r: Vec<SocketAddr> = Vec::new();
    if let Some(all) = ctx.roaming.get(peer) {
        let mut i: usize = 0;
        while i < all.len()
            invariant
                i <= all@.len(),
                r@ == all@.subrange(0, i as int),
            decreases all@.len() - i,
        {
            r.push(all[i]);
            i = i + 1;
            assert(r@ =~= all@.subrange(0, i as int));
        }
        assert(r@ =~= all@);
    }
    r
}

/// One dial for each address; the user has confirmed the peer before.
pub open spec fn dials(peer: Id, trust: TrustedView, addrs: Seq<SocketAddr>) -> Seq<EffectView> {
    Seq::new(
        addrs.len(),
        |i: int|
            EffectView::Dial {
                peer,
                key: trust.static_pub,
                addrs: seq![addrs[i]],
                name: trust.name,
                verify: false,
            },
    )
}

fn push_dials(out: &mut Vec<Effect>, peer: Id, trust: &TrustedPeer, addrs: &Vec<SocketAddr>)
    ensures
        views(final(out)@) == views(old(out)@) + dials(peer, trust@, addrs@),
{
    let ghost before = views(out@);
    let ghost all = dials(peer, trust@, addrs@);
    let mut i: usize = 0;
    assert(views(out@) =~= before + all.subrange(0, 0));
    while i < addrs.len()
        invariant
            i <= addrs@.len(),
            all == dials(peer, trust@, addrs@),
            views(out@) == before + all.subrange(0, i as int),
        decreases addrs@.len() - i,
    {
        let ghost so_far = views(out@);
        let mut one: Vec<SocketAddr> = Vec::new();
        one.push(addrs[i]);
        assert(one@ =~= seq![addrs@[i as int]]);
        out.push(
            Effect::Dial {
                peer,
                key: trust.static_pub,
                addrs: one,
                name: trust.name.clone(),
                verify: false,
            },
        );
        assert(views(out@) =~= so_far.push(all[i as int]));
        i = i + 1;
        assert(views(out@) =~= before + all.subrange(0, i as int));
    }
    assert(all.subrange(0, all.len() as int) =~= all);
}

/// Of two devices that know each other this one dials: the one with the lower key.
pub open spec fn dials_first(own_key: Id, peer_key: Id) -> bool {
    bytes_less(own_key@, peer_key@)
}

/// The primary is looked for: it has no session, is trusted, and it is known where
/// it was.
pub open spec fn seeks_primary(n: NodeView, c: Probe) -> bool {
    !c.primary_linked && c.primary_addr is Some && c.primary is Some && n.trusted.contains_key(
        c.primary->0,
    )
}

/// The backoff after the primary was looked for.
pub open spec fn primary_probe_backoff(n: NodeView, c: Probe) -> Map<Id, PeerBackoff> {
    if seeks_primary(n, c) {
        n.backoff.insert(c.primary->0, state_of(n.backoff, c.primary->0))
    } else {
        n.backoff
    }
}

/// The dials of the primary.
pub open spec fn primary_probe(n: NodeView, c: Probe) -> Seq<EffectView> {
    if seeks_primary(n, c) && is_ready(state_of(n.backoff, c.primary->0), c.now) && dials_first(
        c.own_key,
        n.trusted[c.primary->0].static_pub,
    ) {
        let peer = c.primary->0;
        dials(
            peer,
            n.trusted[peer],
            with_addr(roamed(c, peer), address_hint(n.discovered, peer, c.now)),
        )
    } else {
        Seq::empty()
    }
}

/// A secondary is looked for: it has no session.
pub open spec fn seeks_secondary(c: Probe, peer: Id) -> bool {
    c.primary != Some(peer) && !c.linked@.contains(peer)
}

/// The backoff after the secondaries `order` were looked for.
pub open spec fn secondary_probe_backoff(
    b: Map<Id, PeerBackoff>,
    c: Probe,
    order: Seq<Id>,
) -> Map<Id, PeerBackoff>
    decreases order.len(),
{
    if order.len() == 0 {
        b
    } else {
        let rest = secondary_probe_backoff(b, c, order.drop_last());
        let peer = order.last();
        if seeks_secondary(c, peer) {
            rest.insert(peer, state_of(rest, peer))
        } else {
            rest
        }
    }
}

/// The dials of one secondary.
pub open spec fn secondary_probe(n: NodeView, c: Probe, peer: Id) -> Seq<EffectView> {
    if seeks_secondary(c, peer) && is_ready(state_of(n.backoff, peer), c.now) && dials_first(
        c.own_key,
        n.trusted[peer].static_pub,
    ) {
        dials(
            peer,
            n.trusted[peer],
            with_addr(
                with_addr(roamed(c, peer), stored_addr(c, peer)),
                address_hint(n.discovered, peer, c.now),
            ),
        )
    } else {
        Seq::empty()
    }
}

/// The dials of the secondaries `order`.
pub open spec fn secondary_probes(n: NodeView, c: Probe, order: Seq<Id>) -> Seq<EffectView>
    decreases order.len(),
{
    if order.len() == 0 {
        Seq::empty()
    } else {
        secondary_probes(n, c, order.drop_last()) + secondary_probe(n, c, order.last())
    }
}

proof fn lemma_backoff_keeps_states(b: Map<Id, PeerBackoff>, c: Probe, order: Seq<Id>, peer: Id)
    ensures
        state_of(secondary_probe_backoff(b, c, order), peer) == state_of(b, peer),
    decreases order.len(),
{
    if order.len() > 0 {
        lemma_backoff_keeps_states(b, c, order.drop_last(), peer);
        lemma_backoff_keeps_states(b, c, order.drop_last(), order.last());
    }
}

/// Looks for every trusted peer without a session whose backoff is over, wherever
/// it has been; the primary does not hold the others up.
pub fn probe_tick(node: &mut Node, ctx: &Probe) -> (out: Vec<Effect>)
    ensures
        exists|order: Seq<Id>|
            {
                &&& order.no_duplicates()
                &&& order.to_set() == old(node)@.trusted.dom()
                &&& views(out@) == primary_probe(old(node)@, *ctx) + #[trigger] secondary_probes(
                    old(node)@,
                    *ctx,
                    order,
                )
                &&& final(node)@ == (NodeView {
                    backoff: secondary_probe_backoff(
                        primary_probe_backoff(old(node)@, *ctx),
                        *ctx,
                        order,
                    ),
                    ..old(node)@
                })
            },
{
    let ghost n = node@;
    let mut out: Vec<Effect> = Vec::new();
    if let Some(peer) = ctx.primary {
        if !ctx.primary_linked && ctx.primary_addr.is_some() {
            if let Some(trust) = node.trusted.get(&peer) {
                let ready = peer_ready(&mut node.backoff, peer, ctx.now);
                if ready && id_less(&ctx.own_key, &trust.static_pub) {
                    let mut addrs = roamed_by(ctx, &peer);
                    note_addr(&mut addrs, hint_for(&node.discovered, &peer, ctx.now));
                    push_dials(&mut out, peer, trust, &addrs);
                }
            }
        }
    }
    let ghost b = primary_probe_backoff(n, *ctx);
    let ghost first = primary_probe(n, *ctx);
    assert(views(out@) =~= first);
    assert(node@ =~= (NodeView { backoff: b, ..n }));
    let keys = node.trusted.keys();
    let mut i: usize = 0;
    assert(keys@.subrange(0, 0) =~= Seq::empty());
    assert(first + Seq::<EffectView>::empty() =~= first);
    while i < keys.len()
        invariant
            i <= keys@.len(),
            b == primary_probe_backoff(n, *ctx),
            forall|k: Id| #[trigger] keys@.contains(k) <==> n.trusted.contains_key(k),
            node@ == (NodeView {
                backoff: secondary_probe_backoff(b, *ctx, keys@.subrange(0, i as int)),
                ..n
            }),
            views(out@) == first + secondary_probes(n, *ctx, keys@.subrange(0, i as int)),
        decreases keys@.len() - i,
    {
        let ghost so_far = views(out@);
        let ghost next = keys@.subrange(0, i + 1);
        let ghost before = node@.backoff;
        let peer = keys[i];
        proof {
            assert(next.drop_last() =~= keys@.subrange(0, i as int));
            assert(next.last() == peer);
            assert(keys@.contains(peer));
            lemma_backoff_keeps_states(b, *ctx, keys@.subrange(0, i as int), peer);
            assert(state_of(b, peer) == state_of(n.backoff, peer));
        }
        if !is_id(ctx.primary, &peer) && !lists_id(&ctx.linked, &peer) {
            if let Some(trust) = node.trusted.get(&peer) {
                let ready = peer_ready(&mut node.backoff, peer, ctx.now);
                if ready && id_less(&ctx.own_key, &trust.static_pub) {
                    let mut addrs = roamed_by(ctx, &peer);
                    let stored = match ctx.persisted.get(&peer) {
                        Some(a) => Some(*a),
                        None => None,
                    };
                    note_addr(&mut addrs, stored);
                    note_addr(&mut addrs, hint_for(&node.discovered, &peer, ctx.now));
                    push_dials(&mut out, peer, trust, &addrs);
                }
            }
        }
        proof {
            assert(views(out@) =~= so_far + secondary_probe(n, *ctx, peer));
            assert(views(out@) =~= first + secondary_probes(n, *ctx, next));
            assert(node@ =~= (NodeView {
                backoff: secondary_probe_backoff(b, *ctx, next),
                ..n
            }));
        }
        i = i + 1;
    }
    assert(keys@.subrange(0, keys@.len() as int) =~= keys@);
    assert(views(out@) == first + secondary_probes(n, *ctx, keys@));
    out
}

/// A device that announced itself on the network.
#[derive(Debug)]
pub struct Advert {
    pub peer_id_hex: String,
    pub static_pub_hex: String,
    pub name: String,
    /// Where it is, best first.
    pub addrs: Vec<SocketAddr>,
    pub pair_pin: Option<String>,
}

/// The peer and key that an announcement names; none where they do not belong
/// together, or no address comes with them.
pub open spec fn advertised(a: Advert) -> Option<(Id, Id)> {
    match (id_of_text(a.peer_id_hex@), id_of_text(a.static_pub_hex@)) {
        (Ok(peer), Ok(key)) => if peer_id_of(key) == peer && a.addrs@.len() > 0 {
            Some((peer, key))
        } else {
            None
        },
        _ => None,
    }
}

/// The memory after `peer` announced itself with `key`.
pub open spec fn sighting_node(n: NodeView, peer: Id, key: Id, a: Advert, now: u64) -> NodeView {
    NodeView {
        discovered: after_seeing(
            n.discovered,
            peer,
            ResolvedView {
                static_pub: key,
                addr: a.addrs@[0],
                name: a.name@,
                pair_pin: opt_view(a.pair_pin),
                last_seen: now,
            },
            now,
        ),
        ..n
    }
}

/// What it brings about that `peer` announced itself with `key`: a trusted peer
/// without a session is dialed at once, by the side whose turn it is.
pub open spec fn sighting_effects(
    n: NodeView,
    own_key: Id,
    linked: Seq<Id>,
    peer: Id,
    key: Id,
    a: Advert,
) -> Seq<EffectView> {
    if n.trusted.contains_key(peer) && n.trusted[peer].static_pub == key && !linked.contains(peer)
        && dials_first(own_key, key) {
        seq![EffectView::Dial { peer, key, addrs: a.addrs@, name: a.name@, verify: false }]
    } else {
        Seq::empty()
    }
}

/// Takes in that `peer` announced itself with `key`, which is its own.
pub fn on_sighting(
    node: &mut Node,
    own_key: &Id,
    linked: &Vec<Id>,
    peer: Id,
    key: Id,
    advert: Advert,
    now: u64,
) -> (out: Vec<Effect>)
    requires
        advert.addrs@.len() > 0,
    ensures
        final(node)@ == sighting_node(old(node)@, peer, key, advert, now),
        views(out@) == sighting_effects(old(node)@, *own_key, linked@, peer, key, advert),
{
    let ghost n = node@;
    let mut out: Vec<Effect> = Vec::new();
    let entry = ResolvedPeer {
        static_pub: key,
        addr: advert.addrs[0],
        name: advert.name.clone(),
        pair_pin: advert.pair_pin.clone(),
        last_seen: now,
    };
    note_seen(&mut node.discovered, peer, entry, now);
    assert(node@ =~= sighting_node(n, peer, key, advert, now));
    let trusted = match node.trusted.get(&peer) {
        Some(t) => same_id(&t.static_pub, &key),
        None => false,
    };
    if trusted && !lists_id(linked, &peer) && id_less(own_key, &key) {
        out.push(
            Effect::Dial { peer, key, addrs: advert.addrs, name: advert.name, verify: false },
        );
    }
    assert(views(out@) =~= sighting_effects(n, *own_key, linked@, peer, key, advert));
    out
}

/// The memory after an announcement.
pub open spec fn advert_node(n: NodeView, a: Advert, now: u64) -> NodeView {
    match advertised(a) {
        Some((peer, key)) => sighting_node(n, peer, key, a, now),
        None => n,
    }
}

/// What an announcement brings about.
pub open spec fn advert_effects(n: NodeView, own_key: Id, linked: Seq<Id>, a: Advert) -> Seq<EffectView> {
    match advertised(a) {
        Some((peer, key)) => sighting_effects(n, own_key, linked, peer, key, a),
        None => Seq::empty(),
    }
}

/// Takes in that a device announced itself.
pub fn on_resolved(node: &mut Node, own_key: &Id, linked: &Vec<Id>, advert: Advert, now: u64) -> (out: Vec<Effect>)
    ensures
        final(node)@ == advert_node(old(node)@, advert, now),
        views(out@) == advert_effects(old(node)@, *own_key, linked@, advert),
{
    let none: Vec<Effect> = Vec::new();
    assert(views(none@) =~= Seq::empty());
    let peer = match decode_hex32(advert.peer_id_hex.as_str()) {
        Ok(p) => p,
        Err(_) => {
            return none;
        },
    };
    let key = match decode_hex32(advert.static_pub_hex.as_str()) {
        Ok(k) => k,
        Err(_) => {
            return none;
        },
    };
    if !same_id(&peer_id_for(&key), &peer) || advert.addrs.len() == 0 {
        return none;
    }
    assert(advertised(advert) == Some((peer, key)));
    on_sighting(node, own_key, linked, peer, key, advert, now)
}

/// What the end of an announcement brings about: it says nothing while the
/// primary has a session.
pub open spec fn removed_effects(primary_linked: bool, primary: Option<Id>) -> Seq<EffectView> {
    if !primary_linked && primary is Some {
        seq![EffectView::Emit(EventView::PeerLost { peer_id: primary->0 })]
    } else {
        Seq::empty()
    }
}

/// Takes in that an announcement ended.
pub fn on_removed(primary_linked: bool, primary: Option<Id>) -> (out: Vec<Effect>)
    ensures
        views(out@) == removed_effects(primary_linked, primary),
{
    let mut out: Vec<Effect> = Vec::new();
    if !primary_linked {
        if let Some(peer_id) = primary {
            out.push(Effect::Emit(Event::PeerLost { peer_id }));
        }
    }
    assert(views(out@) =~= removed_effects(primary_linked, primary));
    out
}

/// The address that a dial starts with: none without an address, and none while
/// another handshake is under way.
pub fn start_initiator(handshake_busy: bool, addrs: &Vec<SocketAddr>) -> (r: Option<SocketAddr>)
    ensures
        r == if handshake_busy || addrs@.len() == 0 {
            None
        } else {
            Some(addrs@[0])
        },
{
    if handshake_busy || addrs.len() == 0 {
        None
    } else {
        Some(addrs[0])
    }
}

/// How a dial goes on after an attempt.
#[derive(Debug, Clone, Copy, PartialEq, Eq, Structural)]
pub enum DialStep {
    /// The peer is linked.
    Linked,
    /// The next address is tried.
    Try(SocketAddr),
    /// No address is left.
    GiveUp,
}

/// How a dial goes on after the attempt at the address numbered `i`.
pub open spec fn dial_step(addrs: Seq<SocketAddr>, i: int, linked: bool) -> DialStep {
    if linked {
        DialStep::Linked
    } else if i + 1 < addrs.len() {
        DialStep::Try(addrs[i + 1])
    } else {
        DialStep::GiveUp
    }
}

/// Takes in how an attempt went. Only when every address has failed is it held
/// against the peer; that it is linked says nothing yet of how long it will be.
pub fn after_attempt(
    backoff: &mut IdMap<PeerBackoff>,
    peer: Id,
    addrs: &Vec<SocketAddr>,
    i: usize,
    linked: bool,
    now: u64,
) -> (r: (DialStep, Vec<Effect>))
    requires
        i < addrs@.len(),
        now <= LAST_INSTANT,
    ensures
        r.0 == dial_step(addrs@, i as int, linked),
        views(r.1@) == if linked {
            Seq::<EffectView>::empty()
        } else {
            seq![EffectView::Count(Metric::HandshakeFail)]
        },
        r.0 != DialStep::GiveUp ==> final(backoff)@ == old(backoff)@,
        r.0 == DialStep::GiveUp ==> exists|random: u64|
            final(backoff)@ == old(backoff)@.insert(
                peer,
                #[trigger] after_failure(state_of(old(backoff)@, peer), now, random),
            ),
{
    let mut out: Vec<Effect> = Vec::new();
    if linked {
        assert(views(out@) =~= Seq::empty());
        return (DialStep::Linked, out);
    }
    out.push(Effect::Count(Metric::HandshakeFail));
    assert(views(out@) =~= seq![EffectView::Count(Metric::HandshakeFail)]);
    if i < addrs.len() - 1 {
        return (DialStep::Try(addrs[i + 1]), out);
    }
    peer_dial_failed(backoff, peer, now);
    (DialStep::GiveUp, out)
}

/// Of two devices with different keys that find each other, exactly one dials.
pub proof fn exactly_one_side_dials(a: Id, b: Id)
    requires
        a != b,
    ensures
        dials_first(a, b) != dials_first(b, a),
{
    id_order_is_total(a, b);
}

/// An announcement never changes whom the daemon trusts, and leads to a dial only
/// of a peer that it trusts under that key.
pub proof fn announcements_give_no_trust(n: NodeView, own_key: Id, linked: Seq<Id>, a: Advert, now: u64)
    ensures
        advert_node(n, a, now).trusted == n.trusted,
        advert_node(n, a, now).pending == n.pending,
        advert_effects(n, own_key, linked, a).len() > 0 ==> {
            let peer = (advertised(a)->0).0;
            n.trusted.contains_key(peer) && n.trusted[peer].static_pub == (advertised(a)->0).1
                && !linked.contains(peer)
        },
{
}

/// Until its backoff is over, no peer is dialed without a fresh announcement.
pub proof fn backoff_holds_blind_dials(n: NodeView, c: Probe, order: Seq<Id>, peer: Id, i: int)
    requires
        !is_ready(state_of(n.backoff, peer), c.now),
        0 <= i < (primary_probe(n, c) + secondary_probes(n, c, order)).len(),
    ensures
        !((primary_probe(n, c) + secondary_probes(n, c, order))[i] matches EffectView::Dial {
            peer: p,
            ..
        } && p == peer),
{
    lemma_probes_are_ready(n, c, order, peer);
    let all = primary_probe(n, c) + secondary_probes(n, c, order);
    if i >= primary_probe(n, c).len() {
        assert(all[i] == secondary_probes(n, c, order)[i - primary_probe(n, c).len()]);
    }
}

proof fn lemma_probes_are_ready(n: NodeView, c: Probe, order: Seq<Id>, peer: Id)
    requires
        !is_ready(state_of(n.backoff, peer), c.now),
    ensures
        forall|i: int|
            0 <= i < secondary_probes(n, c, order).len() ==> !(#[trigger] secondary_probes(
                n,
                c,
                order,
            )[i] matches EffectView::Dial { peer: p, .. } && p == peer),
    decreases order.len(),
{
    if order.len() > 0 {
        let rest = secondary_probes(n, c, order.drop_last());
        lemma_probes_are_ready(n, c, order.drop_last(), peer);
        assert forall|i: int| 0 <= i < secondary_probes(n, c, order).len() implies !(
        #[trigger] secondary_probes(n, c, order)[i] matches EffectView::Dial { peer: p, .. } && p
            == peer) by {
            if i < rest.len() {
                assert(secondary_probes(n, c, order)[i] == rest[i]);
            } else {
                assert(secondary_probes(n, c, order)[i] == secondary_probe(n, c, order.last())[i
                    - rest.len()]);
            }
        }
    }
}

/// A trusted primary without a session, of which it is known where it was, whose
/// backoff is over, and that this device is the one to dial, is dialed at every place
/// where it has been and where it was seen of late: under its own key, one address at
/// a time, and without asking its user again.
pub proof fn lost_primary_is_dialed(n: NodeView, c: Probe, order: Seq<Id>, a: SocketAddr)
    requires
        c.primary is Some,
        n.trusted.contains_key(c.primary->0),
        !c.primary_linked,
        c.primary_addr is Some,
        is_ready(state_of(n.backoff, c.primary->0), c.now),
        bytes_less(c.own_key@, n.trusted[c.primary->0].static_pub@),
        (c.roaming@.contains_key(c.primary->0) && c.roaming@[c.primary->0].contains(a)) || (
        n.discovered.contains_key(c.primary->0) && elapsed(
            n.discovered[c.primary->0].last_seen,
            c.now,
        ) < 120_000 && n.discovered[c.primary->0].addr == a),
    ensures
        (primary_probe(n, c) + secondary_probes(n, c, order)).contains(
            EffectView::Dial {
                peer: c.primary->0,
                key: n.trusted[c.primary->0].static_pub,
                addrs: seq![a],
                name: n.trusted[c.primary->0].name,
                verify: false,
            },
        ),
{
    let peer = c.primary->0;
    let hint = address_hint(n.discovered, peer, c.now);
    let list = with_addr(roamed(c, peer), hint);
    lemma_with_addr(roamed(c, peer), hint, a);
    let k = list.index_of(a);
    assert(primary_probe(n, c)[k] == EffectView::Dial {
        peer,
        key: n.trusted[peer].static_pub,
        addrs: seq![a],
        name: n.trusted[peer].name,
        verify: false,
    });
    assert((primary_probe(n, c) + secondary_probes(n, c, order))[k] == primary_probe(n, c)[k]);
}

proof fn lemma_with_addr(list: Seq<SocketAddr>, addr: Option<SocketAddr>, a: SocketAddr)
    ensures
        with_addr(list, addr).contains(a) == (list.contains(a) || addr == Some(a)),
{
    let after = with_addr(list, addr);
    if list.contains(a) {
        assert(after[list.index_of(a)] == a);
    }
    if addr == Some(a) && !list.contains(a) {
        assert(after[list.len() as int] == a);
    }
    if after.contains(a) {
        let i = after.index_of(a);
        if i < list.len() {
            assert(list[i] == a);
        }
    }
}

/// So is every other trusted peer without a session, also where it was stored that it
/// was, and whether or not the primary is looked for.
pub proof fn lost_secondary_is_dialed(n: NodeView, c: Probe, order: Seq<Id>, peer: Id, a: SocketAddr)
    requires
        order.no_duplicates(),
        order.to_set() == n.trusted.dom(),
        n.trusted.contains_key(peer),
        c.primary != Some(peer),
        !c.linked@.contains(peer),
        is_ready(state_of(n.backoff, peer), c.now),
        bytes_less(c.own_key@, n.trusted[peer].static_pub@),
        (c.roaming@.contains_key(peer) && c.roaming@[peer].contains(a)) || (
        c.persisted@.contains_key(peer) && c.persisted@[peer] == a) || (n.discovered.contains_key(peer)
            && elapsed(n.discovered[peer].last_seen, c.now) < 120_000 && n.discovered[peer].addr == a),
    ensures
        (primary_probe(n, c) + secondary_probes(n, c, order)).contains(
            EffectView::Dial {
                peer,
                key: n.trusted[peer].static_pub,
                addrs: seq![a],
                name: n.trusted[peer].name,
                verify: false,
            },
        ),
{
    let first = with_addr(roamed(c, peer), stored_addr(c, peer));
    let hint = address_hint(n.discovered, peer, c.now);
    let list = with_addr(first, hint);
    lemma_with_addr(roamed(c, peer), stored_addr(c, peer), a);
    lemma_with_addr(first, hint, a);
    let dial = EffectView::Dial {
        peer,
        key: n.trusted[peer].static_pub,
        addrs: seq![a],
        name: n.trusted[peer].name,
        verify: false,
    };
    let one = secondary_probe(n, c, peer);
    assert(one[list.index_of(a)] == dial);
    assert(order.to_set().contains(peer));
    assert(order.contains(peer));
    lemma_probe_of_each(n, c, order, peer, dial);
    let rest = secondary_probes(n, c, order);
    let k = rest.index_of(dial);
    assert((primary_probe(n, c) + rest)[primary_probe(n, c).len() + k] == dial);
}

proof fn lemma_probe_of_each(n: NodeView, c: Probe, order: Seq<Id>, peer: Id, e: EffectView)
    requires
        order.contains(peer),
        secondary_probe(n, c, peer).contains(e),
    ensures
        secondary_probes(n, c, order).contains(e),
    decreases order.len(),
{
    let rest = order.drop_last();
    let before = secondary_probes(n, c, rest);
    let all = secondary_probes(n, c, order);
    if order.last() == peer {
        let one = secondary_probe(n, c, peer);
        assert(all[before.len() + one.index_of(e)] == e);
    } else {
        let i = order.index_of(peer);
        assert(rest[i] == peer);
        lemma_probe_of_each(n, c, rest, peer, e);
        assert(all[before.index_of(e)] == e);
    }
}

/// Whoever is dialed blindly is trusted and has no session, and is dialed under the key
/// that it is trusted under; nothing else comes of looking for peers.
pub proof fn only_lost_peers_are_dialed(n: NodeView, c: Probe, order: Seq<Id>, i: int)
    requires
        order.to_set() == n.trusted.dom(),
        0 <= i < (primary_probe(n, c) + secondary_probes(n, c, order)).len(),
    ensures
        (primary_probe(n, c) + secondary_probes(n, c, order))[i] matches EffectView::Dial {
            peer,
            key,
            addrs,
            name,
            verify,
        } && {
            &&& n.trusted.contains_key(peer)
            &&& key == n.trusted[peer].static_pub && name == n.trusted[peer].name
            &&& addrs.len() == 1
            &&& !verify
            &&& if c.primary == Some(peer) {
                !c.primary_linked
            } else {
                !c.linked@.contains(peer)
            }
            &&& bytes_less(c.own_key@, key@)
        },
{
    let first = primary_probe(n, c);
    if i >= first.len() {
        let rest = secondary_probes(n, c, order);
        lemma_probed(n, c, order, i - first.len());
        let peer = choose|peer: Id| #[trigger]
            order.contains(peer) && secondary_probe(n, c, peer).contains(rest[i - first.len()]);
        assert(order.to_set().contains(peer));
        let one = secondary_probe(n, c, peer);
        let k = one.index_of(rest[i - first.len()]);
        assert(one[k] == (first + rest)[i]);
    }
}

proof fn lemma_probed(n: NodeView, c: Probe, order: Seq<Id>, i: int)
    requires
        0 <= i < secondary_probes(n, c, order).len(),
    ensures
        exists|peer: Id| #[trigger]
            order.contains(peer) && secondary_probe(n, c, peer).contains(
                secondary_probes(n, c, order)[i],
            ),
    decreases order.len(),
{
    if order.len() > 0 {
        let rest = order.drop_last();
        let before = secondary_probes(n, c, rest);
        let all = secondary_probes(n, c, order);
        if i < before.len() {
            lemma_probed(n, c, rest, i);
            let peer = choose|peer: Id| #[trigger]
                rest.contains(peer) && secondary_probe(n, c, peer).contains(before[i]);
            assert(order[rest.index_of(peer)] == peer);
            assert(order.contains(peer));
        } else {
            let one = secondary_probe(n, c, order.last());
            assert(one[i - before.len()] == all[i]);
            assert(order[order.len() - 1] == order.last());
            assert(order.contains(order.last()));
        }
    }
}

/// A trusted peer without a session that announces itself under its key is dialed at
/// once, under that key and at the addresses that it announced, by the device with the
/// lower key; and it is remembered where it was seen.
pub proof fn announced_peer_is_dialed(
    n: NodeView,
    own_key: Id,
    linked: Seq<Id>,
    a: Advert,
    now: u64,
    peer: Id,
    key: Id,
)
    requires
        a.peer_id_hex@ == crate::codec::hex_text(peer@),
        a.static_pub_hex@ == crate::codec::hex_text(key@),
        peer == peer_id_of(key),
        a.addrs@.len() > 0,
    ensures
        advert_effects(n, own_key, linked, a) == if n.trusted.contains_key(peer)
            && n.trusted[peer].static_pub == key && !linked.contains(peer) && bytes_less(
            own_key@,
            key@,
        ) {
            seq![EffectView::Dial { peer, key, addrs: a.addrs@, name: a.name@, verify: false }]
        } else {
            Seq::empty()
        },
        n.discovered.dom().finite() && n.discovered.dom().len() < 256 ==> {
            let seen = advert_node(n, a, now).discovered;
            &&& seen.contains_key(peer)
            &&& seen[peer].static_pub == key && seen[peer].addr == a.addrs@[0] && seen[peer].name
                == a.name@ && seen[peer].pair_pin == opt_view(a.pair_pin) && seen[peer].last_seen == now
        },
{
    crate::driver::resync::id_text_reads_back(peer);
    crate::driver::resync::id_text_reads_back(key);
    if n.discovered.dom().finite() && n.discovered.dom().len() < 256 {
        crate::driver::discovered::seen_device_is_remembered(
            n.discovered,
            peer,
            ResolvedView {
                static_pub: key,
                addr: a.addrs@[0],
                name: a.name@,
                pair_pin: opt_view(a.pair_pin),
                last_seen: now,
            },
            now,
            peer,
        );
    }
}

/// An announcement whose id is not that of its key, or that cannot be read, is ignored.
pub proof fn forged_announcement_is_ignored(
    n: NodeView,
    own_key: Id,
    linked: Seq<Id>,
    a: Advert,
    now: u64,
    peer: Id,
    key: Id,
)
    requires
        a.peer_id_hex@ == crate::codec::hex_text(peer@),
        a.static_pub_hex@ == crate::codec::hex_text(key@),
        peer != peer_id_of(key),
    ensures
        advert_node(n, a, now) == n,
        advert_effects(n, own_key, linked, a).len() == 0,
{
    crate::driver::resync::id_text_reads_back(peer);
    crate::driver::resync::id_text_reads_back(key);
}

/// The addresses of a dial are tried one after the other, from the first to the last,
/// until one links the peer.
pub proof fn every_address_is_tried(addrs: Seq<SocketAddr>, i: int)
    requires
        0 <= i < addrs.len(),
    ensures
        dial_step(addrs, i, true) == DialStep::Linked,
        i + 1 < addrs.len() ==> dial_step(addrs, i, false) == DialStep::Try(addrs[i + 1]),
        i + 1 == addrs.len() ==> dial_step(addrs, i, false) == DialStep::GiveUp,
{
}

/// The end of an announcement counts as the loss of the primary only where it has no
/// session.
pub proof fn ended_announcement_spares_a_live_link(primary: Option<Id>, peer: Id)
    ensures
        removed_effects(true, primary).len() == 0,
        removed_effects(false, Some(peer)) == seq![
            EffectView::Emit(EventView::PeerLost { peer_id: peer }),
        ],
        removed_effects(false, None).len() == 0,
{
}

} // verus!
