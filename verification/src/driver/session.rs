//! How sessions come about: what follows a handshake on either side, and what
//! becomes of pairs that nobody confirmed.
use vstd::prelude::*;
use vstd::string::*;

use crate::clock::LAST_INSTANT;
use crate::driver::effects::{Effect, EffectView};
use crate::driver::node::{Node, NodeView};
use crate::driver::store::{stored_peer, stored_record, StoredPeer};
use crate::handshake::{
    add_pending, admit_handshake, live_pairs, pended, peer_id_of, reap_pending, reaps_primary,
    refusal, undo_admission, unreap, Admission, Install, PendingPair, PendingView, PrimaryLink,
    Reaped, Refusal, TrustedView, Unexpired, PAIRING_WINDOW, TOFU_PLACEHOLDER_NAME,
};
use crate::idmap::not_kept;
use crate::ids::Id;
use crate::net::SocketAddr;
use crate::wire::{views, Event, EventView, Metric};

verus! {

/// A handshake that another device began: it proved to hold the key `remote`.
pub struct Caller {
    pub remote: Id,
    pub from: SocketAddr,
    /// The words that the new session gives to compare.
    pub sas_words: [String; 6],
}

/// How the answer to a handshake goes on.
pub enum Answer {
    /// It is refused.
    Refuse(Refusal),
    /// The new peer has to be stored first.
    Store { record: StoredPeer, admission: Admission },
    /// The session can be installed.
    Install(Admission),
}

/// What is known of an admitted caller.
#[verifier::ext_equal]
pub ghost struct AdmissionView {
    pub peer_id: Id,
    pub name: Seq<char>,
    pub newly_trusted: bool,
    pub install: Install,
    pub replaces_live: bool,
}

/// What is known of an admitted caller.
pub open spec fn admission_view(a: Admission) -> AdmissionView {
    AdmissionView {
        peer_id: a.peer_id,
        name: a.name@,
        newly_trusted: a.newly_trusted,
        install: a.install,
        replaces_live: a.replaces_live,
    }
}

/// The admission of a caller that is not refused.
pub open spec fn admitted(n: NodeView, remote: Id, primary: PrimaryLink) -> AdmissionView {
    let peer = peer_id_of(remote);
    let known = n.trusted.contains_key(peer);
    AdmissionView {
        peer_id: peer,
        name: if known {
            n.trusted[peer].name
        } else {
            TOFU_PLACEHOLDER_NAME@
        },
        newly_trusted: !known,
        install: if primary.peer == Some(peer) {
            Install::IfGeneration(primary.generation)
        } else {
            Install::IfEmpty
        },
        replaces_live: primary.peer == Some(peer) && primary.live,
    }
}

/// The memory with a caller trusted: one that was not is under a name to be
/// replaced.
pub open spec fn trusting(n: NodeView, remote: Id) -> NodeView {
    if n.trusted.contains_key(peer_id_of(remote)) {
        n
    } else {
        NodeView {
            trusted: n.trusted.insert(
                peer_id_of(remote),
                TrustedView { static_pub: remote, name: TOFU_PLACEHOLDER_NAME@ },
            ),
            ..n
        }
    }
}

/// The pair that waits for the user's word on a caller.
pub open spec fn caller_pair(c: Caller, name: Seq<char>, now: u64) -> PendingView {
    PendingView {
        static_pub: c.remote,
        name,
        sas_words: views(c.sas_words@),
        from: c.from,
        expires_at: (now + PAIRING_WINDOW) as u64,
    }
}

/// The memory once a caller may have its session: a new one waits for the user's
/// word.
pub open spec fn awaiting(n: NodeView, c: Caller, a: AdmissionView, now: u64, after: NodeView) -> bool {
    if a.newly_trusted {
        &&& pended(n.pending, a.peer_id, caller_pair(c, a.name, now), now, after.pending)
        &&& after == (NodeView { pending: after.pending, ..n })
    } else {
        after == n
    }
}

/// What comes of a handshake that another device began.
pub open spec fn answered(
    n: NodeView,
    c: Caller,
    from_text: Seq<char>,
    primary: PrimaryLink,
    persists: bool,
    now: u64,
    after: NodeView,
    r: Answer,
) -> bool {
    match refusal(n.trusted, c.remote, n.window, now) {
        Some(why) => r == Answer::Refuse(why) && after == n,
        None => {
            let a = admitted(n, c.remote, primary);
            if a.newly_trusted && persists {
                &&& r matches Answer::Store { record, admission } && record@ == stored_record(
                    a.peer_id,
                    c.remote,
                    a.name,
                    Some(from_text),
                ) && admission_view(admission) == a
                &&& after == trusting(n, c.remote)
            } else {
                &&& r matches Answer::Install(admission) && admission_view(admission) == a
                &&& awaiting(trusting(n, c.remote), c, a, now, after)
            }
        },
    }
}

fn wait_for_word(node: &mut Node, caller: &Caller, a: &Admission, now: u64)
    requires
        now <= LAST_INSTANT,
    ensures
        awaiting(old(node)@, *caller, admission_view(*a), now, final(node)@),
{
    let ghost n = node@;
    if a.newly_trusted {
        let words = crate::driver::inbound::copy_words(&caller.sas_words);
        add_pending(
            &mut node.pending,
            a.peer_id,
            caller.remote,
            a.name.clone(),
            words,
            caller.from,
            now,
        );
        assert(node@ =~= (NodeView { pending: node@.pending, ..n }));
    }
}

/// Decides on a handshake that another device began. `from_text` is where it came
/// from, as it is written.
pub fn answer_handshake(
    node: &mut Node,
    caller: &Caller,
    from_text: String,
    primary: &PrimaryLink,
    persists: bool,
    now: u64,
) -> (r: Answer)
    requires
        now <= LAST_INSTANT,
    ensures
        answered(old(node)@, *caller, from_text@, *primary, persists, now, final(node)@, r),
{
    let ghost n = node@;
    match admit_handshake(&mut node.trusted, caller.remote, node.window, primary, now) {
        Err(why) => {
            assert(node@ =~= n);
            Answer::Refuse(why)
        },
        Ok(a) => {
            assert(admission_view(a) =~= admitted(n, caller.remote, *primary));
            assert(node@ =~= trusting(n, caller.remote));
            if a.newly_trusted && persists {
                let record = stored_peer(a.peer_id, caller.remote, a.name.clone(), Some(from_text));
                return Answer::Store { record, admission: a };
            }
            wait_for_word(node, caller, &a, now);
            Answer::Install(a)
        },
    }
}

/// What comes of a new peer once it is known whether it was stored: one that was
/// not is not trusted, and the handshake fails.
pub open spec fn kept_or_dropped(
    n: NodeView,
    c: Caller,
    a: AdmissionView,
    kept: bool,
    now: u64,
    after: NodeView,
) -> bool {
    if kept {
        awaiting(n, c, a, now, after)
    } else {
        after == (NodeView { trusted: n.trusted.remove(a.peer_id), ..n })
    }
}

/// Goes on with a handshake once it is known whether the new peer was stored; says
/// whether the session can be installed.
pub fn after_store(node: &mut Node, caller: &Caller, admission: &Admission, kept: bool, now: u64) -> (install: bool)
    requires
        now <= LAST_INSTANT,
    ensures
        install == kept,
        kept_or_dropped(old(node)@, *caller, admission_view(*admission), kept, now, final(node)@),
{
    let ghost n = node@;
    if kept {
        wait_for_word(node, caller, admission, now);
    } else {
        undo_admission(&mut node.trusted, admission.peer_id);
        assert(node@ =~= (NodeView { trusted: n.trusted.remove(admission.peer_id), ..n }));
    }
    kept
}

/// What follows once the session of a handshake that another device began is
/// installed: the answer goes out last.
pub open spec fn install_effects(a: AdmissionView, from: SocketAddr, installed: bool) -> Seq<EffectView> {
    if installed {
        seq![
            EffectView::SetPeerInfo { peer: a.peer_id, addr: from },
            EffectView::RememberAddr { peer: a.peer_id, addr: from },
            EffectView::AnswerHandshake { addr: from },
        ]
    } else {
        Seq::empty()
    }
}

/// Goes on with a handshake once its session was installed, or another was
/// quicker.
pub fn after_install(admission: &Admission, from: SocketAddr, installed: bool) -> (out: Vec<Effect>)
    ensures
        views(out@) == install_effects(admission_view(*admission), from, installed),
{
    let mut out: Vec<Effect> = Vec::new();
    if installed {
        let peer = admission.peer_id;
        out.push(Effect::SetPeerInfo { peer, addr: from });
        out.push(Effect::RememberAddr { peer, addr: from });
        out.push(Effect::AnswerHandshake { addr: from });
    }
    assert(views(out@) =~= install_effects(admission_view(*admission), from, installed));
    out
}

/// What follows once the answer to a handshake was sent, or could not be. Where a
/// live session was replaced, nobody should notice.
pub open spec fn answer_effects(a: AdmissionView, sent: bool) -> Seq<EffectView> {
    let seen = if a.replaces_live {
        Seq::empty()
    } else {
        seq![EffectView::Emit(EventView::PeerSeen { peer_id: a.peer_id, name: a.name })]
    };
    if sent {
        seen + seq![EffectView::Emit(EventView::HandshakeOk)]
    } else {
        seq![EffectView::Count(Metric::HandshakeFail)]
    }
}

/// Goes on with a handshake once its answer was sent, or could not be.
pub fn after_answer(admission: Admission, sent: bool) -> (out: Vec<Effect>)
    ensures
        views(out@) == answer_effects(admission_view(admission), sent),
{
    let ghost a = admission_view(admission);
    let mut out: Vec<Effect> = Vec::new();
    if sent {
        if !admission.replaces_live {
            out.push(
                Effect::Emit(
                    Event::PeerSeen { peer_id: admission.peer_id, name: admission.name },
                ),
            );
        }
        out.push(Effect::Emit(Event::HandshakeOk));
    } else {
        out.push(Effect::Count(Metric::HandshakeFail));
    }
    assert(views(out@) =~= answer_effects(a, sent));
    out
}

/// A dial that reached its peer.
pub struct Reached {
    pub peer: Id,
    pub key: Id,
    pub addr: SocketAddr,
    pub name: String,
    /// The user has to confirm the peer.
    pub verify: bool,
    /// The words that the new session gives to compare.
    pub sas_words: [String; 6],
}

/// The pair that waits for the user's word on a peer that was dialed.
pub open spec fn reached_pair(d: Reached, now: u64) -> PendingView {
    PendingView {
        static_pub: d.key,
        name: d.name@,
        sas_words: views(d.sas_words@),
        from: d.addr,
        expires_at: (now + PAIRING_WINDOW) as u64,
    }
}

/// What follows once a peer was reached.
pub open spec fn reached_effects(d: Reached, installed: bool) -> Seq<EffectView> {
    if installed {
        seq![
            EffectView::SetPeerInfo { peer: d.peer, addr: d.addr },
            EffectView::RememberAddr { peer: d.peer, addr: d.addr },
            EffectView::Emit(EventView::PeerSeen { peer_id: d.peer, name: d.name@ }),
            EffectView::Emit(EventView::HandshakeOk),
        ]
    } else {
        Seq::empty()
    }
}

/// Goes on with a dial that reached its peer, once its session was installed, or
/// another was quicker.
pub fn after_reached(node: &mut Node, d: Reached, installed: bool, now: u64) -> (out: Vec<Effect>)
    requires
        now <= LAST_INSTANT,
    ensures
        views(out@) == reached_effects(d, installed),
        installed && d.verify ==> {
            &&& pended(old(node)@.pending, d.peer, reached_pair(d, now), now, final(node)@.pending)
            &&& final(node)@ == (NodeView { pending: final(node)@.pending, ..old(node)@ })
        },
        !(installed && d.verify) ==> final(node)@ == old(node)@,
{
    let ghost n = node@;
    let ghost dial = d;
    let mut out: Vec<Effect> = Vec::new();
    if installed {
        out.push(Effect::SetPeerInfo { peer: d.peer, addr: d.addr });
        out.push(Effect::RememberAddr { peer: d.peer, addr: d.addr });
        if d.verify {
            add_pending(
                &mut node.pending,
                d.peer,
                d.key,
                d.name.clone(),
                d.sas_words,
                d.addr,
                now,
            );
            assert(node@ =~= (NodeView { pending: node@.pending, ..n }));
        }
        out.push(Effect::Emit(Event::PeerSeen { peer_id: d.peer, name: d.name }));
        out.push(Effect::Emit(Event::HandshakeOk));
    }
    assert(views(out@) =~= reached_effects(dial, installed));
    out
}

/// What follows once the keys of a session were renewed.
pub open spec fn renewed_effects(peer: Id, addr: SocketAddr, installed: bool) -> Seq<EffectView> {
    if installed {
        seq![
            EffectView::SetPeerInfo { peer, addr },
            EffectView::RememberAddr { peer, addr },
            EffectView::Emit(EventView::HandshakeOk),
        ]
    } else {
        Seq::empty()
    }
}

/// Goes on with a renewal of keys once its session was installed, or the old one
/// was gone.
pub fn after_renewed(peer: Id, addr: SocketAddr, installed: bool) -> (out: Vec<Effect>)
    ensures
        views(out@) == renewed_effects(peer, addr, installed),
{
    let mut out: Vec<Effect> = Vec::new();
    if installed {
        out.push(Effect::SetPeerInfo { peer, addr });
        out.push(Effect::RememberAddr { peer, addr });
        out.push(Effect::Emit(Event::HandshakeOk));
    }
    assert(views(out@) =~= renewed_effects(peer, addr, installed));
    out
}

/// The pairs that nobody confirmed in time.
pub open spec fn expired_pairs(n: NodeView, now: u64) -> Map<Id, PendingView> {
    not_kept::<PendingPair, Unexpired>(n.pending, (Unexpired { now }))
}

/// The memory without the pairs that nobody confirmed in time, and without trust
/// in them.
pub open spec fn reaped_node(n: NodeView, now: u64) -> NodeView {
    NodeView {
        pending: live_pairs(n.pending, now),
        trusted: n.trusted.remove_keys(expired_pairs(n, now).dom()),
        ..n
    }
}

/// What follows when pairs expired: the primary's session ends if it is one of them,
/// and so does the verification.
pub open spec fn reap_effects(expired: Map<Id, PendingView>, primary: Option<Id>) -> Seq<EffectView> {
    let drop = if primary is Some && expired.contains_key(primary->0) {
        seq![EffectView::DropPrimary]
    } else {
        Seq::empty()
    };
    drop + seq![EffectView::Emit(EventView::SasReset)]
}

/// Withdraws trust from the pairs that nobody confirmed in time. What comes back
/// has to be stored; with it comes what is done before.
pub fn reap(node: &mut Node, primary: Option<Id>, now: u64) -> (r: Option<(Reaped, Vec<Effect>)>)
    ensures
        final(node)@ == reaped_node(old(node)@, now),
        match r {
            None => expired_pairs(old(node)@, now) == Map::<Id, PendingView>::empty(),
            Some((reaped, out)) => {
                &&& expired_pairs(old(node)@, now) != Map::<Id, PendingView>::empty()
                &&& reaped.expired@ == expired_pairs(old(node)@, now)
                &&& reaped.withdrawn@ == old(node)@.trusted.restrict(reaped.expired@.dom())
                &&& views(out@) == reap_effects(reaped.expired@, primary)
            },
        },
{
    let ghost n = node@;
    let reaped = reap_pending(&mut node.pending, &mut node.trusted, now);
    assert(node@ =~= reaped_node(n, now));
    if reaped.expired.is_empty() {
        assert(reaped.expired@ =~= Map::<Id, PendingView>::empty());
        return None;
    }
    let mut out: Vec<Effect> = Vec::new();
    if reaps_primary(&reaped, primary) {
        out.push(Effect::DropPrimary);
    }
    out.push(Effect::Emit(Event::SasReset));
    assert(views(out@) =~= reap_effects(reaped.expired@, primary));
    Some((reaped, out))
}

/// Takes a reaping back where it could not be stored.
pub fn after_reap(node: &mut Node, reaped: Reaped, kept: bool)
    ensures
        kept ==> final(node)@ == old(node)@,
        !kept ==> final(node)@ == (NodeView {
            trusted: old(node)@.trusted.union_prefer_right(reaped.withdrawn@),
            pending: reaped.expired@.union_prefer_right(old(node)@.pending),
            ..old(node)@
        }),
{
    let ghost n = node@;
    if !kept {
        unreap(&mut node.pending, &mut node.trusted, reaped);
        assert(node@ =~= (NodeView {
            trusted: n.trusted.union_prefer_right(reaped.withdrawn@),
            pending: reaped.expired@.union_prefer_right(n.pending),
            ..n
        }));
    }
}

/// A stranger that gets in during the pairing window waits for the user's word; one
/// that could not be stored leaves everything as it was.
pub proof fn strangers_wait_or_leave_no_trace(
    n: NodeView,
    c: Caller,
    primary: PrimaryLink,
    kept: bool,
    now: u64,
    after: NodeView,
)
    requires
        !n.trusted.contains_key(peer_id_of(c.remote)),
        kept_or_dropped(
            trusting(n, c.remote),
            c,
            admitted(n, c.remote, primary),
            kept,
            now,
            after,
        ),
    ensures
        kept ==> after.pending.contains_key(peer_id_of(c.remote)) && after.trusted.contains_key(
            peer_id_of(c.remote),
        ),
        !kept ==> after == n,
{
    if !kept {
        assert(after.trusted =~= n.trusted);
        assert(after =~= n);
    }
}

/// A caller that proved a key under which it is trusted gets its session, under its id
/// and its name; nothing changes.
pub proof fn trusted_caller_gets_its_session(
    n: NodeView,
    c: Caller,
    from_text: Seq<char>,
    primary: PrimaryLink,
    persists: bool,
    now: u64,
    after: NodeView,
    r: Answer,
)
    requires
        answered(n, c, from_text, primary, persists, now, after, r),
        n.trusted.contains_key(peer_id_of(c.remote)),
    ensures
        after == n,
        n.trusted[peer_id_of(c.remote)].static_pub == c.remote ==> (r matches Answer::Install(a) && {
            &&& a.peer_id == peer_id_of(c.remote)
            &&& a.name@ == n.trusted[peer_id_of(c.remote)].name
            &&& !a.newly_trusted
            &&& a.replaces_live == (primary.peer == Some(a.peer_id) && primary.live)
            &&& primary.peer == Some(a.peer_id) ==> a.install == Install::IfGeneration(
                primary.generation,
            )
            &&& primary.peer != Some(a.peer_id) ==> a.install == Install::IfEmpty
        }),
        n.trusted[peer_id_of(c.remote)].static_pub != c.remote ==> r == Answer::Refuse(
            Refusal::KeyMismatch,
        ),
{
}

/// A stranger gets in only while the window is open and there is room. Then it is
/// trusted under the key that it proved; where the daemon stores anything it is stored
/// first, with that key and where it called from, and else it waits at once for the
/// user's word, with the words to compare, for ninety seconds.
pub proof fn stranger_is_let_in_to_wait(
    n: NodeView,
    c: Caller,
    from_text: Seq<char>,
    primary: PrimaryLink,
    persists: bool,
    now: u64,
    after: NodeView,
    r: Answer,
)
    requires
        answered(n, c, from_text, primary, persists, now, after, r),
        !n.trusted.contains_key(peer_id_of(c.remote)),
        now <= LAST_INSTANT,
    ensures
        ({
            let peer = peer_id_of(c.remote);
            let open = n.window is Some && now < n.window->0 && n.trusted.dom().len() < 256;
            &&& !open ==> r is Refuse && after == n
            &&& open ==> !(r is Refuse) && after.trusted.contains_key(peer)
                && after.trusted[peer].static_pub == c.remote
            &&& open ==> after.trusted.remove(peer) == n.trusted
            &&& open && persists ==> after.pending == n.pending && (r matches Answer::Store {
                record,
                admission,
            } && {
                &&& record@.peer_id_hex == crate::codec::hex_text(peer@)
                &&& record@.static_pub_hex == crate::codec::hex_text(c.remote@)
                &&& record@.last_addr == Some(from_text)
                &&& admission.peer_id == peer && admission.newly_trusted
            })
            &&& open && !persists ==> r is Install && after.pending.contains_key(peer) && {
                let p = after.pending[peer];
                &&& p.static_pub == c.remote && p.from == c.from
                &&& p.sas_words == views(c.sas_words@)
                &&& p.expires_at == now + 90_000
            }
        }),
{
    let peer = peer_id_of(c.remote);
    crate::handshake::trusted_peers_are_let_in(n.trusted, c.remote, n.window, now);
    assert(trusting(n, c.remote).trusted.remove(peer) =~= n.trusted);
    if refusal(n.trusted, c.remote, n.window, now) is None && !persists {
        let a = admitted(n, c.remote, primary);
        crate::handshake::waiting_pair_is_remembered(
            n.pending,
            peer,
            caller_pair(c, a.name, now),
            now,
            after.pending,
            peer,
        );
    }
}

/// A stranger that was stored waits for the user's word with the words to compare, for
/// ninety seconds; its session goes up only then.
pub proof fn stored_stranger_waits(
    n: NodeView,
    c: Caller,
    a: AdmissionView,
    now: u64,
    after: NodeView,
)
    requires
        kept_or_dropped(n, c, a, true, now, after),
        a.newly_trusted,
        now <= LAST_INSTANT,
    ensures
        after.trusted == n.trusted,
        after.pending.contains_key(a.peer_id),
        ({
            let p = after.pending[a.peer_id];
            &&& p.static_pub == c.remote && p.from == c.from && p.name == a.name
            &&& p.sas_words == views(c.sas_words@)
            &&& p.expires_at == now + 90_000
        }),
{
    crate::handshake::waiting_pair_is_remembered(
        n.pending,
        a.peer_id,
        caller_pair(c, a.name, now),
        now,
        after.pending,
        a.peer_id,
    );
}

/// Once its session is installed a caller is answered where it called from, and where it
/// is is remembered. Once the answer is sent the state machine learns of the session,
/// and of the peer too unless a live session was replaced; an answer that is not sent
/// counts as a failure and nothing else.
pub proof fn callers_are_answered(a: AdmissionView, from: SocketAddr)
    ensures
        install_effects(a, from, true) == seq![
            EffectView::SetPeerInfo { peer: a.peer_id, addr: from },
            EffectView::RememberAddr { peer: a.peer_id, addr: from },
            EffectView::AnswerHandshake { addr: from },
        ],
        install_effects(a, from, false).len() == 0,
        answer_effects(a, true).len() > 0 && answer_effects(a, true).last() == EffectView::Emit(
            EventView::HandshakeOk,
        ),
        answer_effects(a, true).contains(
            EffectView::Emit(EventView::PeerSeen { peer_id: a.peer_id, name: a.name }),
        ) == !a.replaces_live,
        answer_effects(a, false) == seq![EffectView::Count(Metric::HandshakeFail)],
{
    if !a.replaces_live {
        assert(answer_effects(a, true)[0] == EffectView::Emit(
            EventView::PeerSeen { peer_id: a.peer_id, name: a.name },
        ));
    }
}

/// A peer that was reached is known at the address where it was, and the state machine
/// learns of it and of the session; keys that were renewed are told of as a session, but
/// not as a peer. Where another session was quicker, nothing happens.
pub proof fn reached_peer_is_told_of(d: Reached, peer: Id, addr: SocketAddr)
    ensures
        reached_effects(d, true) == seq![
            EffectView::SetPeerInfo { peer: d.peer, addr: d.addr },
            EffectView::RememberAddr { peer: d.peer, addr: d.addr },
            EffectView::Emit(EventView::PeerSeen { peer_id: d.peer, name: d.name@ }),
            EffectView::Emit(EventView::HandshakeOk),
        ],
        reached_effects(d, false).len() == 0,
        renewed_effects(peer, addr, true) == seq![
            EffectView::SetPeerInfo { peer, addr },
            EffectView::RememberAddr { peer, addr },
            EffectView::Emit(EventView::HandshakeOk),
        ],
        renewed_effects(peer, addr, false).len() == 0,
{
}

/// A pair that nobody confirmed in time loses its trust and waits no more; everybody
/// else keeps both. The verification ends, and so does the primary's session if it is
/// the primary.
pub proof fn unconfirmed_pairs_lose_their_trust(n: NodeView, now: u64, primary: Option<Id>, p: Id)
    ensures
        ({
            let after = reaped_node(n, now);
            let expired = n.pending.contains_key(p) && n.pending[p].expires_at <= now;
            &&& expired_pairs(n, now).contains_key(p) == expired
            &&& expired ==> !after.trusted.contains_key(p) && !after.pending.contains_key(p)
            &&& !expired ==> after.trusted.contains_key(p) == n.trusted.contains_key(p)
                && after.pending.contains_key(p) == n.pending.contains_key(p)
            &&& !expired && n.trusted.contains_key(p) ==> after.trusted[p] == n.trusted[p]
            &&& !expired && n.pending.contains_key(p) ==> after.pending[p] == n.pending[p]
            &&& after == (NodeView { trusted: after.trusted, pending: after.pending, ..n })
        }),
        ({
            let out = reap_effects(expired_pairs(n, now), primary);
            &&& out.contains(EffectView::Emit(EventView::SasReset))
            &&& out.contains(EffectView::DropPrimary) == (primary matches Some(q)
                && n.pending.contains_key(q) && n.pending[q].expires_at <= now)
        }),
{
    let out = reap_effects(expired_pairs(n, now), primary);
    assert(out[out.len() - 1] == EffectView::Emit(EventView::SasReset));
    if primary is Some && expired_pairs(n, now).contains_key(primary->0) {
        assert(out[0] == EffectView::DropPrimary);
    }
}

/// A dialed peer that has to be confirmed waits with its key, its name, the words of its
/// session and where it was reached, for ninety seconds.
pub proof fn dialed_peer_waits_with_its_words(d: Reached, now: u64)
    requires
        now <= LAST_INSTANT,
    ensures
        ({
            let p = reached_pair(d, now);
            &&& p.static_pub == d.key && p.name == d.name@
            &&& p.sas_words == views(d.sas_words@)
            &&& p.from == d.addr
            &&& p.expires_at == now + 90_000
        }),
{
}

} // verus!
