//! Renewing the keys of sessions that have been up for long or carried much.
use vstd::prelude::*;

use crate::backoff::{after_session, peer_session_ended, state_of, PeerBackoff};
use crate::clock::{elapsed, elapsed_since};
use crate::driver::effects::{Effect, EffectView};
use crate::handshake::{TrustedPeer, TrustedView};
use crate::idmap::IdMap;
use crate::ids::Id;
use crate::net::SocketAddr;
use crate::wire::{views, Metric};

verus! {

/// How often sessions are looked at.
pub const REKEY_CHECK_INTERVAL: u64 = 500;

/// A session that is up.
#[derive(Debug, Clone, Copy)]
pub struct LinkedSession {
    pub peer: Id,
    /// Since when it has been up.
    pub established: Option<u64>,
    /// It is old enough, or has carried enough, for new keys.
    pub due: bool,
    /// Of its two ends this is the one that renews the keys.
    pub ours: bool,
    pub addr: Option<SocketAddr>,
    /// Its number among the sessions with the peer.
    pub generation: Option<u64>,
}

/// A session whose keys are to be renewed.
#[derive(Debug, Clone, Copy)]
pub struct Rekey {
    pub peer: Id,
    pub key: Id,
    pub addr: SocketAddr,
    pub generation: u64,
    /// How long the session has been up.
    pub age: u64,
}

/// The keys of the session can be renewed now, from here.
pub open spec fn renewable(trusted: Map<Id, TrustedView>, s: LinkedSession) -> bool {
    s.established is Some && s.due && s.ours && s.addr is Some && trusted.contains_key(s.peer)
        && s.generation is Some
}

/// The first session whose keys can be renewed.
pub open spec fn first_renewable(
    trusted: Map<Id, TrustedView>,
    sessions: Seq<LinkedSession>,
    now: u64,
) -> Option<Rekey>
    decreases sessions.len(),
{
    if sessions.len() == 0 {
        None
    } else {
        let s = sessions[0];
        if renewable(trusted, s) {
            Some(
                Rekey {
                    peer: s.peer,
                    key: trusted[s.peer].static_pub,
                    addr: s.addr->0,
                    generation: s.generation->0,
                    age: elapsed(s.established->0, now),
                },
            )
        } else {
            first_renewable(trusted, sessions.drop_first(), now)
        }
    }
}

/// Picks the session whose keys are renewed: one at a time, and none while
/// another handshake is under way.
pub fn pick_rekey(
    trusted: &IdMap<TrustedPeer>,
    sessions: &Vec<LinkedSession>,
    handshake_busy: bool,
    now: u64,
) -> (r: Option<Rekey>)
    ensures
        r == if handshake_busy {
            None::<Rekey>
        } else {
            first_renewable(trusted@, sessions@, now)
        },
{
    if handshake_busy {
        return None;
    }
    let mut i: usize = 0;
    assert(sessions@.skip(0) =~= sessions@);
    while i < sessions.len()
        invariant
            i <= sessions@.len(),
            !handshake_busy,
            first_renewable(trusted@, sessions@.skip(i as int), now) == first_renewable(
                trusted@,
                sessions@,
                now,
            ),
        decreases sessions@.len() - i,
    {
        assert(sessions@.skip(i as int)[0] == sessions@[i as int]);
        assert(sessions@.skip(i as int).drop_first() =~= sessions@.skip(i + 1));
        let s = sessions[i];
        if s.due && s.ours {
            if let Some(established) = s.established {
                if let Some(addr) = s.addr {
                    if let Some(t) = trusted.get(&s.peer) {
                        if let Some(generation) = s.generation {
                            return Some(
                                Rekey {
                                    peer: s.peer,
                                    key: t.static_pub,
                                    addr,
                                    generation,
                                    age: elapsed_since(established, now),
                                },
                            );
                        }
                    }
                }
            }
        }
        i = i + 1;
    }
    None
}

/// Notes how a renewal went. One that failed is no reason to redial later: it is
/// only counted.
pub fn after_rekey(backoff: &mut IdMap<PeerBackoff>, peer: Id, age: u64, renewed: bool) -> (out: Vec<Effect>)
    ensures
        renewed ==> final(backoff)@ == old(backoff)@.insert(
            peer,
            after_session(state_of(old(backoff)@, peer), age),
        ) && views(out@) == Seq::<EffectView>::empty(),
        !renewed ==> final(backoff)@ == old(backoff)@ && views(out@) == seq![
            EffectView::Count(Metric::HandshakeFail),
        ],
{
    let mut out: Vec<Effect> = Vec::new();
    if renewed {
        peer_session_ended(backoff, peer, age);
        assert(views(out@) =~= Seq::empty());
    } else {
        out.push(Effect::Count(Metric::HandshakeFail));
        assert(views(out@) =~= seq![EffectView::Count(Metric::HandshakeFail)]);
    }
    out
}

/// Every session, primary or not, whose keys can be renewed keeps some session
/// from being left as it is.
pub proof fn due_sessions_are_not_passed_over(
    trusted: Map<Id, TrustedView>,
    sessions: Seq<LinkedSession>,
    now: u64,
    i: int,
)
    requires
        0 <= i < sessions.len(),
        renewable(trusted, sessions[i]),
    ensures
        first_renewable(trusted, sessions, now) is Some,
    decreases sessions.len(),
{
    if i > 0 && !renewable(trusted, sessions[0]) {
        let rest = sessions.drop_first();
        assert(rest[i - 1] == sessions[i]);
        due_sessions_are_not_passed_over(trusted, rest, now, i - 1);
    }
}

/// The session whose keys are renewed is one that is due, that this device is the one to
/// renew, and whose peer is trusted; it is renewed under the key of that trust, where the
/// peer is, and only as long as it is the same session. No session before it qualifies.
pub proof fn renewed_session_is_due(
    trusted: Map<Id, TrustedView>,
    sessions: Seq<LinkedSession>,
    now: u64,
)
    requires
        first_renewable(trusted, sessions, now) is Some,
    ensures
        ({
            let r = first_renewable(trusted, sessions, now)->0;
            exists|i: int|
                {
                    &&& 0 <= i < sessions.len()
                    &&& (#[trigger] sessions[i]).peer == r.peer
                    &&& sessions[i].due && sessions[i].ours
                    &&& trusted.contains_key(r.peer) && r.key == trusted[r.peer].static_pub
                    &&& sessions[i].addr == Some(r.addr)
                    &&& sessions[i].generation == Some(r.generation)
                    &&& sessions[i].established is Some && r.age == elapsed(
                        sessions[i].established->0,
                        now,
                    )
                    &&& forall|j: int| 0 <= j < i ==> !renewable(trusted, #[trigger] sessions[j])
                }
        }),
    decreases sessions.len(),
{
    let r = first_renewable(trusted, sessions, now)->0;
    if renewable(trusted, sessions[0]) {
        assert(sessions[0].peer == r.peer);
    } else {
        let rest = sessions.drop_first();
        renewed_session_is_due(trusted, rest, now);
        let i = choose|i: int|
            {
                &&& 0 <= i < rest.len()
                &&& (#[trigger] rest[i]).peer == r.peer
                &&& rest[i].due && rest[i].ours
                &&& trusted.contains_key(r.peer) && r.key == trusted[r.peer].static_pub
                &&& rest[i].addr == Some(r.addr)
                &&& rest[i].generation == Some(r.generation)
                &&& rest[i].established is Some && r.age == elapsed(rest[i].established->0, now)
                &&& forall|j: int| 0 <= j < i ==> !renewable(trusted, #[trigger] rest[j])
            };
        assert(sessions[i + 1] == rest[i]);
        assert forall|j: int| 0 <= j < i + 1 implies !renewable(trusted, #[trigger] sessions[j]) by {
            if j > 0 {
                assert(rest[j - 1] == sessions[j]);
            }
        }
        assert(sessions[i + 1].peer == r.peer);
    }
}

/// A session can be renewed from here iff it is up, due and this device's to renew, it is
/// known where its peer is and which session it is, and the peer is trusted.
pub proof fn what_can_be_renewed(trusted: Map<Id, TrustedView>, s: LinkedSession)
    ensures
        renewable(trusted, s) == (s.due && s.ours && trusted.contains_key(s.peer) && s.established
            is Some && s.addr is Some && s.generation is Some),
{
}

} // verus!
