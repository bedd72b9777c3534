//! Who may open a session: the trust store, trust on first use while the pairing
//! window is open, and the pairs that wait for the user's verbal confirmation.
use vstd::prelude::*;

use crate::clock::LAST_INSTANT;
use crate::codec::{blake3_digest, blake3_hash, hex_encode_bytes, hex_text};
use crate::idmap::{is_least, kept, not_kept, IdMap, Keep, Rank};
use crate::ids::{same_id, Id};
use crate::net::SocketAddr;
use crate::wire::views;

verus! {

/// Name of a peer between its trust on first use and its first hello.
pub const TOFU_PLACEHOLDER_NAME: &'static str = "New Peer";

/// How long the pairing window stays open, and how long a pair waits for the
/// user's confirmation.
pub const PAIRING_WINDOW: u64 = 90_000;

/// Most pairs that wait for confirmation at a time.
pub const MAX_PENDING_PAIRS: usize = 64;

/// Size of the trust store from which nobody is trusted on first use any more.
pub const MAX_TOFU_TRUSTED_PEERS: usize = 256;

/// Most peers that explicit pairing and the peers file put in the trust store.
pub const MAX_PERSISTED_PEERS: usize = 64;

/// How often pairs that waited too long are looked for.
pub const PENDING_REAPER_INTERVAL: u64 = 30_000;

/// A peer whose key the daemon trusts.
#[derive(Debug)]
pub struct TrustedPeer {
    pub static_pub: Id,
    pub name: String,
}

/// View of a [`TrustedPeer`].
#[verifier::ext_equal]
pub ghost struct TrustedView {
    pub static_pub: Id,
    pub name: Seq<char>,
}

impl View for TrustedPeer {
    type V = TrustedView;

    open spec fn view(&self) -> TrustedView {
        TrustedView { static_pub: self.static_pub, name: self.name@ }
    }
}

impl Clone for TrustedPeer {
    fn clone(&self) -> (r: Self)
        ensures
            r@ == self@,
    {
        TrustedPeer { static_pub: self.static_pub, name: self.name.clone() }
    }
}

/// A pair that the user has not confirmed yet.
#[derive(Debug)]
pub struct PendingPair {
    pub static_pub: Id,
    pub name: String,
    /// The words that the users of both devices compare.
    pub sas_words: [String; 6],
    pub from: SocketAddr,
    pub expires_at: u64,
}

/// View of a [`PendingPair`].
#[verifier::ext_equal]
pub ghost struct PendingView {
    pub static_pub: Id,
    pub name: Seq<char>,
    pub sas_words: Seq<Seq<char>>,
    pub from: SocketAddr,
    pub expires_at: u64,
}

impl View for PendingPair {
    type V = PendingView;

    open spec fn view(&self) -> PendingView {
        PendingView {
            static_pub: self.static_pub,
            name: self.name@,
            sas_words: views(self.sas_words@),
            from: self.from,
            expires_at: self.expires_at,
        }
    }
}

/// The trust record of a peer trusted on first use.
pub fn tofu_trusted_peer(remote_static: Id) -> (r: TrustedPeer)
    ensures
        r.static_pub == remote_static,
        r.name@ == TOFU_PLACEHOLDER_NAME@,
{
    TrustedPeer { static_pub: remote_static, name: TOFU_PLACEHOLDER_NAME.to_owned() }
}

/// The peer id of a static public key: its BLAKE3 digest.
pub open spec fn peer_id_of(static_pub: Id) -> Id {
    blake3_digest(static_pub@)
}

/// Computes [`peer_id_of`].
pub fn peer_id_for(static_pub: &Id) -> (r: Id)
    ensures
        r == peer_id_of(*static_pub),
{
    blake3_hash(static_pub.as_slice())
}

/// Two lower-case hexadecimal digits for every byte.
pub fn hex_encode(bytes: &[u8]) -> (r: String)
    ensures
        r@ == hex_text(bytes@),
{
    hex_encode_bytes(bytes)
}

/// Keeps the pairs whose time is not up.
pub struct Unexpired {
    pub now: u64,
}

impl Keep<PendingPair> for Unexpired {
    open spec fn keeps(&self, key: Id, value: PendingView) -> bool {
        value.expires_at > self.now
    }

    fn keep(&self, key: &Id, value: &PendingPair) -> (r: bool) {
        value.expires_at > self.now
    }
}

/// Ranks pairs by when their time is up.
pub struct ByExpiry;

impl Rank<PendingPair> for ByExpiry {
    open spec fn rank(&self, value: PendingView) -> u64 {
        value.expires_at
    }

    fn rank_of(&self, value: &PendingPair) -> (r: u64) {
        value.expires_at
    }
}

/// The pairs of `m` whose time is not up at `now`.
pub open spec fn live_pairs(m: Map<Id, PendingView>, now: u64) -> Map<Id, PendingView> {
    kept::<PendingPair, Unexpired>(m, (Unexpired { now }))
}

/// What is left of `before` when a pair joins at `now`: the live pairs, and of
/// those, if they are at the cap, all but one that expires first.
pub open spec fn room_made(before: Map<Id, PendingView>, now: u64, after: Map<Id, PendingView>) -> bool {
    let live = live_pairs(before, now);
    if live.dom().len() >= MAX_PENDING_PAIRS {
        exists|victim: Id|
            #[trigger] is_least::<PendingPair, ByExpiry>(live, ByExpiry, victim) && after
                == live.remove(victim)
    } else {
        after == live
    }
}

/// `after` is `before` with `pair` waiting for confirmation from `now` on.
pub open spec fn pended(
    before: Map<Id, PendingView>,
    peer: Id,
    pair: PendingView,
    now: u64,
    after: Map<Id, PendingView>,
) -> bool {
    exists|room: Map<Id, PendingView>|
        #[trigger] room_made(before, now, room) && after == room.insert(peer, pair)
}

/// Lets a pair wait for confirmation: sweeps out the expired ones, evicts one
/// that expires first if the rest are at the cap, and adds it with a full window.
pub fn add_pending(
    pending: &mut IdMap<PendingPair>,
    peer: Id,
    static_pub: Id,
    name: String,
    sas_words: [String; 6],
    from: SocketAddr,
    now: u64,
)
    requires
        now <= LAST_INSTANT,
    ensures
        pended(
            old(pending)@,
            peer,
            (PendingView {
                static_pub,
                name: name@,
                sas_words: views(sas_words@),
                from,
                expires_at: (now + PAIRING_WINDOW) as u64,
            }),
            now,
            final(pending)@,
        ),
{
    let ghost before = pending@;
    pending.retain(&Unexpired { now });
    let ghost live = pending@;
    if pending.len() >= MAX_PENDING_PAIRS {
        if let Some(victim) = pending.least(&ByExpiry) {
            let _ = pending.remove(&victim);
            assert(is_least::<PendingPair, ByExpiry>(live, ByExpiry, victim));
        } else {
            assert(live.dom().len() == 0);
        }
    }
    assert(room_made(before, now, pending@));
    pending.insert(
        peer,
        PendingPair { static_pub, name, sas_words, from, expires_at: now + PAIRING_WINDOW },
    );
}

/// However many pairs waited before, at most [`MAX_PENDING_PAIRS`] wait after one
/// joins, if they did not exceed it.
pub proof fn pending_stays_within_cap(
    before: Map<Id, PendingView>,
    peer: Id,
    pair: PendingView,
    now: u64,
    after: Map<Id, PendingView>,
)
    requires
        pended(before, peer, pair, now, after),
        before.dom().finite(),
        before.dom().len() <= MAX_PENDING_PAIRS,
    ensures
        after.dom().finite(),
        after.dom().len() <= MAX_PENDING_PAIRS,
        after.contains_key(peer),
{
    let live = live_pairs(before, now);
    let room = choose|room: Map<Id, PendingView>|
        #[trigger] room_made(before, now, room) && after == room.insert(peer, pair);
    assert(live.dom().subset_of(before.dom()));
    vstd::set_lib::lemma_len_subset(live.dom(), before.dom());
    if live.dom().len() >= MAX_PENDING_PAIRS {
        let victim = choose|victim: Id|
            #[trigger] is_least::<PendingPair, ByExpiry>(live, ByExpiry, victim) && room
                == live.remove(victim);
        assert(room.dom() =~= live.dom().remove(victim));
    }
    assert(after.dom() =~= room.dom().insert(peer));
}

/// Why a handshake is refused.
#[derive(Debug, Clone, Copy, PartialEq, Eq, Structural)]
pub enum Refusal {
    /// The peer is trusted under another key.
    KeyMismatch,
    /// The peer is unknown and the pairing window is closed.
    Untrusted,
    /// The peer is unknown and the trust store is at its cap.
    TrustFull,
}

/// How the new session may be installed.
#[derive(Debug, Clone, Copy, PartialEq, Eq, Structural)]
pub enum Install {
    /// Only if the primary session is still the one of this generation.
    IfGeneration(u64),
    /// Only into an empty slot.
    IfEmpty,
}

/// The primary link as it stands when a handshake arrives.
#[derive(Debug, Clone, Copy)]
pub struct PrimaryLink {
    /// The primary's current or most recent peer.
    pub peer: Option<Id>,
    /// The generation of its session.
    pub generation: u64,
    /// Its session is live.
    pub live: bool,
}

/// A handshake that may go on.
#[derive(Debug)]
pub struct Admission {
    pub peer_id: Id,
    /// The name under which the peer is trusted.
    pub name: String,
    /// The peer was unknown and is now trusted on first use; it is to be stored
    /// and to wait for confirmation.
    pub newly_trusted: bool,
    pub install: Install,
    /// The session to install replaces a live one, which nobody should notice.
    pub replaces_live: bool,
}

/// The pairing window is open at `now`.
pub open spec fn window_open(window: Option<u64>, now: u64) -> bool {
    window matches Some(deadline) && now < deadline
}

/// Decides [`window_open`].
pub fn is_window_open(window: Option<u64>, now: u64) -> (r: bool)
    ensures
        r == window_open(window, now),
{
    match window {
        Some(deadline) => now < deadline,
        None => false,
    }
}

/// Why a handshake of `peer` with the key `remote` is refused.
pub open spec fn peer_refusal(
    trusted: Map<Id, TrustedView>,
    peer: Id,
    remote: Id,
    window: Option<u64>,
    now: u64,
) -> Option<Refusal> {
    if trusted.contains_key(peer) {
        if trusted[peer].static_pub != remote {
            Some(Refusal::KeyMismatch)
        } else {
            None
        }
    } else if !window_open(window, now) {
        Some(Refusal::Untrusted)
    } else if trusted.dom().len() >= MAX_TOFU_TRUSTED_PEERS {
        Some(Refusal::TrustFull)
    } else {
        None
    }
}

/// Why a handshake with the key `remote` is refused.
pub open spec fn refusal(
    trusted: Map<Id, TrustedView>,
    remote: Id,
    window: Option<u64>,
    now: u64,
) -> Option<Refusal> {
    peer_refusal(trusted, peer_id_of(remote), remote, window, now)
}

/// `r` is the decision on a handshake of `peer` with the key `remote`, and `after`
/// the trust store then. An unknown peer that may go on is trusted under a name to
/// be replaced.
pub open spec fn admission(
    trusted: Map<Id, TrustedView>,
    peer: Id,
    remote: Id,
    window: Option<u64>,
    primary: PrimaryLink,
    now: u64,
    after: Map<Id, TrustedView>,
    r: Result<Admission, Refusal>,
) -> bool {
    match r {
        Err(why) => {
            &&& peer_refusal(trusted, peer, remote, window, now) == Some(why)
            &&& after == trusted
        },
        Ok(a) => {
            &&& a.peer_id == peer
            &&& peer_refusal(trusted, peer, remote, window, now) is None
            &&& a.newly_trusted == !trusted.contains_key(peer)
            &&& if a.newly_trusted {
                &&& a.name@ == TOFU_PLACEHOLDER_NAME@
                &&& after == trusted.insert(
                    peer,
                    (TrustedView { static_pub: remote, name: TOFU_PLACEHOLDER_NAME@ }),
                )
            } else {
                &&& a.name@ == trusted[peer].name
                &&& after == trusted
            }
            &&& a.install == if primary.peer == Some(peer) {
                Install::IfGeneration(primary.generation)
            } else {
                Install::IfEmpty
            }
            &&& a.replaces_live == (primary.peer == Some(peer) && primary.live)
        },
    }
}

/// Decides on a handshake of `peer_id`, whose key is `remote`. A trusted peer may go
/// on under its key; an unknown one is trusted on first use while the pairing
/// window is open and the trust store below its cap.
pub fn admit_peer(
    trusted: &mut IdMap<TrustedPeer>,
    peer_id: Id,
    remote: Id,
    window: Option<u64>,
    primary: &PrimaryLink,
    now: u64,
) -> (r: Result<Admission, Refusal>)
    ensures
        admission(old(trusted)@, peer_id, remote, window, *primary, now, final(trusted)@, r),
{
    let is_primary = match primary.peer {
        Some(p) => same_id(&p, &peer_id),
        None => false,
    };
    let install = if is_primary {
        Install::IfGeneration(primary.generation)
    } else {
        Install::IfEmpty
    };
    let replaces_live = is_primary && primary.live;
    if let Some(existing) = trusted.get(&peer_id) {
        if !same_id(&existing.static_pub, &remote) {
            return Err(Refusal::KeyMismatch);
        }
        return Ok(
            Admission { peer_id, name: existing.name.clone(), newly_trusted: false, install, replaces_live },
        );
    }
    if !is_window_open(window, now) {
        return Err(Refusal::Untrusted);
    }
    if trusted.len() >= MAX_TOFU_TRUSTED_PEERS {
        return Err(Refusal::TrustFull);
    }
    let peer = tofu_trusted_peer(remote);
    let name = peer.name.clone();
    trusted.insert(peer_id, peer);
    Ok(Admission { peer_id, name, newly_trusted: true, install, replaces_live })
}

/// Decides on a handshake whose initiator proved to hold the key `remote`: it is the
/// peer under the digest of that key.
pub fn admit_handshake(
    trusted: &mut IdMap<TrustedPeer>,
    remote: Id,
    window: Option<u64>,
    primary: &PrimaryLink,
    now: u64,
) -> (r: Result<Admission, Refusal>)
    ensures
        admission(
            old(trusted)@,
            peer_id_of(remote),
            remote,
            window,
            *primary,
            now,
            final(trusted)@,
            r,
        ),
{
    let peer_id = peer_id_for(&remote);
    admit_peer(trusted, peer_id, remote, window, primary, now)
}

/// Every peer of the trust store is in it under the digest of its key.
pub open spec fn keyed_by_digest(trusted: Map<Id, TrustedView>) -> bool {
    forall|p: Id| #[trigger] trusted.contains_key(p) ==> p == peer_id_of(trusted[p].static_pub)
}

/// Trust on first use keeps every peer under the digest of its key.
pub proof fn first_use_keys_by_digest(
    trusted: Map<Id, TrustedView>,
    remote: Id,
    name: Seq<char>,
)
    requires
        keyed_by_digest(trusted),
    ensures
        keyed_by_digest(
            trusted.insert(peer_id_of(remote), TrustedView { static_pub: remote, name }),
        ),
{
}

/// Outside the pairing window nobody new gets in.
pub proof fn strangers_need_an_open_window(
    trusted: Map<Id, TrustedView>,
    remote: Id,
    window: Option<u64>,
    now: u64,
)
    requires
        !trusted.contains_key(peer_id_of(remote)),
        !window_open(window, now),
    ensures
        refusal(trusted, remote, window, now) == Some(Refusal::Untrusted),
{
}

/// Takes back a trust on first use that could not be stored.
pub fn undo_admission(trusted: &mut IdMap<TrustedPeer>, peer: Id)
    ensures
        final(trusted)@ == old(trusted)@.remove(peer),
{
    let _ = trusted.remove(&peer);
}

/// Taking back a trust on first use restores the trust store.
pub proof fn undone_admission_restores_trust(before: Map<Id, TrustedView>, peer: Id, trust: TrustedView)
    requires
        !before.contains_key(peer),
    ensures
        before.insert(peer, trust).remove(peer) == before,
{
    assert(before.insert(peer, trust).remove(peer) =~= before);
}

/// Pairs that waited too long and the trust that was withdrawn with them.
pub struct Reaped {
    pub expired: IdMap<PendingPair>,
    pub withdrawn: IdMap<TrustedPeer>,
}

/// Keeps what `pairs` does not name.
pub struct NotAmong<'a> {
    pub pairs: &'a IdMap<PendingPair>,
}

impl<'a> Keep<TrustedPeer> for NotAmong<'a> {
    open spec fn keeps(&self, key: Id, value: TrustedView) -> bool {
        !self.pairs@.contains_key(key)
    }

    fn keep(&self, key: &Id, value: &TrustedPeer) -> (r: bool) {
        !self.pairs.contains_key(key)
    }
}

/// Withdraws the trust of every pair that was not confirmed in time.
pub fn reap_pending(
    pending: &mut IdMap<PendingPair>,
    trusted: &mut IdMap<TrustedPeer>,
    now: u64,
) -> (r: Reaped)
    ensures
        final(pending)@ == live_pairs(old(pending)@, now),
        r.expired@ == not_kept::<PendingPair, Unexpired>(old(pending)@, (Unexpired { now })),
        final(trusted)@ == old(trusted)@.remove_keys(r.expired@.dom()),
        r.withdrawn@ == old(trusted)@.restrict(r.expired@.dom()),
{
    let expired = pending.split_off(&Unexpired { now });
    let ghost before = trusted@;
    let withdrawn = trusted.split_off(&NotAmong { pairs: &expired });
    assert(trusted@ =~= before.remove_keys(expired@.dom()));
    assert(withdrawn@ =~= before.restrict(expired@.dom()));
    Reaped { expired, withdrawn }
}

/// Decides whether the primary's session ends with the reaped pairs.
pub fn reaps_primary(reaped: &Reaped, primary: Option<Id>) -> (r: bool)
    ensures
        r == (primary matches Some(p) && reaped.expired@.contains_key(p)),
{
    match primary {
        Some(p) => reaped.expired.contains_key(&p),
        None => false,
    }
}

/// Takes a reaping back that could not be stored: the trust returns, and the
/// pairs wait again unless they joined anew meanwhile.
pub fn unreap(pending: &mut IdMap<PendingPair>, trusted: &mut IdMap<TrustedPeer>, reaped: Reaped)
    ensures
        final(trusted)@ == old(trusted)@.union_prefer_right(reaped.withdrawn@),
        final(pending)@ == reaped.expired@.union_prefer_right(old(pending)@),
{
    let Reaped { expired, withdrawn } = reaped;
    trusted.absorb(withdrawn);
    pending.fill_in(expired);
}

/// Nobody whose pair expired stays trusted, everybody else does, and taking the
/// reaping back restores both stores.
pub proof fn reaping_withdraws_exactly_the_expired(
    pending: Map<Id, PendingView>,
    trusted: Map<Id, TrustedView>,
    now: u64,
)
    ensures
        ({
            let expired = not_kept::<PendingPair, Unexpired>(pending, (Unexpired { now }));
            let live = live_pairs(pending, now);
            let left = trusted.remove_keys(expired.dom());
            let withdrawn = trusted.restrict(expired.dom());
            &&& forall|p: Id|
                pending.contains_key(p) && pending[p].expires_at <= now ==> !left.contains_key(p)
                    && !live.contains_key(p)
            &&& forall|p: Id|
                trusted.contains_key(p) && !(pending.contains_key(p) && pending[p].expires_at <= now)
                    ==> left.contains_key(p) && left[p] == trusted[p]
            &&& left.union_prefer_right(withdrawn) == trusted
            &&& expired.union_prefer_right(live) == pending
        }),
{
    let expired = not_kept::<PendingPair, Unexpired>(pending, (Unexpired { now }));
    let live = live_pairs(pending, now);
    let left = trusted.remove_keys(expired.dom());
    let withdrawn = trusted.restrict(expired.dom());
    assert(left.union_prefer_right(withdrawn) =~= trusted);
    assert(expired.union_prefer_right(live) =~= pending);
}

/// A peer that proves to hold the key that it is trusted under is let in, at any time;
/// one that is trusted under another key never is. A stranger is let in while the
/// window is open and there is room, and then under exactly the key that it proved.
pub proof fn trusted_peers_are_let_in(
    trusted: Map<Id, TrustedView>,
    remote: Id,
    window: Option<u64>,
    now: u64,
)
    ensures
        ({
            let peer = peer_id_of(remote);
            let open = window is Some && now < window->0;
            let no = refusal(trusted, remote, window, now);
            &&& trusted.contains_key(peer) ==> (no is None <==> trusted[peer].static_pub == remote)
            &&& !trusted.contains_key(peer) ==> (no is None <==> open && trusted.dom().len() < 256)
        }),
{
}

/// A pair that comes to wait waits with what was said of it; pairs whose time is up
/// wait no more, and the others wait on as they were, but for one that makes room where
/// sixty-four wait.
pub proof fn waiting_pair_is_remembered(
    before: Map<Id, PendingView>,
    peer: Id,
    pair: PendingView,
    now: u64,
    after: Map<Id, PendingView>,
    other: Id,
)
    requires
        pended(before, peer, pair, now, after),
    ensures
        after.contains_key(peer) && after[peer] == pair,
        other != peer && after.contains_key(other) ==> before.contains_key(other) && after[other]
            == before[other] && before[other].expires_at > now,
        other != peer && before.contains_key(other) && before[other].expires_at > now
            && before.dom().finite() && before.dom().len() < 64 ==> after.contains_key(other),
{
    let live = live_pairs(before, now);
    let room = choose|room: Map<Id, PendingView>|
        #[trigger] room_made(before, now, room) && after == room.insert(peer, pair);
    assert(room_made(before, now, room));
    if other != peer && after.contains_key(other) {
        assert(room.contains_key(other));
        assert(live.contains_key(other));
    }
    if before.dom().finite() && before.dom().len() < 64 {
        assert(live.dom().subset_of(before.dom()));
        vstd::set_lib::lemma_len_subset(live.dom(), before.dom());
    }
}

/// Two peers with one id have one key, as far as digests tell byte strings apart.
pub proof fn ids_tell_keys_apart(a: Id, b: Id)
    ensures
        crate::driver::content::digests_differ() && peer_id_of(a) == peer_id_of(b) ==> a == b,
{
    if crate::driver::content::digests_differ() && peer_id_of(a) == peer_id_of(b) {
        assert(a@ == b@);
        assert(a =~= b);
    }
}

/// A pair that has to make room for another is one that expires first of those that wait.
pub proof fn first_to_expire_makes_room(
    before: Map<Id, PendingView>,
    peer: Id,
    pair: PendingView,
    now: u64,
    after: Map<Id, PendingView>,
    gone: Id,
    left: Id,
)
    requires
        pended(before, peer, pair, now, after),
        before.contains_key(gone) && before[gone].expires_at > now && !after.contains_key(gone),
        left != peer && after.contains_key(left),
    ensures
        before[gone].expires_at <= before[left].expires_at,
{
    let live = live_pairs(before, now);
    let room = choose|room: Map<Id, PendingView>|
        #[trigger] room_made(before, now, room) && after == room.insert(peer, pair);
    assert(room_made(before, now, room));
    assert(gone != peer);
    assert(!room.contains_key(gone));
    assert(room.contains_key(left));
    assert(live.contains_key(gone));
    let victim = choose|victim: Id|
        #[trigger] is_least::<PendingPair, ByExpiry>(live, ByExpiry, victim) && room == live.remove(
            victim,
        );
    assert(live.contains_key(left));
}

} // verus!
