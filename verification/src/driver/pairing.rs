//! Commands that give trust and take it away. What they change has to be stored
//! before it counts: each goes in steps, and what is not stored is taken back.
use vstd::prelude::*;
use vstd::string::*;

use crate::cmd::{answer, failure, CmdData, CmdDataView, CmdResponse, CmdResponseView};
use crate::driver::effects::{Effect, EffectView};
use crate::driver::inbound::delisting;
use crate::driver::inflight::{
    purge_leaves_nothing_to_the_peer, purge_peer_from_inflight, Inflight, WithoutPeer,
};
use crate::driver::node::{confirmed, is_confirmed, Node, NodeView};
use crate::driver::peers::{has_cap, lists_id, peer_has_cap, CAP_SAS_CONFIRM};
use crate::driver::store::{stored_peer, stored_record, StoredPeer, StoredView};
use crate::handshake::{
    keyed_by_digest, peer_id_for, peer_id_of, PendingPair, PendingView, TrustedPeer, TrustedView, MAX_PERSISTED_PEERS,
};
use crate::idmap::{updated_map, IdMap};
use crate::ids::Id;
use crate::net::SocketAddr;
use crate::uri::{read_addrs, usable_addrs};
use crate::wire::{opt_view, views, Event, EventView, Msg, MsgView};

verus! {

/// How a peer to pair with was named.
#[derive(Debug, Clone, Copy, PartialEq, Eq, Structural)]
pub enum PairWay {
    /// By its URI.
    Uri,
    /// By its key, and perhaps an address.
    Key,
    /// By the code that it shows, at this address.
    Pin(SocketAddr),
}

/// A wish to pair with the peer that has `key`.
#[derive(Debug)]
pub struct PairRequest {
    pub key: Id,
    pub name: String,
    pub way: PairWay,
    /// The addresses that came with it, as they are written.
    pub hints: Vec<String>,
}

/// View of a [`PairRequest`].
#[verifier::ext_equal]
pub ghost struct PairRequestView {
    pub key: Id,
    pub name: Seq<char>,
    pub way: PairWay,
    pub hints: Seq<Seq<char>>,
}

impl View for PairRequest {
    type V = PairRequestView;

    open spec fn view(&self) -> PairRequestView {
        PairRequestView {
            key: self.key,
            name: self.name@,
            way: self.way,
            hints: views(self.hints@),
        }
    }
}

/// What goes on once the trust store is stored.
pub enum AfterSave {
    /// Every peer leaves; these were trusted.
    Unpair { snapshot: IdMap<TrustedPeer> },
    /// One peer leaves.
    Revoke { peer: Id, trust: Option<TrustedPeer> },
    /// One peer is rejected that waited for confirmation.
    Reject { peer: Id, trust: Option<TrustedPeer>, pair: PendingPair },
    /// A peer joins; `addrs` holds what came with it, `None` where it cannot be
    /// read, and `before` the trust that it had.
    Join {
        peer: Id,
        key: Id,
        name: String,
        way: PairWay,
        addrs: Vec<Option<SocketAddr>>,
        already_paired: bool,
        before: Option<TrustedPeer>,
    },
}

/// View of an [`AfterSave`].
#[verifier::ext_equal]
pub ghost enum AfterSaveView {
    Unpair { snapshot: Map<Id, TrustedView> },
    Revoke { peer: Id, trust: Option<TrustedView> },
    Reject { peer: Id, trust: Option<TrustedView>, pair: PendingView },
    Join {
        peer: Id,
        key: Id,
        name: Seq<char>,
        way: PairWay,
        addrs: Seq<Option<SocketAddr>>,
        already_paired: bool,
        before: Option<TrustedView>,
    },
}

impl View for AfterSave {
    type V = AfterSaveView;

    open spec fn view(&self) -> AfterSaveView {
        match *self {
            AfterSave::Unpair { snapshot } => AfterSaveView::Unpair { snapshot: snapshot@ },
            AfterSave::Revoke { peer, trust } => AfterSaveView::Revoke { peer, trust: opt_view(trust) },
            AfterSave::Reject { peer, trust, pair } => AfterSaveView::Reject {
                peer,
                trust: opt_view(trust),
                pair: pair@,
            },
            AfterSave::Join { peer, key, name, way, addrs, already_paired, before } => AfterSaveView::Join {
                peer,
                key,
                name: name@,
                way,
                addrs: addrs@,
                already_paired,
                before: opt_view(before),
            },
        }
    }
}

/// A setting of the state machine.
#[derive(Debug)]
pub enum Setting {
    Threshold { value: u8 },
    DeviceName { name: String },
    ChargeOverride { value: bool },
    Firewall,
}

/// View of a [`Setting`].
#[verifier::ext_equal]
pub ghost enum SettingView {
    Threshold { value: u8 },
    DeviceName { name: Seq<char> },
    ChargeOverride { value: bool },
    Firewall,
}

impl View for Setting {
    type V = SettingView;

    open spec fn view(&self) -> SettingView {
        match *self {
            Setting::Threshold { value } => SettingView::Threshold { value },
            Setting::DeviceName { name } => SettingView::DeviceName { name: name@ },
            Setting::ChargeOverride { value } => SettingView::ChargeOverride { value },
            Setting::Firewall => SettingView::Firewall,
        }
    }
}

/// Where a command goes from here.
pub enum Step {
    /// It is done, with this answer.
    Done(CmdResponse),
    /// The trust store has to be stored as it is now.
    Save(AfterSave),
    /// One record has to be put into the peers file.
    Upsert { entry: StoredPeer, then_do: AfterSave },
    /// The key has to be looked at, and the addresses read.
    CheckKey(PairRequest),
    /// The state machine has to take a setting.
    Configure(Setting),
    /// The state machine has to decide on an item that waits.
    Resolve { hash: String, allow: bool },
}

/// View of a [`Step`].
#[verifier::ext_equal]
pub ghost enum StepView {
    Done(CmdResponseView),
    Save(AfterSaveView),
    Upsert { entry: StoredView, then_do: AfterSaveView },
    CheckKey(PairRequestView),
    Configure(SettingView),
    Resolve { hash: Seq<char>, allow: bool },
}

impl View for Step {
    type V = StepView;

    open spec fn view(&self) -> StepView {
        match *self {
            Step::Done(r) => StepView::Done(r@),
            Step::Save(s) => StepView::Save(s@),
            Step::Upsert { entry, then_do } => StepView::Upsert { entry: entry@, then_do: then_do@ },
            Step::CheckKey(r) => StepView::CheckKey(r@),
            Step::Configure(s) => StepView::Configure(s@),
            Step::Resolve { hash, allow } => StepView::Resolve { hash: hash@, allow },
        }
    }
}

/// What a command brings about, in order, and where it goes from there.
pub struct Outcome {
    pub effects: Vec<Effect>,
    pub step: Step,
}

/// View of an [`Outcome`].
#[verifier::ext_equal]
pub ghost struct OutcomeView {
    pub effects: Seq<EffectView>,
    pub step: StepView,
}

impl View for Outcome {
    type V = OutcomeView;

    open spec fn view(&self) -> OutcomeView {
        OutcomeView { effects: views(self.effects@), step: self.step@ }
    }
}

/// The outcome that the command is done.
pub open spec fn done(effects: Seq<EffectView>, r: CmdResponseView) -> OutcomeView {
    OutcomeView { effects, step: StepView::Done(r) }
}

/// The outcome that the command failed and nothing is to be done.
pub open spec fn refused(id: u64, msg: Seq<char>) -> OutcomeView {
    done(Seq::empty(), failure(id, msg))
}

/// The outcome that the command failed and nothing is to be done.
pub fn refuse(id: u64, msg: String) -> (r: Outcome)
    ensures
        r@ == refused(id, msg@),
{
    let r = Outcome { effects: Vec::new(), step: Step::Done(CmdResponse::err(id, msg)) };
    assert(r@ =~= refused(id, msg@));
    r
}

/// The outcome that the command succeeded with nothing to tell.
pub fn finish(id: u64, effects: Vec<Effect>) -> (r: Outcome)
    ensures
        r@ == done(views(effects@), answer(id, None)),
{
    Outcome { effects, step: Step::Done(CmdResponse::ok(id, None)) }
}

/// Why a change of trust was taken back.
pub open spec fn persist_failure(e: Seq<char>, what: Seq<char>) -> Seq<char> {
    "persist failed after 3 attempts: "@ + e + "; "@ + what
        + " rolled back, retry once disk recovers"@
}

fn persist_failure_text(e: &str, what: &str) -> (r: String)
    ensures
        r@ == persist_failure(e@, what@),
{
    let mut s = "persist failed after 3 attempts: ".to_owned();
    s.append(e);
    s.append("; ");
    s.append(what);
    s.append(" rolled back, retry once disk recovers");
    s
}

/// Why no further peer can be trusted.
pub open spec fn store_full() -> Seq<char> {
    "trust store full (64 peers); revoke an existing peer first"@
}

/// What comes before the reason why a key is refused.
pub open spec fn bad_key(way: PairWay) -> Seq<char> {
    match way {
        PairWay::Uri => "bad pubkey in uri: "@,
        PairWay::Key => "bad pubkey: "@,
        PairWay::Pin(_) => "bad pubkey from discovery: "@,
    }
}

/// Switches the synchronisation on, unless it is.
pub open spec fn going_online(on: bool) -> Seq<EffectView> {
    if on {
        Seq::empty()
    } else {
        seq![EffectView::Handle(EventView::ToggleOn)]
    }
}

/// Switches the synchronisation on, unless it is.
pub fn ensure_online(on: bool) -> (r: Vec<Effect>)
    ensures
        views(r@) == going_online(on),
{
    let mut r: Vec<Effect> = Vec::new();
    if !on {
        r.push(Effect::Handle(Event::ToggleOn));
    }
    assert(views(r@) =~= going_online(on));
    r
}

/// The trust store after a peer was paired with.
pub open spec fn joined(n: NodeView, peer: Id, key: Id, name: Seq<char>) -> NodeView {
    NodeView { trusted: n.trusted.insert(peer, TrustedView { static_pub: key, name }), ..n }
}

/// There is no room for `peer`.
pub open spec fn no_room(n: NodeView, peer: Id) -> bool {
    !n.trusted.contains_key(peer) && n.trusted.dom().len() >= MAX_PERSISTED_PEERS
}

/// What goes on once it is stored that a peer joins.
pub open spec fn join_of(
    n: NodeView,
    peer: Id,
    req: PairRequestView,
    addrs: Seq<Option<SocketAddr>>,
) -> AfterSaveView {
    AfterSaveView::Join {
        peer,
        key: req.key,
        name: req.name,
        way: req.way,
        addrs,
        already_paired: confirmed(n, peer),
        before: trust_in(n, peer),
    }
}

/// The memory after the key of a pairing with `peer` was looked at.
pub open spec fn key_check_node(
    n: NodeView,
    peer: Id,
    req: PairRequestView,
    verdict: Result<(), Seq<char>>,
) -> NodeView {
    if verdict is Err || no_room(n, peer) {
        n
    } else {
        joined(n, peer, req.key, req.name)
    }
}

/// What comes of a pairing with `peer` once its key was looked at: a bad key and a
/// full trust store refuse it; else the peer is trusted, and its record has to be
/// stored.
pub open spec fn key_check_outcome(
    n: NodeView,
    peer: Id,
    persists: bool,
    on: bool,
    id: u64,
    req: PairRequestView,
    verdict: Result<(), Seq<char>>,
    addrs: Seq<Option<SocketAddr>>,
) -> OutcomeView {
    match verdict {
        Err(e) => refused(id, bad_key(req.way) + e),
        Ok(_) => if no_room(n, peer) {
            refused(id, store_full())
        } else if persists {
            OutcomeView {
                effects: Seq::empty(),
                step: StepView::Upsert {
                    entry: stored_record(peer, req.key, req.name, None),
                    then_do: join_of(n, peer, req, addrs),
                },
            }
        } else {
            join_outcome(on, id, join_of(n, peer, req, addrs))
        },
    }
}

/// The addresses to dial when a peer joins: all that could be read of a URI, in
/// order; the one that came with a key, or that shows the code.
pub open spec fn addrs_to_dial(way: PairWay, addrs: Seq<Option<SocketAddr>>) -> Seq<SocketAddr> {
    match way {
        PairWay::Uri => read_addrs(addrs),
        PairWay::Key => if addrs.len() > 0 && addrs[0] is Some {
            seq![addrs[0]->0]
        } else {
            Seq::empty()
        },
        PairWay::Pin(addr) => seq![addr],
    }
}

/// What comes of a pairing once it is stored. The link goes up, and the peer is
/// dialed where an address is known; its user confirms it unless that was done.
pub open spec fn join_outcome(on: bool, id: u64, join: AfterSaveView) -> OutcomeView
    recommends
        join is Join,
{
    let to = addrs_to_dial(join->way, join->addrs);
    let dial = if to.len() == 0 {
        Seq::empty()
    } else {
        seq![
            EffectView::Dial {
                peer: join->Join_peer,
                key: join->key,
                addrs: to,
                name: join->name,
                verify: !join->already_paired,
            },
        ]
    };
    let reply = match join->way {
        PairWay::Key => if join->addrs.len() > 0 && join->addrs[0] is None {
            failure(id, "bad addr"@)
        } else {
            answer(id, None)
        },
        _ => answer(id, Some(CmdDataView::PairResult { already_paired: join->already_paired })),
    };
    done(going_online(on) + dial, reply)
}

fn join_peer(
    on: bool,
    id: u64,
    peer: Id,
    key: Id,
    name: String,
    way: PairWay,
    addrs: Vec<Option<SocketAddr>>,
    already_paired: bool,
) -> (r: Outcome)
    ensures
        r@ == join_outcome(
            on,
            id,
            (AfterSaveView::Join {
                peer,
                key,
                name: name@,
                way,
                addrs: addrs@,
                already_paired,
                before: None,
            }),
        ),
{
    let ghost join = AfterSaveView::Join {
        peer,
        key,
        name: name@,
        way,
        addrs: addrs@,
        already_paired,
        before: None,
    };
    let mut effects = ensure_online(on);
    let to: Vec<SocketAddr> = match way {
        PairWay::Uri => usable_addrs(&addrs),
        PairWay::Key => {
            let mut one: Vec<SocketAddr> = Vec::new();
            if addrs.len() > 0 {
                if let Some(a) = addrs[0] {
                    one.push(a);
                }
            }
            one
        },
        PairWay::Pin(addr) => {
            let mut one: Vec<SocketAddr> = Vec::new();
            one.push(addr);
            one
        },
    };
    assert(to@ =~= addrs_to_dial(way, addrs@));
    if to.len() > 0 {
        effects.push(Effect::Dial { peer, key, addrs: to, name, verify: !already_paired });
    }
    let reply = match way {
        PairWay::Key => if addrs.len() > 0 && addrs[0].is_none() {
            CmdResponse::err(id, "bad addr".to_owned())
        } else {
            CmdResponse::ok(id, None)
        },
        _ => CmdResponse::ok(id, Some(CmdData::PairResult { already_paired })),
    };
    let r = Outcome { effects, step: Step::Done(reply) };
    assert(r@.effects =~= join_outcome(on, id, join).effects);
    assert(reply@ =~= join_outcome(on, id, join).step->Done_0);
    r
}

/// Goes on with a pairing with `peer` once its key was looked at: `verdict` says
/// whether it is a key that a peer can have, `addrs` holds the addresses that could
/// be read.
pub fn pair_with(
    node: &mut Node,
    peer: Id,
    persists: bool,
    on: bool,
    id: u64,
    req: PairRequest,
    verdict: Result<(), String>,
    addrs: Vec<Option<SocketAddr>>,
) -> (r: Outcome)
    ensures
        final(node)@ == key_check_node(old(node)@, peer, req@, verdict_view(verdict)),
        r@ == key_check_outcome(
            old(node)@,
            peer,
            persists,
            on,
            id,
            req@,
            verdict_view(verdict),
            addrs@,
        ),
{
    let ghost n = node@;
    if let Err(e) = &verdict {
        let mut msg = match req.way {
            PairWay::Uri => "bad pubkey in uri: ".to_owned(),
            PairWay::Key => "bad pubkey: ".to_owned(),
            PairWay::Pin(_) => "bad pubkey from discovery: ".to_owned(),
        };
        msg.append(e.as_str());
        return refuse(id, msg);
    }
    if !node.trusted.contains_key(&peer) && node.trusted.len() >= MAX_PERSISTED_PEERS {
        return refuse(
            id,
            "trust store full (64 peers); revoke an existing peer first".to_owned(),
        );
    }
    let already_paired = is_confirmed(node, &peer);
    let before = match node.trusted.get(&peer) {
        Some(t) => Some(t.clone()),
        None => None,
    };
    assert(opt_view(before) =~= trust_in(n, peer));
    node.trusted.insert(peer, TrustedPeer { static_pub: req.key, name: req.name.clone() });
    assert(node@ =~= joined(n, peer, req.key, req.name@));
    if !persists {
        return join_peer(on, id, peer, req.key, req.name, req.way, addrs, already_paired);
    }
    let r = Outcome {
        effects: Vec::new(),
        step: Step::Upsert {
            entry: stored_peer(peer, req.key, req.name.clone(), None),
            then_do: AfterSave::Join {
                peer,
                key: req.key,
                name: req.name,
                way: req.way,
                addrs,
                already_paired,
                before,
            },
        },
    };
    assert(r@.effects =~= Seq::empty());
    r
}

/// Goes on with a pairing once its key was looked at: the peer is the one under the
/// digest of the key.
pub fn after_key_check(
    node: &mut Node,
    persists: bool,
    on: bool,
    id: u64,
    req: PairRequest,
    verdict: Result<(), String>,
    addrs: Vec<Option<SocketAddr>>,
) -> (r: Outcome)
    ensures
        final(node)@ == key_check_node(
            old(node)@,
            peer_id_of(req.key),
            req@,
            verdict_view(verdict),
        ),
        r@ == key_check_outcome(
            old(node)@,
            peer_id_of(req.key),
            persists,
            on,
            id,
            req@,
            verdict_view(verdict),
            addrs@,
        ),
{
    let peer = peer_id_for(&req.key);
    pair_with(node, peer, persists, on, id, req, verdict, addrs)
}

/// A verdict by its view.
pub open spec fn verdict_view(v: Result<(), String>) -> Result<(), Seq<char>> {
    match v {
        Ok(_) => Ok(()),
        Err(e) => Err(e@),
    }
}

/// The memory after a peer is gone for good: nothing is known of it, and nothing
/// waits for it.
pub open spec fn retired(n: NodeView, peer: Id) -> NodeView {
    NodeView {
        meta: n.meta.remove(peer),
        inflight: updated_map::<Inflight, WithoutPeer>(n.inflight, (WithoutPeer { peer })),
        ..n
    }
}

/// What is done with a peer that is gone for good: a last message if it has a
/// session, and the end of its connection.
pub open spec fn retirement(n: NodeView, linked: Seq<Id>, peer: Id, last: MsgView) -> Seq<EffectView> {
    let farewell = if linked.contains(peer) {
        seq![EffectView::Send { to: peer, msg: last }]
    } else {
        Seq::empty()
    };
    farewell + seq![EffectView::PurgePeer { peer }] + delisting(n, peer) + seq![
        EffectView::Retire { peer },
    ]
}

fn retire(node: &mut Node, linked: &Vec<Id>, peer: Id, last: Msg) -> (r: Vec<Effect>)
    ensures
        final(node)@ == retired(old(node)@, peer),
        views(r@) == retirement(old(node)@, linked@, peer, last@),
{
    let ghost n = node@;
    let mut r: Vec<Effect> = Vec::new();
    if lists_id(linked, &peer) {
        r.push(Effect::Send { to: peer, msg: last });
    }
    r.push(Effect::PurgePeer { peer });
    if node.meta.remove(&peer).is_some() {
        r.push(Effect::Emit(Event::MeshPeersChanged));
    }
    purge_peer_from_inflight(peer, &mut node.inflight);
    r.push(Effect::Retire { peer });
    assert(views(r@) =~= retirement(n, linked@, peer, last@));
    assert(node@ =~= retired(n, peer));
    r
}

/// `m` with the trust that was taken from `peer` put back.
pub open spec fn trust_back(
    m: Map<Id, TrustedView>,
    peer: Id,
    trust: Option<TrustedView>,
) -> Map<Id, TrustedView> {
    match trust {
        Some(t) => m.insert(peer, t),
        None => m,
    }
}

/// The memory once it is known whether a change of trust was stored. What was not
/// stored is taken back.
pub open spec fn save_node(n: NodeView, then_do: AfterSaveView, stored: bool) -> NodeView {
    match then_do {
        AfterSaveView::Unpair { snapshot } => if stored {
            n
        } else {
            NodeView { trusted: snapshot, ..n }
        },
        AfterSaveView::Revoke { peer, trust } => if stored {
            retired(n, peer)
        } else {
            NodeView { trusted: trust_back(n.trusted, peer, trust), ..n }
        },
        AfterSaveView::Reject { peer, trust, pair } => if stored {
            retired(n, peer)
        } else {
            NodeView {
                trusted: trust_back(n.trusted, peer, trust),
                pending: n.pending.insert(peer, pair),
                ..n
            }
        },
        AfterSaveView::Join { peer, before, .. } => if stored {
            n
        } else {
            NodeView { trusted: trust_back(n.trusted.remove(peer), peer, before), ..n }
        },
    }
}

/// What a change of trust is called.
pub open spec fn change_name(then_do: AfterSaveView) -> Seq<char> {
    match then_do {
        AfterSaveView::Unpair { .. } => "unpair"@,
        AfterSaveView::Revoke { .. } => "revoke"@,
        AfterSaveView::Reject { .. } => "reject"@,
        AfterSaveView::Join { .. } => "pair"@,
    }
}

/// What comes of a change of trust once it is known whether it was stored.
pub open spec fn save_outcome(
    n: NodeView,
    linked: Seq<Id>,
    on: bool,
    id: u64,
    then_do: AfterSaveView,
    verdict: Result<(), Seq<char>>,
) -> OutcomeView {
    match verdict {
        Err(e) => refused(id, persist_failure(e, change_name(then_do))),
        Ok(_) => match then_do {
            AfterSaveView::Unpair { .. } => done(
                seq![EffectView::Handle(EventView::ManualUnpair)],
                answer(id, None),
            ),
            AfterSaveView::Revoke { peer, .. } => done(
                retirement(n, linked, peer, MsgView::Revoke),
                answer(id, None),
            ),
            AfterSaveView::Reject { peer, .. } => done(
                retirement(n, linked, peer, MsgView::Bye),
                answer(id, None),
            ),
            AfterSaveView::Join { .. } => join_outcome(on, id, then_do),
        },
    }
}

/// Goes on with a change of trust once it is known whether it was stored.
pub fn after_save(
    node: &mut Node,
    linked: &Vec<Id>,
    on: bool,
    id: u64,
    then_do: AfterSave,
    verdict: Result<(), String>,
) -> (r: Outcome)
    ensures
        final(node)@ == save_node(old(node)@, then_do@, verdict is Ok),
        r@ == save_outcome(old(node)@, linked@, on, id, then_do@, verdict_view(verdict)),
{
    let ghost n = node@;
    let ghost change = then_do@;
    match verdict {
        Ok(_) => match then_do {
            AfterSave::Unpair { .. } => {
                let mut effects: Vec<Effect> = Vec::new();
                effects.push(Effect::Handle(Event::ManualUnpair));
                assert(views(effects@) =~= seq![EffectView::Handle(EventView::ManualUnpair)]);
                finish(id, effects)
            },
            AfterSave::Revoke { peer, .. } => {
                let effects = retire(node, linked, peer, Msg::Revoke);
                finish(id, effects)
            },
            AfterSave::Reject { peer, .. } => {
                let effects = retire(node, linked, peer, Msg::Bye);
                finish(id, effects)
            },
            AfterSave::Join { peer, key, name, way, addrs, already_paired, .. } => join_peer(
                on,
                id,
                peer,
                key,
                name,
                way,
                addrs,
                already_paired,
            ),
        },
        Err(e) => match then_do {
            AfterSave::Unpair { snapshot } => {
                node.trusted = snapshot;
                assert(node@ =~= save_node(n, change, false));
                refuse(id, persist_failure_text(e.as_str(), "unpair"))
            },
            AfterSave::Revoke { peer, trust } => {
                if let Some(p) = trust {
                    node.trusted.insert(peer, p);
                }
                assert(node@ =~= save_node(n, change, false));
                refuse(id, persist_failure_text(e.as_str(), "revoke"))
            },
            AfterSave::Reject { peer, trust, pair } => {
                if let Some(p) = trust {
                    node.trusted.insert(peer, p);
                }
                node.pending.insert(peer, pair);
                assert(node@ =~= save_node(n, change, false));
                refuse(id, persist_failure_text(e.as_str(), "reject"))
            },
            AfterSave::Join { peer, before, .. } => {
                let _ = node.trusted.remove(&peer);
                if let Some(p) = before {
                    node.trusted.insert(peer, p);
                }
                assert(node@ =~= save_node(n, change, false));
                refuse(id, persist_failure_text(e.as_str(), "pair"))
            },
        },
    }
}

/// What goes on when the trust store changed: it has to be stored, where the
/// daemon stores anything.
pub open spec fn storing_node(n: NodeView, persists: bool, then_do: AfterSaveView) -> NodeView {
    if persists {
        n
    } else {
        save_node(n, then_do, true)
    }
}

/// What comes of a change of trust, after `before` was done.
pub open spec fn storing_outcome(
    n: NodeView,
    persists: bool,
    linked: Seq<Id>,
    on: bool,
    id: u64,
    before: Seq<EffectView>,
    then_do: AfterSaveView,
) -> OutcomeView {
    if persists {
        OutcomeView { effects: before, step: StepView::Save(then_do) }
    } else {
        let rest = save_outcome(n, linked, on, id, then_do, Ok(()));
        OutcomeView { effects: before + rest.effects, step: rest.step }
    }
}

fn store_change(
    node: &mut Node,
    persists: bool,
    linked: &Vec<Id>,
    on: bool,
    id: u64,
    before: Vec<Effect>,
    then_do: AfterSave,
) -> (r: Outcome)
    ensures
        final(node)@ == storing_node(old(node)@, persists, then_do@),
        r@ == storing_outcome(old(node)@, persists, linked@, on, id, views(before@), then_do@),
{
    let mut effects = before;
    let ghost first = views(effects@);
    if persists {
        return Outcome { effects, step: Step::Save(then_do) };
    }
    let rest = after_save(node, linked, on, id, then_do, Ok(()));
    let mut more = rest.effects;
    effects.append(&mut more);
    assert(views(effects@) =~= first + views(rest.effects@));
    Outcome { effects, step: rest.step }
}

/// The memory after the user stopped trusting a peer.
pub open spec fn distrusted(n: NodeView, peer: Id) -> NodeView {
    NodeView {
        trusted: n.trusted.remove(peer),
        discovered: n.discovered.remove(peer),
        backoff: n.backoff.remove(peer),
        ..n
    }
}

/// The trust in `peer`, if there is any.
pub open spec fn trust_in(n: NodeView, peer: Id) -> Option<TrustedView> {
    if n.trusted.contains_key(peer) {
        Some(n.trusted[peer])
    } else {
        None
    }
}

/// What goes on when one peer leaves.
pub open spec fn revocation(n: NodeView, peer: Id) -> AfterSaveView {
    AfterSaveView::Revoke { peer, trust: trust_in(n, peer) }
}

/// Stops trusting one peer; the others stay.
pub fn revoke_peer(node: &mut Node, persists: bool, linked: &Vec<Id>, on: bool, id: u64, peer: Id) -> (r:
    Outcome)
    ensures
        final(node)@ == storing_node(
            distrusted(old(node)@, peer),
            persists,
            revocation(old(node)@, peer),
        ),
        r@ == storing_outcome(
            distrusted(old(node)@, peer),
            persists,
            linked@,
            on,
            id,
            Seq::empty(),
            revocation(old(node)@, peer),
        ),
{
    let ghost n = node@;
    let trust = node.trusted.remove(&peer);
    let _ = node.discovered.remove(&peer);
    let _ = node.backoff.remove(&peer);
    assert(node@ =~= distrusted(n, peer));
    assert(opt_view(trust) =~= trust_in(n, peer));
    let before: Vec<Effect> = Vec::new();
    assert(views(before@) =~= Seq::empty());
    store_change(node, persists, linked, on, id, before, AfterSave::Revoke { peer, trust })
}

/// The memory after the user stopped trusting every peer.
pub open spec fn all_distrusted(n: NodeView) -> NodeView {
    NodeView {
        trusted: Map::empty(),
        discovered: Map::empty(),
        backoff: Map::empty(),
        ..n
    }
}

/// Stops trusting every peer.
pub fn unpair_all(node: &mut Node, persists: bool, linked: &Vec<Id>, on: bool, id: u64) -> (r: Outcome)
    ensures
        final(node)@ == storing_node(
            all_distrusted(old(node)@),
            persists,
            AfterSaveView::Unpair { snapshot: old(node)@.trusted },
        ),
        r@ == storing_outcome(
            all_distrusted(old(node)@),
            persists,
            linked@,
            on,
            id,
            seq![EffectView::SendPrimary { msg: MsgView::Revoke }],
            AfterSaveView::Unpair { snapshot: old(node)@.trusted },
        ),
{
    let ghost n = node@;
    let mut before: Vec<Effect> = Vec::new();
    before.push(Effect::SendPrimary { msg: Msg::Revoke });
    assert(views(before@) =~= seq![EffectView::SendPrimary { msg: MsgView::Revoke }]);
    let mut snapshot: IdMap<TrustedPeer> = IdMap::new();
    std::mem::swap(&mut snapshot, &mut node.trusted);
    node.discovered.clear();
    node.backoff.clear();
    assert(node@ =~= all_distrusted(n));
    store_change(node, persists, linked, on, id, before, AfterSave::Unpair { snapshot })
}

/// The memory after the user confirmed a pair: it waits no more, and where the
/// peer has not said hello yet, the confirmation waits for that.
pub open spec fn accepted_node(n: NodeView, peer: Id) -> NodeView {
    NodeView {
        pending: n.pending.remove(peer),
        deferred: if n.meta.contains_key(peer) && n.meta[peer].hello_seen {
            n.deferred
        } else {
            n.deferred.insert(peer)
        },
        ..n
    }
}

/// What the user's confirmation of a pair brings about: a peer that can be told
/// is told; one that cannot counts as confirmed.
pub open spec fn accepted_effects(n: NodeView, peer: Id) -> Seq<EffectView> {
    let told = if n.meta.contains_key(peer) && n.meta[peer].hello_seen {
        if has_cap(n.meta, peer, CAP_SAS_CONFIRM@) {
            seq![EffectView::Send { to: peer, msg: MsgView::PairConfirm { accept: true } }]
        } else {
            seq![EffectView::Handle(EventView::SasPeerConfirmed { peer_id: peer })]
        }
    } else {
        Seq::empty()
    };
    told + seq![EffectView::Handle(EventView::SasLocalConfirmed { peer_id: peer })]
}

/// The memory after the user rejected a pair.
pub open spec fn rejected_node(n: NodeView, peer: Id) -> NodeView {
    NodeView {
        pending: n.pending.remove(peer),
        deferred: n.deferred.remove(peer),
        ..distrusted(n, peer)
    }
}

/// What goes on when a pair is rejected.
pub open spec fn rejection(n: NodeView, peer: Id) -> AfterSaveView {
    AfterSaveView::Reject { peer, trust: trust_in(n, peer), pair: n.pending[peer] }
}

/// The memory after the user decided on a pair.
pub open spec fn confirm_node(n: NodeView, persists: bool, peer: Id, accept: bool) -> NodeView {
    if !n.pending.contains_key(peer) {
        n
    } else if accept {
        accepted_node(n, peer)
    } else {
        storing_node(rejected_node(n, peer), persists, rejection(n, peer))
    }
}

/// What the user's decision on a pair brings about.
pub open spec fn confirm_outcome(
    n: NodeView,
    persists: bool,
    linked: Seq<Id>,
    on: bool,
    id: u64,
    peer: Id,
    accept: bool,
) -> OutcomeView {
    if !n.pending.contains_key(peer) {
        refused(id, "no pending pair with that peer_id"@)
    } else if accept {
        done(accepted_effects(n, peer), answer(id, None))
    } else {
        storing_outcome(
            rejected_node(n, peer),
            persists,
            linked,
            on,
            id,
            seq![EffectView::Send { to: peer, msg: MsgView::PairConfirm { accept: false } }],
            rejection(n, peer),
        )
    }
}

/// Takes the user's decision on a pair that waits for it.
pub fn confirm_pair(
    node: &mut Node,
    persists: bool,
    linked: &Vec<Id>,
    on: bool,
    id: u64,
    peer: Id,
    accept: bool,
) -> (r: Outcome)
    ensures
        final(node)@ == confirm_node(old(node)@, persists, peer, accept),
        r@ == confirm_outcome(old(node)@, persists, linked@, on, id, peer, accept),
{
    let ghost n = node@;
    match node.pending.remove(&peer) {
        None => {
            assert(node@ =~= n);
            refuse(id, "no pending pair with that peer_id".to_owned())
        },
        Some(pair) => if accept {
            let mut effects: Vec<Effect> = Vec::new();
            let hello_seen = match node.meta.get(&peer) {
                Some(m) => m.hello_seen,
                None => false,
            };
            if hello_seen {
                if peer_has_cap(&node.meta, &peer, CAP_SAS_CONFIRM) {
                    effects.push(
                        Effect::Send { to: peer, msg: Msg::PairConfirm { accept: true } },
                    );
                } else {
                    effects.push(Effect::Handle(Event::SasPeerConfirmed { peer_id: peer }));
                }
            } else {
                let _ = node.deferred.insert(peer);
            }
            effects.push(Effect::Handle(Event::SasLocalConfirmed { peer_id: peer }));
            assert(views(effects@) =~= accepted_effects(n, peer));
            assert(node@ =~= accepted_node(n, peer));
            finish(id, effects)
        } else {
            let mut before: Vec<Effect> = Vec::new();
            let _ = node.deferred.remove(&peer);
            before.push(Effect::Send { to: peer, msg: Msg::PairConfirm { accept: false } });
            let trust = node.trusted.remove(&peer);
            let _ = node.discovered.remove(&peer);
            let _ = node.backoff.remove(&peer);
            assert(node@ =~= rejected_node(n, peer));
            assert(opt_view(trust) =~= trust_in(n, peer));
            assert(views(before@) =~= seq![
                EffectView::Send { to: peer, msg: MsgView::PairConfirm { accept: false } },
            ]);
            store_change(
                node,
                persists,
                linked,
                on,
                id,
                before,
                AfterSave::Reject { peer, trust, pair },
            )
        },
    }
}

/// A change of trust that could not be stored leaves the trust store and the pairs
/// that wait as they were, whichever it was: every peer leaving, one leaving, or
/// one rejected.
pub proof fn unstored_change_is_taken_back(n: NodeView, peer: Id)
    ensures
        save_node(
            all_distrusted(n),
            (AfterSaveView::Unpair { snapshot: n.trusted }),
            false,
        ).trusted == n.trusted,
        save_node(distrusted(n, peer), revocation(n, peer), false).trusted == n.trusted,
        n.pending.contains_key(peer) ==> {
            let back = save_node(rejected_node(n, peer), rejection(n, peer), false);
            back.trusted == n.trusted && back.pending == n.pending
        },
{
    assert(save_node(distrusted(n, peer), revocation(n, peer), false).trusted =~= n.trusted);
    if n.pending.contains_key(peer) {
        let back = save_node(rejected_node(n, peer), rejection(n, peer), false);
        assert(back.trusted =~= n.trusted);
        assert(back.pending =~= n.pending);
    }
}

/// A pairing that could not be stored leaves the trust store as it was: a peer that
/// was unknown is not trusted, and one that was trusted keeps the trust that it had.
pub proof fn unstored_pairing_is_taken_back(
    n: NodeView,
    peer: Id,
    req: PairRequestView,
    addrs: Seq<Option<SocketAddr>>,
)
    ensures
        save_node(
            joined(n, peer, req.key, req.name),
            join_of(n, peer, req, addrs),
            false,
        ) == n,
{
    let back = save_node(joined(n, peer, req.key, req.name), join_of(n, peer, req, addrs), false);
    assert(back.trusted =~= n.trusted);
    assert(back =~= n);
}

/// Revoking one peer, stored or not, leaves the trust in every other as it was.
pub proof fn revoking_spares_the_others(n: NodeView, peer: Id, other: Id, stored: bool)
    requires
        other != peer,
    ensures
        ({
            let after = save_node(distrusted(n, peer), revocation(n, peer), stored);
            &&& after.trusted.contains_key(other) == n.trusted.contains_key(other)
            &&& n.trusted.contains_key(other) ==> after.trusted[other] == n.trusted[other]
            &&& stored ==> !after.trusted.contains_key(peer)
        }),
{
}

/// Pairing never takes the trust store above its cap, and a peer that is trusted
/// already can always be paired with again.
pub proof fn pairing_stays_within_the_cap(
    n: NodeView,
    peer: Id,
    req: PairRequestView,
    verdict: Result<(), Seq<char>>,
)
    requires
        n.trusted.dom().finite(),
        n.trusted.dom().len() <= MAX_PERSISTED_PEERS,
    ensures
        key_check_node(n, peer, req, verdict).trusted.dom().len() <= MAX_PERSISTED_PEERS,
        n.trusted.contains_key(peer) ==> !no_room(n, peer),
{
    let after = key_check_node(n, peer, req, verdict);
    if verdict is Ok && !no_room(n, peer) {
        assert(after.trusted.dom() =~= n.trusted.dom().insert(peer));
    }
}

/// Every pairing keeps every peer under the digest of its key.
pub proof fn pairing_keys_by_digest(n: NodeView, req: PairRequestView, verdict: Result<(), Seq<char>>)
    requires
        keyed_by_digest(n.trusted),
    ensures
        keyed_by_digest(key_check_node(n, peer_id_of(req.key), req, verdict).trusted),
{
}

/// Repeating a pairing with a confirmed peer asks its user nothing; a peer that is
/// new, or that waits for confirmation, has to be confirmed.
pub proof fn only_confirmed_peers_skip_verification(
    n: NodeView,
    on: bool,
    id: u64,
    peer: Id,
    req: PairRequestView,
    addrs: Seq<Option<SocketAddr>>,
    i: int,
)
    requires
        0 <= i < join_outcome(on, id, join_of(n, peer, req, addrs)).effects.len(),
        join_outcome(on, id, join_of(n, peer, req, addrs)).effects[i] is Dial,
    ensures
        join_outcome(on, id, join_of(n, peer, req, addrs)).effects[i]->verify == !confirmed(n, peer),
{
}

/// What is done with a peer that is gone for good touches no other peer's session,
/// and the primary's only if it is that peer.
pub proof fn retiring_touches_nobody_else(n: NodeView, linked: Seq<Id>, peer: Id, last: MsgView, i: int)
    requires
        0 <= i < retirement(n, linked, peer, last).len(),
    ensures
        match retirement(n, linked, peer, last)[i] {
            EffectView::Send { to, .. } => to == peer,
            EffectView::PurgePeer { peer: p } => p == peer,
            EffectView::Retire { peer: p } => p == peer,
            e => e == EffectView::Emit(EventView::MeshPeersChanged),
        },
{
}

/// Once it is stored that a peer was revoked or rejected, nothing of it is left: no
/// trust, no address, no backoff, nothing known of it, and no item waits for it.
pub proof fn revoked_peer_is_forgotten(n: NodeView, peer: Id, h: Id)
    ensures
        ({
            let after = save_node(distrusted(n, peer), revocation(n, peer), true);
            &&& !after.trusted.contains_key(peer)
            &&& !after.discovered.contains_key(peer)
            &&& !after.backoff.contains_key(peer)
            &&& !after.meta.contains_key(peer)
            &&& after.inflight.contains_key(h) ==> !after.inflight[h].pending_peers.contains(peer)
        }),
        n.pending.contains_key(peer) ==> {
            let after = save_node(rejected_node(n, peer), rejection(n, peer), true);
            &&& !after.trusted.contains_key(peer)
            &&& !after.pending.contains_key(peer)
            &&& !after.deferred.contains(peer)
            &&& !after.meta.contains_key(peer)
            &&& after.inflight.contains_key(h) ==> !after.inflight[h].pending_peers.contains(peer)
        },
{
    purge_leaves_nothing_to_the_peer(n.inflight, peer);
}

/// What a pairing with a sound key comes to once it is stored, where the daemon
/// stores anything.
pub open spec fn pairing_result(
    n: NodeView,
    peer: Id,
    persists: bool,
    linked: Seq<Id>,
    on: bool,
    id: u64,
    req: PairRequestView,
    addrs: Seq<Option<SocketAddr>>,
) -> OutcomeView {
    let first = key_check_outcome(n, peer, persists, on, id, req, Ok(()), addrs);
    let after = key_check_node(n, peer, req, Ok(()));
    match first.step {
        StepView::Upsert { then_do, .. } => save_outcome(after, linked, on, id, then_do, Ok(())),
        _ => first,
    }
}

/// Whatever the way of pairing, a peer that is paired with is trusted under the key of
/// the request, is stored under it before anything else is done, and is dialed under
/// it, at the addresses that came with the request; the user is asked to confirm it
/// unless that was done before.
pub proof fn paired_device_is_dialed_under_its_key(
    n: NodeView,
    peer: Id,
    persists: bool,
    linked: Seq<Id>,
    on: bool,
    id: u64,
    req: PairRequestView,
    addrs: Seq<Option<SocketAddr>>,
    i: int,
)
    requires
        n.trusted.contains_key(peer) || n.trusted.dom().len() < 64,
    ensures
        ({
            let first = key_check_outcome(n, peer, persists, on, id, req, Ok(()), addrs);
            let after = key_check_node(n, peer, req, Ok(()));
            let out = pairing_result(n, peer, persists, linked, on, id, req, addrs).effects;
            let known = n.trusted.contains_key(peer) && !n.pending.contains_key(peer);
            let to: Seq<SocketAddr> = match req.way {
                PairWay::Uri => read_addrs(addrs),
                PairWay::Key => if addrs.len() > 0 && addrs[0] is Some {
                    seq![addrs[0]->0]
                } else {
                    Seq::empty()
                },
                PairWay::Pin(a) => seq![a],
            };
            &&& after.trusted.contains_key(peer)
            &&& after.trusted[peer].static_pub == req.key && after.trusted[peer].name == req.name
            &&& persists ==> first.effects.len() == 0 && (first.step matches StepView::Upsert {
                entry,
                then_do,
            } && {
                &&& entry.peer_id_hex == crate::codec::hex_text(peer@)
                &&& entry.static_pub_hex == crate::codec::hex_text(req.key@)
                &&& entry.name == req.name
                &&& save_node(after, then_do, true) == after
            })
            &&& 0 <= i < out.len() ==> (out[i] matches EffectView::Dial {
                peer: p,
                key,
                addrs: a,
                name,
                verify,
            } ==> {
                &&& p == peer
                &&& key == req.key && key == after.trusted[p].static_pub
                &&& a == to
                &&& name == req.name
                &&& verify == !known
            })
            &&& to.len() > 0 ==> out.len() > 0 && out.last() is Dial
            &&& out.contains(EffectView::Handle(EventView::ToggleOn)) == !on
        }),
{
    let out = pairing_result(n, peer, persists, linked, on, id, req, addrs).effects;
    if !on {
        assert(out[0] == EffectView::Handle(EventView::ToggleOn));
    }
}

/// The trust in everybody else is as before a pairing.
pub proof fn pairing_spares_the_others(
    n: NodeView,
    peer: Id,
    req: PairRequestView,
    verdict: Result<(), Seq<char>>,
    other: Id,
)
    requires
        other != peer,
    ensures
        ({
            let after = key_check_node(n, peer, req, verdict);
            &&& after.trusted.contains_key(other) == n.trusted.contains_key(other)
            &&& n.trusted.contains_key(other) ==> after.trusted[other] == n.trusted[other]
            &&& after == (NodeView { trusted: after.trusted, ..n })
        }),
{
}

/// A pairing is answered: with success once it is stored, and by URI or code also
/// with whether the peer was paired with before. A bad key, a full trust store and a
/// record that could not be stored are answered with a failure, and then nobody is
/// dialed and nobody new is trusted.
pub proof fn pairing_is_answered(
    n: NodeView,
    peer: Id,
    persists: bool,
    linked: Seq<Id>,
    on: bool,
    id: u64,
    req: PairRequestView,
    addrs: Seq<Option<SocketAddr>>,
    why: Seq<char>,
)
    ensures
        ({
            let bad = key_check_outcome(n, peer, persists, on, id, req, Err(why), addrs);
            &&& bad.effects.len() == 0
            &&& bad.step matches StepView::Done(r) && r.id == id && !r.ok && r.err is Some
            &&& key_check_node(n, peer, req, Err(why)) == n
        }),
        ({
            let full = !n.trusted.contains_key(peer) && n.trusted.dom().len() >= 64;
            let last = pairing_result(n, peer, persists, linked, on, id, req, addrs);
            &&& last.step matches StepView::Done(r) && r.id == id && {
                &&& full ==> !r.ok && last.effects.len() == 0 && key_check_node(n, peer, req, Ok(()))
                    == n
                &&& !full && !(req.way is Key) ==> r.ok && (r.data matches Some(
                    CmdDataView::PairResult { already_paired },
                ) && already_paired == (n.trusted.contains_key(peer) && !n.pending.contains_key(peer)))
                &&& !full && req.way is Key ==> r.ok == !(addrs.len() > 0 && addrs[0] is None)
            }
        }),
        ({
            let first = key_check_outcome(n, peer, true, on, id, req, Ok(()), addrs);
            first.step matches StepView::Upsert { then_do, .. } ==> {
                let failed = save_outcome(
                    key_check_node(n, peer, req, Ok(())),
                    linked,
                    on,
                    id,
                    then_do,
                    Err(why),
                );
                &&& failed.effects.len() == 0
                &&& failed.step matches StepView::Done(r) && r.id == id && !r.ok
                &&& save_node(key_check_node(n, peer, req, Ok(())), then_do, false) == n
            }
        }),
{
    unstored_pairing_is_taken_back(n, peer, req, addrs);
}

/// A peer that leaves is told so if it has a session, with the message that it is
/// revoked or, where it was only rejected, with a goodbye; its connection ends for good
/// and the state machine learns of it. A peer without a session is told nothing.
pub proof fn leaving_peer_is_told(
    n: NodeView,
    linked: Seq<Id>,
    on: bool,
    id: u64,
    peer: Id,
    pair: PendingView,
    trust: Option<TrustedView>,
)
    ensures
        ({
            let out = save_outcome(n, linked, on, id, AfterSaveView::Revoke { peer, trust }, Ok(()));
            let sent = EffectView::Send { to: peer, msg: MsgView::Revoke };
            &&& out.effects.contains(sent) == linked.contains(peer)
            &&& out.effects.contains(EffectView::PurgePeer { peer })
            &&& out.effects.contains(EffectView::Retire { peer })
            &&& out.step matches StepView::Done(r) && r.ok && r.id == id
        }),
        ({
            let out = save_outcome(
                n,
                linked,
                on,
                id,
                AfterSaveView::Reject { peer, trust, pair },
                Ok(()),
            );
            let sent = EffectView::Send { to: peer, msg: MsgView::Bye };
            &&& out.effects.contains(sent) == linked.contains(peer)
            &&& out.effects.contains(EffectView::PurgePeer { peer })
            &&& out.effects.contains(EffectView::Retire { peer })
            &&& out.step matches StepView::Done(r) && r.ok && r.id == id
        }),
        ({
            let out = save_outcome(
                n,
                linked,
                on,
                id,
                AfterSaveView::Unpair { snapshot: n.trusted },
                Ok(()),
            );
            &&& out.effects == seq![EffectView::Handle(EventView::ManualUnpair)]
            &&& out.step matches StepView::Done(r) && r.ok && r.id == id
        }),
{
    lemma_retirement(n, linked, peer, MsgView::Revoke);
    lemma_retirement(n, linked, peer, MsgView::Bye);
}

proof fn lemma_retirement(n: NodeView, linked: Seq<Id>, peer: Id, last: MsgView)
    ensures
        retirement(n, linked, peer, last).contains(EffectView::Send { to: peer, msg: last })
            == linked.contains(peer),
        retirement(n, linked, peer, last).contains(EffectView::PurgePeer { peer }),
        retirement(n, linked, peer, last).contains(EffectView::Retire { peer }),
{
    let out = retirement(n, linked, peer, last);
    if linked.contains(peer) {
        assert(out[0] == EffectView::Send { to: peer, msg: last });
        assert(out[1] == EffectView::PurgePeer { peer });
    } else {
        assert(out[0] == EffectView::PurgePeer { peer });
    }
    assert(out[out.len() - 1] == EffectView::Retire { peer });
}

/// The user's word on a pair that waits settles it. Accepted, it waits no more, trust
/// stays, the state machine learns of it, and the other device is told: at once, or
/// with its hello where that has not come yet; one that cannot be told counts as having
/// confirmed. Rejected, it waits no more, its trust is gone, and the device is told.
pub proof fn users_word_settles_the_pair(
    n: NodeView,
    persists: bool,
    linked: Seq<Id>,
    on: bool,
    id: u64,
    peer: Id,
)
    requires
        n.pending.contains_key(peer),
    ensures
        ({
            let after = confirm_node(n, persists, peer, true);
            let out = confirm_outcome(n, persists, linked, on, id, peer, true);
            let hello = n.meta.contains_key(peer) && n.meta[peer].hello_seen;
            let knows = hello && n.meta[peer].caps.contains("sas-confirm"@);
            &&& !after.pending.contains_key(peer)
            &&& after.trusted == n.trusted
            &&& out.effects.contains(
                EffectView::Handle(EventView::SasLocalConfirmed { peer_id: peer }),
            )
            &&& out.effects.contains(
                EffectView::Send { to: peer, msg: MsgView::PairConfirm { accept: true } },
            ) == knows
            &&& out.effects.contains(
                EffectView::Handle(EventView::SasPeerConfirmed { peer_id: peer }),
            ) == (hello && !knows)
            &&& after.deferred.contains(peer) == (!hello || n.deferred.contains(peer))
            &&& out.step matches StepView::Done(r) && r.ok && r.id == id
        }),
        ({
            let after = confirm_node(n, persists, peer, false);
            let out = confirm_outcome(n, persists, linked, on, id, peer, false);
            &&& !after.pending.contains_key(peer) && !after.trusted.contains_key(peer)
            &&& !after.deferred.contains(peer)
            &&& out.effects.len() > 0 && out.effects[0] == (EffectView::Send {
                to: peer,
                msg: MsgView::PairConfirm { accept: false },
            })
            &&& persists ==> out.effects.len() == 1 && out.step is Save
            &&& !persists ==> out.effects.contains(EffectView::PurgePeer { peer })
        }),
        ({
            let other = n.pending.remove(peer);
            confirm_node(n, persists, peer, true).pending == other && confirm_node(
                n,
                persists,
                peer,
                false,
            ).pending == other
        }),
{
    let out = confirm_outcome(n, persists, linked, on, id, peer, true).effects;
    assert(out[out.len() - 1] == EffectView::Handle(
        EventView::SasLocalConfirmed { peer_id: peer },
    ));
    if n.meta.contains_key(peer) && n.meta[peer].hello_seen {
        if has_cap(n.meta, peer, CAP_SAS_CONFIRM@) {
            assert(out[0] == EffectView::Send {
                to: peer,
                msg: MsgView::PairConfirm { accept: true },
            });
        } else {
            assert(out[0] == EffectView::Handle(EventView::SasPeerConfirmed { peer_id: peer }));
        }
    }
    if !persists {
        let no = confirm_outcome(n, persists, linked, on, id, peer, false).effects;
        lemma_retirement(rejected_node(n, peer), linked, peer, MsgView::Bye);
        let rest = retirement(rejected_node(n, peer), linked, peer, MsgView::Bye);
        let k = rest.index_of(EffectView::PurgePeer { peer });
        assert(no[k + 1] == EffectView::PurgePeer { peer });
    }
}

/// A word on a pair that does not wait changes nothing and is answered with a failure.
pub proof fn nothing_to_confirm_is_refused(
    n: NodeView,
    persists: bool,
    linked: Seq<Id>,
    on: bool,
    id: u64,
    peer: Id,
    accept: bool,
)
    requires
        !n.pending.contains_key(peer),
    ensures
        confirm_node(n, persists, peer, accept) == n,
        confirm_outcome(n, persists, linked, on, id, peer, accept).effects.len() == 0,
        confirm_outcome(n, persists, linked, on, id, peer, accept).step matches StepView::Done(r)
            && !r.ok && r.id == id,
{
}

} // verus!
