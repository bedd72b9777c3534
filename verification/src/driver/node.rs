//! The daemon's memory of its peers and of what passes between them.
use vstd::prelude::*;

use crate::backoff::PeerBackoff;
use crate::driver::discovered::{ResolvedPeer, ResolvedView};
use crate::driver::inflight::{Inflight, InflightView};
use crate::driver::peers::{PeerMeta, PeerMetaView};
use crate::driver::reassembly::{Reassembly, ReassemblyView};
use crate::driver::resync::{OutboxEntry, OutboxView};
use crate::handshake::{PendingPair, PendingView, TrustedPeer, TrustedView};
use crate::idmap::{IdMap, IdSet};
use crate::ids::Id;
use crate::wire::opt_view;

verus! {

/// A pairing code that is shown on the network.
#[derive(Debug)]
pub struct PinAd {
    pub pin: String,
    pub expires_at: u64,
}

/// View of a [`PinAd`].
#[verifier::ext_equal]
pub ghost struct PinView {
    pub pin: Seq<char>,
    pub expires_at: u64,
}

impl View for PinAd {
    type V = PinView;

    open spec fn view(&self) -> PinView {
        PinView { pin: self.pin@, expires_at: self.expires_at }
    }
}

/// What the daemon remembers while it runs.
pub struct Node {
    /// The trust store.
    pub trusted: IdMap<TrustedPeer>,
    /// Pairs that wait for the user's confirmation.
    pub pending: IdMap<PendingPair>,
    /// Peers that the user confirmed before their hello arrived.
    pub deferred: IdSet,
    /// Peers whose confirmation was echoed in this session.
    pub echo_acked: IdSet,
    pub meta: IdMap<PeerMeta>,
    pub backoff: IdMap<PeerBackoff>,
    pub discovered: IdMap<ResolvedPeer>,
    pub inflight: IdMap<Inflight>,
    pub reassembly: IdMap<Reassembly>,
    /// Items that wait for the user's decision before they may be kept.
    pub stage: IdMap<OutboxEntry>,
    /// What was asked of which peer, and when.
    pub pulls: IdMap<IdMap<u64>>,
    /// Items that were cleared on purpose, and when.
    pub cleared: IdMap<u64>,
    /// Until when strangers may pair.
    pub window: Option<u64>,
    /// The pairing code that is shown on the network.
    pub pin: Option<PinAd>,
}

/// View of a [`Node`].
#[verifier::ext_equal]
pub ghost struct NodeView {
    pub trusted: Map<Id, TrustedView>,
    pub pending: Map<Id, PendingView>,
    pub deferred: Set<Id>,
    pub echo_acked: Set<Id>,
    pub meta: Map<Id, PeerMetaView>,
    pub backoff: Map<Id, PeerBackoff>,
    pub discovered: Map<Id, ResolvedView>,
    pub inflight: Map<Id, InflightView>,
    pub reassembly: Map<Id, ReassemblyView>,
    pub stage: Map<Id, OutboxView>,
    pub pulls: Map<Id, Map<Id, u64>>,
    pub cleared: Map<Id, u64>,
    pub window: Option<u64>,
    pub pin: Option<PinView>,
}

impl View for Node {
    type V = NodeView;

    open spec fn view(&self) -> NodeView {
        NodeView {
            trusted: self.trusted@,
            pending: self.pending@,
            deferred: self.deferred@,
            echo_acked: self.echo_acked@,
            meta: self.meta@,
            backoff: self.backoff@,
            discovered: self.discovered@,
            inflight: self.inflight@,
            reassembly: self.reassembly@,
            stage: self.stage@,
            pulls: self.pulls@,
            cleared: self.cleared@,
            window: self.window,
            pin: opt_view(self.pin),
        }
    }
}

/// A memory of nothing.
pub open spec fn blank() -> NodeView {
    NodeView {
        trusted: Map::empty(),
        pending: Map::empty(),
        deferred: Set::empty(),
        echo_acked: Set::empty(),
        meta: Map::empty(),
        backoff: Map::empty(),
        discovered: Map::empty(),
        inflight: Map::empty(),
        reassembly: Map::empty(),
        stage: Map::empty(),
        pulls: Map::empty(),
        cleared: Map::empty(),
        window: None,
        pin: None,
    }
}

impl Node {
    /// A memory of nothing.
    pub fn new() -> (n: Self)
        ensures
            n@ == blank(),
    {
        Node {
            trusted: IdMap::new(),
            pending: IdMap::new(),
            deferred: IdSet::new(),
            echo_acked: IdSet::new(),
            meta: IdMap::new(),
            backoff: IdMap::new(),
            discovered: IdMap::new(),
            inflight: IdMap::new(),
            reassembly: IdMap::new(),
            stage: IdMap::new(),
            pulls: IdMap::new(),
            cleared: IdMap::new(),
            window: None,
            pin: None,
        }
    }
}

/// The user confirmed the peer, or its pairing never had to be: it is trusted and
/// does not wait for confirmation.
pub open spec fn confirmed(n: NodeView, peer: Id) -> bool {
    n.trusted.contains_key(peer) && !n.pending.contains_key(peer)
}

/// Decides [`confirmed`].
pub fn is_confirmed(node: &Node, peer: &Id) -> (r: bool)
    ensures
        r == confirmed(node@, *peer),
{
    node.trusted.contains_key(peer) && !node.pending.contains_key(peer)
}

} // verus!
