//! Handlers of the node's API that answer from local state, and the shim
//! that addresses Raft messages to peers over the gossip network.

use crate::heartbeat::RelayerState;
use crate::ids::{WalletIdentifier, WrappedPeerId};
use vstd::prelude::*;

verus! {

/// Handler for the ping route
#[derive(Clone, Copy, Debug, PartialEq, Eq, Structural)]
pub struct PingHandler;

impl PingHandler {
    /// A handler for "/ping"
    pub fn new() -> (r: PingHandler)
        ensures
            r == PingHandler,
    {
        PingHandler
    }
}

/// Handler for the replicas route: the replicas of a wallet
pub struct ReplicasHandler {
    global_state: RelayerState,
}

impl ReplicasHandler {
    /// A handler for "/replicas" over the given state
    pub fn new(global_state: RelayerState) -> (r: ReplicasHandler)
        ensures
            r.state() == global_state,
    {
        ReplicasHandler { global_state }
    }

    /// The state the handler answers from
    pub closed spec fn state(&self) -> RelayerState {
        self.global_state
    }

    /// The replicas of a managed wallet; none for a wallet not managed here
    pub fn handle_typed(&self, wallet_id: WalletIdentifier) -> (r: Vec<WrappedPeerId>)
        ensures
            (exists|i: int| 0 <= i < self.state().wallets().len() && self.state().wallets()[i].0 == wallet_id) ==> exists|i: int|
                0 <= i < self.state().wallets().len() && self.state().wallets()[i].0 == wallet_id && r@ == self.state().wallets()[i].1,
            !(exists|i: int| 0 <= i < self.state().wallets().len() && self.state().wallets()[i].0 == wallet_id) ==> r@.len() == 0,
    {
        let r = self.global_state.get_replicas(wallet_id);
        assert(self.state() == self.global_state);
        r
    }
}

/// A Raft node as the cluster knows it
pub struct Node {
    /// The node's peer
    pub peer_id: WrappedPeerId,
    /// The node's address
    pub addr: String,
}

impl Node {
    /// The node of no peer
    pub fn default() -> (r: Node)
        ensures
            r.peer_id == WrappedPeerId(0),
            r.addr@.len() == 0,
    {
        Node { peer_id: WrappedPeerId(0), addr: String::new() }
    }
}

/// The identifier of a Raft node
pub type NodeId = u64;

/// Addresses Raft messages for one target node to its peer
pub struct GossipNetwork {
    target: NodeId,
    target_info: Node,
}

impl GossipNetwork {
    /// The shim for a target node
    pub fn new(target: NodeId, target_info: Node) -> (r: GossipNetwork)
        ensures
            r.target_id() == target,
            r.target_peer() == target_info.peer_id,
            r.target_addr() == target_info.addr@,
    {
        GossipNetwork { target, target_info }
    }

    /// A shim with no target specified
    pub fn empty() -> (r: GossipNetwork)
        ensures
            r.target_id() == 0,
            r.target_peer() == WrappedPeerId(0),
            r.target_addr().len() == 0,
    {
        GossipNetwork { target: 0, target_info: Node::default() }
    }

    /// The target node
    pub closed spec fn target_id(&self) -> NodeId {
        self.target
    }

    /// The peer of the target node
    pub closed spec fn target_peer(&self) -> WrappedPeerId {
        self.target_info.peer_id
    }

    /// The address of the target node
    pub closed spec fn target_addr(&self) -> Seq<char> {
        self.target_info.addr@
    }

    /// The target node
    pub fn target(&self) -> (r: NodeId)
        ensures
            r == self.target_id(),
    {
        self.target
    }

    /// The peer Raft messages for the target are sent to
    pub fn peer_id(&self) -> (r: WrappedPeerId)
        ensures
            r == self.target_peer(),
    {
        self.target_info.peer_id
    }
}

} // verus!
