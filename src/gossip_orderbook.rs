//! The order-book side of the gossip protocol: what the node does with an
//! announced order, a validity-proof bundle, or an order's information,
//! once the chain and the circuit verifier have answered.

use crate::ids::{ClusterId, Nullifier, OrderIdentifier, WrappedPeerId};
use crate::order_book::{
    lookup_order, put_order, spec_verify, NetworkOrder, NetworkOrderState, OrderValidityProofBundle,
    OrderValidityWitnessBundle, StateApplicator, SystemBusMessage,
};
use vstd::prelude::*;

verus! {

/// Why the gossip layer dropped a message
#[derive(Clone, Copy, Debug, PartialEq, Eq, Structural)]
pub enum GossipError {
    /// The nullifier the reblind proof spends is already spent on chain
    NullifierUsed,
    /// The Merkle root the reblind proof opens against is not a historical root
    InvalidMerkleRoot,
    /// The `VALID REBLIND` proof does not verify
    ValidReblindVerification,
    /// The `VALID COMMITMENTS` proof does not verify, or is not linked to
    /// the `VALID REBLIND` proof by the expected commitments
    ValidCommitmentVerification,
    /// The peer is not in the peer index
    MissingState,
}

/// What the chain and the circuit verifier said of a validity-proof bundle
#[derive(Clone, Copy, Debug, PartialEq, Eq, Structural)]
pub struct ProofChecks {
    /// The reblind and commitments proofs are commitment-linked
    pub link_valid: bool,
    /// The nullifier the reblind proof spends is unspent on chain
    pub nullifier_unspent: bool,
    /// The reblind proof's Merkle root is a historical root of the contract
    pub root_in_history: bool,
    /// The `VALID REBLIND` proof verifies
    pub reblind_verifies: bool,
    /// The `VALID COMMITMENTS` proof verifies
    pub commitments_verify: bool,
}

/// The verdict on a bundle: the first check that failed, in the order the
/// checks are made
pub open spec fn spec_verdict(c: ProofChecks) -> Result<(), GossipError> {
    if !c.link_valid {
        Err(GossipError::ValidCommitmentVerification)
    } else if !c.nullifier_unspent {
        Err(GossipError::NullifierUsed)
    } else if !c.root_in_history {
        Err(GossipError::InvalidMerkleRoot)
    } else if !c.reblind_verifies {
        Err(GossipError::ValidReblindVerification)
    } else if !c.commitments_verify {
        Err(GossipError::ValidCommitmentVerification)
    } else {
        Ok(())
    }
}

/// Decides whether a validity-proof bundle from outside the local cluster is
/// accepted: its proofs must be commitment-linked, its nullifier unspent, its
/// Merkle root historical, and both proofs must verify
pub fn verify_validity_proofs(checks: &ProofChecks) -> (r: Result<(), GossipError>)
    ensures
        r == spec_verdict(*checks),
{
    if !checks.link_valid {
        return Err(GossipError::ValidCommitmentVerification);
    }
    if !checks.nullifier_unspent {
        return Err(GossipError::NullifierUsed);
    }
    if !checks.root_in_history {
        return Err(GossipError::InvalidMerkleRoot);
    }
    if !checks.reblind_verifies {
        return Err(GossipError::ValidReblindVerification);
    }
    if !checks.commitments_verify {
        return Err(GossipError::ValidCommitmentVerification);
    }
    Ok(())
}

/// What a gossip handler asks of the rest of the node
#[derive(Clone, Copy, Debug, PartialEq, Eq, Structural)]
pub enum OrderBookAction {
    /// Publish a message on the internal bus
    Publish(SystemBusMessage),
    /// Ask the cluster for the witness of a local order's validity proofs
    RequestWitness { order_id: OrderIdentifier, sender: WrappedPeerId },
    /// Send an order's validity-proof witness to a cluster peer
    SendWitness { peer_id: WrappedPeerId, order_id: OrderIdentifier, witness: OrderValidityWitnessBundle },
    /// Answer a peer's request for an order's information
    OrderInfo { order_id: OrderIdentifier, info: Option<NetworkOrder> },
}

/// The bus messages as actions
pub open spec fn published(msgs: Seq<SystemBusMessage>) -> Seq<OrderBookAction> {
    msgs.map_values(|m: SystemBusMessage| OrderBookAction::Publish(m))
}

fn publish_all(msgs: Vec<SystemBusMessage>, actions: &mut Vec<OrderBookAction>)
    ensures
        final(actions)@ == old(actions)@ + published(msgs@),
{
    let ghost start = actions@;
    let mut i: usize = 0;
    while i < msgs.len()
        invariant
            i <= msgs.len(),
            actions@ == start + published(msgs@.subrange(0, i as int)),
        decreases msgs.len() - i,
    {
        actions.push(OrderBookAction::Publish(msgs[i]));
        i = i + 1;
        assert(published(msgs@.subrange(0, i as int)) =~= published(msgs@.subrange(0, i as int - 1)).push(
            OrderBookAction::Publish(msgs@[i as int - 1]),
        ));
    }
    assert(msgs@.subrange(0, msgs@.len() as int) =~= msgs@);
}


/// What announcing an order does: an order whose nullifier is spent is
/// ignored; otherwise it enters the book as `Received` and is published
pub open spec fn post_new_order(
    old: Seq<NetworkOrder>,
    new: Seq<NetworkOrder>,
    local_cluster: ClusterId,
    r: Seq<OrderBookAction>,
    order_id: OrderIdentifier,
    nullifier: Nullifier,
    cluster: ClusterId,
    nullifier_unspent: bool,
    now: u64,
) -> bool {
    &&& !nullifier_unspent ==> new == old && r.len() == 0
    &&& nullifier_unspent ==> ({
        let order = NetworkOrder::spec_new(order_id, nullifier, cluster, cluster == local_cluster, now);
        new == put_order(old, order) && r == seq![OrderBookAction::Publish(SystemBusMessage::NewOrder { order })]
    })
}

/// What a gossiped validity-proof bundle does to the book
pub open spec fn post_validity_proof(
    old: Seq<NetworkOrder>,
    new: Seq<NetworkOrder>,
    local_cluster: ClusterId,
    local_peer: WrappedPeerId,
    r: Result<Vec<OrderBookAction>, GossipError>,
    order_id: OrderIdentifier,
    cluster: ClusterId,
    proof_bundle: OrderValidityProofBundle,
    checks: ProofChecks,
    now: u64,
) -> bool {
        let is_local = cluster == local_cluster;
        let fresh = NetworkOrder {
            id: order_id,
            public_share_nullifier: proof_bundle.original_shares_nullifier,
            cluster,
            state: NetworkOrderState::Received,
            validity_proofs: None,
            validity_proof_witnesses: None,
            timestamp: now,
            local: is_local,
        };
        let stored = match lookup_order(old, order_id) {
            Some(o) => o,
            None => fresh,
        };
        &&& (!is_local && spec_verdict(checks) is Err) ==> r == Err::<Vec<OrderBookAction>, GossipError>(
            spec_verdict(checks)->Err_0,
        ) && new == old
        &&& (is_local || spec_verdict(checks) is Ok) ==> r is Ok && lookup_order(new, order_id)
            == Some(spec_verify(stored, proof_bundle))
        &&& (is_local || spec_verdict(checks) is Ok) ==> (r matches Ok(actions) && (is_local <==> (actions@.len() > 0
            && actions@.last() == OrderBookAction::RequestWitness { order_id, sender: local_peer })))
    }

/// What an order's information received from a peer does to the book
pub open spec fn post_order_info_response(
    old: Seq<NetworkOrder>,
    new: Seq<NetworkOrder>,
    local_cluster: ClusterId,
    r: Result<Vec<OrderBookAction>, GossipError>,
    order_info: NetworkOrder,
    checks: ProofChecks,
) -> bool {
        let is_local = order_info.cluster == local_cluster;
        let received = NetworkOrder {
            state: NetworkOrderState::Received,
            local: is_local,
            validity_proofs: None,
            ..order_info
        };
        let indexed = put_order(old, received);
        match order_info.validity_proofs {
            None => r is Ok && new == indexed,
            Some(bundle) => if !is_local && spec_verdict(checks) is Err {
                r == Err::<Vec<OrderBookAction>, GossipError>(spec_verdict(checks)->Err_0) && new
                    == indexed
            } else {
                r is Ok && lookup_order(new, order_info.id) == Some(spec_verify(received, bundle))
            },
        }
    }

/// How a request for an order's witness is answered
pub open spec fn post_witness_request(
    book: Seq<NetworkOrder>,
    local_cluster: ClusterId,
    r: Result<Vec<OrderBookAction>, GossipError>,
    order_id: OrderIdentifier,
    requesting_peer: WrappedPeerId,
    requesting_cluster: Option<ClusterId>,
) -> bool {
    &&& requesting_cluster is None ==> r == Err::<Vec<OrderBookAction>, GossipError>(GossipError::MissingState)
    &&& requesting_cluster matches Some(c) ==> r matches Ok(actions) && ({
        let held = match lookup_order(book, order_id) {
            Some(o) => o.validity_proof_witnesses,
            None => None,
        };
        if c == local_cluster && held is Some {
            actions@ == seq![OrderBookAction::SendWitness { peer_id: requesting_peer, order_id, witness: held->Some_0 }]
        } else {
            actions@.len() == 0
        }
    })
}

/// What a received witness does to the book
pub open spec fn post_witness_response(
    old: Seq<NetworkOrder>,
    new: Seq<NetworkOrder>,
    order_id: OrderIdentifier,
    witness: OrderValidityWitnessBundle,
) -> bool {
    match lookup_order(old, order_id) {
        None => new == old,
        Some(o) => new == put_order(old, NetworkOrder { validity_proof_witnesses: Some(witness), ..o }),
    }
}


/// An order-book event from the network, to be dispatched to its handler
#[derive(Clone, Copy, Debug, PartialEq, Eq, Structural)]
pub enum OrderBookManagementJob {
    /// A peer asks for an order's information
    OrderInfo { order_id: OrderIdentifier },
    /// A peer answered a request for an order's information
    OrderInfoResponse { info: Option<NetworkOrder> },
    /// A peer announced an order
    OrderReceived { order_id: OrderIdentifier, nullifier: Nullifier, cluster: ClusterId },
    /// A peer gossiped an order's validity proofs
    OrderProofUpdated { order_id: OrderIdentifier, cluster: ClusterId, proof_bundle: OrderValidityProofBundle },
    /// A cluster peer asks for an order's validity-proof witness
    OrderWitness { order_id: OrderIdentifier, requesting_peer: WrappedPeerId },
    /// A cluster peer answered with an order's validity-proof witness
    OrderWitnessResponse { order_id: OrderIdentifier, witness: OrderValidityWitnessBundle },
}

/// The order book side of the gossip server
pub struct OrderBookGossip {
    /// The local peer
    pub local_peer_id: WrappedPeerId,
    /// The local cluster
    pub local_cluster_id: ClusterId,
    /// The order book
    pub book: StateApplicator,
}

impl OrderBookGossip {
    /// Dispatches an order-book event to its handler. `checks` holds what the
    /// chain and the verifier said of a bundle the event carries,
    /// `nullifier_unspent` whether an announced order's nullifier is unspent,
    /// and `requesting_cluster` the cluster of a peer asking for a witness
    /// (none when the peer is not indexed).
    pub fn handle_order_book_management_job(
        &mut self,
        job: OrderBookManagementJob,
        checks: &ProofChecks,
        nullifier_unspent: bool,
        requesting_cluster: Option<ClusterId>,
        now: u64,
    ) -> (r: Result<Vec<OrderBookAction>, GossipError>)
        requires
            old(self).book.wf(),
        ensures
            final(self).book.wf(),
            final(self).local_cluster_id == old(self).local_cluster_id,
            final(self).local_peer_id == old(self).local_peer_id,
            match job {
                OrderBookManagementJob::OrderInfo { order_id } => final(self).book.orders() == old(self).book.orders() && (r matches Ok(
                    a,
                ) && a@ == seq![OrderBookAction::OrderInfo { order_id, info: lookup_order(old(self).book.orders(), order_id) }]),
                OrderBookManagementJob::OrderInfoResponse { info } => match info {
                    None => final(self).book.orders() == old(self).book.orders() && (r matches Ok(a) && a@.len() == 0),
                    Some(o) => post_order_info_response(
                        old(self).book.orders(),
                        final(self).book.orders(),
                        old(self).local_cluster_id,
                        r,
                        o,
                        *checks,
                    ),
                },
                OrderBookManagementJob::OrderReceived { order_id, nullifier, cluster } => r matches Ok(a) && post_new_order(
                    old(self).book.orders(),
                    final(self).book.orders(),
                    old(self).local_cluster_id,
                    a@,
                    order_id,
                    nullifier,
                    cluster,
                    nullifier_unspent,
                    now,
                ),
                OrderBookManagementJob::OrderProofUpdated { order_id, cluster, proof_bundle } => post_validity_proof(
                    old(self).book.orders(),
                    final(self).book.orders(),
                    old(self).local_cluster_id,
                    old(self).local_peer_id,
                    r,
                    order_id,
                    cluster,
                    proof_bundle,
                    *checks,
                    now,
                ),
                OrderBookManagementJob::OrderWitness { order_id, requesting_peer } => final(self).book.orders() == old(
                    self,
                ).book.orders() && post_witness_request(
                    old(self).book.orders(),
                    old(self).local_cluster_id,
                    r,
                    order_id,
                    requesting_peer,
                    requesting_cluster,
                ),
                OrderBookManagementJob::OrderWitnessResponse { order_id, witness } => (r matches Ok(a) && a@.len() == 0)
                    && post_witness_response(old(self).book.orders(), final(self).book.orders(), order_id, witness),
            },
    {
        match job {
            OrderBookManagementJob::OrderInfo { order_id } => {
                let action = self.handle_order_info_request(order_id);
                let actions = vec![action];
                assert(actions@ =~= seq![action]);
                Ok(actions)
            },
            OrderBookManagementJob::OrderInfoResponse { info } => match info {
                Some(o) => self.handle_order_info_response(o, checks),
                None => Ok(Vec::new()),
            },
            OrderBookManagementJob::OrderReceived { order_id, nullifier, cluster } => {
                Ok(self.handle_new_order(order_id, nullifier, cluster, nullifier_unspent, now))
            },
            OrderBookManagementJob::OrderProofUpdated { order_id, cluster, proof_bundle } => {
                self.handle_new_validity_proof(order_id, cluster, proof_bundle, checks, now)
            },
            OrderBookManagementJob::OrderWitness { order_id, requesting_peer } => {
                self.handle_validity_witness_request(order_id, requesting_peer, requesting_cluster)
            },
            OrderBookManagementJob::OrderWitnessResponse { order_id, witness } => {
                self.handle_validity_witness_response(order_id, witness);
                Ok(Vec::new())
            },
        }
    }

    /// An order announced by a peer: indexed as `Received` if its nullifier
    /// is unspent on chain, ignored otherwise
    pub fn handle_new_order(
        &mut self,
        order_id: OrderIdentifier,
        nullifier: Nullifier,
        cluster: ClusterId,
        nullifier_unspent: bool,
        now: u64,
    ) -> (r: Vec<OrderBookAction>)
        requires
            old(self).book.wf(),
        ensures
            final(self).book.wf(),
            final(self).local_cluster_id == old(self).local_cluster_id,
            final(self).local_peer_id == old(self).local_peer_id,
            post_new_order(
                old(self).book.orders(),
                final(self).book.orders(),
                old(self).local_cluster_id,
                r@,
                order_id,
                nullifier,
                cluster,
                nullifier_unspent,
                now,
            ),
    {
        let mut actions: Vec<OrderBookAction> = Vec::new();
        if !nullifier_unspent {
            return actions;
        }
        let is_local = cluster == self.local_cluster_id;
        let order = NetworkOrder::new(order_id, nullifier, cluster, is_local, now);
        assert(order == NetworkOrder::spec_new(order_id, nullifier, cluster, is_local, now));
        let msgs = self.book.new_order(order);
        publish_all(msgs, &mut actions);
        proof {
            assert(actions@ =~= published(msgs@));
            assert(actions@ =~= seq![OrderBookAction::Publish(SystemBusMessage::NewOrder { order })]);
        }
        actions
    }

    /// A validity-proof bundle gossiped for an order. A bundle from outside
    /// the local cluster must pass the checks; an order not yet in the book
    /// is added under the bundle's nullifier; the order becomes `Verified`;
    /// for a local order the witness is requested from the cluster.
    pub fn handle_new_validity_proof(
        &mut self,
        order_id: OrderIdentifier,
        cluster: ClusterId,
        proof_bundle: OrderValidityProofBundle,
        checks: &ProofChecks,
        now: u64,
    ) -> (r: Result<Vec<OrderBookAction>, GossipError>)
        requires
            old(self).book.wf(),
        ensures
            final(self).book.wf(),
            final(self).local_cluster_id == old(self).local_cluster_id,
            final(self).local_peer_id == old(self).local_peer_id,
            post_validity_proof(
                old(self).book.orders(),
                final(self).book.orders(),
                old(self).local_cluster_id,
                old(self).local_peer_id,
                r,
                order_id,
                cluster,
                proof_bundle,
                *checks,
                now,
            ),
    {
        let is_local = cluster == self.local_cluster_id;
        if !is_local {
            if let Err(e) = verify_validity_proofs(checks) {
                return Err(e);
            }
        }
        let mut actions: Vec<OrderBookAction> = Vec::new();
        let ghost before = self.book.orders();
        let ghost fresh = NetworkOrder::spec_new(order_id, proof_bundle.original_shares_nullifier, cluster, is_local, now);
        let ghost stored = match lookup_order(before, order_id) {
            Some(o) => o,
            None => fresh,
        };
        proof {
            crate::search::lemma_first_index_spec(before, crate::order_book::order_has_id(order_id));
            assert(stored.id == order_id);
        }
        if self.book.get_order_info(order_id).is_none() {
            let order = NetworkOrder::new(order_id, proof_bundle.original_shares_nullifier, cluster, is_local, now);
            let msgs = self.book.new_order(order);
            publish_all(msgs, &mut actions);
            proof {
                lemma_lookup_put(before, order);
            }
        }
        let ghost mid = self.book.orders();
        assert(lookup_order(mid, order_id) == Some(stored));
        let added = self.book.add_order_validity_proof(order_id, proof_bundle);
        match added {
            Ok(msgs) => {
                publish_all(msgs, &mut actions);
                proof {
                    lemma_lookup_put(mid, spec_verify(stored, proof_bundle));
                    assert(msgs@.len() == 1);
                    assert(actions@.last() == OrderBookAction::Publish(msgs@[0]));
                }
            },
            Err(_) => {
                assert(false);
            },
        }
        assert(lookup_order(self.book.orders(), order_id) == Some(spec_verify(stored, proof_bundle)));
        assert(actions@.len() > 0 && actions@.last() is Publish);
        if is_local {
            actions.push(OrderBookAction::RequestWitness { order_id, sender: self.local_peer_id });
        }
        Ok(actions)
    }


    /// Information about an order received from a peer: the order is indexed
    /// as `Received` (local when it belongs to the local cluster); a proof
    /// bundle that comes with it is checked unless the order is local, then
    /// attached, and for a local order the witness is requested
    pub fn handle_order_info_response(&mut self, order_info: NetworkOrder, checks: &ProofChecks) -> (r: Result<
        Vec<OrderBookAction>,
        GossipError,
    >)
        requires
            old(self).book.wf(),
        ensures
            final(self).book.wf(),
            final(self).local_cluster_id == old(self).local_cluster_id,
            final(self).local_peer_id == old(self).local_peer_id,
            post_order_info_response(
                old(self).book.orders(),
                final(self).book.orders(),
                old(self).local_cluster_id,
                r,
                order_info,
                *checks,
            ),
    {
        let is_local = order_info.cluster == self.local_cluster_id;
        let attached = order_info.validity_proofs;
        let received = NetworkOrder {
            state: NetworkOrderState::Received,
            local: is_local,
            validity_proofs: None,
            ..order_info
        };
        let mut actions: Vec<OrderBookAction> = Vec::new();
        let ghost before = self.book.orders();
        let msgs = self.book.new_order(received);
        publish_all(msgs, &mut actions);
        proof {
            lemma_lookup_put(before, received);
        }
        if let Some(bundle) = attached {
            if !is_local {
                if let Err(e) = verify_validity_proofs(checks) {
                    return Err(e);
                }
            }
            if is_local {
                actions.push(OrderBookAction::RequestWitness { order_id: received.id, sender: self.local_peer_id });
            }
            let ghost mid = self.book.orders();
            match self.book.add_order_validity_proof(received.id, bundle) {
                Ok(msgs) => {
                    publish_all(msgs, &mut actions);
                    proof {
                        lemma_lookup_put(mid, spec_verify(received, bundle));
                    }
                },
                Err(_) => {
                    assert(false);
                },
            }
        }
        Ok(actions)
    }


    /// A peer's request for an order's information: answered with the order
    /// as the book holds it, if it does
    pub fn handle_order_info_request(&self, order_id: OrderIdentifier) -> (r: OrderBookAction)
        ensures
            r == (OrderBookAction::OrderInfo { order_id, info: lookup_order(self.book.orders(), order_id) }),
    {
        OrderBookAction::OrderInfo { order_id, info: self.book.get_order_info(order_id) }
    }

    /// A cluster peer's answer with the witness of an order's validity
    /// proofs: attached to the order
    pub fn handle_validity_witness_response(&mut self, order_id: OrderIdentifier, witness: OrderValidityWitnessBundle)
        requires
            old(self).book.wf(),
        ensures
            final(self).book.wf(),
            post_witness_response(old(self).book.orders(), final(self).book.orders(), order_id, witness),
            final(self).local_cluster_id == old(self).local_cluster_id,
            final(self).local_peer_id == old(self).local_peer_id,
    {
        self.book.attach_validity_proof_witness(order_id, witness);
    }

    /// A request from a cluster peer for the witness of an order's validity
    /// proofs: answered when the peer belongs to the local cluster and the
    /// witness is held
    pub fn handle_validity_witness_request(
        &self,
        order_id: OrderIdentifier,
        requesting_peer: WrappedPeerId,
        requesting_cluster: Option<ClusterId>,
    ) -> (r: Result<Vec<OrderBookAction>, GossipError>)
        ensures
            post_witness_request(self.book.orders(), self.local_cluster_id, r, order_id, requesting_peer, requesting_cluster),
    {
        let c = match requesting_cluster {
            Some(c) => c,
            None => return Err(GossipError::MissingState),
        };
        let mut actions: Vec<OrderBookAction> = Vec::new();
        if c != self.local_cluster_id {
            return Ok(actions);
        }
        if let Some(order) = self.book.get_order_info(order_id) {
            if let Some(witness) = order.validity_proof_witnesses {
                actions.push(OrderBookAction::SendWitness { peer_id: requesting_peer, order_id, witness });
            }
        }
        Ok(actions)
    }
}

impl NetworkOrder {
    /// A newly announced order, in the `Received` state
    pub open spec fn spec_new(
        id: OrderIdentifier,
        public_share_nullifier: Nullifier,
        cluster: ClusterId,
        local: bool,
        timestamp: u64,
    ) -> NetworkOrder {
        NetworkOrder {
            id,
            public_share_nullifier,
            cluster,
            state: NetworkOrderState::Received,
            validity_proofs: None,
            validity_proof_witnesses: None,
            timestamp,
            local,
        }
    }
}

/// Looking up an order just written finds it
pub proof fn lemma_lookup_put(os: Seq<NetworkOrder>, o: NetworkOrder)
    ensures
        lookup_order(put_order(os, o), o.id) == Some(o),
{
    let p = crate::order_book::order_has_id(o.id);
    crate::search::lemma_first_index_spec(os, p);
    let os2 = put_order(os, o);
    let idx = match crate::search::first_index(os, p) { Some(i) => i, None => os.len() as int };
    assert forall|j: int| 0 <= j < idx implies !#[trigger] p(os2[j]) by {
        assert(os2[j] == os[j]);
    }
    assert(p(os2[idx]));
    crate::search::lemma_first_index_unique(os2, p, idx);
}

} // verus!
