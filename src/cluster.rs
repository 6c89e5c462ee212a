//! Cluster management in the gossip layer: admitting a peer that joined the
//! local cluster, taking over wallets a cluster peer asks the node to
//! replicate, and sharing validity proofs with cluster peers.

use crate::gossip_orderbook::OrderBookGossip;
use crate::heartbeat::{PeerInfo, RelayerState, WalletReplicas};
use crate::ids::{ClusterId, OrderIdentifier, WalletIdentifier, WrappedPeerId};
use crate::order_book::{lookup_order, OrderValidityProofBundle, StateApplicator};
use vstd::prelude::*;

verus! {

/// A message published on the local cluster's management topic
pub enum ClusterManagementMessage {
    /// The sender now replicates the wallets
    Replicated { wallets: Vec<WalletIdentifier>, peer_id: WrappedPeerId },
    /// The sender asks for the validity proofs of the orders
    RequestOrderValidityProof { order_ids: Vec<OrderIdentifier>, sender: WrappedPeerId },
}

/// A request sent to one cluster peer
pub enum ClusterRequest {
    /// Replicate the wallets
    Replicate { peer_id: WrappedPeerId, wallets: Vec<WalletIdentifier> },
    /// The validity proofs of an order
    ValidityProof { peer_id: WrappedPeerId, order_id: OrderIdentifier, proof_bundle: OrderValidityProofBundle },
}

/// The orders of the wallets that do not yet have validity proofs in the
/// book, wallet by wallet
pub open spec fn orders_needing_proofs(
    orders: Seq<Seq<OrderIdentifier>>,
    book: Seq<crate::order_book::NetworkOrder>,
) -> Seq<OrderIdentifier>
    decreases orders.len(),
{
    if orders.len() == 0 {
        Seq::empty()
    } else {
        orders_needing_proofs(orders.drop_last(), book) + orders.last().filter(
            |id: OrderIdentifier| proofs_of(book, id) is None,
        )
    }
}

/// The validity proofs the book holds for an order
pub open spec fn proofs_of(book: Seq<crate::order_book::NetworkOrder>, id: OrderIdentifier) -> Option<OrderValidityProofBundle> {
    match lookup_order(book, id) {
        Some(o) => o.validity_proofs,
        None => None,
    }
}

/// The identifiers of the managed wallets
pub open spec fn wallet_ids(ws: Seq<(WalletIdentifier, Seq<WrappedPeerId>)>) -> Seq<WalletIdentifier> {
    ws.map_values(|w: (WalletIdentifier, Seq<WrappedPeerId>)| w.0)
}

/// Admits a peer that joined the local cluster: it is indexed, becomes a
/// member, and is asked to replicate every managed wallet. A join for
/// another cluster is ignored.
pub fn handle_cluster_join(
    state: &mut RelayerState,
    cluster_id: ClusterId,
    peer_info: &PeerInfo,
) -> (r: Vec<ClusterRequest>)
    requires
        old(state).wf(),
    ensures
        final(state).wf(),
        cluster_id != old(state).cluster() ==> final(state).peers() == old(state).peers() && final(state).members() == old(state).members()
            && r@.len() == 0,
        cluster_id == old(state).cluster() ==> crate::heartbeat::has_peer(final(state).peers(), peer_info@.peer_id) && final(state).members().contains(
            peer_info@.peer_id,
        ),
        cluster_id == old(state).cluster() && old(state).wallets().len() > 0 ==> r@.len() == 1 && (r@[0] matches ClusterRequest::Replicate {
            peer_id,
            wallets,
        } && peer_id == peer_info@.peer_id && wallets@ == wallet_ids(old(state).wallets())),
        cluster_id == old(state).cluster() && old(state).wallets().len() == 0 ==> r@.len() == 0,
        final(state).wallets() == old(state).wallets(),
{
    let mut out: Vec<ClusterRequest> = Vec::new();
    if cluster_id != state.cluster_id_of() {
        return out;
    }
    state.add_single_peer(peer_info);
    let wallets = state.managed_wallet_ids();
    if wallets.len() > 0 {
        out.push(ClusterRequest::Replicate { peer_id: peer_info.get_peer_id(), wallets });
    }
    out
}

/// Takes over wallets a cluster peer asks the node to replicate: they are
/// registered, the takeover is announced, and the validity proofs of their
/// orders that the book lacks are requested. `wallet_orders[i]` holds the
/// order identifiers of `wallets[i]`.
pub fn handle_replicate_request(
    state: &mut RelayerState,
    book: &StateApplicator,
    wallets: Vec<WalletReplicas>,
    wallet_orders: &Vec<Vec<OrderIdentifier>>,
) -> (r: Vec<ClusterManagementMessage>)
    requires
        wallet_orders@.len() == wallets@.len(),
    ensures
        wallets@.len() == 0 ==> r@.len() == 0 && final(state).wallets() == old(state).wallets(),
        final(state).members() == old(state).members(),
        final(state).cluster() == old(state).cluster(),
        wallets@.len() > 0 ==> final(state).wallets() == old(state).wallets() + wallets@.map_values(
            |w: WalletReplicas| (w.wallet_id, w.replicas@),
        ) && r@.len() == 2 && (r@[0] matches ClusterManagementMessage::Replicated { wallets: ids, peer_id } && ids@
            == wallets@.map_values(|w: WalletReplicas| w.wallet_id) && peer_id == old(state).local_peer()) && (r@[1] matches ClusterManagementMessage::RequestOrderValidityProof {
            order_ids,
            sender,
        } && order_ids@ == orders_needing_proofs(wallet_orders@.map_values(|v: Vec<OrderIdentifier>| v@), book.orders())
            && sender == old(state).local_peer()),
        final(state).peers() == old(state).peers(),
        final(state).local_peer() == old(state).local_peer(),
{
    let mut out: Vec<ClusterManagementMessage> = Vec::new();
    if wallets.len() == 0 {
        return out;
    }
    let mut ids: Vec<WalletIdentifier> = Vec::new();
    let mut i: usize = 0;
    while i < wallets.len()
        invariant
            i <= wallets.len(),
            ids@ == wallets@.subrange(0, i as int).map_values(|w: WalletReplicas| w.wallet_id),
        decreases wallets.len() - i,
    {
        ids.push(wallets[i].wallet_id);
        i = i + 1;
        assert(ids@ =~= wallets@.subrange(0, i as int).map_values(|w: WalletReplicas| w.wallet_id));
    }
    assert(wallets@.subrange(0, i as int) =~= wallets@);
    let ghost orders_view = wallet_orders@.map_values(|v: Vec<OrderIdentifier>| v@);
    let mut needing: Vec<OrderIdentifier> = Vec::new();
    let mut w: usize = 0;
    while w < wallet_orders.len()
        invariant
            w <= wallet_orders.len(),
            orders_view == wallet_orders@.map_values(|v: Vec<OrderIdentifier>| v@),
            needing@ == orders_needing_proofs(orders_view.subrange(0, w as int), book.orders()),
        decreases wallet_orders.len() - w,
    {
        let ghost before = needing@;
        let order_ids = &wallet_orders[w];
        let ghost pred = |id: OrderIdentifier| proofs_of(book.orders(), id) is None;
        let mut k: usize = 0;
        while k < order_ids.len()
            invariant
                k <= order_ids.len(),
                pred == (|id: OrderIdentifier| proofs_of(book.orders(), id) is None),
                needing@ == before + order_ids@.subrange(0, k as int).filter(pred),
            decreases order_ids.len() - k,
        {
            proof {
                assert(order_ids@.subrange(0, k as int + 1).drop_last() =~= order_ids@.subrange(0, k as int));
                reveal_with_fuel(Seq::<OrderIdentifier>::filter, 1);
            }
            if !book.has_validity_proofs(order_ids[k]) {
                needing.push(order_ids[k]);
            }
            k = k + 1;
            assert(needing@ =~= before + order_ids@.subrange(0, k as int).filter(pred));
        }
        proof {
            assert(order_ids@.subrange(0, k as int) =~= order_ids@);
            assert(orders_view.subrange(0, w as int + 1).drop_last() =~= orders_view.subrange(0, w as int));
            assert(orders_view.subrange(0, w as int + 1).last() == order_ids@);
        }
        w = w + 1;
    }
    assert(orders_view.subrange(0, w as int) =~= orders_view);
    let local = state.local_peer_id_of();
    state.add_wallets(wallets);
    out.push(ClusterManagementMessage::Replicated { wallets: ids, peer_id: local });
    out.push(ClusterManagementMessage::RequestOrderValidityProof { order_ids: needing, sender: local });
    out
}

/// The requested orders that have validity proofs in the book, with their
/// proofs, in the order requested
pub open spec fn shared_proofs(
    ids: Seq<OrderIdentifier>,
    book: Seq<crate::order_book::NetworkOrder>,
) -> Seq<(OrderIdentifier, OrderValidityProofBundle)>
    decreases ids.len(),
{
    if ids.len() == 0 {
        Seq::empty()
    } else {
        shared_proofs(ids.drop_last(), book) + match proofs_of(book, ids.last()) {
            Some(bundle) => seq![(ids.last(), bundle)],
            None => Seq::empty(),
        }
    }
}

/// Whether a request sends the given order's proofs to the peer
pub open spec fn sends_proof(r: ClusterRequest, peer: WrappedPeerId, entry: (OrderIdentifier, OrderValidityProofBundle)) -> bool {
    r matches ClusterRequest::ValidityProof { peer_id, order_id, proof_bundle } && peer_id == peer && order_id == entry.0
        && proof_bundle == entry.1
}

/// Answers a cluster peer's request for validity proofs with one request
/// per requested order that has proofs in the book, in the order requested
pub fn handle_share_validity_proofs(
    gossip: &OrderBookGossip,
    order_ids: &Vec<OrderIdentifier>,
    sender: WrappedPeerId,
) -> (r: Vec<ClusterRequest>)
    ensures
        r@.len() == shared_proofs(order_ids@, gossip.book.orders()).len(),
        forall|k: int| 0 <= k < r@.len() ==> #[trigger] sends_proof(r@[k], sender, shared_proofs(order_ids@, gossip.book.orders())[k]),
{
    let ghost book = gossip.book.orders();
    let mut out: Vec<ClusterRequest> = Vec::new();
    let mut i: usize = 0;
    while i < order_ids.len()
        invariant
            i <= order_ids.len(),
            book == gossip.book.orders(),
            out@.len() == shared_proofs(order_ids@.subrange(0, i as int), book).len(),
            forall|k: int| 0 <= k < out@.len() ==> #[trigger] sends_proof(out@[k], sender, shared_proofs(order_ids@.subrange(0, i as int), book)[k]),
        decreases order_ids.len() - i,
    {
        let ghost prev = shared_proofs(order_ids@.subrange(0, i as int), book);
        let ghost out0 = out@;
        proof {
            assert(order_ids@.subrange(0, i as int + 1).drop_last() =~= order_ids@.subrange(0, i as int));
            assert(order_ids@.subrange(0, i as int + 1).last() == order_ids@[i as int]);
        }
        let id = order_ids[i];
        if let Some(bundle) = gossip.book.get_validity_proofs(id) {
            out.push(ClusterRequest::ValidityProof { peer_id: sender, order_id: id, proof_bundle: bundle });
            proof {
                let next = shared_proofs(order_ids@.subrange(0, i as int + 1), book);
                assert(next == prev + seq![(id, bundle)]);
                assert forall|k: int| 0 <= k < out@.len() implies #[trigger] sends_proof(out@[k], sender, next[k]) by {
                    if k < out0.len() {
                        assert(out@[k] == out0[k]);
                        assert(next[k] == prev[k]);
                    }
                }
            }
        } else {
            proof {
                assert(shared_proofs(order_ids@.subrange(0, i as int + 1), book) =~= prev);
            }
        }
        i = i + 1;
    }
    proof {
        assert(order_ids@.subrange(0, i as int) =~= order_ids@);
    }
    out
}

} // verus!
