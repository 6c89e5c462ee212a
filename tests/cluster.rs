use relayer_core::cluster::{
    handle_cluster_join, handle_replicate_request, handle_share_validity_proofs, ClusterManagementMessage, ClusterRequest,
};
use relayer_core::gossip_orderbook::OrderBookGossip;
use relayer_core::heartbeat::{PeerInfo, RelayerState, WalletReplicas};
use relayer_core::ids::{ClusterId, Scalar, WrappedPeerId};
use relayer_core::order_book::{NetworkOrder, OrderValidityProofBundle, StateApplicator};

const LOCAL: WrappedPeerId = WrappedPeerId(1);
const CLUSTER: ClusterId = ClusterId(9);

fn node() -> RelayerState {
    RelayerState::new(LOCAL, CLUSTER, "/ip4/10.0.0.1".to_string(), 0)
}

fn bundle(n: u64) -> OrderValidityProofBundle {
    OrderValidityProofBundle { original_shares_nullifier: Scalar::from_u64(n), merkle_root: Scalar::from_u64(1) }
}

#[test]
fn joining_peer_is_admitted_and_asked_to_replicate() {
    let mut state = node();
    state.add_wallets(vec![
        WalletReplicas { wallet_id: 20, replicas: vec![LOCAL] },
        WalletReplicas { wallet_id: 21, replicas: vec![LOCAL] },
    ]);
    let joiner = PeerInfo::new(WrappedPeerId(2), "/ip4/10.0.0.2".to_string(), CLUSTER, 5);
    let out = handle_cluster_join(&mut state, CLUSTER, &joiner);
    assert!(state.contains_peer(WrappedPeerId(2)));
    assert_eq!(out.len(), 1);
    match &out[0] {
        ClusterRequest::Replicate { peer_id, wallets } => {
            assert_eq!(*peer_id, WrappedPeerId(2));
            assert_eq!(wallets, &vec![20, 21]);
        },
        _ => panic!("expected a replicate request"),
    }
    let stranger = PeerInfo::new(WrappedPeerId(3), "/ip4/10.0.0.3".to_string(), ClusterId(4), 5);
    assert!(handle_cluster_join(&mut state, ClusterId(4), &stranger).is_empty());
    assert!(!state.contains_peer(WrappedPeerId(3)));
}

#[test]
fn replicated_wallets_are_announced_and_missing_proofs_requested() {
    let mut state = node();
    let mut book = StateApplicator::new();
    book.new_order(NetworkOrder::new(100, Scalar::from_u64(1), CLUSTER, true, 0));
    book.add_order_validity_proof(100, bundle(1)).unwrap();
    book.new_order(NetworkOrder::new(101, Scalar::from_u64(2), CLUSTER, true, 0));

    assert!(handle_replicate_request(&mut state, &book, vec![], &vec![]).is_empty());

    let wallets = vec![WalletReplicas { wallet_id: 30, replicas: vec![WrappedPeerId(2)] }];
    let out = handle_replicate_request(&mut state, &book, wallets, &vec![vec![100, 101, 102]]);
    assert_eq!(state.get_replicas(30), vec![WrappedPeerId(2)]);
    assert_eq!(out.len(), 2);
    match &out[0] {
        ClusterManagementMessage::Replicated { wallets, peer_id } => {
            assert_eq!(wallets, &vec![30]);
            assert_eq!(*peer_id, LOCAL);
        },
        _ => panic!("expected the replication announcement"),
    }
    match &out[1] {
        ClusterManagementMessage::RequestOrderValidityProof { order_ids, sender } => {
            assert_eq!(order_ids, &vec![101, 102]);
            assert_eq!(*sender, LOCAL);
        },
        _ => panic!("expected a proof request"),
    }
}

#[test]
fn held_validity_proofs_are_shared() {
    let mut g = OrderBookGossip { local_peer_id: LOCAL, local_cluster_id: CLUSTER, book: StateApplicator::new() };
    g.book.new_order(NetworkOrder::new(100, Scalar::from_u64(1), CLUSTER, true, 0));
    g.book.add_order_validity_proof(100, bundle(1)).unwrap();
    g.book.new_order(NetworkOrder::new(101, Scalar::from_u64(2), CLUSTER, true, 0));
    let out = handle_share_validity_proofs(&g, &vec![101, 100, 5], WrappedPeerId(2));
    assert_eq!(out.len(), 1);
    match &out[0] {
        ClusterRequest::ValidityProof { peer_id, order_id, proof_bundle } => {
            assert_eq!(*peer_id, WrappedPeerId(2));
            assert_eq!(*order_id, 100);
            assert_eq!(*proof_bundle, bundle(1));
        },
        _ => panic!("expected a validity proof"),
    }
}

#[test]
fn proofs_are_shared_in_the_order_requested() {
    let mut g = OrderBookGossip { local_peer_id: LOCAL, local_cluster_id: CLUSTER, book: StateApplicator::new() };
    for id in [100u128, 101, 102] {
        g.book.new_order(NetworkOrder::new(id, Scalar::from_u64(id as u64), CLUSTER, true, 0));
    }
    g.book.add_order_validity_proof(100, bundle(1)).unwrap();
    g.book.add_order_validity_proof(102, bundle(3)).unwrap();
    let out = handle_share_validity_proofs(&g, &vec![102, 101, 100, 102], WrappedPeerId(2));
    let ids: Vec<u128> = out
        .iter()
        .map(|r| match r {
            ClusterRequest::ValidityProof { order_id, .. } => *order_id,
            _ => panic!("expected a validity proof"),
        })
        .collect();
    assert_eq!(ids, vec![102, 100, 102]);
}
