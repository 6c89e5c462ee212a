use relayer_core::api::{GossipNetwork, Node, PingHandler, ReplicasHandler};
use relayer_core::config::{Chain, Exchange, MacroArgs, MacroArgsError};
use relayer_core::errors::{ArbitrumClientConfigError, ArbitrumClientError, ConversionError};
use relayer_core::gossip_orderbook::{
    verify_validity_proofs, GossipError, OrderBookAction, OrderBookGossip, OrderBookManagementJob, ProofChecks,
};
use relayer_core::heartbeat::{RelayerState, WalletReplicas};
use relayer_core::ids::{ClusterId, Scalar, WrappedPeerId};
use relayer_core::order_book::{NetworkOrder, NetworkOrderState, OrderValidityProofBundle, OrderValidityWitnessBundle, StateApplicator};

fn scalar(v: u64) -> Scalar {
    Scalar { limb0: v, limb1: 0, limb2: 0, limb3: 0 }
}

fn all_pass() -> ProofChecks {
    ProofChecks {
        link_valid: true,
        nullifier_unspent: true,
        root_in_history: true,
        reblind_verifies: true,
        commitments_verify: true,
    }
}

fn gossip() -> OrderBookGossip {
    OrderBookGossip { local_peer_id: WrappedPeerId(1), local_cluster_id: ClusterId(9), book: StateApplicator::new() }
}

#[test]
fn validity_verdict_names_the_first_failed_check() {
    assert_eq!(verify_validity_proofs(&all_pass()), Ok(()));
    let c = ProofChecks { link_valid: false, nullifier_unspent: false, ..all_pass() };
    assert_eq!(verify_validity_proofs(&c), Err(GossipError::ValidCommitmentVerification));
    let c = ProofChecks { nullifier_unspent: false, ..all_pass() };
    assert_eq!(verify_validity_proofs(&c), Err(GossipError::NullifierUsed));
    let c = ProofChecks { root_in_history: false, ..all_pass() };
    assert_eq!(verify_validity_proofs(&c), Err(GossipError::InvalidMerkleRoot));
    let c = ProofChecks { reblind_verifies: false, commitments_verify: false, ..all_pass() };
    assert_eq!(verify_validity_proofs(&c), Err(GossipError::ValidReblindVerification));
    let c = ProofChecks { commitments_verify: false, ..all_pass() };
    assert_eq!(verify_validity_proofs(&c), Err(GossipError::ValidCommitmentVerification));
}

#[test]
fn order_with_spent_nullifier_is_ignored() {
    let mut g = gossip();
    let out = g.handle_new_order(5, scalar(1), ClusterId(2), false, 10);
    assert!(out.is_empty());
    assert!(g.book.get_order_info(5).is_none());
    let out = g.handle_new_order(5, scalar(1), ClusterId(2), true, 10);
    assert_eq!(out.len(), 1);
    let o = g.book.get_order_info(5).unwrap();
    assert_eq!(o.state, NetworkOrderState::Received);
    assert!(!o.local);
}

#[test]
fn remote_bundle_must_pass_checks() {
    let mut g = gossip();
    let bundle = OrderValidityProofBundle { original_shares_nullifier: scalar(3), merkle_root: scalar(4) };
    let bad = ProofChecks { reblind_verifies: false, ..all_pass() };
    assert_eq!(g.handle_new_validity_proof(5, ClusterId(2), bundle, &bad, 10), Err(GossipError::ValidReblindVerification));
    assert!(g.book.get_order_info(5).is_none());

    let out = g.handle_new_validity_proof(5, ClusterId(2), bundle, &all_pass(), 10).unwrap();
    assert_eq!(out.len(), 2);
    let o = g.book.get_order_info(5).unwrap();
    assert_eq!(o.state, NetworkOrderState::Verified);
    assert_eq!(o.validity_proofs, Some(bundle));
}

#[test]
fn local_bundle_is_trusted_and_requests_the_witness() {
    let mut g = gossip();
    let bundle = OrderValidityProofBundle { original_shares_nullifier: scalar(3), merkle_root: scalar(4) };
    let bad = ProofChecks { link_valid: false, ..all_pass() };
    let out = g.handle_new_validity_proof(5, ClusterId(9), bundle, &bad, 10).unwrap();
    assert_eq!(out.last(), Some(&OrderBookAction::RequestWitness { order_id: 5, sender: WrappedPeerId(1) }));
    assert_eq!(g.book.get_order_info(5).unwrap().state, NetworkOrderState::Verified);
}

#[test]
fn witness_request_from_outside_cluster_is_ignored() {
    let g = gossip();
    assert_eq!(g.handle_validity_witness_request(5, WrappedPeerId(2), None), Err(GossipError::MissingState));
    assert_eq!(g.handle_validity_witness_request(5, WrappedPeerId(2), Some(ClusterId(3))), Ok(vec![]));
    assert_eq!(g.handle_validity_witness_request(5, WrappedPeerId(2), Some(ClusterId(9))), Ok(vec![]));
}

#[test]
fn macro_args_validation() {
    let mut a = MacroArgs::default();
    assert_eq!(a.validate(), Ok(()));
    a.build_multiprover_types = true;
    assert_eq!(a.validate(), Err(MacroArgsError::MultiproverRequiresBaseTypes));
    a.build_singleprover_types = true;
    a.build_mpc_types = true;
    assert_eq!(a.validate(), Ok(()));
    let b = MacroArgs { build_linkable_types: true, ..MacroArgs::default() };
    assert_eq!(b.validate(), Err(MacroArgsError::LinkableRequiresBaseType));
    let c = MacroArgs { build_multiprover_linkable_types: true, build_singleprover_types: true, ..MacroArgs::default() };
    assert_eq!(c.validate(), Err(MacroArgsError::MultiproverLinkableRequiresLinkable));
    let d = MacroArgs { build_secret_share_types: true, ..MacroArgs::default() };
    assert_eq!(d.validate(), Err(MacroArgsError::SecretShareRequiresBaseType));
}

#[test]
fn chain_names_parse_in_any_case() {
    assert_eq!(Chain::parse("MainNet"), Ok(Chain::Mainnet));
    assert_eq!(Chain::parse("testnet"), Ok(Chain::Testnet));
    assert_eq!(Chain::parse("DEVNET"), Ok(Chain::Devnet));
    assert_eq!(Chain::parse("moonnet"), Err("Invalid chain: moonnet".to_string()));
    assert_eq!(Chain::Devnet.name(), "devnet");
    assert_eq!(Exchange::UniswapV3.name(), "uniswapv3");
}

#[test]
fn client_errors_convert() {
    let e = ArbitrumClientError::event_querying("filter failed".to_string());
    assert_eq!(e, ArbitrumClientError::EventQuerying("filter failed".to_string()));
    let c: ArbitrumClientError = ConversionError::InvalidLength.into();
    assert_eq!(c, ArbitrumClientError::Conversion(ConversionError::InvalidLength));
    let cfg: ArbitrumClientError = ArbitrumClientConfigError::AddressParsing("0x".to_string()).into();
    assert_eq!(cfg, ArbitrumClientError::Config(ArbitrumClientConfigError::AddressParsing("0x".to_string())));
}

#[test]
fn handlers_and_network_shim() {
    assert_eq!(PingHandler::new(), PingHandler);
    let mut state = RelayerState::new(WrappedPeerId(1), ClusterId(9), "/ip4/1.2.3.4".to_string(), 0);
    state.add_wallets(vec![WalletReplicas { wallet_id: 7, replicas: vec![WrappedPeerId(1), WrappedPeerId(3)] }]);
    let handler = ReplicasHandler::new(state);
    assert_eq!(handler.handle_typed(7), vec![WrappedPeerId(1), WrappedPeerId(3)]);
    assert!(handler.handle_typed(8).is_empty());

    let net = GossipNetwork::new(4, Node { peer_id: WrappedPeerId(6), addr: "/ip4/1.2.3.5".to_string() });
    assert_eq!(net.target(), 4);
    assert_eq!(net.peer_id(), WrappedPeerId(6));
    let _ = net;
    let empty = GossipNetwork::empty();
    assert_eq!(empty.target(), 0);
    assert_eq!(empty.peer_id(), WrappedPeerId(0));
}

#[test]
fn order_info_response_indexes_then_verifies() {
    let bundle = OrderValidityProofBundle { original_shares_nullifier: scalar(3), merkle_root: scalar(4) };
    let mut info = NetworkOrder::new(5, scalar(2), ClusterId(2), true, 7);
    info.state = NetworkOrderState::Verified;
    info.validity_proofs = Some(bundle);

    // a remote order whose proofs fail stays received, without proofs
    let mut g = gossip();
    let bad = ProofChecks { root_in_history: false, ..all_pass() };
    assert_eq!(g.handle_order_info_response(info, &bad), Err(GossipError::InvalidMerkleRoot));
    let o = g.book.get_order_info(5).unwrap();
    assert_eq!(o.state, NetworkOrderState::Received);
    assert!(!o.local);
    assert!(o.validity_proofs.is_none());

    // with valid proofs it is verified and re-filed under the bundle's nullifier
    let mut g = gossip();
    g.handle_order_info_response(info, &all_pass()).unwrap();
    let o = g.book.get_order_info(5).unwrap();
    assert_eq!(o.state, NetworkOrderState::Verified);
    assert_eq!(o.public_share_nullifier, scalar(3));
    assert_eq!(g.book.read_nullifier_set(scalar(3)), vec![5]);

    // a local order's proofs are trusted and its witness requested
    let mut g = gossip();
    let local = NetworkOrder { cluster: ClusterId(9), ..info };
    let out = g.handle_order_info_response(local, &bad).unwrap();
    assert!(out.contains(&OrderBookAction::RequestWitness { order_id: 5, sender: WrappedPeerId(1) }));
    assert!(g.book.get_order_info(5).unwrap().local);
}

#[test]
fn witness_is_attached_and_shared_with_cluster_peers() {
    let mut g = gossip();
    g.handle_new_order(5, scalar(1), ClusterId(9), true, 0);
    match g.handle_order_info_request(5) {
        OrderBookAction::OrderInfo { order_id, info } => {
            assert_eq!(order_id, 5);
            assert_eq!(info.unwrap().id, 5);
        },
        _ => panic!("expected the order's information"),
    }
    assert_eq!(g.handle_order_info_request(6), OrderBookAction::OrderInfo { order_id: 6, info: None });
    let witness = OrderValidityWitnessBundle { handle: 42 };
    g.handle_validity_witness_response(5, witness);
    g.handle_validity_witness_response(6, witness);
    assert!(g.book.get_order_info(6).is_none());
    assert_eq!(
        g.handle_validity_witness_request(5, WrappedPeerId(2), Some(ClusterId(9))),
        Ok(vec![OrderBookAction::SendWitness { peer_id: WrappedPeerId(2), order_id: 5, witness }])
    );
}

#[test]
fn replica_added_once() {
    let mut state = RelayerState::new(WrappedPeerId(1), ClusterId(9), "/ip4/1.2.3.4".to_string(), 0);
    state.add_wallets(vec![WalletReplicas { wallet_id: 7, replicas: vec![WrappedPeerId(1)] }]);
    state.add_replica(7, WrappedPeerId(4));
    state.add_replica(7, WrappedPeerId(4));
    state.add_replica(8, WrappedPeerId(4));
    assert_eq!(state.get_replicas(7), vec![WrappedPeerId(1), WrappedPeerId(4)]);
}

#[test]
fn order_book_jobs_are_dispatched_to_their_handlers() {
    let mut g = gossip();
    let none = g.handle_order_book_management_job(OrderBookManagementJob::OrderInfoResponse { info: None }, &all_pass(), true, None, 0);
    assert_eq!(none, Ok(vec![]));
    let out = g
        .handle_order_book_management_job(
            OrderBookManagementJob::OrderReceived { order_id: 5, nullifier: scalar(1), cluster: ClusterId(2) },
            &all_pass(),
            true,
            None,
            10,
        )
        .unwrap();
    assert_eq!(out.len(), 1);
    let info = g.handle_order_book_management_job(OrderBookManagementJob::OrderInfo { order_id: 5 }, &all_pass(), true, None, 0).unwrap();
    assert!(matches!(info[0], OrderBookAction::OrderInfo { order_id: 5, info: Some(_) }));
    let bundle = OrderValidityProofBundle { original_shares_nullifier: scalar(3), merkle_root: scalar(4) };
    let bad = ProofChecks { link_valid: false, ..all_pass() };
    assert_eq!(
        g.handle_order_book_management_job(
            OrderBookManagementJob::OrderProofUpdated { order_id: 5, cluster: ClusterId(2), proof_bundle: bundle },
            &bad,
            true,
            None,
            10,
        ),
        Err(GossipError::ValidCommitmentVerification)
    );
    let witness = OrderValidityWitnessBundle { handle: 1 };
    assert_eq!(
        g.handle_order_book_management_job(OrderBookManagementJob::OrderWitnessResponse { order_id: 5, witness }, &all_pass(), true, None, 0),
        Ok(vec![])
    );
    assert_eq!(
        g.handle_order_book_management_job(
            OrderBookManagementJob::OrderWitness { order_id: 5, requesting_peer: WrappedPeerId(2) },
            &all_pass(),
            true,
            None,
            0
        ),
        Err(GossipError::MissingState)
    );
}
