use relayer_core::ids::{ClusterId, Scalar};
use relayer_core::order_book::{
    NetworkOrder, NetworkOrderState, OrderPriority, OrderValidityProofBundle, OrderValidityWitnessBundle,
    StateApplicator, StateApplicatorError, SystemBusMessage,
};

fn scalar(v: u64) -> Scalar {
    Scalar { limb0: v, limb1: 0, limb2: 0, limb3: 0 }
}

fn dummy_network_order(id: u128, nullifier: u64) -> NetworkOrder {
    NetworkOrder {
        id,
        public_share_nullifier: scalar(nullifier),
        cluster: ClusterId(3),
        state: NetworkOrderState::Received,
        validity_proofs: None,
        validity_proof_witnesses: None,
        timestamp: 0,
        local: true,
    }
}

fn dummy_validity_proof_bundle(nullifier: u64) -> OrderValidityProofBundle {
    OrderValidityProofBundle { original_shares_nullifier: scalar(nullifier), merkle_root: scalar(77) }
}

#[test]
fn test_add_order() {
    let mut applicator = StateApplicator::new();
    let expected_order = dummy_network_order(11, 500);
    let msgs = applicator.new_order(expected_order);
    assert_eq!(msgs, vec![SystemBusMessage::NewOrder { order: expected_order }]);

    let order = applicator.get_order_info(expected_order.id).unwrap();
    assert_eq!(order, expected_order);

    let orders = applicator.read_nullifier_set(expected_order.public_share_nullifier);
    assert_eq!(orders, vec![expected_order.id]);

    let priority = applicator.get_order_priority(expected_order.id).unwrap();
    assert_eq!(priority, OrderPriority::default());
}

#[test]
fn test_add_validity_proof() {
    let mut applicator = StateApplicator::new();
    let order = dummy_network_order(11, 500);
    applicator.new_order(order);

    let proof = dummy_validity_proof_bundle(600);
    applicator.add_order_validity_proof(order.id, proof).unwrap();

    let stored = applicator.get_order_info(order.id).unwrap();
    assert_eq!(stored.state, NetworkOrderState::Verified);
    assert!(stored.validity_proofs.is_some());
}

#[test]
fn test_nullify_orders() {
    let mut applicator = StateApplicator::new();
    let order1 = dummy_network_order(11, 500);
    let order2 = dummy_network_order(12, 501);
    applicator.new_order(order1);
    applicator.new_order(order2);

    applicator.nullify_orders(order1.public_share_nullifier);

    let stored1 = applicator.get_order_info(order1.id).unwrap();
    assert_eq!(stored1.state, NetworkOrderState::Cancelled);

    let expected_order2 = order2;
    let stored2 = applicator.get_order_info(expected_order2.id).unwrap();
    assert_eq!(stored2, expected_order2);
}

#[test]
fn validity_proof_reindexes_by_nullifier() {
    let mut applicator = StateApplicator::new();
    let order = dummy_network_order(11, 500);
    applicator.new_order(order);
    let msgs = applicator.add_order_validity_proof(order.id, dummy_validity_proof_bundle(600)).unwrap();
    assert_eq!(msgs.len(), 1);
    assert!(applicator.read_nullifier_set(scalar(500)).is_empty());
    assert_eq!(applicator.read_nullifier_set(scalar(600)), vec![11]);
    assert_eq!(applicator.get_order_info(11).unwrap().public_share_nullifier, scalar(600));
}

#[test]
fn validity_proof_for_unknown_order_is_rejected() {
    let mut applicator = StateApplicator::new();
    let r = applicator.add_order_validity_proof(99, dummy_validity_proof_bundle(1));
    assert_eq!(r, Err(StateApplicatorError::MissingEntry));
}

#[test]
fn nullifier_reuse_cancels_every_order_of_the_nullifier() {
    let mut applicator = StateApplicator::new();
    let mut a = dummy_network_order(1, 700);
    a.validity_proof_witnesses = Some(OrderValidityWitnessBundle { handle: 4 });
    a.validity_proofs = Some(dummy_validity_proof_bundle(700));
    let b = dummy_network_order(2, 700);
    let c = dummy_network_order(3, 701);
    applicator.new_order(a);
    applicator.new_order(b);
    applicator.new_order(c);

    let mut set = applicator.read_nullifier_set(scalar(700));
    set.sort();
    assert_eq!(set, vec![1, 2]);

    let msgs = applicator.nullify_orders(scalar(700));
    assert_eq!(msgs.len(), 2);
    for (msg, id) in msgs.iter().zip([1u128, 2]) {
        match msg {
            SystemBusMessage::OrderStateChange { order } => {
                assert_eq!(order.id, id);
                assert_eq!(order.state, NetworkOrderState::Cancelled);
            },
            _ => panic!("expected a state change"),
        }
    }
    for id in [1u128, 2] {
        let o = applicator.get_order_info(id).unwrap();
        assert_eq!(o.state, NetworkOrderState::Cancelled);
        assert!(o.validity_proofs.is_none());
        assert!(o.validity_proof_witnesses.is_none());
    }
    assert_eq!(applicator.get_order_info(3).unwrap().state, NetworkOrderState::Received);
}

#[test]
fn re_adding_an_order_moves_it_between_nullifier_sets() {
    let mut applicator = StateApplicator::new();
    applicator.new_order(dummy_network_order(1, 10));
    applicator.new_order(dummy_network_order(1, 20));
    assert!(applicator.read_nullifier_set(scalar(10)).is_empty());
    assert_eq!(applicator.read_nullifier_set(scalar(20)), vec![1]);
}

#[test]
fn effective_priority_is_the_product() {
    let p = OrderPriority { cluster_priority: 3, order_priority: 7 };
    assert_eq!(p.get_effective_priority(), 21);
    let big = OrderPriority { cluster_priority: u32::MAX, order_priority: u32::MAX };
    assert_eq!(big.get_effective_priority(), (u32::MAX as u64) * (u32::MAX as u64));
    assert_eq!(OrderPriority::default().get_effective_priority(), 1);
}
