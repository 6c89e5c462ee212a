use relayer_core::circuit_types::{
    Balance, ExternalTransferDirection, Fee, FixedPoint, Order, OrderSide, PublicIdentificationKey, PublicKeyChain,
    PublicSigningKey, SizedWallet, MAX_BALANCES, MAX_FEES, MAX_ORDERS, WALLET_SCALARS,
};
use relayer_core::ids::Scalar;
use relayer_core::keychain::{BigUint, NonNativeKey};
use relayer_core::ids::WrappedPeerId;
use relayer_core::task_queue::StateInner;
use relayer_core::tasks::{QueuedTaskState, TaskDescriptor};
use relayer_core::wallet::{KeyChain, Wallet, PROOF_STALENESS_THRESHOLD};

fn s(v: u64) -> Scalar {
    Scalar::from_u64(v)
}

fn big(limbs: [u64; 4]) -> Scalar {
    Scalar { limb0: limbs[0], limb1: limbs[1], limb2: limbs[2], limb3: limbs[3] }
}

fn keys() -> PublicKeyChain {
    PublicKeyChain {
        pk_root: PublicSigningKey { low_word: big([1, 2, 3, 4]), high_word: s(5) },
        pk_match: PublicIdentificationKey { key: big([6, 7, 0, 9]) },
    }
}

fn order(side: OrderSide, amount: u64) -> Order {
    Order { quote_mint: s(100), base_mint: s(200), side, amount, price: FixedPoint { repr: s(1 << 32) } }
}

fn fee(gas_addr: u64, gas: u64) -> Fee {
    Fee { settle_key: s(55), gas_addr: s(gas_addr), gas_token_amount: gas, percentage_fee: FixedPoint { repr: s(3) } }
}

fn wallet(balances: Vec<Balance>, orders: Vec<(u128, Order)>, fees: Vec<Fee>) -> Wallet {
    Wallet {
        wallet_id: 1,
        orders,
        balances,
        fees,
        key_chain: KeyChain { public_keys: keys(), sk_root: None, sk_match: s(8) },
        blinder: s(77),
        replicas: vec![],
        private_shares: vec![],
        blinded_public_shares: vec![],
        proof_staleness: 0,
    }
}

#[test]
fn balance_order_fee_keychain_round_trip() {
    let b = Balance { mint: big([9, 9, 9, 0]), amount: u64::MAX };
    let o = order(OrderSide::Sell, 42);
    let f = fee(100, 7);
    let k = keys();
    let mut out = vec![s(123)];
    b.to_scalars(&mut out);
    o.to_scalars(&mut out);
    f.to_scalars(&mut out);
    k.to_scalars(&mut out);
    assert_eq!(out.len(), 1 + 2 + 5 + 4 + 3);
    assert_eq!(Balance::from_scalars(&out, 1), Some(b));
    assert_eq!(Order::from_scalars(&out, 3), Some(o));
    assert_eq!(Fee::from_scalars(&out, 8), Some(f));
    assert_eq!(PublicKeyChain::from_scalars(&out, 12), Some(k));
    assert_eq!(PublicKeyChain::from_scalars(&out, 13), None);
    // an order whose side scalar is neither zero nor one is not an order
    let mut bad = Vec::new();
    o.to_scalars(&mut bad);
    bad[2] = s(2);
    assert_eq!(Order::from_scalars(&bad, 0), None);
}

#[test]
fn transfer_direction_round_trip() {
    let mut out = Vec::new();
    ExternalTransferDirection::Withdrawal.to_scalars(&mut out);
    ExternalTransferDirection::Deposit.to_scalars(&mut out);
    assert_eq!(out, vec![s(1), s(0)]);
    assert_eq!(ExternalTransferDirection::from_scalars(&out, 0), ExternalTransferDirection::Withdrawal);
    assert_eq!(ExternalTransferDirection::from_scalars(&out, 1), ExternalTransferDirection::Deposit);
    assert_eq!(ExternalTransferDirection::default(), ExternalTransferDirection::Deposit);
}

#[test]
fn padded_wallet_round_trip() {
    let w = wallet(
        vec![Balance { mint: s(100), amount: 10 }, Balance { mint: s(200), amount: 20 }],
        vec![(7, order(OrderSide::Buy, 5))],
        vec![fee(100, 1)],
    );
    let sized = w.to_sized();
    assert_eq!(sized.balances.len(), MAX_BALANCES);
    assert_eq!(sized.orders.len(), MAX_ORDERS);
    assert_eq!(sized.fees.len(), MAX_FEES);
    assert_eq!(sized.balances[2], Balance { mint: s(0), amount: 0 });
    let scalars = sized.to_scalars();
    assert_eq!(scalars.len(), WALLET_SCALARS);
    assert_eq!(scalars[46], s(77));
    let back = SizedWallet::from_scalars(&scalars, 0).unwrap();
    assert_eq!(back.balances, sized.balances);
    assert_eq!(back.orders, sized.orders);
    assert_eq!(back.fees, sized.fees);
    assert_eq!(back.keys, sized.keys);
    assert_eq!(back.blinder, sized.blinder);
    assert!(SizedWallet::from_scalars(&scalars, 1).is_none());
}

#[test]
fn balance_and_fee_for_order() {
    let w = wallet(
        vec![Balance { mint: s(100), amount: 10 }, Balance { mint: s(300), amount: 4 }],
        vec![],
        vec![fee(0, 0), Fee { settle_key: s(0), gas_addr: s(0), gas_token_amount: 0, percentage_fee: FixedPoint { repr: s(0) } }, fee(300, 4)],
    );
    // the first fee is padding except for its settle key, so it is chosen
    let r = w.get_balance_and_fee_for_order(&order(OrderSide::Buy, 1));
    assert_eq!(r, None, "the chosen fee's gas balance is missing");

    let w = wallet(
        vec![Balance { mint: s(100), amount: 10 }, Balance { mint: s(300), amount: 4 }],
        vec![],
        vec![Fee { settle_key: s(0), gas_addr: s(0), gas_token_amount: 0, percentage_fee: FixedPoint { repr: s(0) } }, fee(300, 4)],
    );
    let r = w.get_balance_and_fee_for_order(&order(OrderSide::Buy, 1)).unwrap();
    assert_eq!(r.0, Balance { mint: s(100), amount: 10 });
    assert_eq!(r.1, fee(300, 4));
    assert_eq!(r.2, Balance { mint: s(300), amount: 4 });
    // a sell order spends the base mint, which the wallet does not hold
    assert_eq!(w.get_balance_and_fee_for_order(&order(OrderSide::Sell, 1)), None);

    let poor = wallet(vec![Balance { mint: s(100), amount: 10 }, Balance { mint: s(300), amount: 3 }], vec![], vec![fee(300, 4)]);
    assert_eq!(poor.get_balance_and_fee_for_order(&order(OrderSide::Buy, 1)), None);
}

#[test]
fn remove_default_elements_keeps_order() {
    let zero = Balance { mint: s(0), amount: 0 };
    let mut w = wallet(
        vec![zero, Balance { mint: s(100), amount: 10 }, zero, Balance { mint: s(200), amount: 1 }],
        vec![(1, order(OrderSide::Buy, 0)), (2, Order { quote_mint: s(0), base_mint: s(0), side: OrderSide::Buy, amount: 0, price: FixedPoint { repr: s(0) } })],
        vec![Fee { settle_key: s(0), gas_addr: s(0), gas_token_amount: 0, percentage_fee: FixedPoint { repr: s(0) } }, fee(1, 1)],
    );
    w.remove_default_elements();
    assert_eq!(w.balances, vec![Balance { mint: s(100), amount: 10 }, Balance { mint: s(200), amount: 1 }]);
    assert_eq!(w.orders.len(), 1);
    assert_eq!(w.orders[0].0, 1);
    assert_eq!(w.fees, vec![fee(1, 1)]);
    assert!(Fee { settle_key: s(0), gas_addr: s(0), gas_token_amount: 0, percentage_fee: FixedPoint { repr: s(0) } }.is_default());
    assert!(!fee(1, 1).is_default());
}

#[test]
fn staleness_triggers_refresh_at_threshold() {
    let mut w = wallet(vec![], vec![], vec![]);
    assert!(!w.needs_new_commitment_proof());
    for _ in 0..PROOF_STALENESS_THRESHOLD - 1 {
        assert!(!w.observe_new_root());
    }
    assert!(w.observe_new_root());
    assert_eq!(w.proof_staleness, PROOF_STALENESS_THRESHOLD);
    w.proof_staleness = u32::MAX;
    assert!(w.observe_new_root());
    assert_eq!(w.proof_staleness, u32::MAX);
}

fn le_bytes(v: &[u8]) -> Vec<u8> {
    v.to_vec()
}

#[test]
fn split_and_combine_key_words() {
    // a 62-byte integer fills both words of a root key
    let bytes: Vec<u8> = (1..=62u8).collect();
    let n = BigUint::from_bytes_le(&le_bytes(&bytes));
    let key = NonNativeKey::split_biguint_into_words(&n, 2);
    assert_eq!(key.key_words.len(), 2);
    let w0 = key.key_words[0].to_le_bytes();
    assert_eq!(&w0[..31], &bytes[..31]);
    assert_eq!(w0[31], 0);
    let back = key.combine_words_into_biguint();
    assert_eq!(back.to_bytes_le(), bytes);

    // a short integer leaves the high word zero
    let small = BigUint::from_bytes_le(&vec![0x34, 0x12, 0, 0]);
    assert_eq!(small.to_bytes_le(), vec![0x34, 0x12]);
    let key = NonNativeKey::split_biguint_into_words(&small, 2);
    assert_eq!(key.key_words[0], Scalar { limb0: 0x1234, limb1: 0, limb2: 0, limb3: 0 });
    assert_eq!(key.key_words[1], Scalar::zero());
    assert_eq!(key.combine_words_into_biguint().to_bytes_le(), vec![0x34, 0x12]);

    // zero has no bytes and splits into zero words
    let zero = BigUint::from_bytes_le(&vec![]);
    let key = NonNativeKey::split_biguint_into_words(&zero, 2);
    assert!(key.combine_words_into_biguint().to_bytes_le().is_empty());
}

#[test]
fn scalar_bytes_round_trip() {
    let bytes: Vec<u8> = (0..32u8).map(|b| b.wrapping_mul(37)).collect();
    let sc = Scalar::from_le_bytes(&bytes);
    assert_eq!(sc.to_le_bytes(), bytes);
    assert_eq!(sc.limb0, u64::from_le_bytes(bytes[0..8].try_into().unwrap()));
}

#[test]
fn stale_wallet_gets_one_refresh_task() {
    let mut w = wallet(vec![], vec![], vec![]);
    let mut queues = StateInner::new();
    for i in 0..PROOF_STALENESS_THRESHOLD - 1 {
        assert_eq!(w.record_new_root(&mut queues, 100 + i as u128, 0, WrappedPeerId(1)), None);
    }
    assert_eq!(w.record_new_root(&mut queues, 7, 0, WrappedPeerId(1)), Some(7));
    let t = queues.get_task(7).unwrap();
    assert_eq!(t.descriptor, TaskDescriptor::RefreshWallet { wallet_id: 1 });
    assert_eq!(t.state, QueuedTaskState::Running { step: 0, committed: false });
    // later roots do not pile up more refresh tasks
    assert_eq!(w.record_new_root(&mut queues, 8, 0, WrappedPeerId(1)), None);
    assert_eq!(queues.get_task_queue_len(1), 1);
}
