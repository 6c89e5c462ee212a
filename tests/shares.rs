use relayer_core::circuit_types::{
    Balance, Fee, FixedPoint, Order, OrderSide, PublicIdentificationKey, PublicKeyChain, PublicSigningKey, SizedWallet,
    WALLET_SCALARS,
};
use relayer_core::ids::{Scalar, WrappedPeerId};
use relayer_core::task_queue::StateInner;
use relayer_core::tasks::{QueuedTask, QueuedTaskState, TaskDescriptor};
use relayer_core::wallet::{KeyChain, Wallet};
use relayer_core::shares::{create_wallet_shares_from_private, unblind_shares};

fn s(v: u64) -> Scalar {
    Scalar::from_u64(v)
}

fn sized() -> SizedWallet {
    SizedWallet {
        balances: (0..5).map(|i| Balance { mint: s(100 + i), amount: 10 * i }).collect(),
        orders: (0..5)
            .map(|i| Order { quote_mint: s(1), base_mint: s(2), side: OrderSide::Sell, amount: i, price: FixedPoint { repr: s(9) } })
            .collect(),
        fees: (0..2)
            .map(|i| Fee { settle_key: s(i), gas_addr: s(3), gas_token_amount: 4, percentage_fee: FixedPoint { repr: s(5) } })
            .collect(),
        keys: PublicKeyChain {
            pk_root: PublicSigningKey { low_word: Scalar { limb0: 1, limb1: 2, limb2: 3, limb3: 4 }, high_word: s(5) },
            pk_match: PublicIdentificationKey { key: s(6) },
        },
        blinder: s(123456789),
    }
}

#[test]
fn shares_recover_the_wallet() {
    let wallet = sized();
    // private shares far larger than the wallet values, so that subtraction wraps around the field
    let private: Vec<Scalar> =
        (0..WALLET_SCALARS as u64).map(|i| Scalar { limb0: i * 7919 + 3, limb1: i, limb2: u64::MAX, limb3: 0x0fff_ffff }).collect();
    let blinder = Scalar { limb0: 42, limb1: 0, limb2: 1, limb3: 0x0123 };
    let public = create_wallet_shares_from_private(&wallet, &private, blinder);
    assert_eq!(public.len(), WALLET_SCALARS);
    let recovered = unblind_shares(&private, &public, blinder);
    assert_eq!(recovered, wallet.to_scalars());
    // without removing the blinder the sum is the blinded wallet, not the wallet
    let unblinded_with_zero = unblind_shares(&private, &public, Scalar::zero());
    assert_ne!(unblinded_with_zero[0], wallet.to_scalars()[0]);
    assert_eq!(unblinded_with_zero[WALLET_SCALARS - 1], wallet.blinder);
}

#[test]
fn field_arithmetic_wraps_at_the_group_order() {
    // the group order minus one, plus two, is one
    let l_minus_1 = Scalar { limb0: 0x5812631a5cf5d3ec, limb1: 0x14def9dea2f79cd6, limb2: 0, limb3: 0x1000000000000000 };
    assert_eq!(l_minus_1.field_add(&s(2)), s(1));
    assert_eq!(s(1).field_sub(&s(2)), l_minus_1);
    assert_eq!(s(40).field_add(&s(2)), s(42));
}

#[test]
fn create_wallet_with_no_orders() {
    let wallet = Wallet {
        wallet_id: 77,
        orders: vec![],
        balances: vec![],
        fees: vec![],
        key_chain: KeyChain {
            public_keys: PublicKeyChain {
                pk_root: PublicSigningKey { low_word: s(11), high_word: s(12) },
                pk_match: PublicIdentificationKey { key: s(13) },
            },
            sk_root: None,
            sk_match: s(14),
        },
        blinder: s(15),
        replicas: vec![],
        private_shares: vec![],
        blinded_public_shares: vec![],
        proof_staleness: 0,
    };
    // the circuit wallet is all padding but for the keys and the blinder
    let sized = wallet.to_sized();
    let scalars = sized.to_scalars();
    assert!(scalars[..43].iter().all(|x| *x == Scalar::zero()));
    assert_eq!(scalars[43..], [s(11), s(12), s(13), s(15)]);

    // its public shares recover the wallet with the private shares
    let private: Vec<Scalar> = (0..WALLET_SCALARS as u64).map(|i| s(1000 + i)).collect();
    let public = create_wallet_shares_from_private(&sized, &private, wallet.blinder);
    assert_eq!(unblind_shares(&private, &public, wallet.blinder), scalars);

    // the creation task runs at once on the wallet's empty queue
    let mut queues = StateInner::new();
    let task = QueuedTask { id: 5, descriptor: TaskDescriptor::NewWallet { wallet_id: 77 }, state: QueuedTaskState::Queued, created_at: 0 };
    queues.append_task(task, WrappedPeerId(1));
    assert_eq!(queues.get_task_status(5), Some(QueuedTaskState::Running { step: 0, committed: false }));
}

#[test]
fn reblinded_wallet_shares_recover_the_wallet() {
    let mut wallet = Wallet {
        wallet_id: 3,
        orders: vec![],
        balances: vec![relayer_core::circuit_types::Balance { mint: s(100), amount: 42 }],
        fees: vec![],
        key_chain: KeyChain {
            public_keys: PublicKeyChain {
                pk_root: PublicSigningKey { low_word: s(11), high_word: s(12) },
                pk_match: PublicIdentificationKey { key: s(13) },
            },
            sk_root: None,
            sk_match: s(14),
        },
        blinder: s(15),
        replicas: vec![],
        private_shares: vec![],
        blinded_public_shares: vec![],
        proof_staleness: 0,
    };
    let next_private: Vec<Scalar> =
        (0..WALLET_SCALARS as u64).map(|i| Scalar { limb0: 77 * i + 1, limb1: 5, limb2: i, limb3: 0x0fff }).collect();
    let next_blinder = Scalar { limb0: 9, limb1: 8, limb2: 7, limb3: 6 };
    wallet.reblind_wallet(next_blinder, next_private.clone());
    assert_eq!(wallet.blinder, next_blinder);
    assert_eq!(wallet.private_shares, next_private);
    let recovered = unblind_shares(&wallet.private_shares, &wallet.blinded_public_shares, wallet.blinder);
    assert_eq!(recovered, wallet.to_sized().to_scalars());

    // the same inputs give the same shares
    let first = wallet.blinded_public_shares.clone();
    wallet.reblind_wallet(next_blinder, next_private);
    assert_eq!(wallet.blinded_public_shares, first);
}
