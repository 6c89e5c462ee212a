use relayer_core::circuit_types::{Balance, FixedPoint, Order, OrderSide, PublicIdentificationKey, PublicKeyChain, PublicSigningKey};
use relayer_core::ids::Scalar;
use relayer_core::matching::{match_orders, MatchResult, MatchResultError};
use relayer_core::wallet::{KeyChain, SettlementError, Wallet};

const ONE: u64 = 1 << 32;

fn s(v: u64) -> Scalar {
    Scalar::from_u64(v)
}

fn order(side: OrderSide, amount: u64) -> Order {
    // a buyer pays up to 3, a seller takes at least 2
    let limit = match side {
        OrderSide::Buy => 3 * ONE,
        OrderSide::Sell => 2 * ONE,
    };
    Order { quote_mint: s(100), base_mint: s(200), side, amount, price: FixedPoint { repr: s(limit) } }
}

fn wallet(id: u128, balances: Vec<Balance>, orders: Vec<(u128, Order)>) -> Wallet {
    let keys = PublicKeyChain {
        pk_root: PublicSigningKey { low_word: s(1), high_word: s(2) },
        pk_match: PublicIdentificationKey { key: s(3) },
    };
    Wallet {
        wallet_id: id,
        orders,
        balances,
        fees: vec![],
        key_chain: KeyChain { public_keys: keys, sk_root: None, sk_match: s(4) },
        blinder: s(5),
        replicas: vec![],
        private_shares: vec![],
        blinded_public_shares: vec![],
        proof_staleness: 0,
    }
}

#[test]
fn two_party_match_settles_both_wallets() {
    // party 0 buys 30 base at 2.5 quote per base; party 1 sells 50
    let buy = order(OrderSide::Buy, 30);
    let sell = order(OrderSide::Sell, 50);
    let price = ONE * 5 / 2;
    let m = match_orders(&buy, 100, &sell, 60, price).unwrap();
    assert_eq!(
        m,
        MatchResult { quote_mint: s(100), base_mint: s(200), quote_amount: 75, base_amount: 30, direction: 0 }
    );
    assert_eq!(match_orders(&sell, 60, &buy, 100, price).unwrap().direction, 1);

    let mut w0 = wallet(1, vec![Balance { mint: s(100), amount: 100 }], vec![(10, buy)]);
    let mut w1 = wallet(2, vec![Balance { mint: s(200), amount: 60 }, Balance { mint: s(100), amount: 1 }], vec![(20, sell)]);
    assert_eq!(w0.apply_match(10, &m, true), Ok(()));
    assert_eq!(w1.apply_match(20, &m, false), Ok(()));

    assert_eq!(w0.balances, vec![Balance { mint: s(100), amount: 25 }, Balance { mint: s(200), amount: 30 }]);
    assert_eq!(w0.orders[0].1.amount, 0);
    assert_eq!(w1.balances, vec![Balance { mint: s(200), amount: 30 }, Balance { mint: s(100), amount: 76 }]);
    assert_eq!(w1.orders[0].1.amount, 20);
}

#[test]
fn orders_that_do_not_cross_do_not_match() {
    let price = 5 * ONE / 2;
    assert_eq!(match_orders(&order(OrderSide::Buy, 1), 10, &order(OrderSide::Buy, 1), 10, price), None);
    let other_pair = Order { base_mint: s(201), ..order(OrderSide::Sell, 1) };
    assert_eq!(match_orders(&order(OrderSide::Buy, 1), 10, &other_pair, 10, price), None);
    // limits that do not cross the execution price do not match
    assert_eq!(match_orders(&order(OrderSide::Buy, 5), 100, &order(OrderSide::Sell, 5), 100, 4 * ONE), None);
    assert_eq!(match_orders(&order(OrderSide::Buy, 5), 100, &order(OrderSide::Sell, 5), 100, ONE), None);
    // nothing to trade without a balance
    assert_eq!(match_orders(&order(OrderSide::Buy, 5), 0, &order(OrderSide::Sell, 5), 100, price), None);
}

#[test]
fn match_is_capped_by_balances() {
    let price = 5 * ONE / 2;
    // the buyer's 50 quote buys only 20 base at 2.5
    let m = match_orders(&order(OrderSide::Buy, 30), 50, &order(OrderSide::Sell, 40), 1000, price).unwrap();
    assert_eq!(m.base_amount, 20);
    assert_eq!(m.quote_amount, 50);
    // the seller holds only 7 base
    let m = match_orders(&order(OrderSide::Buy, 30), 1000, &order(OrderSide::Sell, 40), 7, price).unwrap();
    assert_eq!(m.base_amount, 7);
    assert_eq!(m.quote_amount, 17);
}

#[test]
fn settlement_refuses_what_the_wallet_cannot_pay() {
    let m = MatchResult { quote_mint: s(100), base_mint: s(200), quote_amount: 75, base_amount: 30, direction: 0 };
    let mut poor = wallet(1, vec![Balance { mint: s(100), amount: 74 }], vec![(10, order(OrderSide::Buy, 30))]);
    assert_eq!(poor.apply_match(10, &m, true), Err(SettlementError::InsufficientBalance));
    assert_eq!(poor.balances, vec![Balance { mint: s(100), amount: 74 }]);
    assert_eq!(poor.apply_match(11, &m, true), Err(SettlementError::MissingOrder));
    let mut small = wallet(1, vec![Balance { mint: s(100), amount: 100 }], vec![(10, order(OrderSide::Buy, 29))]);
    assert_eq!(small.apply_match(10, &m, true), Err(SettlementError::OrderTooSmall));
    let mut full = wallet(
        1,
        (0..5).map(|i| Balance { mint: s(100 + 1000 * i), amount: 100 }).collect(),
        vec![(10, order(OrderSide::Buy, 30))],
    );
    assert_eq!(full.apply_match(10, &m, true), Err(SettlementError::NoBalanceSlot));
    let mut overflow = wallet(
        1,
        vec![Balance { mint: s(100), amount: 100 }, Balance { mint: s(200), amount: u64::MAX }],
        vec![(10, order(OrderSide::Buy, 30))],
    );
    assert_eq!(overflow.apply_match(10, &m, true), Err(SettlementError::BalanceOverflow));
}

#[test]
fn match_result_from_values() {
    assert_eq!(
        MatchResult::try_from_values(&[1, 2, 3, 4, 1]),
        Ok(MatchResult { quote_mint: s(1), base_mint: s(2), quote_amount: 3, base_amount: 4, direction: 1 })
    );
    assert_eq!(MatchResult::try_from_values(&[1, 2, 3]), Err(MatchResultError::Serialization));
}
