//! The wallet types that circuits see, and their serialization to field
//! elements: each type is written as a fixed number of scalars and read
//! back from a sequence of scalars at a position.

use crate::ids::{spec_scalar_from_u64, Scalar};
use vstd::prelude::*;

verus! {

/// The number of balances a wallet holds
pub const MAX_BALANCES: usize = 5;
/// The number of orders a wallet holds
pub const MAX_ORDERS: usize = 5;
/// The number of fees a wallet holds
pub const MAX_FEES: usize = 2;
/// The number of scalar words of a non-native root key
pub const ROOT_KEY_WORDS: usize = 2;

/// A fixed-point number, represented in the scalar field
#[derive(Clone, Copy, Debug, PartialEq, Eq, Structural)]
pub struct FixedPoint {
    pub repr: Scalar,
}

/// The side of an order
#[derive(Clone, Copy, Debug, PartialEq, Eq, Structural)]
pub enum OrderSide {
    Buy,
    Sell,
}

/// A balance of one token: the token's mint (its ERC-20 address, as a field
/// element) and the amount held
#[derive(Clone, Copy, Debug, PartialEq, Eq, Structural)]
pub struct Balance {
    pub mint: Scalar,
    pub amount: u64,
}

/// An order to trade a base token against a quote token
#[derive(Clone, Copy, Debug, PartialEq, Eq, Structural)]
pub struct Order {
    pub quote_mint: Scalar,
    pub base_mint: Scalar,
    pub side: OrderSide,
    pub amount: u64,
    pub price: FixedPoint,
}

/// A commitment to pay a relayer cluster for matches
#[derive(Clone, Copy, Debug, PartialEq, Eq, Structural)]
pub struct Fee {
    /// The public settle key of the cluster collecting the fee
    pub settle_key: Scalar,
    /// The mint of the token gas is paid in
    pub gas_addr: Scalar,
    /// The amount of that token paid for gas
    pub gas_token_amount: u64,
    /// The share of a match the cluster takes
    pub percentage_fee: FixedPoint,
}

/// A public identification key, the image under hash of a secret one
#[derive(Clone, Copy, Debug, PartialEq, Eq, Structural)]
pub struct PublicIdentificationKey {
    pub key: Scalar,
}

/// A public signing key over a curve whose field is not the scalar field,
/// as `ROOT_KEY_WORDS` little-endian scalar words
#[derive(Clone, Copy, Debug, PartialEq, Eq, Structural)]
pub struct PublicSigningKey {
    pub low_word: Scalar,
    pub high_word: Scalar,
}

/// The public keys of a wallet: the root key and the match key
#[derive(Clone, Copy, Debug, PartialEq, Eq, Structural)]
pub struct PublicKeyChain {
    pub pk_root: PublicSigningKey,
    pub pk_match: PublicIdentificationKey,
}

/// A wallet as circuits see it: exactly `MAX_BALANCES` balances,
/// `MAX_ORDERS` orders and `MAX_FEES` fees, its public keys and its blinder
pub struct SizedWallet {
    pub balances: Vec<Balance>,
    pub orders: Vec<Order>,
    pub fees: Vec<Fee>,
    pub keys: PublicKeyChain,
    pub blinder: Scalar,
}

/// The mathematical content of a circuit wallet
pub struct SizedWalletView {
    pub balances: Seq<Balance>,
    pub orders: Seq<Order>,
    pub fees: Seq<Fee>,
    pub keys: PublicKeyChain,
    pub blinder: Scalar,
}

impl View for SizedWallet {
    type V = SizedWalletView;

    open spec fn view(&self) -> SizedWalletView {
        SizedWalletView {
            balances: self.balances@,
            orders: self.orders@,
            fees: self.fees@,
            keys: self.keys,
            blinder: self.blinder,
        }
    }
}

/// A circuit wallet has exactly its fixed number of entries
pub open spec fn sized_wf(w: SizedWalletView) -> bool {
    w.balances.len() == MAX_BALANCES && w.orders.len() == MAX_ORDERS && w.fees.len() == MAX_FEES
}

// --------------
// | Encodings |
// --------------

/// The scalars of an order side
pub open spec fn side_scalar(s: OrderSide) -> Scalar {
    match s {
        OrderSide::Buy => spec_scalar_from_u64(0),
        OrderSide::Sell => spec_scalar_from_u64(1),
    }
}

/// The order side a scalar denotes, if any
pub open spec fn side_of(s: Scalar) -> Option<OrderSide> {
    if s == spec_scalar_from_u64(0) {
        Some(OrderSide::Buy)
    } else if s == spec_scalar_from_u64(1) {
        Some(OrderSide::Sell)
    } else {
        None
    }
}

/// The number of scalars of a balance
pub const BALANCE_SCALARS: usize = 2;
/// The number of scalars of an order
pub const ORDER_SCALARS: usize = 5;
/// The number of scalars of a fee
pub const FEE_SCALARS: usize = 4;
/// The number of scalars of a keychain
pub const KEYCHAIN_SCALARS: usize = 3;
/// The number of scalars of a circuit wallet
pub const WALLET_SCALARS: usize = 47;

pub open spec fn balance_scalars(b: Balance) -> Seq<Scalar> {
    seq![b.mint, spec_scalar_from_u64(b.amount)]
}

pub open spec fn order_scalars(o: Order) -> Seq<Scalar> {
    seq![o.quote_mint, o.base_mint, side_scalar(o.side), spec_scalar_from_u64(o.amount), o.price.repr]
}

pub open spec fn fee_scalars(f: Fee) -> Seq<Scalar> {
    seq![f.settle_key, f.gas_addr, spec_scalar_from_u64(f.gas_token_amount), f.percentage_fee.repr]
}

pub open spec fn keychain_scalars(k: PublicKeyChain) -> Seq<Scalar> {
    seq![k.pk_root.low_word, k.pk_root.high_word, k.pk_match.key]
}

/// The balance written at position `p`
pub open spec fn read_balance(s: Seq<Scalar>, p: int) -> Balance {
    Balance { mint: s[p], amount: s[p + 1].limb0 }
}

/// The order written at position `p`, if its side is valid
pub open spec fn read_order(s: Seq<Scalar>, p: int) -> Option<Order> {
    match side_of(s[p + 2]) {
        Some(side) => Some(
            Order { quote_mint: s[p], base_mint: s[p + 1], side, amount: s[p + 3].limb0, price: FixedPoint { repr: s[p + 4] } },
        ),
        None => None,
    }
}

/// The fee written at position `p`
pub open spec fn read_fee(s: Seq<Scalar>, p: int) -> Fee {
    Fee { settle_key: s[p], gas_addr: s[p + 1], gas_token_amount: s[p + 2].limb0, percentage_fee: FixedPoint { repr: s[p + 3] } }
}

/// The keychain written at position `p`
pub open spec fn read_keychain(s: Seq<Scalar>, p: int) -> PublicKeyChain {
    PublicKeyChain { pk_root: PublicSigningKey { low_word: s[p], high_word: s[p + 1] }, pk_match: PublicIdentificationKey { key: s[p + 2] } }
}

/// The scalars of a list of balances, one after the other
pub open spec fn balances_scalars(bs: Seq<Balance>) -> Seq<Scalar> {
    Seq::new(2 * bs.len(), |k: int| balance_scalars(bs[k / 2])[k % 2])
}

/// The scalars of a list of orders, one after the other
pub open spec fn orders_scalars(os: Seq<Order>) -> Seq<Scalar> {
    Seq::new(5 * os.len(), |k: int| order_scalars(os[k / 5])[k % 5])
}

/// The scalars of a list of fees, one after the other
pub open spec fn fees_scalars(fs: Seq<Fee>) -> Seq<Scalar> {
    Seq::new(4 * fs.len(), |k: int| fee_scalars(fs[k / 4])[k % 4])
}

/// The scalars of a circuit wallet: balances, orders, fees, keys, blinder
pub open spec fn wallet_scalars(w: SizedWalletView) -> Seq<Scalar> {
    balances_scalars(w.balances) + orders_scalars(w.orders) + fees_scalars(w.fees) + keychain_scalars(w.keys)
        + seq![w.blinder]
}

/// Whether every order written in the wallet's scalars has a valid side
pub open spec fn orders_readable(s: Seq<Scalar>, p: int) -> bool {
    forall|i: int| 0 <= i < MAX_ORDERS ==> #[trigger] read_order(s, p + 5 * i) is Some
}

/// The circuit wallet written at position `p`
pub open spec fn read_wallet(s: Seq<Scalar>, p: int) -> SizedWalletView {
    SizedWalletView {
        balances: Seq::new(MAX_BALANCES as nat, |i: int| read_balance(s, p + 2 * i)),
        orders: Seq::new(MAX_ORDERS as nat, |i: int| read_order(s, p + 10 + 5 * i)->Some_0),
        fees: Seq::new(MAX_FEES as nat, |i: int| read_fee(s, p + 35 + 4 * i)),
        keys: read_keychain(s, p + 43),
        blinder: s[p + 46],
    }
}

// ------------------
// | Serialization |
// ------------------

impl Balance {
    /// The scalars of the balance
    pub fn to_scalars(&self, out: &mut Vec<Scalar>)
        ensures
            final(out)@ == old(out)@ + balance_scalars(*self),
    {
        out.push(self.mint);
        out.push(Scalar::from_u64(self.amount));
        assert(out@ =~= old(out)@ + balance_scalars(*self));
    }

    /// The balance written at position `pos`
    pub fn from_scalars(s: &Vec<Scalar>, pos: usize) -> (r: Option<Balance>)
        ensures
            pos + BALANCE_SCALARS <= s@.len() ==> r == Some(read_balance(s@, pos as int)),
            pos + BALANCE_SCALARS > s@.len() ==> r is None,
    {
        if pos >= s.len() || s.len() - pos < BALANCE_SCALARS {
            return None;
        }
        Some(Balance { mint: s[pos], amount: s[pos + 1].to_u64() })
    }
}

impl Order {
    /// The scalars of the order
    pub fn to_scalars(&self, out: &mut Vec<Scalar>)
        ensures
            final(out)@ == old(out)@ + order_scalars(*self),
    {
        out.push(self.quote_mint);
        out.push(self.base_mint);
        out.push(
            match self.side {
                OrderSide::Buy => Scalar::from_u64(0),
                OrderSide::Sell => Scalar::from_u64(1),
            },
        );
        out.push(Scalar::from_u64(self.amount));
        out.push(self.price.repr);
        assert(out@ =~= old(out)@ + order_scalars(*self));
    }

    /// The order written at position `pos`, if its side is valid
    pub fn from_scalars(s: &Vec<Scalar>, pos: usize) -> (r: Option<Order>)
        ensures
            pos + ORDER_SCALARS <= s@.len() ==> r == read_order(s@, pos as int),
            pos + ORDER_SCALARS > s@.len() ==> r is None,
    {
        if pos >= s.len() || s.len() - pos < ORDER_SCALARS {
            return None;
        }
        let tag = s[pos + 2];
        let side = if tag == Scalar::from_u64(0) {
            OrderSide::Buy
        } else if tag == Scalar::from_u64(1) {
            OrderSide::Sell
        } else {
            return None;
        };
        Some(
            Order {
                quote_mint: s[pos],
                base_mint: s[pos + 1],
                side,
                amount: s[pos + 3].to_u64(),
                price: FixedPoint { repr: s[pos + 4] },
            },
        )
    }
}

impl Fee {
    /// The scalars of the fee
    pub fn to_scalars(&self, out: &mut Vec<Scalar>)
        ensures
            final(out)@ == old(out)@ + fee_scalars(*self),
    {
        out.push(self.settle_key);
        out.push(self.gas_addr);
        out.push(Scalar::from_u64(self.gas_token_amount));
        out.push(self.percentage_fee.repr);
        assert(out@ =~= old(out)@ + fee_scalars(*self));
    }

    /// The fee written at position `pos`
    pub fn from_scalars(s: &Vec<Scalar>, pos: usize) -> (r: Option<Fee>)
        ensures
            pos + FEE_SCALARS <= s@.len() ==> r == Some(read_fee(s@, pos as int)),
            pos + FEE_SCALARS > s@.len() ==> r is None,
    {
        if pos >= s.len() || s.len() - pos < FEE_SCALARS {
            return None;
        }
        Some(
            Fee {
                settle_key: s[pos],
                gas_addr: s[pos + 1],
                gas_token_amount: s[pos + 2].to_u64(),
                percentage_fee: FixedPoint { repr: s[pos + 3] },
            },
        )
    }
}

impl PublicKeyChain {
    /// The scalars of the keychain
    pub fn to_scalars(&self, out: &mut Vec<Scalar>)
        ensures
            final(out)@ == old(out)@ + keychain_scalars(*self),
    {
        out.push(self.pk_root.low_word);
        out.push(self.pk_root.high_word);
        out.push(self.pk_match.key);
        assert(out@ =~= old(out)@ + keychain_scalars(*self));
    }

    /// The keychain written at position `pos`
    pub fn from_scalars(s: &Vec<Scalar>, pos: usize) -> (r: Option<PublicKeyChain>)
        ensures
            pos + KEYCHAIN_SCALARS <= s@.len() ==> r == Some(read_keychain(s@, pos as int)),
            pos + KEYCHAIN_SCALARS > s@.len() ==> r is None,
    {
        if pos >= s.len() || s.len() - pos < KEYCHAIN_SCALARS {
            return None;
        }
        Some(PublicKeyChain { pk_root: PublicSigningKey { low_word: s[pos], high_word: s[pos + 1] }, pk_match: PublicIdentificationKey { key: s[pos + 2] } })
    }
}


/// Appending one balance's scalars extends the list encoding
proof fn lemma_balances_push(bs: Seq<Balance>, i: int)
    requires
        0 <= i < bs.len(),
    ensures
        balances_scalars(bs.subrange(0, i + 1)) == balances_scalars(bs.subrange(0, i)) + balance_scalars(bs[i]),
{
    let a = balances_scalars(bs.subrange(0, i + 1));
    let b = balances_scalars(bs.subrange(0, i)) + balance_scalars(bs[i]);
    assert forall|k: int| 0 <= k < a.len() implies a[k] == b[k] by {
        if k < 2 * i {
            assert(k / 2 < i) by (nonlinear_arith)
                requires 0 <= k < 2 * i;
        } else {
            assert(k / 2 == i && k % 2 == k - 2 * i) by (nonlinear_arith)
                requires 2 * i <= k < 2 * i + 2;
        }
    }
    assert(a =~= b);
}

/// Appending one order's scalars extends the list encoding
proof fn lemma_orders_push(os: Seq<Order>, i: int)
    requires
        0 <= i < os.len(),
    ensures
        orders_scalars(os.subrange(0, i + 1)) == orders_scalars(os.subrange(0, i)) + order_scalars(os[i]),
{
    let a = orders_scalars(os.subrange(0, i + 1));
    let b = orders_scalars(os.subrange(0, i)) + order_scalars(os[i]);
    assert forall|k: int| 0 <= k < a.len() implies a[k] == b[k] by {
        if k < 5 * i {
            assert(k / 5 < i) by (nonlinear_arith)
                requires 0 <= k < 5 * i;
        } else {
            assert(k / 5 == i && k % 5 == k - 5 * i) by (nonlinear_arith)
                requires 5 * i <= k < 5 * i + 5;
        }
    }
    assert(a =~= b);
}

/// Appending one fee's scalars extends the list encoding
proof fn lemma_fees_push(fs: Seq<Fee>, i: int)
    requires
        0 <= i < fs.len(),
    ensures
        fees_scalars(fs.subrange(0, i + 1)) == fees_scalars(fs.subrange(0, i)) + fee_scalars(fs[i]),
{
    let a = fees_scalars(fs.subrange(0, i + 1));
    let b = fees_scalars(fs.subrange(0, i)) + fee_scalars(fs[i]);
    assert forall|k: int| 0 <= k < a.len() implies a[k] == b[k] by {
        if k < 4 * i {
            assert(k / 4 < i) by (nonlinear_arith)
                requires 0 <= k < 4 * i;
        } else {
            assert(k / 4 == i && k % 4 == k - 4 * i) by (nonlinear_arith)
                requires 4 * i <= k < 4 * i + 4;
        }
    }
    assert(a =~= b);
}

/// Reading a circuit wallet back from its scalars gives the wallet.
pub proof fn lemma_wallet_round_trip(w: SizedWalletView, rest: Seq<Scalar>)
    requires
        sized_wf(w),
    ensures
        orders_readable(wallet_scalars(w) + rest, 10),
        read_wallet(wallet_scalars(w) + rest, 0) == w,
{
    let s = wallet_scalars(w) + rest;
    let bs = balances_scalars(w.balances);
    let os = orders_scalars(w.orders);
    let fs = fees_scalars(w.fees);
    assert(bs.len() == 10 && os.len() == 25 && fs.len() == 8);
    assert forall|i: int| 0 <= i < MAX_BALANCES implies #[trigger] read_balance(s, 2 * i) == w.balances[i] by {
        assert(s[2 * i] == bs[2 * i]);
        assert(s[2 * i + 1] == bs[2 * i + 1]);
        assert((2 * i) / 2 == i && (2 * i) % 2 == 0 && (2 * i + 1) / 2 == i && (2 * i + 1) % 2 == 1) by (nonlinear_arith)
            requires 0 <= i;
    }
    assert forall|i: int| 0 <= i < MAX_ORDERS implies #[trigger] read_order(s, 10 + 5 * i) == Some(w.orders[i]) by {
        assert((5 * i) / 5 == i && (5 * i) % 5 == 0 && (5 * i + 1) / 5 == i && (5 * i + 1) % 5 == 1 && (5 * i + 2) / 5 == i
            && (5 * i + 2) % 5 == 2 && (5 * i + 3) / 5 == i && (5 * i + 3) % 5 == 3 && (5 * i + 4) / 5 == i && (5 * i + 4) % 5 == 4)
            by (nonlinear_arith)
            requires 0 <= i;
        assert(s[10 + 5 * i] == os[5 * i]);
        assert(s[10 + 5 * i + 1] == os[5 * i + 1]);
        assert(s[10 + 5 * i + 2] == os[5 * i + 2]);
        assert(s[10 + 5 * i + 3] == os[5 * i + 3]);
        assert(s[10 + 5 * i + 4] == os[5 * i + 4]);
        assert(s[10 + 5 * i + 2] == side_scalar(w.orders[i].side));
    }
    assert forall|i: int| 0 <= i < MAX_FEES implies #[trigger] read_fee(s, 35 + 4 * i) == w.fees[i] by {
        assert((4 * i) / 4 == i && (4 * i) % 4 == 0 && (4 * i + 1) / 4 == i && (4 * i + 1) % 4 == 1 && (4 * i + 2) / 4 == i
            && (4 * i + 2) % 4 == 2 && (4 * i + 3) / 4 == i && (4 * i + 3) % 4 == 3) by (nonlinear_arith)
            requires 0 <= i;
        assert(s[35 + 4 * i] == fs[4 * i]);
        assert(s[35 + 4 * i + 1] == fs[4 * i + 1]);
        assert(s[35 + 4 * i + 2] == fs[4 * i + 2]);
        assert(s[35 + 4 * i + 3] == fs[4 * i + 3]);
    }
    assert forall|i: int| 0 <= i < MAX_ORDERS implies #[trigger] read_order(s, 10 + 5 * i) is Some by {
        assert(read_order(s, 10 + 5 * i) == Some(w.orders[i]));
    }
    let r = read_wallet(s, 0);
    assert(r.balances =~= w.balances);
    assert(r.orders =~= w.orders) by {
        assert forall|i: int| 0 <= i < MAX_ORDERS implies r.orders[i] == w.orders[i] by {
            assert(read_order(s, 0 + 10 + 5 * i) == Some(w.orders[i]));
        }
    }
    assert(r.fees =~= w.fees) by {
        assert forall|i: int| 0 <= i < MAX_FEES implies r.fees[i] == w.fees[i] by {
            assert(read_fee(s, 0 + 35 + 4 * i) == w.fees[i]);
        }
    }
    assert(s[43] == w.keys.pk_root.low_word && s[44] == w.keys.pk_root.high_word && s[45] == w.keys.pk_match.key);
}

impl SizedWallet {
    /// The scalars of the wallet: balances, orders, fees, keys, blinder
    pub fn to_scalars(&self) -> (r: Vec<Scalar>)
        requires
            sized_wf(self@),
        ensures
            r@ == wallet_scalars(self@),
    {
        let mut out: Vec<Scalar> = Vec::new();
        let mut i: usize = 0;
        while i < self.balances.len()
            invariant
                i <= self.balances.len(),
                out@ == balances_scalars(self.balances@.subrange(0, i as int)),
            decreases self.balances.len() - i,
        {
            proof {
                lemma_balances_push(self.balances@, i as int);
            }
            self.balances[i].to_scalars(&mut out);
            i = i + 1;
        }
        assert(self.balances@.subrange(0, i as int) =~= self.balances@);
        let ghost after_balances = out@;
        let mut i: usize = 0;
        while i < self.orders.len()
            invariant
                i <= self.orders.len(),
                out@ == after_balances + orders_scalars(self.orders@.subrange(0, i as int)),
            decreases self.orders.len() - i,
        {
            proof {
                lemma_orders_push(self.orders@, i as int);
            }
            self.orders[i].to_scalars(&mut out);
            i = i + 1;
            assert(out@ =~= after_balances + orders_scalars(self.orders@.subrange(0, i as int)));
        }
        assert(self.orders@.subrange(0, i as int) =~= self.orders@);
        let ghost after_orders = out@;
        let mut i: usize = 0;
        while i < self.fees.len()
            invariant
                i <= self.fees.len(),
                out@ == after_orders + fees_scalars(self.fees@.subrange(0, i as int)),
            decreases self.fees.len() - i,
        {
            proof {
                lemma_fees_push(self.fees@, i as int);
            }
            self.fees[i].to_scalars(&mut out);
            i = i + 1;
            assert(out@ =~= after_orders + fees_scalars(self.fees@.subrange(0, i as int)));
        }
        assert(self.fees@.subrange(0, i as int) =~= self.fees@);
        self.keys.to_scalars(&mut out);
        out.push(self.blinder);
        assert(out@ =~= wallet_scalars(self@));
        out
    }

    /// The circuit wallet written at position `pos`; none if the scalars run
    /// out or an order's side is not valid
    pub fn from_scalars(s: &Vec<Scalar>, pos: usize) -> (r: Option<SizedWallet>)
        ensures
            (pos + WALLET_SCALARS <= s@.len() && orders_readable(s@, pos + 10)) ==> (r matches Some(w) && w@ == read_wallet(s@, pos as int)),
            !(pos + WALLET_SCALARS <= s@.len() && orders_readable(s@, pos + 10)) ==> r is None,
    {
        if pos >= s.len() || s.len() - pos < WALLET_SCALARS {
            return None;
        }
        let mut balances: Vec<Balance> = Vec::new();
        let mut i: usize = 0;
        while i < MAX_BALANCES
            invariant
                i <= MAX_BALANCES,
                pos + WALLET_SCALARS <= s.len(),
                balances@ =~= Seq::new(i as nat, |k: int| read_balance(s@, pos + 2 * k)),
            decreases MAX_BALANCES - i,
        {
            let b = Balance::from_scalars(s, pos + 2 * i);
            match b {
                Some(b) => balances.push(b),
                None => return None,
            }
            i = i + 1;
        }
        let mut orders: Vec<Order> = Vec::new();
        let mut i: usize = 0;
        while i < MAX_ORDERS
            invariant
                i <= MAX_ORDERS,
                pos + WALLET_SCALARS <= s.len(),
                orders@ =~= Seq::new(i as nat, |k: int| read_order(s@, pos + 10 + 5 * k)->Some_0),
                forall|k: int| 0 <= k < i ==> #[trigger] read_order(s@, pos + 10 + 5 * k) is Some,
            decreases MAX_ORDERS - i,
        {
            match Order::from_scalars(s, pos + 10 + 5 * i) {
                Some(o) => orders.push(o),
                None => {
                    assert(!orders_readable(s@, pos + 10)) by {
                        assert(read_order(s@, pos + 10 + 5 * i) is None);
                    }
                    return None;
                },
            }
            i = i + 1;
        }
        let mut fees: Vec<Fee> = Vec::new();
        let mut i: usize = 0;
        while i < MAX_FEES
            invariant
                i <= MAX_FEES,
                pos + WALLET_SCALARS <= s.len(),
                fees@ =~= Seq::new(i as nat, |k: int| read_fee(s@, pos + 35 + 4 * k)),
            decreases MAX_FEES - i,
        {
            match Fee::from_scalars(s, pos + 35 + 4 * i) {
                Some(f) => fees.push(f),
                None => return None,
            }
            i = i + 1;
        }
        let keys = match PublicKeyChain::from_scalars(s, pos + 43) {
            Some(k) => k,
            None => return None,
        };
        let blinder = s[pos + 46];
        let w = SizedWallet { balances, orders, fees, keys, blinder };
        assert(w@ == read_wallet(s@, pos as int));
        Some(w)
    }
}

// --------
// | Laws |
// --------

/// Reading a balance back from its scalars gives the balance.
pub proof fn lemma_balance_round_trip(b: Balance, rest: Seq<Scalar>)
    ensures
        read_balance(balance_scalars(b) + rest, 0) == b,
{
}

/// Reading an order back from its scalars gives the order.
pub proof fn lemma_order_round_trip(o: Order, rest: Seq<Scalar>)
    ensures
        read_order(order_scalars(o) + rest, 0) == Some(o),
{
}

/// Reading a fee back from its scalars gives the fee.
pub proof fn lemma_fee_round_trip(f: Fee, rest: Seq<Scalar>)
    ensures
        read_fee(fee_scalars(f) + rest, 0) == f,
{
}

/// Reading a keychain back from its scalars gives the keychain.
pub proof fn lemma_keychain_round_trip(k: PublicKeyChain, rest: Seq<Scalar>)
    ensures
        read_keychain(keychain_scalars(k) + rest, 0) == k,
{
}


/// The direction of an external transfer
#[derive(Clone, Copy, Debug, PartialEq, Eq, Structural)]
pub enum ExternalTransferDirection {
    /// Deposit a token into the darkpool from an external address
    Deposit,
    /// Withdraw a token from the darkpool to an external address
    Withdrawal,
}

/// The scalar of a transfer direction
pub open spec fn direction_scalar(d: ExternalTransferDirection) -> Scalar {
    match d {
        ExternalTransferDirection::Deposit => spec_scalar_from_u64(0),
        ExternalTransferDirection::Withdrawal => spec_scalar_from_u64(1),
    }
}

/// The transfer direction a scalar denotes, if any
pub open spec fn direction_of(s: Scalar) -> Option<ExternalTransferDirection> {
    if s == spec_scalar_from_u64(0) {
        Some(ExternalTransferDirection::Deposit)
    } else if s == spec_scalar_from_u64(1) {
        Some(ExternalTransferDirection::Withdrawal)
    } else {
        None
    }
}

impl ExternalTransferDirection {
    /// A deposit
    pub fn default() -> (r: ExternalTransferDirection)
        ensures
            r == ExternalTransferDirection::Deposit,
    {
        ExternalTransferDirection::Deposit
    }

    /// The scalar of the direction
    pub fn to_scalars(&self, out: &mut Vec<Scalar>)
        ensures
            final(out)@ == old(out)@.push(direction_scalar(*self)),
    {
        match self {
            ExternalTransferDirection::Deposit => out.push(Scalar::from_u64(0)),
            ExternalTransferDirection::Withdrawal => out.push(Scalar::from_u64(1)),
        }
    }

    /// The direction written at position `pos`, which must be zero (a
    /// deposit) or one (a withdrawal)
    pub fn from_scalars(s: &Vec<Scalar>, pos: usize) -> (r: ExternalTransferDirection)
        requires
            pos < s@.len(),
            direction_of(s@[pos as int]) is Some,
        ensures
            Some(r) == direction_of(s@[pos as int]),
    {
        if s[pos] == Scalar::from_u64(0) {
            ExternalTransferDirection::Deposit
        } else {
            ExternalTransferDirection::Withdrawal
        }
    }
}

/// Reading a transfer direction back from its scalar gives the direction.
pub proof fn lemma_direction_round_trip(d: ExternalTransferDirection)
    ensures
        direction_of(direction_scalar(d)) == Some(d),
{
}

} // verus!
