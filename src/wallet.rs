//! The plaintext wallet a relayer manages: its balances and orders in
//! insertion order (the order the contract sees), its fees and keys, its
//! secret shares, and the staleness of its validity proofs.

use crate::circuit_types::{
    Balance, Fee, FixedPoint, Order, OrderSide, PublicKeyChain, SizedWallet, SizedWalletView, MAX_BALANCES, MAX_FEES,
    MAX_ORDERS,
};
use crate::ids::{spec_scalar_from_u64, OrderIdentifier, Scalar, WalletIdentifier, WrappedPeerId};
use crate::matching::MatchResult;
use crate::task_queue::{queue_of, queues_wf, spec_append, with_queue, StateInner};
use crate::tasks::{QueuedTask, QueuedTaskState, TaskDescriptor};
use crate::ids::TaskIdentifier;
use crate::circuit_types::{wallet_scalars, WALLET_SCALARS};
use crate::shares::{
    create_wallet_shares_from_private, group_order, is_blinded, lemma_shares_recover_plaintext, public_share_value,
    scalar_value, unblinded_value,
};
use crate::search::{first_index, lemma_first_index_at, lemma_first_index_bounds, lemma_first_index_extend, opt_int};
use vstd::prelude::*;

verus! {

/// The number of new Merkle roots after which a wallet's validity proofs are
/// re-proven on a fresh root
pub const PROOF_STALENESS_THRESHOLD: u32 = 100;

/// The field element zero
pub open spec fn zero() -> Scalar {
    spec_scalar_from_u64(0)
}

/// The balance with zero mint and amount, which pads short balance lists
pub open spec fn default_balance() -> Balance {
    Balance { mint: zero(), amount: 0 }
}

/// The order with zero fields, which pads short order lists
pub open spec fn default_order() -> Order {
    Order { quote_mint: zero(), base_mint: zero(), side: OrderSide::Buy, amount: 0, price: FixedPoint { repr: zero() } }
}

/// The fee with zero fields, which pads short fee lists
pub open spec fn default_fee() -> Fee {
    Fee { settle_key: zero(), gas_addr: zero(), gas_token_amount: 0, percentage_fee: FixedPoint { repr: zero() } }
}

impl Balance {
    /// Whether the balance is the padding balance
    pub fn is_default(&self) -> (r: bool)
        ensures
            r == (*self == default_balance()),
    {
        *self == Balance { mint: Scalar::zero(), amount: 0 }
    }
}

impl Order {
    /// Whether the order is the padding order
    pub fn is_default(&self) -> (r: bool)
        ensures
            r == (*self == default_order()),
    {
        *self == Order {
            quote_mint: Scalar::zero(),
            base_mint: Scalar::zero(),
            side: OrderSide::Buy,
            amount: 0,
            price: FixedPoint { repr: Scalar::zero() },
        }
    }
}

impl Fee {
    /// Whether the fee is the padding fee
    pub fn is_default(&self) -> (r: bool)
        ensures
            r == (*self == default_fee()),
    {
        *self == Fee {
            settle_key: Scalar::zero(),
            gas_addr: Scalar::zero(),
            gas_token_amount: 0,
            percentage_fee: FixedPoint { repr: Scalar::zero() },
        }
    }
}

/// The keys a relayer holds for a wallet: the public keys, the root signing
/// key if the relayer is a super relayer, and the match key
pub struct KeyChain {
    pub public_keys: PublicKeyChain,
    pub sk_root: Option<(Scalar, Scalar)>,
    pub sk_match: Scalar,
}

/// A wallet managed by the local relayer
pub struct Wallet {
    pub wallet_id: WalletIdentifier,
    /// The orders, in insertion order
    pub orders: Vec<(OrderIdentifier, Order)>,
    /// The balances, one per mint, in insertion order
    pub balances: Vec<Balance>,
    pub fees: Vec<Fee>,
    pub key_chain: KeyChain,
    pub blinder: Scalar,
    /// The peers believed to replicate the wallet
    pub replicas: Vec<WrappedPeerId>,
    pub private_shares: Vec<Scalar>,
    pub blinded_public_shares: Vec<Scalar>,
    /// The number of new Merkle roots seen since the wallet's validity
    /// proofs were last proven
    pub proof_staleness: u32,
}

/// The predicate selecting a balance by mint
pub open spec fn balance_of_mint(mint: Scalar) -> spec_fn(Balance) -> bool {
    |b: Balance| b.mint == mint
}

/// The predicate selecting fees that are not padding
pub open spec fn non_default_fee() -> spec_fn(Fee) -> bool {
    |f: Fee| f != default_fee()
}

/// The predicate selecting balances that are not padding
pub open spec fn non_default_balance() -> spec_fn(Balance) -> bool {
    |b: Balance| b != default_balance()
}

/// The predicate selecting orders that are not padding
pub open spec fn non_default_order() -> spec_fn((OrderIdentifier, Order)) -> bool {
    |e: (OrderIdentifier, Order)| e.1 != default_order()
}

/// The balance held in a mint
pub open spec fn spec_balance(bs: Seq<Balance>, mint: Scalar) -> Option<Balance> {
    match first_index(bs, balance_of_mint(mint)) {
        Some(i) => Some(bs[i]),
        None => None,
    }
}

/// The mint an order spends if matched
pub open spec fn spend_mint(o: Order) -> Scalar {
    match o.side {
        OrderSide::Buy => o.quote_mint,
        OrderSide::Sell => o.base_mint,
    }
}

/// The balance an order spends from, the first non-padding fee, and the
/// balance that pays that fee's gas, when the latter covers the gas amount
pub open spec fn spec_balance_and_fee(bs: Seq<Balance>, fs: Seq<Fee>, o: Order) -> Option<(Balance, Fee, Balance)> {
    match (spec_balance(bs, spend_mint(o)), first_index(fs, non_default_fee())) {
        (Some(balance), Some(j)) => match spec_balance(bs, fs[j].gas_addr) {
            Some(fee_balance) => if fee_balance.amount < fs[j].gas_token_amount {
                None
            } else {
                Some((balance, fs[j], fee_balance))
            },
            None => None,
        },
        _ => None,
    }
}


/// Why a settled match cannot be applied to a wallet
#[derive(Clone, Copy, Debug, PartialEq, Eq, Structural)]
pub enum SettlementError {
    /// The wallet has no such order
    MissingOrder,
    /// The order asks for less than the match moves
    OrderTooSmall,
    /// The balance spent does not cover the match
    InsufficientBalance,
    /// The balance received would overflow
    BalanceOverflow,
    /// The wallet has no free balance slot for the token received
    NoBalanceSlot,
}

/// The predicate selecting an order entry by identifier
pub open spec fn order_entry(id: OrderIdentifier) -> spec_fn((OrderIdentifier, Order)) -> bool {
    |e: (OrderIdentifier, Order)| e.0 == id
}

/// Whether the party buys the base token in the match
pub open spec fn party_buys(m: MatchResult, first_party: bool) -> bool {
    (m.direction == 0) == first_party
}

/// The mint and amount the party spends, and the mint and amount it receives
pub open spec fn legs(m: MatchResult, first_party: bool) -> (Scalar, u64, Scalar, u64) {
    if party_buys(m, first_party) {
        (m.quote_mint, m.quote_amount, m.base_mint, m.base_amount)
    } else {
        (m.base_mint, m.base_amount, m.quote_mint, m.quote_amount)
    }
}

/// The balances after a match: the spent amount leaves the spent balance and
/// the received amount joins the received balance, which is appended when
/// the wallet holds none of that token
pub open spec fn settled_balances(bs: Seq<Balance>, m: MatchResult, first_party: bool) -> Seq<Balance> {
    let (spend_mint, spend, recv_mint, recv) = legs(m, first_party);
    let i = first_index(bs, balance_of_mint(spend_mint))->Some_0;
    let after_spend = bs.update(i, Balance { amount: (bs[i].amount - spend) as u64, ..bs[i] });
    match first_index(after_spend, balance_of_mint(recv_mint)) {
        Some(j) => after_spend.update(j, Balance { amount: (after_spend[j].amount + recv) as u64, ..after_spend[j] }),
        None => after_spend.push(Balance { mint: recv_mint, amount: recv }),
    }
}

/// The outcome of applying a match to a wallet's balances and order
pub open spec fn settlement_error(
    bs: Seq<Balance>,
    os: Seq<(OrderIdentifier, Order)>,
    order_id: OrderIdentifier,
    m: MatchResult,
    first_party: bool,
) -> Option<SettlementError> {
    let (spend_mint, spend, recv_mint, recv) = legs(m, first_party);
    match first_index(os, order_entry(order_id)) {
        None => Some(SettlementError::MissingOrder),
        Some(k) => if os[k].1.amount < m.base_amount {
            Some(SettlementError::OrderTooSmall)
        } else {
            match first_index(bs, balance_of_mint(spend_mint)) {
                None => Some(SettlementError::InsufficientBalance),
                Some(i) => if bs[i].amount < spend {
                    Some(SettlementError::InsufficientBalance)
                } else {
                    let after_spend = bs.update(i, Balance { amount: (bs[i].amount - spend) as u64, ..bs[i] });
                    match first_index(after_spend, balance_of_mint(recv_mint)) {
                        Some(j) => if after_spend[j].amount + recv > u64::MAX {
                            Some(SettlementError::BalanceOverflow)
                        } else {
                            None
                        },
                        None => if bs.len() >= MAX_BALANCES {
                            Some(SettlementError::NoBalanceSlot)
                        } else {
                            None
                        },
                    }
                },
            }
        },
    }
}


/// Every element of a circuit wallet is a canonical field element
pub open spec fn canonical(w: SizedWalletView) -> bool {
    forall|i: int| 0 <= i < WALLET_SCALARS ==> 0 <= #[trigger] scalar_value(wallet_scalars(w)[i]) < group_order()
}

/// Blinded public shares that complete private shares of a wallet under a
/// blinder
pub open spec fn completes(
    w: SizedWalletView,
    private_shares: Seq<Scalar>,
    blinded_public_shares: Seq<Scalar>,
    blinder: Scalar,
) -> bool {
    &&& blinded_public_shares.len() == WALLET_SCALARS
    &&& forall|i: int| 0 <= i < WALLET_SCALARS ==> scalar_value(#[trigger] blinded_public_shares[i]) == public_share_value(
        scalar_value(wallet_scalars(w)[i]),
        scalar_value(private_shares[i]),
        scalar_value(blinder),
        is_blinded(i),
    )
}

/// Reblinding is deterministic: any two blinded public shares that complete
/// the same private shares of the same wallet under the same blinder have the
/// same field elements.
pub proof fn lemma_reblind_deterministic(
    w: SizedWalletView,
    private_shares: Seq<Scalar>,
    blinder: Scalar,
    a: Seq<Scalar>,
    b: Seq<Scalar>,
)
    requires
        completes(w, private_shares, a, blinder),
        completes(w, private_shares, b, blinder),
    ensures
        a.len() == b.len(),
        forall|i: int| 0 <= i < a.len() ==> scalar_value(#[trigger] a[i]) == scalar_value(b[i]),
{
    assert forall|i: int| 0 <= i < a.len() implies scalar_value(#[trigger] a[i]) == scalar_value(b[i]) by {
        assert(scalar_value(a[i]) == public_share_value(
            scalar_value(wallet_scalars(w)[i]),
            scalar_value(private_shares[i]),
            scalar_value(blinder),
            is_blinded(i),
        ));
    }
}

/// A list padded with copies of a default element up to a length
pub open spec fn padded<A>(s: Seq<A>, fill: A, n: nat) -> Seq<A> {
    s + Seq::new((n - s.len()) as nat, |i: int| fill)
}


/// The balance held in a mint
fn find_balance(bs: &Vec<Balance>, mint: Scalar) -> (r: Option<Balance>)
    ensures
        r == spec_balance(bs@, mint),
{
    let ghost p = balance_of_mint(mint);
    proof {
        lemma_first_index_bounds(bs@, p);
    }
    let mut i: usize = 0;
    while i < bs.len()
        invariant
            i <= bs.len(),
            p == balance_of_mint(mint),
            first_index(bs@.subrange(0, i as int), p) is None,
        decreases bs.len() - i,
    {
        proof {
            lemma_first_index_extend(bs@, p, i as int);
        }
        if bs[i].mint == mint {
            proof {
                lemma_first_index_at(bs@, p, i as int);
            }
            return Some(bs[i]);
        }
        i = i + 1;
    }
    proof {
        lemma_first_index_bounds(bs@, p);
    }
    None
}

/// The elements of a list that satisfy a predicate, in order
fn retain_balances(v: &Vec<Balance>) -> (r: Vec<Balance>)
    ensures
        r@ == v@.filter(non_default_balance()),
{
    let mut r: Vec<Balance> = Vec::new();
    let mut i: usize = 0;
    while i < v.len()
        invariant
            i <= v.len(),
            r@ == v@.subrange(0, i as int).filter(non_default_balance()),
        decreases v.len() - i,
    {
        proof {
            assert(v@.subrange(0, i as int + 1).drop_last() =~= v@.subrange(0, i as int));
            reveal_with_fuel(Seq::<Balance>::filter, 1);
        }
        if !v[i].is_default() {
            r.push(v[i]);
        }
        i = i + 1;
    }
    assert(v@.subrange(0, i as int) =~= v@);
    r
}

fn retain_orders(v: &Vec<(OrderIdentifier, Order)>) -> (r: Vec<(OrderIdentifier, Order)>)
    ensures
        r@ == v@.filter(non_default_order()),
{
    let mut r: Vec<(OrderIdentifier, Order)> = Vec::new();
    let mut i: usize = 0;
    while i < v.len()
        invariant
            i <= v.len(),
            r@ == v@.subrange(0, i as int).filter(non_default_order()),
        decreases v.len() - i,
    {
        proof {
            assert(v@.subrange(0, i as int + 1).drop_last() =~= v@.subrange(0, i as int));
            reveal_with_fuel(Seq::<(OrderIdentifier, Order)>::filter, 1);
        }
        if !v[i].1.is_default() {
            r.push(v[i]);
        }
        i = i + 1;
    }
    assert(v@.subrange(0, i as int) =~= v@);
    r
}

fn retain_fees(v: &Vec<Fee>) -> (r: Vec<Fee>)
    ensures
        r@ == v@.filter(non_default_fee()),
{
    let mut r: Vec<Fee> = Vec::new();
    let mut i: usize = 0;
    while i < v.len()
        invariant
            i <= v.len(),
            r@ == v@.subrange(0, i as int).filter(non_default_fee()),
        decreases v.len() - i,
    {
        proof {
            assert(v@.subrange(0, i as int + 1).drop_last() =~= v@.subrange(0, i as int));
            reveal_with_fuel(Seq::<Fee>::filter, 1);
        }
        if !v[i].is_default() {
            r.push(v[i]);
        }
        i = i + 1;
    }
    assert(v@.subrange(0, i as int) =~= v@);
    r
}

impl Wallet {
    /// The balance an order spends from, the fee to pay (the first one that
    /// is not padding) and the balance that pays the fee's gas; none when one
    /// of them is missing or the fee balance does not cover the gas amount.
    /// An order may be matched with a balance that does not cover it all.
    pub fn get_balance_and_fee_for_order(&self, order: &Order) -> (r: Option<(Balance, Fee, Balance)>)
        ensures
            r == spec_balance_and_fee(self.balances@, self.fees@, *order),
    {
        let order_mint = match order.side {
            OrderSide::Buy => order.quote_mint,
            OrderSide::Sell => order.base_mint,
        };
        let balance = match find_balance(&self.balances, order_mint) {
            Some(b) => b,
            None => return None,
        };
        let ghost p = non_default_fee();
        proof {
            lemma_first_index_bounds(self.fees@, p);
        }
        let mut j: usize = 0;
        while j < self.fees.len()
            invariant
                j <= self.fees.len(),
                p == non_default_fee(),
                spec_balance(self.balances@, spend_mint(*order)) == Some(balance),
                first_index(self.fees@.subrange(0, j as int), p) is None,
            decreases self.fees.len() - j,
        {
            proof {
                lemma_first_index_extend(self.fees@, p, j as int);
            }
            if !self.fees[j].is_default() {
                proof {
                    lemma_first_index_at(self.fees@, p, j as int);
                }
                let fee = self.fees[j];
                let fee_balance = match find_balance(&self.balances, fee.gas_addr) {
                    Some(b) => b,
                    None => return None,
                };
                if fee_balance.amount < fee.gas_token_amount {
                    return None;
                }
                return Some((balance, fee, fee_balance));
            }
            j = j + 1;
        }
        proof {
            lemma_first_index_bounds(self.fees@, p);
        }
        None
    }

    /// Drops the padding balances, orders and fees, keeping the order of the
    /// rest
    pub fn remove_default_elements(&mut self)
        ensures
            final(self).balances@ == old(self).balances@.filter(non_default_balance()),
            final(self).orders@ == old(self).orders@.filter(non_default_order()),
            final(self).fees@ == old(self).fees@.filter(non_default_fee()),
            final(self).balances@.len() <= old(self).balances@.len(),
            final(self).orders@.len() <= old(self).orders@.len(),
            final(self).fees@.len() <= old(self).fees@.len(),
            final(self).wallet_id == old(self).wallet_id,
            final(self).blinder == old(self).blinder,
            final(self).proof_staleness == old(self).proof_staleness,
    {
        self.balances = retain_balances(&self.balances);
        self.orders = retain_orders(&self.orders);
        self.fees = retain_fees(&self.fees);
        proof {
            old(self).balances@.lemma_filter_len(non_default_balance());
            old(self).orders@.lemma_filter_len(non_default_order());
            old(self).fees@.lemma_filter_len(non_default_fee());
        }
    }

    /// Whether the wallet's validity proofs must be re-proven on a fresh
    /// Merkle root
    pub fn needs_new_commitment_proof(&self) -> (r: bool)
        ensures
            r == (self.proof_staleness >= PROOF_STALENESS_THRESHOLD),
    {
        self.proof_staleness >= PROOF_STALENESS_THRESHOLD
    }

    /// Records a new Merkle root seen on chain; returns whether the wallet
    /// now needs a refresh
    pub fn observe_new_root(&mut self) -> (r: bool)
        ensures
            final(self).proof_staleness == if old(self).proof_staleness == u32::MAX {
                u32::MAX
            } else {
                (old(self).proof_staleness + 1) as u32
            },
            r == (final(self).proof_staleness >= PROOF_STALENESS_THRESHOLD),
            final(self).wallet_id == old(self).wallet_id,
    {
        self.proof_staleness = self.proof_staleness.saturating_add(1);
        self.needs_new_commitment_proof()
    }


    /// Records a new Merkle root seen on chain; when the wallet's staleness
    /// reaches the threshold, a task refreshing the wallet is appended to its
    /// queue and its identifier returned
    pub fn record_new_root(
        &mut self,
        queues: &mut StateInner,
        task_id: TaskIdentifier,
        created_at: u64,
        executor: WrappedPeerId,
    ) -> (r: Option<TaskIdentifier>)
        requires
            queues_wf(old(queues)@),
        ensures
            queues_wf(final(queues)@),
            final(self).proof_staleness == if old(self).proof_staleness == u32::MAX {
                u32::MAX
            } else {
                (old(self).proof_staleness + 1) as u32
            },
            final(self).wallet_id == old(self).wallet_id,
            ({
                let reached = old(self).proof_staleness < PROOF_STALENESS_THRESHOLD
                    && final(self).proof_staleness >= PROOF_STALENESS_THRESHOLD;
                &&& reached ==> r == Some(task_id) && final(queues)@ == with_queue(
                    old(queues)@,
                    spec_append(
                        queue_of(old(queues)@, old(self).wallet_id),
                        QueuedTask {
                            id: task_id,
                            descriptor: TaskDescriptor::RefreshWallet { wallet_id: old(self).wallet_id },
                            state: QueuedTaskState::Queued,
                            created_at,
                        },
                        executor,
                    ),
                )
                &&& !reached ==> r is None && final(queues)@ == old(queues)@
            }),
    {
        let was_stale = self.needs_new_commitment_proof();
        let stale = self.observe_new_root();
        if stale && !was_stale {
            Some(queues.append_wallet_refresh_task(self.wallet_id, task_id, created_at, executor))
        } else {
            None
        }
    }

    /// The wallet as circuits see it: balances, orders and fees padded with
    /// default entries to their fixed counts
    pub open spec fn sized_view(&self) -> SizedWalletView {
        SizedWalletView {
            balances: padded(self.balances@, default_balance(), MAX_BALANCES as nat),
            orders: padded(self.orders@.map_values(|e: (OrderIdentifier, Order)| e.1), default_order(), MAX_ORDERS as nat),
            fees: padded(self.fees@, default_fee(), MAX_FEES as nat),
            keys: self.key_chain.public_keys,
            blinder: self.blinder,
        }
    }

    /// The wallet's private and blinded public shares add up, once the
    /// blinder is removed, to the wallet's field elements
    pub open spec fn shares_consistent(&self) -> bool {
        &&& self.private_shares@.len() == WALLET_SCALARS
        &&& self.blinded_public_shares@.len() == WALLET_SCALARS
        &&& forall|i: int| 0 <= i < WALLET_SCALARS ==> #[trigger] unblinded_value(
            scalar_value(self.private_shares@[i]),
            scalar_value(self.blinded_public_shares@[i]),
            scalar_value(self.blinder),
            is_blinded(i),
        ) == scalar_value(wallet_scalars(self.sized_view())[i])
    }

    /// Reblinds the wallet with the next blinder and private shares (drawn
    /// from the hash chain seeded by the prior private shares, the blinder's
    /// own private share last): the wallet takes the new blinder and private
    /// shares, and the blinded public shares that complete them
    pub fn reblind_wallet(&mut self, new_blinder: Scalar, new_private_shares: Vec<Scalar>)
        requires
            old(self).balances@.len() <= MAX_BALANCES,
            old(self).orders@.len() <= MAX_ORDERS,
            old(self).fees@.len() <= MAX_FEES,
            new_private_shares@.len() == WALLET_SCALARS,
            canonical(SizedWalletView { blinder: new_blinder, ..old(self).sized_view() }),
        ensures
            final(self).blinder == new_blinder,
            final(self).private_shares@ == new_private_shares@,
            final(self).balances@ == old(self).balances@,
            final(self).orders@ == old(self).orders@,
            final(self).fees@ == old(self).fees@,
            final(self).key_chain.public_keys == old(self).key_chain.public_keys,
            final(self).wallet_id == old(self).wallet_id,
            completes(final(self).sized_view(), new_private_shares@, final(self).blinded_public_shares@, new_blinder),
            final(self).shares_consistent(),
    {
        self.blinder = new_blinder;
        let sized = self.to_sized();
        let public = create_wallet_shares_from_private(&sized, &new_private_shares, new_blinder);
        self.private_shares = new_private_shares;
        self.blinded_public_shares = public;
        proof {
            let w = self.sized_view();
            assert forall|i: int| 0 <= i < WALLET_SCALARS implies #[trigger] unblinded_value(
                scalar_value(self.private_shares@[i]),
                scalar_value(self.blinded_public_shares@[i]),
                scalar_value(self.blinder),
                is_blinded(i),
            ) == scalar_value(wallet_scalars(w)[i]) by {
                assert(0 <= scalar_value(wallet_scalars(w)[i]) < group_order());
                lemma_shares_recover_plaintext(
                    scalar_value(wallet_scalars(w)[i]),
                    scalar_value(self.private_shares@[i]),
                    scalar_value(new_blinder),
                    is_blinded(i),
                );
            }
        }
    }

    /// The wallet as circuits see it: the balances, orders and fees padded
    /// with default entries up to their fixed counts
    pub fn to_sized(&self) -> (r: SizedWallet)
        requires
            self.balances@.len() <= MAX_BALANCES,
            self.orders@.len() <= MAX_ORDERS,
            self.fees@.len() <= MAX_FEES,
        ensures
            r@ == self.sized_view(),
            crate::circuit_types::sized_wf(r@),
    {
        let mut balances: Vec<Balance> = Vec::new();
        let mut i: usize = 0;
        while i < MAX_BALANCES
            invariant
                i <= MAX_BALANCES,
                self.balances@.len() <= MAX_BALANCES,
                balances@ =~= padded(self.balances@, default_balance(), MAX_BALANCES as nat).subrange(0, i as int),
            decreases MAX_BALANCES - i,
        {
            if i < self.balances.len() {
                balances.push(self.balances[i]);
            } else {
                balances.push(Balance { mint: Scalar::zero(), amount: 0 });
            }
            i = i + 1;
        }
        let mut orders: Vec<Order> = Vec::new();
        let mut i: usize = 0;
        while i < MAX_ORDERS
            invariant
                i <= MAX_ORDERS,
                self.orders@.len() <= MAX_ORDERS,
                orders@ =~= padded(self.orders@.map_values(|e: (OrderIdentifier, Order)| e.1), default_order(), MAX_ORDERS as nat).subrange(
                    0,
                    i as int,
                ),
            decreases MAX_ORDERS - i,
        {
            if i < self.orders.len() {
                orders.push(self.orders[i].1);
            } else {
                orders.push(
                    Order {
                        quote_mint: Scalar::zero(),
                        base_mint: Scalar::zero(),
                        side: OrderSide::Buy,
                        amount: 0,
                        price: FixedPoint { repr: Scalar::zero() },
                    },
                );
            }
            i = i + 1;
        }
        let mut fees: Vec<Fee> = Vec::new();
        let mut i: usize = 0;
        while i < MAX_FEES
            invariant
                i <= MAX_FEES,
                self.fees@.len() <= MAX_FEES,
                fees@ =~= padded(self.fees@, default_fee(), MAX_FEES as nat).subrange(0, i as int),
            decreases MAX_FEES - i,
        {
            if i < self.fees.len() {
                fees.push(self.fees[i]);
            } else {
                fees.push(
                    Fee {
                        settle_key: Scalar::zero(),
                        gas_addr: Scalar::zero(),
                        gas_token_amount: 0,
                        percentage_fee: FixedPoint { repr: Scalar::zero() },
                    },
                );
            }
            i = i + 1;
        }
        let r = SizedWallet { balances, orders, fees, keys: self.key_chain.public_keys, blinder: self.blinder };
        assert(r@.balances =~= padded(self.balances@, default_balance(), MAX_BALANCES as nat));
        assert(r@.orders =~= padded(self.orders@.map_values(|e: (OrderIdentifier, Order)| e.1), default_order(), MAX_ORDERS as nat));
        assert(r@.fees =~= padded(self.fees@, default_fee(), MAX_FEES as nat));
        r
    }

    /// The position of a balance by mint
    fn balance_index(bs: &Vec<Balance>, mint: Scalar) -> (r: Option<usize>)
        ensures
            opt_int(r) == first_index(bs@, balance_of_mint(mint)),
            r matches Some(i) ==> i < bs@.len(),
    {
        let ghost p = balance_of_mint(mint);
        proof {
            lemma_first_index_bounds(bs@, p);
        }
        let mut i: usize = 0;
        while i < bs.len()
            invariant
                i <= bs.len(),
                p == balance_of_mint(mint),
                first_index(bs@.subrange(0, i as int), p) is None,
            decreases bs.len() - i,
        {
            proof {
                lemma_first_index_extend(bs@, p, i as int);
            }
            if bs[i].mint == mint {
                proof {
                    lemma_first_index_at(bs@, p, i as int);
                }
                return Some(i);
            }
            i = i + 1;
        }
        proof {
            lemma_first_index_bounds(bs@, p);
        }
        None
    }

    /// The position of an order entry by identifier
    fn order_index(os: &Vec<(OrderIdentifier, Order)>, id: OrderIdentifier) -> (r: Option<usize>)
        ensures
            opt_int(r) == first_index(os@, order_entry(id)),
            r matches Some(i) ==> i < os@.len(),
    {
        let ghost p = order_entry(id);
        proof {
            lemma_first_index_bounds(os@, p);
        }
        let mut i: usize = 0;
        while i < os.len()
            invariant
                i <= os.len(),
                p == order_entry(id),
                first_index(os@.subrange(0, i as int), p) is None,
            decreases os.len() - i,
        {
            proof {
                lemma_first_index_extend(os@, p, i as int);
            }
            if os[i].0 == id {
                proof {
                    lemma_first_index_at(os@, p, i as int);
                }
                return Some(i);
            }
            i = i + 1;
        }
        proof {
            lemma_first_index_bounds(os@, p);
        }
        None
    }

    /// Applies a settled match to the wallet of one party: the order's
    /// remaining amount shrinks by the base amount, the party's spent
    /// balance is deducted and its received balance accrued. Nothing
    /// changes when the match cannot be applied.
    pub fn apply_match(&mut self, order_id: OrderIdentifier, m: &MatchResult, first_party: bool) -> (r: Result<(), SettlementError>)
        ensures
            settlement_error(old(self).balances@, old(self).orders@, order_id, *m, first_party) matches Some(e) ==> r == Err::<
                (),
                SettlementError,
            >(e) && final(self).balances@ == old(self).balances@ && final(self).orders@ == old(self).orders@,
            settlement_error(old(self).balances@, old(self).orders@, order_id, *m, first_party) is None ==> r is Ok
                && final(self).balances@ == settled_balances(old(self).balances@, *m, first_party) && ({
                let k = first_index(old(self).orders@, order_entry(order_id))->Some_0;
                final(self).orders@ == old(self).orders@.update(
                    k,
                    (order_id, Order { amount: (old(self).orders@[k].1.amount - m.base_amount) as u64, ..old(self).orders@[k].1 }),
                )
            }),
            final(self).fees@ == old(self).fees@,
            final(self).wallet_id == old(self).wallet_id,
            final(self).orders@.len() == old(self).orders@.len(),
            old(self).balances@.len() <= MAX_BALANCES ==> final(self).balances@.len() <= MAX_BALANCES,
    {
        let buys = (m.direction == 0) == first_party;
        let (spend_mint, spend, recv_mint, recv) = if buys {
            (m.quote_mint, m.quote_amount, m.base_mint, m.base_amount)
        } else {
            (m.base_mint, m.base_amount, m.quote_mint, m.quote_amount)
        };
        let k = match Self::order_index(&self.orders, order_id) {
            Some(k) => k,
            None => return Err(SettlementError::MissingOrder),
        };
        if self.orders[k].1.amount < m.base_amount {
            return Err(SettlementError::OrderTooSmall);
        }
        let i = match Self::balance_index(&self.balances, spend_mint) {
            Some(i) => i,
            None => return Err(SettlementError::InsufficientBalance),
        };
        if self.balances[i].amount < spend {
            return Err(SettlementError::InsufficientBalance);
        }
        let ghost bs0 = self.balances@;
        let spent = Balance { amount: self.balances[i].amount - spend, ..self.balances[i] };
        let mut balances: Vec<Balance> = Vec::new();
        let mut t: usize = 0;
        while t < self.balances.len()
            invariant
                t <= self.balances.len(),
                i < self.balances.len(),
                bs0 == self.balances@,
                balances@ =~= bs0.update(i as int, spent).subrange(0, t as int),
            decreases self.balances.len() - t,
        {
            if t == i {
                balances.push(spent);
            } else {
                balances.push(self.balances[t]);
            }
            t = t + 1;
        }
        assert(balances@ =~= bs0.update(i as int, spent));
        match Self::balance_index(&balances, recv_mint) {
            Some(j) => {
                if balances[j].amount > u64::MAX - recv {
                    return Err(SettlementError::BalanceOverflow);
                }
                let accrued = Balance { amount: balances[j].amount + recv, ..balances[j] };
                balances.set(j, accrued);
            },
            None => {
                if self.balances.len() >= MAX_BALANCES {
                    return Err(SettlementError::NoBalanceSlot);
                }
                balances.push(Balance { mint: recv_mint, amount: recv });
            },
        }
        let entry = self.orders[k];
        let remaining = Order { amount: entry.1.amount - m.base_amount, ..entry.1 };
        self.orders.set(k, (order_id, remaining));
        self.balances = balances;
        Ok(())
    }
}

} // verus!
