//! The result of matching two orders: which side buys, and how much of the
//! base and quote tokens change hands at the agreed execution price.
//!
//! Execution prices are fixed point with `PRICE_FRACTIONAL_BITS`
//! fractional bits: a price `p` means `p / 2^32` quote units per base unit.

use crate::circuit_types::{FixedPoint, Order, OrderSide};
use crate::ids::Scalar;
use vstd::prelude::*;

verus! {

/// The fractional bits of a fixed-point execution price
pub const PRICE_FRACTIONAL_BITS: u64 = 32;

/// The number of values a match result is written as
pub const MATCH_SIZE_SCALARS: usize = 5;

/// The cleartext result of a match between two parties' orders
#[derive(Clone, Copy, Debug, PartialEq, Eq, Structural)]
pub struct MatchResult {
    /// The mint of the quote token
    pub quote_mint: Scalar,
    /// The mint of the base token
    pub base_mint: Scalar,
    /// The amount of the quote token exchanged
    pub quote_amount: u64,
    /// The amount of the base token exchanged
    pub base_amount: u64,
    /// Which way the base token moves: 0 when the first party (party 0)
    /// buys the base token and sells the quote token, so the second party
    /// sells base; 1 when the first party sells the base token
    pub direction: u64,
}

/// Why a list of values is not a match result
#[derive(Clone, Copy, Debug, PartialEq, Eq, Structural)]
pub enum MatchResultError {
    /// There are not exactly `MATCH_SIZE_SCALARS` values
    Serialization,
}

impl MatchResult {
    /// The match result written as five values: quote mint, base mint,
    /// quote amount, base amount, direction
    pub fn try_from_values(values: &[u64]) -> (r: Result<MatchResult, MatchResultError>)
        ensures
            values@.len() != MATCH_SIZE_SCALARS ==> r == Err::<MatchResult, MatchResultError>(MatchResultError::Serialization),
            values@.len() == MATCH_SIZE_SCALARS ==> r == Ok::<MatchResult, MatchResultError>(
                MatchResult {
                    quote_mint: crate::ids::spec_scalar_from_u64(values@[0]),
                    base_mint: crate::ids::spec_scalar_from_u64(values@[1]),
                    quote_amount: values@[2],
                    base_amount: values@[3],
                    direction: values@[4],
                },
            ),
    {
        if values.len() != MATCH_SIZE_SCALARS {
            return Err(MatchResultError::Serialization);
        }
        Ok(
            MatchResult {
                quote_mint: Scalar::from_u64(values[0]),
                base_mint: Scalar::from_u64(values[1]),
                quote_amount: values[2],
                base_amount: values[3],
                direction: values[4],
            },
        )
    }
}

/// The quote amount worth a base amount at a price, rounded down
pub open spec fn quote_for(base_amount: u64, price: u64) -> int {
    (base_amount * price) / 0x1_0000_0000
}

/// The integer a scalar's limbs encode
pub open spec fn limbs_value(s: Scalar) -> int {
    s.limb0 + s.limb1 * 0x1_0000_0000_0000_0000 + s.limb2 * 0x1_0000_0000_0000_0000_0000_0000_0000_0000
        + s.limb3 * 0x1_0000_0000_0000_0000_0000_0000_0000_0000_0000_0000_0000_0000
}

/// Whether an order accepts the execution price: a buy order's limit is the
/// most it pays, a sell order's the least it takes
pub open spec fn accepts(o: Order, price: u64) -> bool {
    match o.side {
        OrderSide::Buy => price <= limbs_value(o.price.repr),
        OrderSide::Sell => price >= limbs_value(o.price.repr),
    }
}

/// The base amount an order can trade with the balance that capitalizes it:
/// a sell order spends base directly, a buy order spends quote worth the
/// base at the price
pub open spec fn capped_amount(o: Order, balance: u64, price: u64) -> u64 {
    let cap = match o.side {
        OrderSide::Sell => balance as int,
        OrderSide::Buy => if price == 0 {
            o.amount as int
        } else {
            (balance * 0x1_0000_0000) / (price as int)
        },
    };
    if cap < o.amount {
        cap as u64
    } else {
        o.amount
    }
}

/// The match of two orders at a price: none unless they trade the same pair
/// on opposite sides, both accept the price, something can be traded and
/// the quote amount fits in 64 bits; otherwise the smaller of the two capped
/// amounts changes hands
pub open spec fn spec_match(o1: Order, b1: u64, o2: Order, b2: u64, price: u64) -> Option<MatchResult> {
    let c1 = capped_amount(o1, b1, price);
    let c2 = capped_amount(o2, b2, price);
    let base = if c1 <= c2 {
        c1
    } else {
        c2
    };
    if o1.quote_mint != o2.quote_mint || o1.base_mint != o2.base_mint || o1.side == o2.side || !accepts(o1, price) || !accepts(
        o2,
        price,
    ) || base == 0 || quote_for(base, price) > u64::MAX {
        None
    } else {
        Some(
            MatchResult {
                quote_mint: o1.quote_mint,
                base_mint: o1.base_mint,
                quote_amount: quote_for(base, price) as u64,
                base_amount: base,
                direction: if o1.side == OrderSide::Buy {
                    0
                } else {
                    1
                },
            },
        )
    }
}

/// Whether the fixed-point limit is at least the price
fn limit_at_least(limit: &FixedPoint, price: u64) -> (r: bool)
    ensures
        r == (price <= limbs_value(limit.repr)),
{
    let s = limit.repr;
    if s.limb1 != 0 || s.limb2 != 0 || s.limb3 != 0 {
        assert(limbs_value(s) >= 0x1_0000_0000_0000_0000) by (nonlinear_arith)
            requires
                s.limb1 != 0 || s.limb2 != 0 || s.limb3 != 0,
                s.limb0 >= 0 && s.limb1 >= 0 && s.limb2 >= 0 && s.limb3 >= 0,
                limbs_value(s) == s.limb0 + s.limb1 * 0x1_0000_0000_0000_0000 + s.limb2 * 0x1_0000_0000_0000_0000_0000_0000_0000_0000
                    + s.limb3 * 0x1_0000_0000_0000_0000_0000_0000_0000_0000_0000_0000_0000_0000;
        true
    } else {
        price <= s.limb0
    }
}

/// Whether the fixed-point limit is at most the price
fn limit_at_most(limit: &FixedPoint, price: u64) -> (r: bool)
    ensures
        r == (price >= limbs_value(limit.repr)),
{
    let s = limit.repr;
    if s.limb1 != 0 || s.limb2 != 0 || s.limb3 != 0 {
        assert(limbs_value(s) >= 0x1_0000_0000_0000_0000) by (nonlinear_arith)
            requires
                s.limb1 != 0 || s.limb2 != 0 || s.limb3 != 0,
                s.limb0 >= 0 && s.limb1 >= 0 && s.limb2 >= 0 && s.limb3 >= 0,
                limbs_value(s) == s.limb0 + s.limb1 * 0x1_0000_0000_0000_0000 + s.limb2 * 0x1_0000_0000_0000_0000_0000_0000_0000_0000
                    + s.limb3 * 0x1_0000_0000_0000_0000_0000_0000_0000_0000_0000_0000_0000_0000;
        false
    } else {
        price >= s.limb0
    }
}

/// The base amount an order can trade with the balance that capitalizes it
pub fn cap_amount(o: &Order, balance: u64, price: u64) -> (r: u64)
    ensures
        r == capped_amount(*o, balance, price),
        r <= o.amount,
{
    let cap: u128 = match o.side {
        OrderSide::Sell => balance as u128,
        OrderSide::Buy => if price == 0 {
            o.amount as u128
        } else {
            assert(balance * 0x1_0000_0000 <= 0xffff_ffff_ffff_ffff * 0x1_0000_0000) by (nonlinear_arith)
                requires balance <= 0xffff_ffff_ffff_ffff;
            (balance as u128 * 0x1_0000_0000) / price as u128
        },
    };
    if cap < o.amount as u128 {
        cap as u64
    } else {
        o.amount
    }
}

/// Matches the first party's order against the second's at the agreed
/// execution price, each capped by the balance that capitalizes it
pub fn match_orders(o1: &Order, b1: u64, o2: &Order, b2: u64, price: u64) -> (r: Option<MatchResult>)
    ensures
        r == spec_match(*o1, b1, *o2, b2, price),
{
    if o1.quote_mint != o2.quote_mint || o1.base_mint != o2.base_mint || o1.side == o2.side {
        return None;
    }
    let accepts1 = match o1.side {
        OrderSide::Buy => limit_at_least(&o1.price, price),
        OrderSide::Sell => limit_at_most(&o1.price, price),
    };
    let accepts2 = match o2.side {
        OrderSide::Buy => limit_at_least(&o2.price, price),
        OrderSide::Sell => limit_at_most(&o2.price, price),
    };
    if !accepts1 || !accepts2 {
        return None;
    }
    let c1 = cap_amount(o1, b1, price);
    let c2 = cap_amount(o2, b2, price);
    let base = if c1 <= c2 { c1 } else { c2 };
    if base == 0 {
        return None;
    }
    assert(base * price <= u64::MAX * u64::MAX) by (nonlinear_arith)
        requires base <= u64::MAX, price <= u64::MAX;
    assert(0xffff_ffff_ffff_ffffnat * 0xffff_ffff_ffff_ffffnat <= 0xffff_ffff_ffff_ffff_ffff_ffff_ffff_ffffnat);
    let product: u128 = base as u128 * price as u128;
    let quote: u128 = product / 0x1_0000_0000;
    if quote > u64::MAX as u128 {
        return None;
    }
    Some(
        MatchResult {
            quote_mint: o1.quote_mint,
            base_mint: o1.base_mint,
            quote_amount: quote as u64,
            base_amount: base,
            direction: if o1.side == OrderSide::Buy { 0 } else { 1 },
        },
    )
}

/// A match never moves more of the base token than either order asks for or
/// its balance can pay, both orders accept the price, the quote amount is the
/// base amount's worth at the price (rounded down), and the direction follows
/// the first party's side.
pub proof fn lemma_match_within_orders(o1: Order, b1: u64, o2: Order, b2: u64, price: u64)
    requires
        spec_match(o1, b1, o2, b2, price) is Some,
    ensures
        ({
            let m = spec_match(o1, b1, o2, b2, price)->Some_0;
            &&& m.base_amount <= capped_amount(o1, b1, price) <= o1.amount
            &&& m.base_amount <= capped_amount(o2, b2, price) <= o2.amount
            &&& accepts(o1, price) && accepts(o2, price)
            &&& m.quote_amount == quote_for(m.base_amount, price)
            &&& m.quote_amount * 0x1_0000_0000 <= m.base_amount * price
            &&& (m.direction == 0) == (o1.side == OrderSide::Buy)
        }),
{
    let m = spec_match(o1, b1, o2, b2, price)->Some_0;
    let p = m.base_amount * price;
    assert((p / 0x1_0000_0000) * 0x1_0000_0000 <= p) by (nonlinear_arith)
        requires p >= 0;
}

} // verus!
