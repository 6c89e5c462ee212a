//! Price agreement, the first phase of a handshake: both sides must hold a
//! fresh midpoint price for the pair, and the two prices must agree within a
//! tolerance, before any MPC is started.
//!
//! Prices are fixed-point numbers (the same scale on both sides); times are
//! unix timestamps in milliseconds.

use vstd::prelude::*;

verus! {

/// A midpoint price reported for an asset pair
#[derive(Clone, Copy, Debug, PartialEq, Eq, Structural)]
pub struct PriceReport {
    /// The midpoint price, in fixed point
    pub midpoint_price: u64,
    /// When the report was taken
    pub local_timestamp: u64,
}

/// The state of the price stream of one exchange
#[derive(Clone, Copy, Debug, PartialEq, Eq, Structural)]
pub enum ExchangeConnectionState {
    /// Reporting as normal
    Nominal(PriceReport),
    /// No data reported yet
    NoDataReported,
    /// The exchange does not list the pair
    Unsupported,
}

/// How far apart and how old prices may be
#[derive(Clone, Copy, Debug, PartialEq, Eq, Structural)]
pub struct PriceAgreementConfig {
    /// The oldest a report may be
    pub max_staleness_ms: u64,
    /// The largest deviation between the two sides, in basis points of the
    /// local price
    pub max_deviation_bps: u64,
}

/// Why the handshake aborted at price agreement
#[derive(Clone, Copy, Debug, PartialEq, Eq, Structural)]
pub enum PriceAgreementError {
    /// The local side has no price for the pair
    NoLocalPrice,
    /// The local report is older than the staleness window
    StaleLocalPrice,
    /// The peer's report is older than the staleness window
    StalePeerPrice,
    /// The two prices deviate by more than the tolerance
    PriceDeviation,
}

/// Whether a report is within the staleness window at `now`
pub open spec fn fresh(report: PriceReport, now: u64, max_staleness_ms: u64) -> bool {
    report.local_timestamp <= now && now - report.local_timestamp <= max_staleness_ms
}

/// Whether two prices deviate by at most the tolerance
pub open spec fn within_tolerance(local: u64, peer: u64, max_deviation_bps: u64) -> bool {
    let diff = if local >= peer {
        local - peer
    } else {
        peer - local
    };
    diff * 10_000 <= local * max_deviation_bps
}

/// The outcome of price agreement
pub open spec fn spec_agree(
    local: ExchangeConnectionState,
    peer: PriceReport,
    now: u64,
    config: PriceAgreementConfig,
) -> Result<u64, PriceAgreementError> {
    match local {
        ExchangeConnectionState::Nominal(report) => if !fresh(report, now, config.max_staleness_ms) {
            Err(PriceAgreementError::StaleLocalPrice)
        } else if !fresh(peer, now, config.max_staleness_ms) {
            Err(PriceAgreementError::StalePeerPrice)
        } else if !within_tolerance(report.midpoint_price, peer.midpoint_price, config.max_deviation_bps) {
            Err(PriceAgreementError::PriceDeviation)
        } else {
            Ok(report.midpoint_price)
        },
        _ => Err(PriceAgreementError::NoLocalPrice),
    }
}

/// Agrees on an execution price with a peer: the local price is used when
/// both reports are fresh and the two prices agree within the tolerance;
/// otherwise the handshake aborts before any MPC is started
pub fn agree_on_price(
    local: ExchangeConnectionState,
    peer: PriceReport,
    now: u64,
    config: PriceAgreementConfig,
) -> (r: Result<u64, PriceAgreementError>)
    ensures
        r == spec_agree(local, peer, now, config),
{
    let report = match local {
        ExchangeConnectionState::Nominal(report) => report,
        _ => return Err(PriceAgreementError::NoLocalPrice),
    };
    if report.local_timestamp > now || now - report.local_timestamp > config.max_staleness_ms {
        return Err(PriceAgreementError::StaleLocalPrice);
    }
    if peer.local_timestamp > now || now - peer.local_timestamp > config.max_staleness_ms {
        return Err(PriceAgreementError::StalePeerPrice);
    }
    let diff: u64 = if report.midpoint_price >= peer.midpoint_price {
        report.midpoint_price - peer.midpoint_price
    } else {
        peer.midpoint_price - report.midpoint_price
    };
    let price = report.midpoint_price;
    let bps = config.max_deviation_bps;
    assert(diff * 10_000 <= u64::MAX * 10_000) by (nonlinear_arith)
        requires diff <= u64::MAX;
    assert(price * bps <= u64::MAX * u64::MAX) by (nonlinear_arith)
        requires price <= u64::MAX, bps <= u64::MAX;
    assert(0xffff_ffff_ffff_ffffnat * 0xffff_ffff_ffff_ffffnat <= 0xffff_ffff_ffff_ffff_ffff_ffff_ffff_ffffnat);
    let lhs: u128 = diff as u128 * 10_000;
    let rhs: u128 = price as u128 * bps as u128;
    if lhs > rhs {
        return Err(PriceAgreementError::PriceDeviation);
    }
    Ok(report.midpoint_price)
}

/// A stale price on either side aborts price agreement, whatever the prices.
pub proof fn lemma_stale_price_aborts(
    local: PriceReport,
    peer: PriceReport,
    now: u64,
    config: PriceAgreementConfig,
)
    requires
        !fresh(local, now, config.max_staleness_ms) || !fresh(peer, now, config.max_staleness_ms),
    ensures
        spec_agree(ExchangeConnectionState::Nominal(local), peer, now, config) is Err,
{
}

} // verus!
