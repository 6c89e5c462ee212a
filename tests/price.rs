use relayer_core::price::{agree_on_price, ExchangeConnectionState, PriceAgreementConfig, PriceAgreementError, PriceReport};

const CONFIG: PriceAgreementConfig = PriceAgreementConfig { max_staleness_ms: 5_000, max_deviation_bps: 50 };

fn report(price: u64, at: u64) -> PriceReport {
    PriceReport { midpoint_price: price, local_timestamp: at }
}

#[test]
fn fresh_close_prices_agree_on_the_local_price() {
    let r = agree_on_price(ExchangeConnectionState::Nominal(report(2_000_000, 10_000)), report(2_009_000, 9_000), 12_000, CONFIG);
    assert_eq!(r, Ok(2_000_000));
}

#[test]
fn stale_price_aborts_before_mpc() {
    let r = agree_on_price(ExchangeConnectionState::Nominal(report(2_000_000, 1_000)), report(2_000_000, 9_000), 12_000, CONFIG);
    assert_eq!(r, Err(PriceAgreementError::StaleLocalPrice));
    let r = agree_on_price(ExchangeConnectionState::Nominal(report(2_000_000, 11_000)), report(2_000_000, 6_999), 12_000, CONFIG);
    assert_eq!(r, Err(PriceAgreementError::StalePeerPrice));
    let r = agree_on_price(ExchangeConnectionState::Nominal(report(2_000_000, 7_000)), report(2_000_000, 7_000), 12_000, CONFIG);
    assert_eq!(r, Ok(2_000_000));
}

#[test]
fn deviating_or_missing_prices_abort() {
    let r = agree_on_price(ExchangeConnectionState::Nominal(report(2_000_000, 11_000)), report(2_010_001, 11_000), 12_000, CONFIG);
    assert_eq!(r, Err(PriceAgreementError::PriceDeviation));
    let r = agree_on_price(ExchangeConnectionState::Nominal(report(2_000_000, 11_000)), report(2_010_000, 11_000), 12_000, CONFIG);
    assert_eq!(r, Ok(2_000_000));
    assert_eq!(
        agree_on_price(ExchangeConnectionState::NoDataReported, report(1, 11_000), 12_000, CONFIG),
        Err(PriceAgreementError::NoLocalPrice)
    );
    assert_eq!(
        agree_on_price(ExchangeConnectionState::Unsupported, report(1, 11_000), 12_000, CONFIG),
        Err(PriceAgreementError::NoLocalPrice)
    );
    // a report from the future is not fresh
    let r = agree_on_price(ExchangeConnectionState::Nominal(report(5, 13_000)), report(5, 11_000), 12_000, CONFIG);
    assert_eq!(r, Err(PriceAgreementError::StaleLocalPrice));
}
