use pa_strategy::decimal::Decimal;
use pa_strategy::profitability::ProfitCalculator;

fn dec(text: &str) -> Decimal {
    let digits: String = text.chars().filter(|c| *c != '.').collect();
    let scale = text.split('.').nth(1).map_or(0, |part| part.len());
    Decimal::from_parts(digits.parse::<i128>().unwrap(), scale as u32).unwrap()
}

fn calc() -> ProfitCalculator {
    ProfitCalculator::new(dec("0.10"))
}

#[test]
fn test_capped_fee_normal() {
    assert_eq!(calc().capped_fee(dec("0.50"), 200), dec("0.01"));
}

#[test]
fn test_capped_fee_extreme_price() {
    assert_eq!(calc().capped_fee(dec("0.99"), 200), dec("0.0099"));
}

#[test]
fn test_directional_buy_positive_edge() {
    let est = calc().directional_buy_profit(dec("0.50"), dec("0.70"), dec("100"), 200);
    assert_eq!(est.gross_profit, dec("20.00"));
    assert!(est.net_profit > Decimal::zero(), "Expected positive profit");
    assert_eq!(est.gas, Decimal::zero());
}

#[test]
fn test_directional_buy_no_edge() {
    let est = calc().directional_buy_profit(dec("0.50"), dec("0.45"), dec("100"), 200);
    assert!(est.gross_profit < Decimal::zero());
    assert!(est.net_profit < Decimal::zero());
}

#[test]
fn test_directional_sell_profit_positive() {
    let est = calc().directional_sell_profit(dec("0.80"), dec("0.50"), dec("100"), 200);
    assert_eq!(est.gross_profit, dec("30.00"));
    assert!(est.net_profit > Decimal::zero(), "Expected positive net profit");
    assert_eq!(est.gas, Decimal::zero());
    assert!(est.roi > Decimal::zero());
}

#[test]
fn test_directional_sell_profit_at_loss() {
    let est = calc().directional_sell_profit(dec("0.40"), dec("0.70"), dec("100"), 200);
    assert_eq!(est.gross_profit, dec("-30.00"));
    assert!(est.net_profit < Decimal::zero(), "Expected negative net profit");
    assert_eq!(est.gas, Decimal::zero());
    assert!(est.roi < Decimal::zero());
}

#[test]
fn every_figure_of_a_buy() {
    let est = calc().directional_buy_profit(dec("0.50"), dec("0.70"), dec("100"), 200);
    assert_eq!(est.fees, dec("1"));
    assert_eq!(est.net_profit, dec("19"));
    // 19 / 51
    assert_eq!(est.roi, dec("0.3725490196078431372549019608"));
}

#[test]
fn every_figure_of_a_sell() {
    let est = calc().directional_sell_profit(dec("0.80"), dec("0.50"), dec("100"), 200);
    assert_eq!(est.fees, dec("1.6"));
    assert_eq!(est.net_profit, dec("28.4"));
    assert_eq!(est.roi, dec("0.568"));
}

#[test]
fn nothing_paid_gives_no_return() {
    let est = calc().directional_sell_profit(dec("0.80"), dec("0"), dec("100"), 200);
    assert_eq!(est.roi, Decimal::zero());
    let est = calc().directional_buy_profit(dec("0"), dec("0.10"), dec("100"), 200);
    assert_eq!(est.roi, Decimal::zero());
    assert_eq!(est.net_profit, dec("10"));
}

#[test]
fn the_fee_never_exceeds_the_losing_side() {
    for cents in 0..=100i64 {
        let price = Decimal::new(cents, 2);
        for bps in [0u32, 1, 200, 10_000, u32::MAX] {
            let fee = calc().capped_fee(price, bps);
            assert!(fee >= Decimal::zero());
            assert!(fee <= price * (Decimal::one() - price));
        }
    }
}

#[test]
fn very_large_and_very_small_trades_are_reckoned() {
    let est = calc().directional_buy_profit(dec("0.0001"), dec("1"), dec("1000000000000"), 0);
    assert_eq!(est.net_profit, dec("999900000000"));
    assert_eq!(est.roi, dec("9999"));
    let tiny = dec("0.0000000000000000000000000001");
    let est = calc().directional_buy_profit(dec("0.5"), dec("1"), tiny, 200);
    assert_eq!(est.net_profit, Decimal::zero());
    assert_eq!(est.roi, Decimal::zero());
    let est = calc().directional_sell_profit(dec("1"), dec("0.0001"), dec("0.5"), 200);
    assert_eq!(est.net_profit, dec("0.49995"));
    assert_eq!(est.roi, dec("9999"));
}
