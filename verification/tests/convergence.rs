use pa_strategy::arbitrage::{ArbitrageOpportunity, ExecutionPlan};
use pa_strategy::convergence::{
    hours_left, ConvergenceConfig, ConvergenceFunds, ConvergenceReading, ResolutionConvergenceStrategy,
};
use pa_strategy::crypto_alpha::entry::TokenPosition;
use pa_strategy::crypto_alpha::exits::HeldPosition;
use pa_strategy::decimal::Decimal;
use pa_strategy::types::{
    BookSet, DirectionalBuy, MarketInfo, OrderBook, Outcome, PriceLevel, Stamp, StrategyType, TokenInfo, TradeSide,
    B256, U256,
};

fn dec(text: &str) -> Decimal {
    let digits: String = text.chars().filter(|c| *c != '.').collect();
    let scale = text.split('.').nth(1).map_or(0, |part| part.len());
    Decimal::from_parts(digits.parse::<i128>().unwrap(), scale as u32).unwrap()
}

const START: i128 = 1_700_000_000_000_000_000;
const NOW: i128 = START + 1_000;
const HOUR: i128 = 3_600_000_000_000;
const DAY: i128 = 24 * HOUR;
const STAMP: Stamp = Stamp { id: 1, detected_at: 1_700_000_000 };
const MAX_DAYS: f64 = 7.0;
const DECAY_RATE: f64 = 0.03;

fn default_config() -> ConvergenceConfig {
    ConvergenceConfig {
        min_price_threshold: dec("0.93"),
        max_days_to_resolution: 7,
        max_position_pct: dec("0.50"),
        kelly_fraction: dec("0.25"),
        exit_buffer_bps: 50,
        capital_efficiency_threshold: dec("0.98"),
    }
}

fn strategy() -> ResolutionConvergenceStrategy {
    ResolutionConvergenceStrategy::new(default_config(), dec("0.00"))
}

fn make_market(end_date: Option<i128>, neg_risk: bool) -> MarketInfo {
    MarketInfo {
        condition_id: B256::zero(),
        question: "Will event X happen?".to_string(),
        neg_risk,
        tokens: vec![
            TokenInfo {
                token_id: U256::from_u64(1),
                outcome: Outcome::Yes,
                complement_id: U256::from_u64(2),
            },
            TokenInfo {
                token_id: U256::from_u64(2),
                outcome: Outcome::No,
                complement_id: U256::from_u64(1),
            },
        ],
        fee_rate_bps: 200,
        active: true,
        liquidity: dec("1000"),
        event_title: None,
        end_date,
        rewards_min_size: None,
        rewards_max_spread: None,
        rewards_daily_rate: None,
    }
}

fn make_book(token_id: u64, best_ask_price: &str) -> OrderBook {
    OrderBook {
        token_id: U256::from_u64(token_id),
        bids: vec![PriceLevel { price: dec(best_ask_price) - dec("0.02"), size: dec("500") }],
        asks: vec![PriceLevel { price: dec(best_ask_price), size: dec("500") }],
    }
}

fn make_book_with_bid(token_id: u64, best_bid: &str) -> OrderBook {
    OrderBook {
        token_id: U256::from_u64(token_id),
        bids: vec![PriceLevel { price: dec(best_bid), size: dec("500") }],
        asks: vec![PriceLevel { price: dec(best_bid) + dec("0.02"), size: dec("500") }],
    }
}

fn funds(position: &str) -> ConvergenceFunds {
    ConvergenceFunds {
        balance: dec("200"),
        available: Decimal::max_value(),
        positions: vec![
            TokenPosition { token_id: U256::from_u64(1), size: dec(position) },
            TokenPosition { token_id: U256::from_u64(2), size: dec(position) },
        ],
    }
}

/// The probability that decays with the time left, as a decimal.
fn model_prob(market: &MarketInfo) -> Option<Decimal> {
    let days = hours_left(market.end_date, NOW)? as f64 / 24.0;
    let prob = 1.0 - (days / MAX_DAYS) * DECAY_RATE;
    let value = rust_decimal::Decimal::from_f64_retain(prob)?;
    Decimal::from_parts(value.mantissa(), value.scale())
}

fn detect(market: &MarketInfo, yes_ask: &str, no_ask: &str, position: &str) -> Option<ArbitrageOpportunity> {
    let books = BookSet { books: vec![make_book(1, yes_ask), make_book(2, no_ask)] };
    strategy().detect_convergence(market, &books, &funds(position), model_prob(market), NOW, STAMP)
}

fn order(opp: &ArbitrageOpportunity) -> DirectionalBuy {
    match &opp.execution_plan {
        ExecutionPlan::DirectionalBuy(order) => *order,
        _ => panic!("Expected DirectionalBuy"),
    }
}

#[test]
fn test_filters_market_without_end_date() {
    assert!(detect(&make_market(None, false), "0.95", "0.05", "0").is_none());
}

#[test]
fn test_filters_market_too_far() {
    assert!(detect(&make_market(Some(START + 30 * DAY), false), "0.95", "0.05", "0").is_none());
}

#[test]
fn test_filters_market_past_end_date() {
    assert!(detect(&make_market(Some(START - HOUR), false), "0.95", "0.05", "0").is_none());
}

#[test]
fn test_filters_price_below_threshold() {
    assert!(detect(&make_market(Some(START + 3 * DAY), false), "0.80", "0.20", "0").is_none());
}

#[test]
fn test_detects_yes_convergence() {
    let opp = detect(&make_market(Some(START + 3 * DAY), false), "0.95", "0.05", "0").unwrap();
    assert_eq!(opp.strategy_type, StrategyType::ResolutionConvergence);
    assert_eq!(order(&opp).token_id, U256::from_u64(1));
    assert_eq!(order(&opp).price, dec("0.95"));
}

#[test]
fn test_detects_no_convergence() {
    let opp = detect(&make_market(Some(START + 2 * DAY), false), "0.04", "0.96", "0").unwrap();
    assert_eq!(order(&opp).token_id, U256::from_u64(2));
    assert_eq!(order(&opp).price, dec("0.96"));
}

#[test]
fn test_picks_higher_conviction() {
    let opp = detect(&make_market(Some(START + 2 * DAY), false), "0.97", "0.94", "0").unwrap();
    assert_eq!(order(&opp).token_id, U256::from_u64(1), "Should pick YES (higher price)");
}

#[test]
fn test_time_decay_boost() {
    let days_1 = 1.0_f64;
    let days_7 = 7.0_f64;
    let prob_1 = 1.0 - (days_1 / MAX_DAYS) * DECAY_RATE;
    let prob_7 = 1.0 - (days_7 / MAX_DAYS) * DECAY_RATE;

    assert!(
        prob_1 > prob_7,
        "1 day ({}) should have higher prob than 7 days ({})",
        prob_1,
        prob_7
    );
    assert!(prob_1 > 0.99);
    assert!(prob_7 < 0.98);
}

#[test]
fn test_position_aware_sizing() {
    let opp = detect(&make_market(Some(START + 3 * DAY), false), "0.95", "0.05", "80").unwrap();
    assert!(order(&opp).size <= dec("20"), "Size should be <= 20 (max 100 - existing 80)");
}

#[test]
fn test_skips_neg_risk() {
    assert!(detect(&make_market(Some(START + 3 * DAY), true), "0.95", "0.05", "0").is_none());
}

fn exits(market: MarketInfo, yes_bid: &str, no_bid: &str, held: Vec<HeldPosition>) -> Vec<ArbitrageOpportunity> {
    let books = BookSet { books: vec![make_book_with_bid(1, yes_bid), make_book_with_bid(2, no_bid)] };
    let readings: Vec<ConvergenceReading> =
        held.iter().map(|_| ConvergenceReading { model_prob: model_prob(&market), stamp: STAMP }).collect();
    strategy().scan_exits(&vec![market], &books, &held, &readings, NOW)
}

fn held(token: u64, size: &str, avg_cost: &str) -> HeldPosition {
    HeldPosition { token_id: U256::from_u64(token), size: dec(size), avg_cost: dec(avg_cost) }
}

#[test]
fn test_exit_capital_efficiency() {
    let market = make_market(Some(START + 3 * DAY), false);
    let found = exits(market, "0.99", "0.01", vec![held(1, "50", "0.95")]);
    assert_eq!(found.len(), 1);
    assert!(found[0].question.starts_with("[EXIT]"));
    assert_eq!(order(&found[0]).side, TradeSide::Sell);
    assert_eq!(order(&found[0]).price, dec("0.99"));
    assert_eq!(order(&found[0]).size, dec("50"));
}

#[test]
fn test_exit_model_reversal() {
    let market = make_market(Some(START + 24 * 7 * HOUR - 2 * HOUR), false);
    let found = exits(market, "0.985", "0.015", vec![held(1, "30", "0.94")]);
    assert_eq!(found.len(), 1, "Should detect model reversal exit");
    assert!(found[0].question.starts_with("[EXIT]"));
}

#[test]
fn test_exit_no_positions() {
    let market = make_market(Some(START + 3 * DAY), false);
    assert!(exits(market, "0.95", "0.05", vec![]).is_empty());
}

#[test]
fn test_exit_edge_still_positive() {
    let market = make_market(Some(START + DAY), false);
    let found = exits(market, "0.96", "0.04", vec![held(1, "50", "0.94")]);
    assert!(found.is_empty(), "Edge still positive, should not exit");
}

#[test]
fn a_reversal_below_the_capital_efficiency_threshold_is_sold() {
    // 167 of 168 hours left: 0.9702 is below 0.979 less 0.005
    let market = make_market(Some(START + 7 * DAY), false);
    let found = exits(market, "0.979", "0.015", vec![held(1, "30", "0.94"), held(2, "10", "0.02")]);
    assert_eq!(found.len(), 1);
    assert_eq!(found[0].question, "[EXIT] Will event X happen?");
    assert_eq!(found[0].spread, dec("0.039"));
}

#[test]
fn a_token_of_no_known_market_is_sold_near_one_only() {
    let books = BookSet { books: vec![make_book_with_bid(9, "0.99")] };
    let market = make_market(Some(START + DAY), false);
    let reading = ConvergenceReading { model_prob: Some(dec("0.10")), stamp: STAMP };
    let found = strategy().scan_exits(&vec![market], &books, &vec![held(9, "10", "0.5")], &vec![reading], NOW);
    assert_eq!(found.len(), 1);
    assert_eq!(found[0].question, "[EXIT] ");
    assert_eq!(found[0].condition_id, B256::zero());
    // (0.99 - 0.5) * 10 less the capped fee of 0.0099 on each
    assert_eq!(found[0].estimated_profit, dec("4.801"));

    let books = BookSet { books: vec![make_book_with_bid(9, "0.90")] };
    let market = make_market(Some(START + DAY), false);
    let found = strategy().scan_exits(&vec![market], &books, &vec![held(9, "10", "0.5")], &vec![reading], NOW);
    assert!(found.is_empty());
}

#[test]
fn the_size_is_the_kelly_share_of_the_largest_position() {
    let market = make_market(Some(START + 3 * DAY), false);
    let books = BookSet { books: vec![make_book(1, "0.95"), make_book(2, "0.05")] };
    let opp = strategy()
        .detect_convergence(&market, &books, &funds("0"), Some(dec("0.98")), NOW, STAMP)
        .unwrap();
    // 0.03 / 0.05 of a quarter of one hundred
    assert_eq!(opp.size, dec("15"));
    assert_eq!(opp.spread, dec("0.03"));
    // 0.03 * 15 less the fee of 0.019 on each
    assert_eq!(opp.estimated_profit, dec("0.165"));
}

#[test]
fn an_order_below_the_least_cost_is_not_made() {
    let market = make_market(Some(START + 3 * DAY), false);
    let books = BookSet { books: vec![make_book(1, "0.95"), make_book(2, "0.05")] };
    let mut poor = funds("0");
    poor.available = dec("1.9");
    assert!(strategy().detect_convergence(&market, &books, &poor, Some(dec("0.98")), NOW, STAMP).is_none());
    poor.available = dec("2");
    assert!(strategy().detect_convergence(&market, &books, &poor, Some(dec("0.98")), NOW, STAMP).is_some());
}

#[test]
fn a_model_that_cannot_tell_makes_no_entry() {
    let market = make_market(Some(START + 3 * DAY), false);
    let books = BookSet { books: vec![make_book(1, "0.95"), make_book(2, "0.05")] };
    assert!(strategy().detect_convergence(&market, &books, &funds("0"), None, NOW, STAMP).is_none());
}

#[test]
fn the_horizon_is_counted_in_whole_hours() {
    let market = make_market(Some(START + 7 * DAY + HOUR), false);
    assert_eq!(hours_left(market.end_date, NOW), Some(168));
    assert_eq!(hours_left(Some(START), NOW), None);
    assert_eq!(hours_left(Some(NOW), NOW), None);
    assert_eq!(hours_left(Some(NOW + 1), NOW), Some(0));
    assert_eq!(hours_left(Some(NOW + HOUR - 1), NOW), Some(0));
    assert_eq!(hours_left(Some(NOW + HOUR), NOW), Some(1));
    assert!(detect(&market, "0.95", "0.05", "0").is_some());
    let market = make_market(Some(START + 7 * DAY + 2 * HOUR), false);
    assert!(detect(&market, "0.95", "0.05", "0").is_none());
}

#[test]
fn a_scan_lists_entries_before_exits() {
    let books = BookSet { books: vec![make_book(1, "0.95"), make_book(2, "0.05"), make_book_with_bid(9, "0.99")] };
    let markets = vec![make_market(Some(START + 3 * DAY), false)];
    let reading = ConvergenceReading { model_prob: Some(dec("0.98")), stamp: STAMP };
    let found = strategy().scan(
        &markets,
        &books,
        &funds("0"),
        &vec![reading],
        &vec![held(9, "10", "0.5")],
        &vec![reading],
        NOW,
    );
    assert_eq!(found.len(), 2);
    assert_eq!(order(&found[0]).side, TradeSide::Buy);
    assert_eq!(order(&found[1]).side, TradeSide::Sell);
}
