use pa_strategy::arbitrage::{scale_execution_plan_size, ArbitrageOpportunity, ExecutionPlan, MarketSides, NegRiskLeg};
use pa_strategy::decimal::Decimal;
use pa_strategy::engine::{
    build_token_to_market, markets_ending_within, scale_for_event, take_from_budget, validate_depth, Consideration, EngineState,
    ExecutionReport, LiquidityRequirement,
};
use pa_strategy::stop_loss::StopLossPosition;
use pa_strategy::types::{
    BookSet, DirectionalBuy, MarketInfo, OrderBook, Outcome, PriceLevel, Stamp, StrategyType, TokenInfo, TradeSide,
    B256, DAY, U256,
};

fn dec(text: &str) -> Decimal {
    let digits: String = text.chars().filter(|c| *c != '.').collect();
    let scale = text.split('.').nth(1).map_or(0, |part| part.len());
    Decimal::from_parts(digits.parse::<i128>().unwrap(), scale as u32).unwrap()
}

const SECOND: u128 = 1_000_000_000;
const NOW: u128 = 1_000 * SECOND;
const NOW_UTC: i128 = 1_700_000_000_250_000_000;
const STAMP: Stamp = Stamp { id: 9, detected_at: 1_700_000_000 };

fn id(n: u8) -> B256 {
    B256 { bytes: [n; 32] }
}

fn market(n: u64, end_date: Option<i128>) -> MarketInfo {
    MarketInfo {
        condition_id: id(n as u8),
        question: format!("Market {}", n),
        neg_risk: false,
        tokens: vec![
            TokenInfo {
                token_id: U256::from_u64(n * 10),
                outcome: Outcome::Yes,
                complement_id: U256::from_u64(n * 10 + 1),
            },
            TokenInfo {
                token_id: U256::from_u64(n * 10 + 1),
                outcome: Outcome::No,
                complement_id: U256::from_u64(n * 10),
            },
        ],
        fee_rate_bps: 200,
        active: true,
        liquidity: dec("1000"),
        event_title: None,
        end_date,
        rewards_min_size: None,
        rewards_max_spread: None,
        rewards_daily_rate: None,
    }
}

fn book(token: u64, bids: Vec<(&str, &str)>, asks: Vec<(&str, &str)>) -> OrderBook {
    let levels = |side: Vec<(&str, &str)>| {
        side.into_iter().map(|(price, size)| PriceLevel { price: dec(price), size: dec(size) }).collect()
    };
    OrderBook { token_id: U256::from_u64(token), bids: levels(bids), asks: levels(asks) }
}

fn trade(token: u64, side: TradeSide, price: &str, size: &str) -> ArbitrageOpportunity {
    ArbitrageOpportunity {
        stamp: STAMP,
        strategy_type: StrategyType::CryptoAlpha,
        condition_id: id(1),
        question: "Will it?".to_string(),
        spread: dec("0.1"),
        estimated_profit: dec("8"),
        size: dec(size),
        execution_plan: ExecutionPlan::DirectionalBuy(DirectionalBuy {
            token_id: U256::from_u64(token),
            side,
            price: dec(price),
            size: dec(size),
            condition_id: id(1),
        }),
    }
}

fn order(opp: &ArbitrageOpportunity) -> DirectionalBuy {
    match &opp.execution_plan {
        ExecutionPlan::DirectionalBuy(order) => *order,
        _ => panic!("Expected DirectionalBuy"),
    }
}

fn requirement(token: u64, limit: &str, size: &str) -> LiquidityRequirement {
    LiquidityRequirement {
        token_id: U256::from_u64(token),
        side: TradeSide::Buy,
        limit_price: dec(limit),
        size: dec(size),
    }
}

#[test]
fn each_report_has_its_cooldown() {
    let failed = |message: &str| ExecutionReport::Failed(message.to_string());
    let cases = vec![
        (ExecutionReport::Rejected, 10),
        (ExecutionReport::Done, 10),
        (ExecutionReport::NotFilled, 120),
        (failed("timeout"), 60),
        (failed("invalid lot size"), 600),
        (failed("the market does not exist"), 86_400),
    ];
    for (report, secs) in cases {
        let mut state = EngineState::new(NOW);
        state.note_report(id(1), StrategyType::CryptoAlpha, &report, NOW);
        let until = NOW + secs * SECOND;
        assert!(state.is_cooled_down(id(1), StrategyType::CryptoAlpha, until - 1));
        assert!(!state.is_cooled_down(id(1), StrategyType::CryptoAlpha, until));
        assert!(!state.is_cooled_down(id(2), StrategyType::CryptoAlpha, NOW));
        assert!(!state.is_cooled_down(id(1), StrategyType::CrossMarket, NOW));
        assert!(!state.is_paused(NOW));
    }
}

#[test]
fn a_lack_of_funds_pauses_everything() {
    for message in ["not enough balance", "allowance too low"] {
        let mut state = EngineState::new(NOW);
        state.note_report(
            id(1),
            StrategyType::CryptoAlpha,
            &ExecutionReport::Failed(message.to_string()),
            NOW,
        );
        assert!(state.is_paused(NOW + 300 * SECOND - 1));
        assert!(!state.is_paused(NOW + 300 * SECOND));
    }
}

#[test]
fn a_trade_is_looked_at_unless_paused_or_cooling() {
    let mut state = EngineState::new(NOW);
    let found = trade(10, TradeSide::Buy, "0.50", "100");
    assert_eq!(state.consider(&found, NOW), Consideration::Go);
    state.set_cooldown(found.condition_id, found.strategy_type, 60, NOW);
    assert_eq!(state.consider(&found, NOW + 60 * SECOND - 1), Consideration::Skip);
    assert_eq!(state.consider(&found, NOW + 60 * SECOND), Consideration::Go);
    state.note_report(
        id(9),
        StrategyType::CrossMarket,
        &ExecutionReport::Failed("allowance too low".to_string()),
        NOW,
    );
    assert_eq!(state.consider(&found, NOW), Consideration::Stop);
}

#[test]
fn a_trade_is_cut_down_to_what_the_books_hold() {
    let books = BookSet { books: vec![book(10, vec![], vec![("0.40", "30"), ("0.50", "20"), ("0.60", "50")])] };
    let reqs = vec![requirement(10, "0.50", "100")];
    let cut = validate_depth(trade(10, TradeSide::Buy, "0.50", "100"), &reqs, &books, dec("1")).unwrap();
    assert_eq!(cut.size, dec("50"));
    assert_eq!(order(&cut).size, dec("50"));
    assert_eq!(cut.estimated_profit, dec("4"));
    // what is left is too small
    assert!(validate_depth(trade(10, TradeSide::Buy, "0.50", "100"), &reqs, &books, dec("51")).is_none());
    // enough of it
    let reqs = vec![requirement(10, "0.50", "50")];
    let whole = validate_depth(trade(10, TradeSide::Buy, "0.50", "50"), &reqs, &books, dec("51")).unwrap();
    assert_eq!(whole.size, dec("50"));
    // none of it
    let reqs = vec![requirement(10, "0.30", "50")];
    assert!(validate_depth(trade(10, TradeSide::Buy, "0.30", "50"), &reqs, &books, dec("1")).is_none());
    // what is held is sold in any case
    let sale = validate_depth(trade(10, TradeSide::Sell, "0.30", "50"), &vec![], &books, dec("1"));
    assert_eq!(sale.unwrap().size, dec("50"));
}

#[test]
fn a_trade_that_is_turned_down_cools_down() {
    let books = BookSet { books: vec![] };
    let mut state = EngineState::new(NOW);
    let reqs = vec![requirement(10, "0.50", "100")];
    assert!(state
        .admit_by_depth(trade(10, TradeSide::Buy, "0.50", "100"), &reqs, &books, dec("1"), NOW)
        .is_none());
    assert!(state.is_cooled_down(id(1), StrategyType::CryptoAlpha, NOW + 60 * SECOND - 1));
    assert!(!state.is_cooled_down(id(1), StrategyType::CryptoAlpha, NOW + 60 * SECOND));
}

#[test]
fn the_budget_is_never_overspent() {
    let mut budget = dec("10");
    assert!(take_from_budget(&mut budget, false, dec("6")));
    assert_eq!(budget, dec("4"));
    assert!(!take_from_budget(&mut budget, false, dec("5")));
    assert_eq!(budget, dec("4"));
    // a sale costs nothing
    assert!(take_from_budget(&mut budget, true, dec("5")));
    assert_eq!(budget, dec("4"));
    let mut state = EngineState::new(NOW);
    assert!(!state.admit_by_budget(&trade(10, TradeSide::Buy, "0.5", "100"), dec("50"), &mut budget, NOW));
    assert!(state.admit_by_budget(&trade(10, TradeSide::Buy, "0.5", "8"), dec("4"), &mut budget, NOW));
    assert_eq!(budget, Decimal::zero());
}

#[test]
fn a_cycle_spends_no_more_than_its_capital() {
    let capital = dec("10.00");
    let mut budget = capital;
    let mut paid = Decimal::zero();
    for (is_exit, cost) in [(false, "3.10"), (false, "7.00"), (true, "50.00"), (false, "6.90"), (false, "0.01")] {
        let admitted = take_from_budget(&mut budget, is_exit, dec(cost));
        if admitted && !is_exit {
            paid = paid + dec(cost);
        }
        assert_eq!(budget + paid, capital);
    }
    assert_eq!(paid, dec("10.00"));
    assert_eq!(budget, Decimal::zero());
}

#[test]
fn markets_beyond_the_horizon_are_left_out() {
    let markets = vec![
        market(1, None),
        market(2, Some(NOW_UTC + 2 * DAY)),
        market(3, Some(NOW_UTC + 9 * DAY)),
        market(4, Some(NOW_UTC + 3 * DAY)),
        market(5, Some(NOW_UTC + 3 * DAY + 1)),
        market(6, Some(NOW_UTC - DAY)),
    ];
    let near = markets_ending_within(&markets, 3, NOW_UTC);
    let ids: Vec<B256> = near.iter().map(|m| m.condition_id).collect();
    assert_eq!(ids, vec![id(1), id(2), id(4), id(6)]);
}

#[test]
fn a_token_leads_to_its_market() {
    let markets = vec![market(1, None), market(2, None)];
    let map = build_token_to_market(&markets);
    assert_eq!(map.get(U256::from_u64(10)), Some(0));
    assert_eq!(map.get(U256::from_u64(21)), Some(1));
    assert_eq!(map.get(U256::from_u64(99)), None);
}

#[test]
fn scaling_rounds_sizes_to_hundredths() {
    let plan = ExecutionPlan::BuyAndMerge {
        sides: MarketSides {
            condition_id: id(1),
            yes_token_id: U256::from_u64(1),
            no_token_id: U256::from_u64(2),
            yes_price: dec("0.4"),
            no_price: dec("0.5"),
        },
        merge_amount: dec("10"),
    };
    match scale_execution_plan_size(plan, dec("0.3333")) {
        ExecutionPlan::BuyAndMerge { sides, merge_amount } => {
            assert_eq!(merge_amount, dec("3.33"));
            assert_eq!(sides.yes_price, dec("0.4"));
        }
        _ => panic!("Expected BuyAndMerge"),
    }
    let leg = NegRiskLeg {
        token_id: U256::from_u64(3),
        condition_id: id(1),
        outcome: Outcome::Yes,
        side: TradeSide::Buy,
        price: dec("0.2"),
        size: dec("8"),
    };
    let plan = ExecutionPlan::NegRiskArbitrage { neg_risk_market_id: id(9), legs: vec![leg], amount: dec("8") };
    match scale_execution_plan_size(plan, dec("0.5")) {
        ExecutionPlan::NegRiskArbitrage { legs, amount, .. } => {
            assert_eq!(legs[0].size, dec("4"));
            assert_eq!(amount, dec("4"));
        }
        _ => panic!("Expected NegRiskArbitrage"),
    }
}

#[test]
fn an_event_only_ever_cuts_a_trade() {
    let cut = scale_for_event(trade(10, TradeSide::Buy, "0.5", "100"), dec("0.5"));
    assert_eq!(cut.size, dec("50"));
    assert_eq!(cut.estimated_profit, dec("4"));
    assert_eq!(order(&cut).size, dec("50"));
    let same = scale_for_event(trade(10, TradeSide::Buy, "0.5", "100"), dec("1.5"));
    assert_eq!(same.size, dec("100"));
}

fn position(token: u64, size: &str, avg_cost: &str) -> StopLossPosition {
    StopLossPosition {
        token_id: U256::from_u64(token),
        size: dec(size),
        avg_cost: dec(avg_cost),
        strategy_type: Some(StrategyType::CryptoAlpha),
        condition_id: Some(id(1)),
    }
}

fn stop(state: &mut EngineState, books: Vec<OrderBook>, markets: Vec<MarketInfo>, avg_cost: &str) -> Option<ArbitrageOpportunity> {
    state.scan_stop_loss(
        position(10, "40", avg_cost),
        &BookSet { books },
        &markets,
        NOW,
        NOW_UTC,
        STAMP,
    )
}

#[test]
fn a_position_that_lost_half_is_sold() {
    let mut state = EngineState::new(NOW);
    let books = vec![book(10, vec![("0.20", "25")], vec![("0.22", "5")]), book(11, vec![("0.77", "5")], vec![])];
    let sale = stop(&mut state, books, vec![market(1, None)], "0.50").unwrap();
    assert_eq!(sale.question, "[STOP-LOSS] Force exit token 10");
    assert_eq!(sale.spread, dec("0.30"));
    // the bids take 25 of the 40
    assert_eq!(sale.size, dec("25"));
    assert_eq!(sale.estimated_profit, dec("-7.5"));
    assert_eq!(order(&sale).side, TradeSide::Sell);
    assert_eq!(order(&sale).price, dec("0.20"));
    state.note_forced_sale(&sale, &ExecutionReport::Done, NOW);
    assert!(state.is_cooled_down(id(1), StrategyType::CryptoAlpha, NOW + 300 * SECOND - 1));
}

#[test]
fn a_position_that_lost_exactly_half_is_sold() {
    let mut state = EngineState::new(NOW);
    let books = BookSet {
        books: vec![book(10, vec![("0.40", "500")], vec![("0.42", "5")]), book(11, vec![("0.58", "5")], vec![])],
    };
    let markets = vec![market(1, Some(NOW_UTC + DAY))];
    let sale = state.scan_stop_loss(position(10, "10", "0.80"), &books, &markets, NOW, NOW_UTC, STAMP).unwrap();
    assert_eq!(order(&sale).side, TradeSide::Sell);
    assert_eq!(order(&sale).price, dec("0.40"));
    assert_eq!(order(&sale).size, dec("10"));
    assert_eq!(sale.estimated_profit, dec("-4"));
}

#[test]
fn a_token_is_named_by_its_whole_number() {
    let mut state = EngineState::new(NOW);
    let token_id = U256 { high: 1, low: 0 };
    let held = StopLossPosition { token_id, ..position(10, "40", "0.50") };
    let books = BookSet {
        books: vec![OrderBook {
            token_id,
            bids: vec![PriceLevel { price: dec("0.20"), size: dec("40") }],
            asks: vec![],
        }],
    };
    let sale = state.scan_stop_loss(held, &books, &vec![], NOW, NOW_UTC, STAMP).unwrap();
    assert_eq!(
        sale.question,
        "[STOP-LOSS] Force exit token 340282366920938463463374607431768211456"
    );
}

#[test]
fn positions_are_kept_where_the_books_say_otherwise() {
    // not quite half of the cost is lost
    let mut state = EngineState::new(NOW);
    let books = vec![book(10, vec![("0.251", "25")], vec![])];
    assert!(stop(&mut state, books, vec![], "0.50").is_none());
    // the ask is still at what it cost
    let books = vec![book(10, vec![("0.20", "25")], vec![("0.50", "5")])];
    assert!(stop(&mut state, books, vec![], "0.50").is_none());
    assert!(!state.is_cooled_down(id(1), StrategyType::CryptoAlpha, NOW));
    // the other side is just as low
    let books = vec![book(10, vec![("0.20", "25")], vec![]), book(11, vec![("0.30", "5")], vec![])];
    assert!(stop(&mut state, books, vec![market(1, None)], "0.50").is_none());
    assert!(state.is_cooled_down(id(1), StrategyType::CryptoAlpha, NOW + 600 * SECOND - 1));
    assert!(!state.is_cooled_down(id(1), StrategyType::CryptoAlpha, NOW + 600 * SECOND));
    // the market has ended and the position is still worth something
    let mut state = EngineState::new(NOW);
    let books = vec![book(10, vec![("0.20", "25")], vec![])];
    assert!(stop(&mut state, books, vec![market(1, Some(NOW_UTC))], "0.50").is_none());
    assert!(state.is_cooled_down(id(1), StrategyType::CryptoAlpha, NOW + 3_600 * SECOND - 1));
    // a market that ends a moment later has not ended
    let mut state = EngineState::new(NOW);
    let books = vec![book(10, vec![("0.20", "25")], vec![])];
    assert!(stop(&mut state, books, vec![market(1, Some(NOW_UTC + 1))], "0.50").is_some());
    // what is left is dust
    let mut state = EngineState::new(NOW);
    let books = vec![book(10, vec![("0.001", "25")], vec![])];
    assert!(stop(&mut state, books, vec![], "0.50").is_none());
    assert!(state.is_cooled_down(id(1), StrategyType::CryptoAlpha, NOW + 3_600 * SECOND - 1));
}
