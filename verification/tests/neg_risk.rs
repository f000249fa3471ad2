use pa_strategy::arbitrage::ExecutionPlan;
use pa_strategy::decimal::Decimal;
use pa_strategy::detector::ArbitrageDetector;
use pa_strategy::neg_risk::NegRiskArbitrage;
use pa_strategy::types::{
    BookSet, MarketInfo, NegRiskEvent, OrderBook, Outcome, PriceLevel, Stamp, StrategyType, TokenInfo, B256, U256,
};

fn dec(text: &str) -> Decimal {
    let digits: String = text.chars().filter(|c| *c != '.').collect();
    let scale = text.split('.').nth(1).map_or(0, |part| part.len());
    Decimal::from_parts(digits.parse::<i128>().unwrap(), scale as u32).unwrap()
}

const STAMP: Stamp = Stamp { id: 3, detected_at: 0 };

fn id(n: u8) -> B256 {
    B256 { bytes: [n; 32] }
}

fn market(n: u64) -> MarketInfo {
    MarketInfo {
        condition_id: id(n as u8),
        question: format!("Outcome {}", n),
        neg_risk: true,
        tokens: vec![
            TokenInfo {
                token_id: U256::from_u64(n * 10),
                outcome: Outcome::Yes,
                complement_id: U256::from_u64(n * 10 + 1),
            },
            TokenInfo {
                token_id: U256::from_u64(n * 10 + 1),
                outcome: Outcome::No,
                complement_id: U256::from_u64(n * 10),
            },
        ],
        fee_rate_bps: 200,
        active: true,
        liquidity: dec("1000"),
        event_title: None,
        end_date: None,
        rewards_min_size: None,
        rewards_max_spread: None,
        rewards_daily_rate: None,
    }
}

fn book(token: u64, bid: &str, ask: &str, size: &str) -> OrderBook {
    OrderBook {
        token_id: U256::from_u64(token),
        bids: vec![PriceLevel { price: dec(bid), size: dec(size) }],
        asks: vec![PriceLevel { price: dec(ask), size: dec(size) }],
    }
}

fn event(n: u64) -> NegRiskEvent {
    NegRiskEvent {
        neg_risk_market_id: id(99),
        title: "Who?".to_string(),
        markets: (1..=n).map(market).collect(),
        fee_rate_bps: 200,
    }
}

fn strategy(min_spread_bps: u32, events: Vec<NegRiskEvent>) -> NegRiskArbitrage {
    NegRiskArbitrage::new(min_spread_bps, dec("100"), dec("1"), dec("0.01"), events)
}

fn cheap_books() -> BookSet {
    BookSet {
        books: vec![book(10, "0.1", "0.20", "300"), book(20, "0.2", "0.30", "150"), book(30, "0.3", "0.40", "500")],
    }
}

#[test]
fn every_outcome_is_bought_when_they_cost_less_than_one() {
    let found = strategy(500, vec![event(3)]).scan(&cheap_books(), &vec![dec("2")], &vec![STAMP]);
    assert_eq!(found.len(), 1);
    assert_eq!(found[0].strategy_type, StrategyType::NegRiskConvert);
    assert_eq!(found[0].question, "NegRisk event (3 outcomes)");
    assert_eq!(found[0].condition_id, id(99));
    assert_eq!(found[0].spread, dec("0.1"));
    // 100 / 0.9 is less than the 150 on offer
    assert_eq!(found[0].size, dec("100") / dec("0.9"));
    match &found[0].execution_plan {
        ExecutionPlan::NegRiskArbitrage { neg_risk_market_id, legs, amount } => {
            assert_eq!(*neg_risk_market_id, id(99));
            assert_eq!(*amount, found[0].size);
            assert_eq!(legs.len(), 3);
            for (i, leg) in legs.iter().enumerate() {
                assert_eq!(leg.token_id, U256::from_u64(10 * (i as u64 + 1)));
                assert_eq!(leg.size, found[0].size);
            }
            assert_eq!(legs[1].price, dec("0.30"));
        }
        _ => panic!("Expected NegRiskArbitrage"),
    }
}

#[test]
fn the_spread_and_the_profit_have_to_be_large_enough() {
    // a spread of exactly one thousand basis points
    let events = || vec![event(3)];
    assert_eq!(strategy(1000, events()).scan(&cheap_books(), &vec![dec("1")], &vec![STAMP]).len(), 1);
    assert!(strategy(1001, events()).scan(&cheap_books(), &vec![dec("1")], &vec![STAMP]).is_empty());
    assert!(strategy(1000, events()).scan(&cheap_books(), &vec![dec("0.99")], &vec![STAMP]).is_empty());
}

#[test]
fn an_event_with_a_gap_is_left_alone() {
    let strategy = strategy(0, vec![]);
    assert!(strategy.look_at_event(&event(1), &cheap_books()).is_none());
    // no book for the fourth outcome
    assert!(strategy.look_at_event(&event(4), &cheap_books()).is_none());
    let mut inactive = event(3);
    inactive.markets[2].active = false;
    assert!(strategy.look_at_event(&inactive, &cheap_books()).is_none());
    let mut books = cheap_books();
    books.books[0].asks = vec![PriceLevel { price: dec("0.30"), size: dec("5") }];
    // one in all
    assert!(strategy.look_at_event(&event(3), &books).is_none());
    let offer = strategy.look_at_event(&event(3), &cheap_books()).unwrap();
    assert_eq!(offer.total, dec("0.9"));
}

#[test]
fn the_count_of_outcomes_is_written_out() {
    let mut books = BookSet { books: vec![] };
    for n in 1..=12u64 {
        books.books.push(book(n * 10, "0.01", "0.05", "10"));
    }
    let found = strategy(0, vec![event(12)]).scan(&books, &vec![dec("2")], &vec![STAMP]);
    assert_eq!(found[0].question, "NegRisk event (12 outcomes)");
    assert_eq!(found[0].size, dec("10"));
}

#[test]
fn a_quick_check_sees_both_sides() {
    let detector = |yes: (&str, &str), no: (&str, &str)| {
        ArbitrageDetector::new(BookSet { books: vec![book(10, yes.0, yes.1, "5"), book(11, no.0, no.1, "5")] })
    };
    // 0.45 + 0.53: two hundred basis points below one
    assert!(detector(("0.40", "0.45"), ("0.50", "0.53")).quick_check_yesno(&market(1), 200));
    assert!(!detector(("0.40", "0.45"), ("0.50", "0.53")).quick_check_yesno(&market(1), 201));
    // 0.55 + 0.47: two hundred above
    assert!(detector(("0.55", "0.60"), ("0.47", "0.50")).quick_check_yesno(&market(1), 200));
    assert!(!detector(("0.55", "0.60"), ("0.47", "0.50")).quick_check_yesno(&market(1), 201));
    assert!(!detector(("0.49", "0.51"), ("0.49", "0.51")).quick_check_yesno(&market(1), 1));
    let mut odd = market(1);
    odd.tokens.pop();
    assert!(!detector(("0.10", "0.11"), ("0.10", "0.11")).quick_check_yesno(&odd, 1));
    let alone = ArbitrageDetector::new(BookSet { books: vec![book(10, "0.1", "0.1", "5")] });
    assert!(!alone.quick_check_yesno(&market(1), 0));
}
