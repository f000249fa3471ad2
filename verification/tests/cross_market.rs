use pa_strategy::arbitrage::{CrossMarketCorrelation, ExecutionPlan};
use pa_strategy::cross_market::{
    compute_pair_id, detect_cross_market_pairs, ordered_bytes, CrossMarketArbitrage, CrossMarketPair, PairProfits,
};
use pa_strategy::decimal::Decimal;
use pa_strategy::similarity::word_similarity;
use pa_strategy::types::{
    BookSet, MarketInfo, OrderBook, Outcome, PriceLevel, Stamp, StrategyType, TokenInfo, B256, U256,
};

fn dec(text: &str) -> Decimal {
    let digits: String = text.chars().filter(|c| *c != '.').collect();
    let scale = text.split('.').nth(1).map_or(0, |part| part.len());
    Decimal::from_parts(digits.parse::<i128>().unwrap(), scale as u32).unwrap()
}

fn id(n: u8) -> B256 {
    let mut bytes = [0u8; 32];
    bytes[31] = n;
    B256 { bytes }
}

fn make_market(cond: B256, q: &str, yes_id: u64, no_id: u64) -> MarketInfo {
    MarketInfo {
        condition_id: cond,
        question: q.to_string(),
        neg_risk: false,
        tokens: vec![
            TokenInfo {
                token_id: U256::from_u64(yes_id),
                outcome: Outcome::Yes,
                complement_id: U256::from_u64(no_id),
            },
            TokenInfo {
                token_id: U256::from_u64(no_id),
                outcome: Outcome::No,
                complement_id: U256::from_u64(yes_id),
            },
        ],
        fee_rate_bps: 200,
        active: true,
        liquidity: dec("1000"),
        event_title: None,
        end_date: None,
        rewards_min_size: None,
        rewards_max_spread: None,
        rewards_daily_rate: None,
    }
}

fn make_book(token_id: u64, best_bid: &str, best_ask: &str) -> OrderBook {
    OrderBook {
        token_id: U256::from_u64(token_id),
        bids: vec![PriceLevel { price: dec(best_bid), size: dec("500") }],
        asks: vec![PriceLevel { price: dec(best_ask), size: dec("500") }],
    }
}

fn pair(correlation: CrossMarketCorrelation) -> CrossMarketPair {
    CrossMarketPair {
        pair_id: compute_pair_id(id(1), id(2)),
        market_a: make_market(id(1), "Market A", 10, 11),
        market_b: make_market(id(2), "Market B", 20, 21),
        expected_sum: Decimal::one(),
        correlation,
    }
}

fn strategy(correlation: CrossMarketCorrelation) -> CrossMarketArbitrage {
    CrossMarketArbitrage::new(100, dec("1000"), dec("0.01"), dec("0.01"), vec![pair(correlation)])
}

const STAMP: Stamp = Stamp { id: 7, detected_at: 1_700_000_000 };

#[test]
fn test_word_similarity() {
    let sim = word_similarity("Will Biden win the election?", "Will Biden win the primary?");
    assert!(sim > dec("0.6"));

    let sim = word_similarity("Will it rain?", "BTC price above 100k?");
    assert!(sim < dec("0.3"));
}

#[test]
fn similarity_is_the_share_of_common_words() {
    // four of six words
    let sim = word_similarity("Will Biden win the election?", "Will Biden win the primary?");
    assert_eq!(sim, dec("4") / dec("6"));
    assert_eq!(word_similarity("a b", "b a a"), Decimal::one());
    assert_eq!(word_similarity("", ""), Decimal::zero());
    // punctuation at the ends of a word does not count
    assert_eq!(word_similarity("(rain)", "rain?!"), Decimal::one());
    // letters of any script do
    assert_eq!(word_similarity("\u{e9}t\u{e9}?", "\u{e9}t\u{e9}"), Decimal::one());
}

#[test]
fn test_detect_pair_buy_underpriced() {
    let books = BookSet {
        books: vec![
            make_book(10, "0.38", "0.40"),
            make_book(11, "0.58", "0.60"),
            make_book(20, "0.43", "0.45"),
            make_book(21, "0.53", "0.55"),
        ],
    };
    let profits = vec![PairProfits { buying: dec("10"), selling: dec("0") }];
    let opps = strategy(CrossMarketCorrelation::ComplementaryYes).scan(
        &books,
        Decimal::max_value(),
        &profits,
        &vec![STAMP],
    );
    assert_eq!(opps.len(), 1);
    assert_eq!(opps[0].strategy_type, StrategyType::CrossMarket);
    assert!(opps[0].estimated_profit > Decimal::zero());
    // one less 0.40 and 0.45, with 500 on offer and room for 1000 / 0.85
    assert_eq!(opps[0].spread, dec("0.15"));
    assert_eq!(opps[0].size, dec("500"));
    match &opps[0].execution_plan {
        ExecutionPlan::CrossMarket { pair_id, leg_a, leg_b, amount } => {
            assert_eq!(*pair_id, compute_pair_id(id(2), id(1)));
            assert_eq!(leg_a.yes_token_id, U256::from_u64(10));
            assert_eq!(leg_b.yes_token_id, U256::from_u64(20));
            assert_eq!(*amount, dec("500"));
        }
        _ => panic!("Expected CrossMarket"),
    }
}

#[test]
fn a_pair_that_earns_too_little_is_left_alone() {
    let books = BookSet {
        books: vec![
            make_book(10, "0.38", "0.40"),
            make_book(11, "0.58", "0.60"),
            make_book(20, "0.43", "0.45"),
            make_book(21, "0.53", "0.55"),
        ],
    };
    let profits = vec![PairProfits { buying: dec("0.009"), selling: dec("10") }];
    let opps = strategy(CrossMarketCorrelation::ComplementaryYes).scan(
        &books,
        Decimal::max_value(),
        &profits,
        &vec![STAMP],
    );
    assert!(opps.is_empty());
}

#[test]
fn test_detect_no_opportunity() {
    let books = BookSet {
        books: vec![
            make_book(10, "0.48", "0.50"),
            make_book(11, "0.48", "0.50"),
            make_book(20, "0.48", "0.52"),
            make_book(21, "0.48", "0.52"),
        ],
    };
    let profits = vec![PairProfits { buying: dec("10"), selling: dec("10") }];
    let opps = strategy(CrossMarketCorrelation::ComplementaryYes).scan(
        &books,
        Decimal::max_value(),
        &profits,
        &vec![STAMP],
    );
    assert!(opps.is_empty());
}

#[test]
fn overpriced_sides_are_sold() {
    let books = BookSet {
        books: vec![
            make_book(10, "0.60", "0.62"),
            make_book(11, "0.38", "0.40"),
            make_book(20, "0.55", "0.57"),
            make_book(21, "0.43", "0.45"),
        ],
    };
    let profits = vec![PairProfits { buying: dec("0"), selling: dec("10") }];
    let opps = strategy(CrossMarketCorrelation::ComplementaryYes).scan(
        &books,
        Decimal::max_value(),
        &profits,
        &vec![STAMP],
    );
    assert_eq!(opps.len(), 1);
    assert_eq!(opps[0].spread, dec("0.15"));
    assert_eq!(opps[0].estimated_profit, dec("10"));
}

#[test]
fn test_detect_cross_market_pairs_heuristic() {
    let markets = vec![
        make_market(id(1), "Will Biden win the election in November?", 10, 11),
        make_market(id(2), "Will Biden win the election in December?", 20, 21),
        make_market(id(3), "BTC price above 100k?", 30, 31),
    ];

    let pairs = detect_cross_market_pairs(&markets);
    assert_eq!(pairs.len(), 1);
    assert_eq!(pairs[0].correlation, CrossMarketCorrelation::ComplementaryYes);
    assert_eq!(pairs[0].market_a.condition_id, id(1));
    assert_eq!(pairs[0].market_b.condition_id, id(2));
    assert_eq!(pairs[0].expected_sum, Decimal::one());
}

#[test]
fn no_market_is_in_two_pairs() {
    let markets = vec![
        make_market(id(1), "Will Biden win the election in November?", 10, 11),
        make_market(id(2), "Will Biden win the election in December?", 20, 21),
        make_market(id(3), "Will Biden win the election in January?", 30, 31),
    ];
    let pairs = detect_cross_market_pairs(&markets);
    assert_eq!(pairs.len(), 1);
}

#[test]
fn no_two_markets_that_make_a_pair_are_left() {
    let mut markets = Vec::new();
    for (n, month) in ["May", "June", "July", "August", "October"].iter().enumerate() {
        let question = format!("Will Biden win the election in {month}?");
        let token = 10 * (n as u64 + 1);
        markets.push(make_market(id(n as u8 + 1), &question, token, token + 1));
    }
    markets.push(make_market(id(9), "Will it rain?", 90, 91));
    let pairs = detect_cross_market_pairs(&markets);
    let ends: Vec<(B256, B256)> =
        pairs.iter().map(|p| (p.market_a.condition_id, p.market_b.condition_id)).collect();
    // of the five alike one is left alone, and the other one is like none
    assert_eq!(ends, vec![(id(1), id(2)), (id(3), id(4))]);
}

#[test]
fn a_pair_is_named_by_the_hash_of_both_conditions() {
    assert_eq!(compute_pair_id(id(1), id(2)), compute_pair_id(id(2), id(1)));
    assert!(compute_pair_id(id(1), id(2)) != compute_pair_id(id(1), id(3)));
    let mut data = [0u8; 64];
    data[31] = 1;
    data[63] = 2;
    let expected = alloy::primitives::keccak256(data);
    assert_eq!(compute_pair_id(id(2), id(1)).bytes, expected.0);
    assert!(compute_pair_id(id(1), id(2)).bytes[..] != data[..32]);
}

#[test]
fn inverse_markets_are_bought_across() {
    let books = BookSet {
        books: vec![
            make_book(10, "0.38", "0.40"),
            make_book(11, "0.58", "0.60"),
            make_book(20, "0.53", "0.55"),
            make_book(21, "0.43", "0.45"),
        ],
    };
    let profits = vec![PairProfits { buying: dec("5"), selling: dec("0") }];
    let opps = strategy(CrossMarketCorrelation::InverseYesNo).scan(
        &books,
        Decimal::max_value(),
        &profits,
        &vec![STAMP],
    );
    assert_eq!(opps.len(), 1);
    // YES of the first at 0.40 and NO of the second at 0.45
    assert_eq!(opps[0].spread, dec("0.15"));
}

#[test]
fn letters_of_any_script_belong_to_words() {
    assert_eq!(word_similarity("«été»", "été?"), Decimal::one());
    assert_eq!(word_similarity("été", "t"), Decimal::zero());
}

#[test]
fn the_bytes_of_a_pair_come_in_order() {
    let bytes = ordered_bytes(id(2), id(1));
    assert_eq!(bytes, ordered_bytes(id(1), id(2)));
    assert_eq!(bytes.len(), 64);
    assert_eq!((bytes[31], bytes[63]), (1, 2));
}
