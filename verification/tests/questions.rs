use pa_strategy::crypto_alpha::assets::find_asset;
use pa_strategy::crypto_alpha::labels::{CryptoDirectionBucket, PriceDirection};
use pa_strategy::crypto_alpha::price::{extract_all_prices, extract_price, Price};
use pa_strategy::crypto_alpha::question::{
    infer_crypto_direction_label, parse_crypto_event_title, parse_crypto_outcome_range, parse_crypto_question,
    range_direction_bucket, CryptoPriceRange,
};
use pa_strategy::decimal::Decimal;
use pa_strategy::text::lowercase_chars;
use pa_strategy::types::{BinaryEventGroup, MarketInfo, B256};

fn value(price: &Price) -> f64 {
    let text: String = price.number.iter().collect();
    text.parse::<f64>().unwrap() * 10f64.powi(price.power as i32)
}

fn close(price: &Price, expected: f64) -> bool {
    (value(price) - expected).abs() < 0.01
}

#[test]
fn test_parse_bitcoin_above() {
    let q = parse_crypto_question("Will Bitcoin exceed $100,000 by end of March?", None).unwrap();
    assert_eq!(q.asset.name, "Bitcoin");
    assert!(close(&q.threshold, 100_000.0));
    assert_eq!(q.direction, PriceDirection::Above);
}

#[test]
fn test_parse_ethereum_below() {
    let q = parse_crypto_question("Will ETH fall below $2000 on Feb 20?", Some(739_000)).unwrap();
    assert_eq!(q.asset.name, "Ethereum");
    assert!(close(&q.threshold, 2000.0));
    assert_eq!(q.direction, PriceDirection::Below);
    assert_eq!(q.target_day, Some(739_000));
}

#[test]
fn test_parse_with_comma_price() {
    let price = extract_price("Will BTC reach $100,000?").unwrap();
    assert!(close(&price, 100_000.0));
}

#[test]
fn test_parse_with_k_suffix() {
    let price = extract_price("Will Bitcoin hit $100k?").unwrap();
    assert!(close(&price, 100_000.0));
}

#[test]
fn test_parse_non_crypto() {
    assert!(parse_crypto_question("Will inflation exceed 5% this year?", None).is_none());
}

#[test]
fn test_unknown_crypto() {
    assert!(parse_crypto_question("Will FooToken reach $10?", None).is_none());
}

#[test]
fn test_parse_crypto_event_title_bitcoin() {
    let asset = parse_crypto_event_title("Bitcoin price at 12pm ET on March 1").unwrap();
    assert_eq!(asset.name, "Bitcoin");
}

#[test]
fn test_parse_crypto_event_title_eth() {
    let asset = parse_crypto_event_title("Ethereum price on February 28?").unwrap();
    assert_eq!(asset.name, "Ethereum");
}

#[test]
fn test_parse_crypto_event_title_non_crypto() {
    assert!(parse_crypto_event_title("US GDP Q1 2026").is_none());
}

#[test]
fn test_parse_crypto_outcome_range_above() {
    match parse_crypto_outcome_range("$100,000 or above").unwrap() {
        CryptoPriceRange::AtOrAbove(p) => assert!(close(&p, 100_000.0), "got {:?}", p),
        other => panic!("Expected AtOrAbove, got {:?}", other),
    }
}

#[test]
fn test_parse_crypto_outcome_range_below() {
    match parse_crypto_outcome_range("$89,999 or below").unwrap() {
        CryptoPriceRange::AtOrBelow(p) => assert!(close(&p, 89_999.0), "got {:?}", p),
        other => panic!("Expected AtOrBelow, got {:?}", other),
    }
}

#[test]
fn test_parse_crypto_outcome_range_interval() {
    match parse_crypto_outcome_range("$90,000 - $94,999").unwrap() {
        CryptoPriceRange::Range(lo, hi) => {
            assert!(close(&lo, 90_000.0), "lo={:?}", lo);
            assert!(close(&hi, 94_999.0), "hi={:?}", hi);
        }
        other => panic!("Expected Range, got {:?}", other),
    }
}

#[test]
fn test_find_asset_from_reach_question() {
    let q = parse_crypto_question("Will Bitcoin reach $200,000 by December 31, 2026?", None).unwrap();
    assert_eq!(q.asset.name, "Bitcoin");
    assert!(close(&q.threshold, 200_000.0));
    assert_eq!(q.direction, PriceDirection::Above);
}

#[test]
fn test_find_asset_from_dip_question() {
    let q = parse_crypto_question("Will Bitcoin dip to $85,000 by December 31, 2026?", None).unwrap();
    assert_eq!(q.asset.name, "Bitcoin");
    assert!(close(&q.threshold, 85_000.0));
    assert_eq!(q.direction, PriceDirection::Below);
}

#[test]
fn test_binary_event_group_type() {
    let market1 = MarketInfo {
        condition_id: B256::zero(),
        question: "Will Bitcoin reach $200,000?".to_string(),
        neg_risk: false,
        tokens: vec![],
        fee_rate_bps: 200,
        active: true,
        liquidity: Decimal::new(1000, 0),
        event_title: Some("What price will Bitcoin hit in 2026?".to_string()),
        end_date: None,
        rewards_min_size: None,
        rewards_max_spread: None,
        rewards_daily_rate: None,
    };
    let market2 = MarketInfo { question: "Will Bitcoin reach $150,000?".to_string(), ..market1.clone() };
    let group = BinaryEventGroup {
        title: "What price will Bitcoin hit in 2026?".to_string(),
        markets: vec![market1, market2],
    };

    assert_eq!(group.markets.len(), 2);
    assert!(find_asset(&group.title).is_some());
    assert_eq!(find_asset(&group.title).unwrap().name, "Bitcoin");
}

#[test]
fn prices_keep_the_digits_that_were_written() {
    let price = extract_price("Will XRP reach $2.50?").unwrap();
    let digits: String = price.number.iter().collect();
    assert_eq!(digits, "2.50");
    assert_eq!(price.power, 0);
    assert_eq!(extract_price("Will Bitcoin hit $1.5m?").unwrap().power, 6);
    assert!(extract_price("Will Bitcoin rise?").is_none());
}

#[test]
fn a_number_with_a_suffix_is_no_year() {
    let q = parse_crypto_question("Will ETH hit 2k?", None).unwrap();
    assert_eq!(q.asset.name, "Ethereum");
    assert!(close(&q.threshold, 2_000.0));
    assert!(close(&extract_price("Will ETH hit 1.95k in 2026?").unwrap(), 1_950.0));
    let prices = extract_all_prices("between 2k and 2.05k in 2026");
    assert_eq!(prices.len(), 2);
    assert!(close(&prices[0], 2_000.0));
    assert!(close(&prices[1], 2_050.0));
    // without one it is, unless it has a part behind the point or is out of range
    for year in ["1900", "2026", "2099", "2026.0", "2,026"] {
        assert!(extract_price(&format!("Will ETH hit {year}")).is_none());
    }
    for price in ["1899", "2100", "2026.5"] {
        assert!(extract_price(&format!("Will ETH hit {price}")).is_some());
    }
    // behind a dollar sign every number is a price
    assert!(close(&extract_price("Will ETH hit $2026?").unwrap(), 2_026.0));
}

#[test]
fn a_number_is_a_year_where_it_is_read_as_one() {
    let numbers = [
        "1999.99999999999999999",
        "1999.99999999999",
        "1899.99999999999999999",
        "1899.9999999999",
        "2099.00000000000000001",
        "2099.0000000001",
        // half of the step from a floating-point number to the next, and a little more or less
        "2000.0000000000001136868377216160297393798828125",
        "2000.00000000000011368683772161602973937988281250000000001",
        "2000.0000000000001136868377216160297393798828124",
        "1999.9999999999998863131622783839702606201171875",
        "1999.9999999999998863131622783839702606201171874",
        "2048.000000000000227373675443232059478759765625",
        "2048.000000000000227373675443232059478759765626",
        "2047.9999999999998863131622783839702606201171875",
        "2047.9999999999998863131622783839702606201171874",
        "2050.000000000000227373675443232059478759765625",
        "2050.0000000000002273736754432320594787597656251",
        "2049.999999999999772626324556767940521240234375",
        "2049.9999999999997726263245567679405212402343749",
        "0002026",
        "0002026.000",
        "202.6e1",
        "20260e-1",
        "2.026e3",
        "2e3",
        "19e2",
        "0.19e4",
        "2e4",
        "2e2",
        "2e-3",
        "2026e99999999999999999999999999999999999999",
        "2026e-99999999999999999999999999999999999999",
        "0e99999999999999999999999999999999999999999",
        "0",
        "000",
        ".2026e4",
        "inf",
        "-2026",
        "+2026",
    ];
    let mut years = 0;
    for number in numbers {
        let read: f64 = number.parse().unwrap();
        let is_year = (1900.0..=2099.0).contains(&read) && read == read.floor();
        let found = extract_all_prices(&format!("hit {number}"));
        // a sign is no part of a word's number
        let is_year = is_year || number == "-2026";
        assert_eq!(found.is_empty(), is_year, "{number}");
        years += usize::from(is_year);
    }
    assert_eq!(years, 21);
}

#[test]
fn a_title_that_asks_what_an_asset_will_be_is_about_its_price() {
    assert_eq!(parse_crypto_event_title("What will ETH be on February 28?").unwrap().name, "Ethereum");
    assert_eq!(parse_crypto_event_title("Bitcoin price at 12pm ET on March 1").unwrap().name, "Bitcoin");
    assert!(parse_crypto_event_title("What will ETH do on February 28?").is_none());
    assert!(parse_crypto_event_title("Will ETH be banned?").is_none());
    assert!(parse_crypto_event_title("What will GDP be?").is_none());
}

#[test]
fn every_price_of_a_text_is_found() {
    let prices = extract_all_prices("between $90k and $95,500");
    assert_eq!(prices.len(), 2);
    assert!(close(&prices[0], 90_000.0));
    assert!(close(&prices[1], 95_500.0));
}

#[test]
fn the_tokens_of_a_range_stand_for_opposite_directions() {
    let above = parse_crypto_outcome_range("$100,000 or above").unwrap();
    let below = parse_crypto_outcome_range("$89,999 or below").unwrap();
    let between = parse_crypto_outcome_range("$90,000 - $94,999").unwrap();
    assert_eq!(range_direction_bucket(&above, true), CryptoDirectionBucket::Up);
    assert_eq!(range_direction_bucket(&above, false), CryptoDirectionBucket::Down);
    assert_eq!(range_direction_bucket(&below, true), CryptoDirectionBucket::Down);
    assert_eq!(range_direction_bucket(&below, false), CryptoDirectionBucket::Up);
    assert_eq!(range_direction_bucket(&between, true), CryptoDirectionBucket::InsideRange);
    assert_eq!(range_direction_bucket(&between, false), CryptoDirectionBucket::OutsideRange);
}

#[test]
fn a_direction_label_follows_the_outcome() {
    let question = "Will Bitcoin exceed $100,000 by end of March?";
    assert_eq!(infer_crypto_direction_label(question, Some("YES")), Some("up"));
    assert_eq!(infer_crypto_direction_label(question, Some("NO")), Some("down"));
    assert_eq!(infer_crypto_direction_label("Will it rain?", Some("YES")), None);
    assert_eq!(infer_crypto_direction_label(question, Some("Yes")), None);
    assert_eq!(infer_crypto_direction_label(question, None), None);
}

#[test]
fn names_of_assets_are_found_in_any_case() {
    assert_eq!(find_asset("will BITCOIN rally?").unwrap().name, "Bitcoin");
    assert_eq!(find_asset("Will sol reach $300?").unwrap().name, "Solana");
}

#[test]
fn capitals_are_read_beside_other_scripts() {
    let q = parse_crypto_question("Will BITCOIN HIT $100K — or not?", None).unwrap();
    assert_eq!(q.asset.name, "Bitcoin");
    assert!(close(&q.threshold, 100_000.0));
    let chars = lowercase_chars("ÀB—c");
    assert_eq!(chars, vec!['à', 'b', '—', 'c']);
    assert_eq!(lowercase_chars("Bitcoin @ [Z]"), vec!['b', 'i', 't', 'c', 'o', 'i', 'n', ' ', '@', ' ', '[', 'z', ']']);
}
