use pa_strategy::decimal::Decimal;
use pa_strategy::liquidity_rewards::config::{effective_market_config, LiquidityRewardsConfig, LrMarketOverride};
use pa_strategy::liquidity_rewards::cooldown::is_order_on_cooldown;
use pa_strategy::liquidity_rewards::quoting::{
    balance_aware_size, compute_depth_quotes, compute_quotes, should_cancel_depth_order,
};
use pa_strategy::liquidity_rewards::reconcile::{reconcile_desired_vs_existing, DesiredOrder};
use pa_strategy::liquidity_rewards::selection::{
    select_reward_markets, select_reward_markets_hybrid, select_reward_markets_with_clob_data, ClobRewardData,
};
use pa_strategy::types::{MarketInfo, OrderBook, Outcome, PriceLevel, TokenInfo, B256, U256};

fn dec(text: &str) -> Decimal {
    let digits: String = text.chars().filter(|c| *c != '.').collect();
    let scale = text.split('.').nth(1).map_or(0, |part| part.len());
    Decimal::from_parts(digits.parse::<i128>().unwrap(), scale as u32).unwrap()
}

fn id(n: u64) -> B256 {
    let mut bytes = [0u8; 32];
    bytes[24..].copy_from_slice(&n.to_be_bytes());
    B256 { bytes }
}

fn make_reward_market(
    condition_id: u64,
    daily_rate: Option<Decimal>,
    liquidity: Decimal,
    min_size: Option<Decimal>,
    max_spread: Option<Decimal>,
) -> MarketInfo {
    MarketInfo {
        condition_id: id(condition_id),
        question: format!("Market {}", condition_id),
        neg_risk: false,
        tokens: vec![
            TokenInfo {
                token_id: U256::from_u64(condition_id * 10 + 1),
                outcome: Outcome::Yes,
                complement_id: U256::from_u64(condition_id * 10 + 2),
            },
            TokenInfo {
                token_id: U256::from_u64(condition_id * 10 + 2),
                outcome: Outcome::No,
                complement_id: U256::from_u64(condition_id * 10 + 1),
            },
        ],
        fee_rate_bps: 200,
        active: true,
        liquidity,
        event_title: None,
        end_date: None,
        rewards_min_size: min_size,
        rewards_max_spread: max_spread,
        rewards_daily_rate: daily_rate,
    }
}

fn rewarded(condition_id: u64, daily_rate: &str, liquidity: &str) -> MarketInfo {
    make_reward_market(
        condition_id,
        Some(dec(daily_rate)),
        dec(liquidity),
        Some(dec("5")),
        Some(dec("0.04")),
    )
}

fn default_config() -> LiquidityRewardsConfig {
    LiquidityRewardsConfig {
        min_daily_rate: dec("1"),
        max_markets: 5,
        spread_fraction: dec("0.80"),
        max_position_per_market: dec("100"),
        inventory_skew_factor: dec("0.50"),
        min_order_size: dec("5"),
        quote_yes: true,
        quote_no: true,
        order_depth_level: 3,
        allow_neg_risk: false,
        market_mode: "auto".to_string(),
        manual_markets: vec![],
    }
}

fn by_hand(condition_id: u64) -> LrMarketOverride {
    LrMarketOverride {
        condition_id: format!("0x{:064x}", condition_id),
        max_position_per_market: None,
        spread_fraction: None,
        quote_yes: None,
        quote_no: None,
        order_depth_level: None,
    }
}

fn terms(condition_id: u64, daily_rate: &str) -> ClobRewardData {
    ClobRewardData {
        condition_id: id(condition_id),
        rewards_max_spread: dec("0.04"),
        rewards_min_size: dec("5"),
        total_daily_rate: dec(daily_rate),
    }
}

#[test]
fn test_select_markets_filters_no_rewards() {
    let config = default_config();
    let markets = vec![
        make_reward_market(1, None, dec("1000"), None, None),
        make_reward_market(2, Some(dec("5")), dec("1000"), None, None),
    ];
    let result = select_reward_markets(&markets, &config);
    assert!(result.is_empty());
}

#[test]
fn test_select_markets_filters_below_min_rate() {
    let mut config = default_config();
    config.min_daily_rate = dec("2");
    let markets = vec![rewarded(1, "1", "100")];
    let result = select_reward_markets(&markets, &config);
    assert!(result.is_empty(), "Daily rate 1 < min_daily_rate 2 should be filtered");
}

#[test]
fn test_select_markets_ranks_by_density() {
    let config = default_config();
    let markets = vec![rewarded(1, "10", "1000"), rewarded(2, "5", "100"), rewarded(3, "20", "5000")];
    let result = select_reward_markets(&markets, &config);
    assert_eq!(result.len(), 3);
    assert_eq!(result[0].market.condition_id, id(2));
    assert_eq!(result[1].market.condition_id, id(1));
    assert_eq!(result[2].market.condition_id, id(3));
    assert_eq!(result[0].density, dec("5") / dec("101"));
}

#[test]
fn test_select_markets_respects_max() {
    let mut config = default_config();
    config.max_markets = 2;
    let markets = vec![rewarded(1, "10", "100"), rewarded(2, "10", "200"), rewarded(3, "10", "300")];
    let result = select_reward_markets(&markets, &config);
    assert_eq!(result.len(), 2);
}

#[test]
fn equally_dense_markets_keep_their_order() {
    let config = default_config();
    let markets = vec![
        rewarded(1, "10", "100"),
        rewarded(2, "20", "100"),
        rewarded(3, "10", "100"),
        rewarded(4, "20", "100"),
    ];
    let result = select_reward_markets(&markets, &config);
    let order: Vec<B256> = result.iter().map(|c| c.market.condition_id).collect();
    assert_eq!(order, vec![id(2), id(4), id(1), id(3)]);
}

#[test]
fn test_compute_quotes_within_spread() {
    let config = default_config();
    let mid = dec("0.50");
    let max_spread = dec("0.04");
    let q = compute_quotes(mid, max_spread, Decimal::zero(), &config, dec("5"), dec("0.01")).unwrap();
    assert_eq!(q.bid_price, dec("0.48"));
    assert_eq!(q.ask_price, dec("0.52"));
    assert!((mid - q.bid_price).abs() <= max_spread);
    assert!((q.ask_price - mid).abs() <= max_spread);
}

#[test]
fn test_compute_quotes_inventory_skew() {
    let mut config = default_config();
    config.max_position_per_market = dec("100");
    config.inventory_skew_factor = dec("0.50");

    let mid = dec("0.50");
    let max_spread = dec("0.10");

    let q0 = compute_quotes(mid, max_spread, Decimal::zero(), &config, dec("5"), dec("0.01")).unwrap();
    let q_pos = compute_quotes(mid, max_spread, dec("100"), &config, dec("5"), dec("0.01")).unwrap();

    assert!(q_pos.bid_price < q0.bid_price, "With positive inventory, bid should be lower (wider)");
    assert!(q_pos.ask_price < q0.ask_price, "With positive inventory, ask should be lower (closer to mid)");
    assert_eq!(q_pos.bid_price, dec("0.44"));
    assert_eq!(q_pos.ask_price, dec("0.52"));
}

#[test]
fn test_compute_quotes_boundary_rejection() {
    let config = default_config();
    let result = compute_quotes(dec("0.50"), dec("0.001"), Decimal::zero(), &config, dec("5"), dec("0.01"));
    assert!(result.is_none(), "Quotes outside rewards_max_spread should be rejected");
}

#[test]
fn test_order_size_targets_max_position() {
    let mut config = default_config();
    config.min_order_size = dec("5");
    config.max_position_per_market = dec("100");

    let mid = dec("0.50");
    let max_spread = dec("0.10");

    let q = compute_quotes(mid, max_spread, Decimal::zero(), &config, dec("10"), dec("0.01")).unwrap();
    assert_eq!(q.size, dec("100"), "Size should target max_position_per_market for maximum rewards");

    let q = compute_quotes(mid, max_spread, Decimal::zero(), &config, dec("3"), dec("0.01")).unwrap();
    assert_eq!(q.size, dec("100"), "Size should target max_position_per_market regardless of floor");
}

#[test]
fn a_large_least_order_outgrows_the_position() {
    let config = default_config();
    let q = compute_quotes(dec("0.50"), dec("0.10"), Decimal::zero(), &config, dec("250"), dec("0.01")).unwrap();
    assert_eq!(q.size, dec("250"));
}

#[test]
fn test_total_exposure_cap() {
    let config = default_config();
    let q = compute_quotes(dec("0.50"), dec("0.10"), Decimal::zero(), &config, dec("5"), dec("0.01")).unwrap();
    assert_eq!(q.size, config.max_position_per_market);
}

#[test]
fn test_compute_quotes_clamps_to_floor() {
    let config = default_config();
    let result = compute_quotes(dec("0.02"), dec("0.10"), Decimal::zero(), &config, dec("5"), dec("0.01"));
    assert!(result.is_some(), "Clamped floor bid should be accepted for LR");
    let q = result.unwrap();
    assert_eq!(q.bid_price, dec("0.01"));
    assert_eq!(q.ask_price, dec("0.06"));

    let result = compute_quotes(dec("0.05"), dec("0.10"), Decimal::zero(), &config, dec("5"), dec("0.01"));
    assert!(result.is_some(), "Bid exactly at 0.01 should be accepted");
}

#[test]
fn without_ticks_quotes_are_hundredths() {
    let config = default_config();
    let q = compute_quotes(dec("0.50"), dec("0.04"), Decimal::zero(), &config, dec("5"), dec("0")).unwrap();
    // 0.484 and 0.516
    assert_eq!(q.bid_price, dec("0.48"));
    assert_eq!(q.ask_price, dec("0.52"));
}

fn make_orderbook(bids: Vec<(&str, &str)>, asks: Vec<(&str, &str)>) -> OrderBook {
    let levels = |side: Vec<(&str, &str)>| {
        side.into_iter().map(|(price, size)| PriceLevel { price: dec(price), size: dec(size) }).collect()
    };
    OrderBook { token_id: U256::from_u64(1), bids: levels(bids), asks: levels(asks) }
}

#[test]
fn test_compute_depth_quotes_basic() {
    let config = default_config();
    let book = make_orderbook(
        vec![("0.50", "100"), ("0.49", "100"), ("0.48", "100"), ("0.47", "100"), ("0.46", "100")],
        vec![("0.51", "100"), ("0.52", "100"), ("0.53", "100"), ("0.54", "100"), ("0.55", "100")],
    );
    let q = compute_depth_quotes(&book, 3, dec("0.10"), Decimal::zero(), &config, dec("5")).unwrap();
    assert_eq!(q.bid_price, dec("0.48"));
    assert_eq!(q.ask_price, dec("0.53"));
    assert!(compute_depth_quotes(&book, 0, dec("0.10"), Decimal::zero(), &config, dec("5")).is_none());
}

#[test]
fn test_compute_depth_quotes_insufficient_depth() {
    let config = default_config();
    let book = make_orderbook(
        vec![("0.50", "100"), ("0.49", "100")],
        vec![("0.51", "100"), ("0.52", "100")],
    );
    let result = compute_depth_quotes(&book, 3, dec("0.10"), Decimal::zero(), &config, dec("5"));
    assert!(result.is_none(), "Should return None when depth is insufficient");
}

#[test]
fn test_compute_depth_quotes_outside_reward_spread() {
    let config = default_config();
    let book = make_orderbook(
        vec![("0.50", "100"), ("0.49", "100"), ("0.40", "100")],
        vec![("0.51", "100"), ("0.52", "100"), ("0.60", "100")],
    );
    let result = compute_depth_quotes(&book, 3, dec("0.04"), Decimal::zero(), &config, dec("5"));
    assert!(result.is_none(), "Should reject quotes outside rewards_max_spread");
}

#[test]
fn depth_quotes_that_are_no_prices_are_rejected() {
    let config = default_config();
    let crossed = make_orderbook(vec![("0.52", "100")], vec![("0.51", "100")]);
    assert!(compute_depth_quotes(&crossed, 1, dec("1"), Decimal::zero(), &config, dec("5")).is_none());
    let low = make_orderbook(vec![("0.005", "100")], vec![("0.51", "100")]);
    assert!(compute_depth_quotes(&low, 1, dec("1"), Decimal::zero(), &config, dec("5")).is_none());
    let high = make_orderbook(vec![("0.5", "100")], vec![("0.995", "100")]);
    assert!(compute_depth_quotes(&high, 1, dec("1"), Decimal::zero(), &config, dec("5")).is_none());
}

#[test]
fn test_should_cancel_buy_at_depth() {
    let book = make_orderbook(
        vec![("0.49", "100"), ("0.48", "100"), ("0.47", "100")],
        vec![("0.51", "100")],
    );
    assert!(
        should_cancel_depth_order(&book, dec("0.48"), true, 2),
        "Buy at level 2 should trigger cancel when cancel_depth=2"
    );

    let book2 = make_orderbook(
        vec![("0.50", "100"), ("0.49", "100"), ("0.48", "100"), ("0.47", "100")],
        vec![("0.51", "100")],
    );
    assert!(
        !should_cancel_depth_order(&book2, dec("0.48"), true, 2),
        "Buy at level 3 should NOT trigger cancel when cancel_depth=2"
    );
    assert!(!should_cancel_depth_order(&book, dec("0.48"), true, 0));
}

#[test]
fn every_better_level_counts_whatever_the_order_of_the_book() {
    let bids = make_orderbook(vec![("0.47", "100"), ("0.50", "100"), ("0.49", "100")], vec![]);
    assert!(!should_cancel_depth_order(&bids, dec("0.48"), true, 2));
    assert!(should_cancel_depth_order(&bids, dec("0.48"), true, 3));
    let asks = make_orderbook(vec![], vec![("0.54", "100"), ("0.51", "100"), ("0.53", "100")]);
    assert!(!should_cancel_depth_order(&asks, dec("0.53"), false, 1));
    assert!(should_cancel_depth_order(&asks, dec("0.53"), false, 2));
}

#[test]
fn test_should_cancel_sell_at_depth() {
    let book = make_orderbook(
        vec![("0.50", "100")],
        vec![("0.52", "100"), ("0.53", "100"), ("0.54", "100")],
    );
    assert!(
        should_cancel_depth_order(&book, dec("0.53"), false, 2),
        "Sell at level 2 should trigger cancel when cancel_depth=2"
    );

    let book2 = make_orderbook(
        vec![("0.50", "100")],
        vec![("0.51", "100"), ("0.52", "100"), ("0.53", "100"), ("0.54", "100")],
    );
    assert!(
        !should_cancel_depth_order(&book2, dec("0.53"), false, 2),
        "Sell at level 3 should NOT trigger cancel when cancel_depth=2"
    );
}

#[test]
fn test_balance_aware_size_buy() {
    let size = balance_aware_size(dec("0.40"), dec("100"), 4, dec("100"), dec("500"), dec("5"));
    assert_eq!(size, dec("62.50"));
}

#[test]
fn test_balance_aware_size_sell() {
    let size = balance_aware_size(dec("0.60"), dec("50"), 2, dec("200"), dec("1000"), dec("5"));
    assert_eq!(size, dec("41.66"));
}

#[test]
fn test_balance_aware_size_respects_limits() {
    let size = balance_aware_size(dec("0.50"), dec("100"), 2, dec("30"), dec("500"), dec("5"));
    assert_eq!(size, dec("30"));

    let size = balance_aware_size(dec("0.40"), dec("100"), 4, dec("100"), dec("10"), dec("5"));
    assert_eq!(size, dec("10"));

    let size = balance_aware_size(dec("0.40"), dec("100"), 4, dec("100"), dec("3"), dec("5"));
    assert_eq!(size, Decimal::zero());

    assert_eq!(balance_aware_size(dec("0"), dec("100"), 4, dec("100"), dec("30"), dec("5")), Decimal::zero());
    assert_eq!(balance_aware_size(dec("0.4"), dec("100"), 0, dec("100"), dec("30"), dec("5")), Decimal::zero());
    assert_eq!(balance_aware_size(dec("0.4"), dec("0"), 4, dec("100"), dec("30"), dec("5")), Decimal::zero());
}

#[test]
fn test_cooldown_blocks() {
    let start = std::time::Instant::now();
    let now = start.elapsed().as_nanos();
    let failure = now;
    let cooldown = std::time::Duration::from_secs(60).as_nanos();
    assert!(is_order_on_cooldown(failure, now, cooldown));
}

#[test]
fn test_cooldown_allows_after_expiry() {
    let start = std::time::Instant::now();
    let failure = start.elapsed().as_nanos();
    let cooldown = std::time::Duration::from_secs(0).as_nanos();
    assert!(!is_order_on_cooldown(failure, failure, cooldown));
    assert!(is_order_on_cooldown(10, 19, 10));
    assert!(!is_order_on_cooldown(10, 20, 10));
}

fn wanted(token: u64, is_buy: bool, price: &str, size: &str) -> DesiredOrder {
    DesiredOrder { token_id: U256::from_u64(token), is_buy, price: dec(price), size: dec(size) }
}

fn resting(name: &str, token: u64, is_buy: bool, price: &str) -> (String, U256, bool, Decimal) {
    (name.to_string(), U256::from_u64(token), is_buy, dec(price))
}

#[test]
fn test_reconcile_no_change() {
    let desired = vec![wanted(1, true, "0.50", "100")];
    let existing = vec![resting("order1", 1, true, "0.50")];
    let result = reconcile_desired_vs_existing(&desired, &existing, 50);
    assert_eq!(result.kept, 1);
    assert!(result.to_cancel.is_empty());
    assert!(result.to_place.is_empty());
}

#[test]
fn test_reconcile_price_drift() {
    let desired = vec![wanted(1, true, "0.50", "100")];
    let existing = vec![resting("order1", 1, true, "0.48")];
    let result = reconcile_desired_vs_existing(&desired, &existing, 50);
    assert_eq!(result.kept, 0);
    assert_eq!(result.to_cancel.len(), 1);
    assert_eq!(result.to_place.len(), 1);
    // 400 basis points exactly
    assert_eq!(reconcile_desired_vs_existing(&desired, &existing, 400).kept, 1);
    assert_eq!(reconcile_desired_vs_existing(&desired, &existing, 399).kept, 0);
}

#[test]
fn a_drift_is_not_cut_to_whole_basis_points() {
    // fifty and a half
    let desired = vec![wanted(1, true, "0.50", "100")];
    let existing = vec![resting("order1", 1, true, "0.497475")];
    let result = reconcile_desired_vs_existing(&desired, &existing, 50);
    assert_eq!(result.kept, 0);
    assert_eq!(result.to_cancel, vec!["order1".to_string()]);
    assert_eq!(result.to_place.len(), 1);
    assert_eq!(reconcile_desired_vs_existing(&desired, &existing, 51).kept, 1);
    // fifty exactly
    let existing = vec![resting("order1", 1, true, "0.4975")];
    assert_eq!(reconcile_desired_vs_existing(&desired, &existing, 50).kept, 1);
}

#[test]
fn test_reconcile_new_side() {
    let desired = vec![wanted(1, false, "0.55", "50")];
    let existing: Vec<(String, U256, bool, Decimal)> = vec![];
    let result = reconcile_desired_vs_existing(&desired, &existing, 50);
    assert_eq!(result.kept, 0);
    assert!(result.to_cancel.is_empty());
    assert_eq!(result.to_place.len(), 1);
}

#[test]
fn no_resting_order_is_kept_twice() {
    let desired = vec![wanted(1, true, "0.50", "100"), wanted(1, true, "0.50", "20"), wanted(2, true, "0.50", "7")];
    let existing = vec![
        resting("a", 3, true, "0.50"),
        resting("b", 1, true, "0.50"),
        resting("c", 1, false, "0.50"),
    ];
    let result = reconcile_desired_vs_existing(&desired, &existing, 50);
    assert_eq!(result.kept, 1);
    assert_eq!(result.to_cancel, vec!["a".to_string(), "c".to_string()]);
    assert_eq!(result.to_place.len(), 2);
    assert_eq!(result.to_place[0].size, dec("20"));
    assert_eq!(result.to_place[1].size, dec("7"));
    assert_eq!(result.kept + result.to_cancel.len(), existing.len());
    assert_eq!(result.kept + result.to_place.len(), desired.len());
}

#[test]
fn settled_orders_stay() {
    let desired = vec![wanted(1, true, "0.50", "100"), wanted(1, true, "0.501", "20"), wanted(2, false, "0.60", "7")];
    let existing = vec![
        resting("a", 1, true, "0.50"),
        resting("b", 1, true, "0.501"),
        resting("c", 2, false, "0.60"),
    ];
    let result = reconcile_desired_vs_existing(&desired, &existing, 0);
    assert_eq!(result.kept, 3);
    assert!(result.to_cancel.is_empty());
    assert!(result.to_place.is_empty());
}

#[test]
fn a_desired_price_of_zero_matches_nothing() {
    let desired = vec![wanted(1, true, "0", "100")];
    let existing = vec![resting("a", 1, true, "0")];
    let result = reconcile_desired_vs_existing(&desired, &existing, u32::MAX);
    assert_eq!(result.kept, 0);
}

#[test]
fn test_hybrid_mode_auto_backward_compatible() {
    let config = default_config();
    let markets = vec![rewarded(1, "10", "100")];
    let result = select_reward_markets_hybrid(&markets, &vec![terms(1, "10")], &config);
    assert_eq!(result.len(), 1);
}

#[test]
fn test_hybrid_mode_manual_only() {
    let mut config = default_config();
    config.market_mode = "manual".to_string();
    config.manual_markets = vec![by_hand(2)];
    let clob_rewards = vec![terms(1, "10"), terms(2, "5")];
    let markets = vec![rewarded(1, "10", "100"), rewarded(2, "5", "100")];
    let result = select_reward_markets_hybrid(&markets, &clob_rewards, &config);
    assert_eq!(result.len(), 1);
    assert_eq!(result[0].market.condition_id, id(2));
}

#[test]
fn test_hybrid_mode_merges() {
    let mut config = default_config();
    config.market_mode = "hybrid".to_string();
    let mut own = by_hand(3);
    own.max_position_per_market = Some(dec("200"));
    config.manual_markets = vec![own];
    let markets = vec![rewarded(1, "10", "100"), rewarded(3, "3", "50")];
    let result = select_reward_markets_hybrid(&markets, &vec![terms(1, "10")], &config);
    assert_eq!(result.len(), 2);
    assert_eq!(result[0].market.condition_id, id(1));
    assert_eq!(result[1].market.condition_id, id(3));
    assert_eq!(result[1].density, Decimal::zero());
}

#[test]
fn the_mode_says_where_the_choice_comes_from() {
    let mut config = default_config();
    config.max_markets = 1;
    config.manual_markets = vec![by_hand(4), by_hand(3), by_hand(2)];
    let mut still = rewarded(4, "9", "100");
    still.active = false;
    let markets = vec![rewarded(1, "10", "100"), rewarded(3, "3", "50"), rewarded(2, "20", "100"), still];
    let rewards = vec![terms(1, "10"), terms(2, "20"), terms(3, "3"), terms(4, "9")];
    let mut choice = |mode: &str| {
        config.market_mode = mode.to_string();
        let found = select_reward_markets_hybrid(&markets, &rewards, &config);
        found.iter().map(|c| c.market.condition_id).collect::<Vec<B256>>()
    };
    // in the order of the markets, however many there are
    assert_eq!(choice("manual"), vec![id(3), id(2)]);
    assert_eq!(choice("auto"), vec![id(2)]);
    assert_eq!(choice("anything"), vec![id(2)]);
    assert_eq!(choice("hybrid"), vec![id(2), id(3)]);
}

#[test]
fn hand_picked_names_are_read_in_either_case() {
    let mut config = default_config();
    config.market_mode = "manual".to_string();
    let markets = vec![rewarded(0xabcdef, "10", "100")];
    let rewards = vec![terms(0xabcdef, "10")];
    for name in [
        format!("{:064x}", 0xabcdefu32),
        format!("0x{:064X}", 0xabcdefu32),
        format!("0X{:064x}", 0xabcdefu32),
    ] {
        config.manual_markets = vec![LrMarketOverride { condition_id: name, ..by_hand(0) }];
        assert_eq!(select_reward_markets_hybrid(&markets, &rewards, &config).len(), 1);
    }
    for name in ["", "0xabcdef", "not hexadecimal"] {
        config.manual_markets = vec![LrMarketOverride { condition_id: name.to_string(), ..by_hand(0) }];
        assert!(select_reward_markets_hybrid(&markets, &rewards, &config).is_empty());
    }
}

#[test]
fn the_last_terms_for_a_market_hold() {
    let config = default_config();
    let markets = vec![rewarded(1, "10", "99")];
    let result =
        select_reward_markets_with_clob_data(&markets, &vec![terms(1, "2"), terms(1, "7")], &config);
    assert_eq!(result.len(), 1);
    assert_eq!(result[0].density, dec("0.07"));
    assert!(select_reward_markets_with_clob_data(&markets, &vec![terms(2, "2")], &config).is_empty());
}

#[test]
fn test_effective_market_config_override() {
    let mut config = default_config();
    let cid = id(42);
    config.manual_markets = vec![LrMarketOverride {
        condition_id: cid.to_hex(),
        max_position_per_market: Some(dec("500")),
        spread_fraction: Some(dec("0.90")),
        quote_yes: Some(true),
        quote_no: Some(false),
        order_depth_level: Some(5),
    }];
    let eff = effective_market_config(&config, &cid);
    assert_eq!(eff.max_position_per_market, dec("500"));
    assert_eq!(eff.spread_fraction, dec("0.90"));
    assert!(eff.quote_yes);
    assert!(!eff.quote_no);
    assert_eq!(eff.order_depth_level, 5);
}

#[test]
fn other_markets_have_the_general_settings() {
    let mut config = default_config();
    config.manual_markets = vec![LrMarketOverride { quote_no: Some(false), ..by_hand(42) }];
    let eff = effective_market_config(&config, &id(42));
    assert!(!eff.quote_no);
    assert_eq!(eff.spread_fraction, dec("0.80"));
    let eff = effective_market_config(&config, &id(43));
    assert!(eff.quote_no);
    assert_eq!(eff.max_position_per_market, dec("100"));
    assert_eq!(eff.order_depth_level, 3);
}

#[test]
fn an_identifier_reads_back_from_its_text() {
    let mut bytes = [0u8; 32];
    for (i, byte) in bytes.iter_mut().enumerate() {
        *byte = (i * 37 + 11) as u8;
    }
    let cid = B256 { bytes };
    assert!(cid.is_spelled(&cid.to_hex()));
    assert!(!id(1).is_spelled(&cid.to_hex()));
    assert_eq!(id(0xa1).to_hex(), format!("0x{:064x}", 0xa1));
}

#[test]
fn test_neg_risk_filtered_by_default() {
    let config = default_config();
    let mut m = rewarded(1, "10", "100");
    m.neg_risk = true;
    let result = select_reward_markets(&vec![m], &config);
    assert!(result.is_empty(), "NegRisk should be filtered by default");
}

#[test]
fn test_neg_risk_allowed_with_flag() {
    let mut config = default_config();
    config.allow_neg_risk = true;
    config.market_mode = "manual".to_string();

    let mut m = rewarded(1, "10", "100");
    m.neg_risk = true;
    m.tokens.push(TokenInfo {
        token_id: U256::from_u64(13),
        outcome: Outcome::Yes,
        complement_id: U256::from_u64(0),
    });
    config.manual_markets = vec![by_hand(1)];
    let markets = vec![m];
    let result = select_reward_markets_hybrid(&markets, &vec![terms(1, "10")], &config);
    assert_eq!(result.len(), 1, "NegRisk should be allowed with allow_neg_risk=true");
    config.allow_neg_risk = false;
    assert!(select_reward_markets_hybrid(&markets, &vec![terms(1, "10")], &config).is_empty());
}

#[test]
fn the_balance_affords_the_affordable_size() {
    let much = dec("100000000");
    for (price, balance, sides) in [("0.40", "100", 4u32), ("0.07", "99.99", 2), ("0.99", "12.34", 1), ("0.01", "0.05", 5)] {
        let size = balance_aware_size(dec(price), dec(balance), sides, much, much, Decimal::zero());
        let cost = size * dec(price) * Decimal::from_u32(sides);
        assert!(cost <= dec(balance));
        // one hundredth more on every side is too much
        let more = (size + dec("0.01")) * dec(price) * Decimal::from_u32(sides);
        assert!(more > dec(balance));
    }
}

#[test]
fn a_large_balance_at_a_low_price_is_reckoned() {
    let much = dec("100000000000000000");
    let size = balance_aware_size(dec("0.0001"), dec("1000000000000"), 1, much, much, dec("5"));
    assert_eq!(size, dec("10000000000000000"));
}

#[test]
fn quotes_are_reckoned_for_wide_settings() {
    let mut config = default_config();
    config.spread_fraction = dec("1");
    config.inventory_skew_factor = dec("100");
    config.max_position_per_market = dec("0.0001");
    let full = dec("1000000000");
    // the position moves both quotes far out of the band
    assert!(compute_quotes(dec("0.5"), dec("100"), full, &config, dec("0"), dec("0.0001")).is_none());
    config.inventory_skew_factor = dec("0");
    let quote = compute_quotes(dec("0.5"), dec("0.02"), full, &config, dec("0"), dec("0.0001")).unwrap();
    assert_eq!(quote.bid_price, dec("0.49"));
    assert_eq!(quote.ask_price, dec("0.51"));
}
