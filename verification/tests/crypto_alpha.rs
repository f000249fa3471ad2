use pa_strategy::crypto_alpha::assets::{crypto_assets, CryptoAsset};
use pa_strategy::crypto_alpha::candidates::{CryptoEntryCandidate, EntrySlot};
use pa_strategy::crypto_alpha::config::{CryptoAlphaConfig, CryptoCalibrationOverride, OverrideField};
use pa_strategy::crypto_alpha::decisions::{
    CryptoCandidateDecision, DecisionSide, EventContext, GateRejectContext,
};
use pa_strategy::crypto_alpha::detect::{days_until, ModelReading};
use pa_strategy::crypto_alpha::detect_group::{find_group_asset, GroupReading};
use pa_strategy::crypto_alpha::edge_decay::{EdgeDecayConfirmationState, EdgeDecayRecords};
use pa_strategy::crypto_alpha::entry::{Account, DirectionExposure, EntryOutcome, TokenPosition};
use pa_strategy::crypto_alpha::execution::{entry_executable_profit_retention, entry_executable_size_retention};
use pa_strategy::crypto_alpha::exits::{count_days_left, ExitProposal, ExitReading, HeldPosition};
use pa_strategy::crypto_alpha::exposure::{
    account_for, build_token_asset_map, build_token_direction_map, current_asset_direction_exposure,
    current_asset_exposure,
};
use pa_strategy::crypto_alpha::labels::{
    CalendarEvent, CryptoDirectionBucket, CryptoEventSubtype, CryptoMarketType, EventCategory, EventImpact,
};
use pa_strategy::crypto_alpha::plan::{
    entry_direction, gather_opportunities, infer_neg_risk_entry_days, plan_groups, plan_markets, EventReading,
};
use pa_strategy::crypto_alpha::price_cache::PriceTimes;
use pa_strategy::crypto_alpha::quotes::{relative_spread, spread_is_too_wide};
use pa_strategy::crypto_alpha::sizing::{EntryFunds, EntryTerms, SizedEntry};
use pa_strategy::crypto_alpha::scan::EntryScan;
use pa_strategy::crypto_alpha::strategy::{CryptoAlphaDeps, CryptoAlphaStrategy};
use pa_strategy::decimal::Decimal;
use pa_strategy::types::{
    BinaryEventGroup, BookSet, DirectionalBuy, MarketInfo, NegRiskEvent, OrderBook, Outcome, PriceLevel, Stamp, StrategyType, TokenInfo,
    TradeSide, TradingOpportunity, B256, DAY, U256,
};

fn dec(text: &str) -> Decimal {
    let digits: String = text.chars().filter(|c| *c != '.').collect();
    let scale = text.split('.').nth(1).map_or(0, |part| part.len());
    Decimal::from_parts(digits.parse::<i128>().unwrap(), scale as u32).unwrap()
}

const STAMP: Stamp = Stamp { id: 5, detected_at: 1_700_000_000 };
const TODAY: i32 = 739_400;
const HOUR: i128 = 3_600_000_000_000;
const SECOND: u128 = 1_000_000_000;
const NOW: u128 = 10_000 * SECOND;

fn asset(place: usize) -> CryptoAsset {
    crypto_assets()[place]
}

fn bytes(n: u8) -> B256 {
    B256 { bytes: [n; 32] }
}

fn token(n: u64) -> U256 {
    U256::from_u64(n)
}

fn default_config() -> CryptoAlphaConfig {
    CryptoAlphaConfig {
        min_edge_bps: 500,
        max_position_pct: dec("0.50"),
        kelly_fraction: dec("0.25"),
        refresh_interval_secs: 300,
        spot_refresh_interval_secs: 30,
        history_refresh_interval_secs: 1800,
        iv_refresh_interval_secs: 300,
        min_entry_depth_ratio: dec("1.25"),
        gate_scale_feedback_lookback: 24,
        gate_scale_feedback_trigger_count: 3,
        gate_scale_feedback_step_multiplier: dec("0.90"),
        gate_scale_feedback_max_steps: 2,
        exit_buffer_bps: 50,
        capital_efficiency_threshold: dec("0.98"),
        max_spread_bps: 1500,
        relative_stop_loss_ratio: dec("0.80"),
        max_exposure_per_asset_pct: dec("0.75"),
        max_exposure_per_asset_direction_pct: dec("0.45"),
        low_event_min_edge_multiplier: dec("1.20"),
        medium_event_min_edge_multiplier: dec("1.50"),
        high_event_min_edge_multiplier: dec("2.00"),
        low_event_max_spread_multiplier: dec("0.90"),
        medium_event_max_spread_multiplier: dec("0.80"),
        high_event_max_spread_multiplier: dec("0.65"),
        low_event_sigma_multiplier: dec("1.05"),
        medium_event_sigma_multiplier: dec("1.15"),
        high_event_sigma_multiplier: dec("1.30"),
        macro_event_sigma_multiplier: dec("1.10"),
        crypto_event_sigma_multiplier: dec("1.20"),
        low_event_size_multiplier: dec("0.90"),
        medium_event_size_multiplier: dec("0.75"),
        high_event_size_multiplier: dec("0.50"),
        macro_event_size_multiplier: dec("0.85"),
        crypto_event_size_multiplier: dec("0.75"),
        btc_probability_calibration: dec("0.95"),
        eth_probability_calibration: dec("0.93"),
        alt_probability_calibration: dec("0.88"),
        binary_probability_calibration: dec("0.97"),
        range_probability_calibration: dec("0.90"),
        override_probability_blend: dec("0.50"),
        override_probability_max_delta_bps: 1000,
        override_multiplier_blend: Decimal::one(),
        override_multiplier_max_delta_bps: 10_000,
        calibration_overrides: vec![],
        short_horizon_max_days: 1,
        medium_horizon_max_days: 7,
        max_entry_days: 3650,
        short_horizon_probability_calibration: dec("0.85"),
        medium_horizon_probability_calibration: dec("0.92"),
        short_horizon_size_multiplier: dec("0.60"),
        medium_horizon_size_multiplier: dec("0.80"),
        short_horizon_min_edge_multiplier: dec("1.50"),
        medium_horizon_min_edge_multiplier: dec("1.20"),
        short_horizon_max_spread_multiplier: dec("0.75"),
        medium_horizon_max_spread_multiplier: dec("0.90"),
        short_horizon_capital_efficiency_threshold: dec("0.92"),
        medium_horizon_capital_efficiency_threshold: dec("0.95"),
        short_horizon_exit_buffer_multiplier: dec("0.50"),
        medium_horizon_exit_buffer_multiplier: dec("0.80"),
        hold_min_edge_bps: 100,
        short_horizon_hold_edge_multiplier: dec("1.50"),
        medium_horizon_hold_edge_multiplier: dec("1.20"),
        edge_decay_exit_fraction: dec("0.25"),
        edge_decay_exit_fraction_step: dec("0.10"),
        edge_decay_moderate_gap_bps: 50,
        edge_decay_severe_gap_bps: 150,
        edge_decay_moderate_exit_multiplier: dec("1.25"),
        edge_decay_severe_exit_multiplier: dec("1.50"),
        edge_decay_moderate_cooldown_multiplier: dec("0.75"),
        edge_decay_severe_cooldown_multiplier: dec("0.50"),
        short_horizon_edge_decay_exit_multiplier: dec("1.50"),
        medium_horizon_edge_decay_exit_multiplier: dec("1.20"),
        edge_decay_cooldown_secs: 1800,
        edge_decay_confirmation_scans: 2,
        short_horizon_edge_decay_confirmation_scans: 1,
        medium_horizon_edge_decay_confirmation_scans: 2,
        edge_decay_moderate_confirmation_scan_multiplier: dec("0.75"),
        edge_decay_severe_confirmation_scan_multiplier: dec("0.50"),
        edge_decay_confirmation_window_secs: 900,
        short_horizon_edge_decay_confirmation_window_multiplier: dec("0.50"),
        medium_horizon_edge_decay_confirmation_window_multiplier: dec("0.75"),
        edge_decay_moderate_confirmation_window_multiplier: dec("0.75"),
        edge_decay_severe_confirmation_window_multiplier: dec("0.50"),
        short_horizon_edge_decay_cooldown_multiplier: dec("0.50"),
        medium_horizon_edge_decay_cooldown_multiplier: dec("0.75"),
    }
}

fn deps() -> CryptoAlphaDeps {
    CryptoAlphaDeps {
        base_min_size_retention_ratio: dec("0.50"),
        base_max_slippage_bps: 50,
        execution_quality_profit_weight: Decimal::one(),
        execution_quality_size_weight: Decimal::one(),
        execution_quality_slippage_weight: Decimal::one(),
    }
}

fn make_crypto_strategy() -> CryptoAlphaStrategy {
    CryptoAlphaStrategy::new(default_config(), Decimal::zero(), deps())
}

fn row(asset: &str, asset_class: &str, horizon: &str, market_type: &str, event_subtype: &str) -> CryptoCalibrationOverride {
    CryptoCalibrationOverride {
        asset: asset.to_string(),
        asset_class: asset_class.to_string(),
        horizon: horizon.to_string(),
        market_type: market_type.to_string(),
        event_subtype: event_subtype.to_string(),
        probability_calibration: None,
        sigma_multiplier: None,
        size_multiplier: None,
        depth_ratio_multiplier: None,
        min_edge_multiplier: None,
        max_spread_multiplier: None,
        hold_edge_multiplier: None,
        edge_decay_exit_multiplier: None,
        edge_decay_confirmation_scan_multiplier: None,
        edge_decay_confirmation_window_multiplier: None,
        edge_decay_cooldown_multiplier: None,
        capital_efficiency_multiplier: None,
        model_reversal_buffer_multiplier: None,
        profit_retention_multiplier: None,
        slippage_multiplier: None,
        size_retention_multiplier: None,
    }
}

fn event(title: &str, impact: EventImpact, category: EventCategory) -> CalendarEvent {
    CalendarEvent { title: title.to_string(), impact, category }
}

fn make_crypto_market(question: &str) -> MarketInfo {
    MarketInfo {
        condition_id: B256::zero(),
        question: question.to_string(),
        neg_risk: false,
        tokens: vec![
            TokenInfo { token_id: token(1), outcome: Outcome::Yes, complement_id: token(2) },
            TokenInfo { token_id: token(2), outcome: Outcome::No, complement_id: token(1) },
        ],
        fee_rate_bps: 200,
        active: true,
        liquidity: dec("1000"),
        event_title: None,
        end_date: None,
        rewards_min_size: None,
        rewards_max_spread: None,
        rewards_daily_rate: None,
    }
}

fn market_with_token_ids(mut market: MarketInfo, yes: u64, no: u64, condition_id: B256) -> MarketInfo {
    market.condition_id = condition_id;
    market.tokens[0].token_id = token(yes);
    market.tokens[0].complement_id = token(no);
    market.tokens[1].token_id = token(no);
    market.tokens[1].complement_id = token(yes);
    market
}

fn level(price: &str, size: &str) -> PriceLevel {
    PriceLevel { price: dec(price), size: dec(size) }
}

fn book(id: u64, bids: Vec<PriceLevel>, asks: Vec<PriceLevel>) -> OrderBook {
    OrderBook { token_id: token(id), bids, asks }
}

fn make_crypto_book(id: u64, best_bid: &str) -> OrderBook {
    let ask = PriceLevel { price: dec(best_bid) + dec("0.02"), size: dec("500") };
    book(id, vec![level(best_bid, "500")], vec![ask])
}

fn account() -> Account {
    Account {
        balance: dec("200"),
        available: Decimal::max_value(),
        positions: vec![],
        asset_exposure: Decimal::zero(),
        direction_exposure: DirectionExposure {
            up: Decimal::zero(),
            down: Decimal::zero(),
            inside_range: Decimal::zero(),
            outside_range: Decimal::zero(),
        },
    }
}

fn detect(
    strategy: &CryptoAlphaStrategy,
    books: &BookSet,
    market: &MarketInfo,
    days: i32,
    event: Option<&CalendarEvent>,
    prob: &str,
) -> EntryOutcome {
    strategy.detect_crypto_opportunity(
        &vec![],
        books,
        &account(),
        market,
        Some(TODAY + days),
        TODAY,
        event,
        ModelReading::Probability(dec(prob)),
        STAMP,
    )
}

#[test]
fn test_crypto_long_dated_market_is_filtered_from_new_entries() {
    let market = market_with_token_ids(
        make_crypto_market("Will Bitcoin exceed $150,000 by December 31, 2026?"),
        91,
        92,
        bytes(91),
    );
    let books = BookSet {
        books: vec![
            book(91, vec![level("0.19", "500")], vec![level("0.20", "500")]),
            book(92, vec![level("0.79", "500")], vec![level("0.80", "500")]),
        ],
    };
    let mut strategy = make_crypto_strategy();
    strategy.config.max_entry_days = 3;
    let outcome = detect(&strategy, &books, &market, 30, None, "0.5");
    assert!(
        outcome.candidate.is_none(),
        "markets beyond max_entry_days should not generate new crypto entries"
    );
    assert!(outcome
        .decisions
        .iter()
        .any(|decision| decision.action == "gate_reject" && decision.reason == "beyond_entry_horizon"));
}

#[test]
fn test_infer_neg_risk_entry_days_falls_back_to_market_end_date() {
    let midnight = (TODAY as i128 - 719_163) * DAY;
    // whatever the time of day is
    for hour in 0..24 {
        let now = midnight + hour * HOUR + 17;
        let mut market = make_crypto_market("$100,000 or above");
        market.end_date = Some(now + 36 * HOUR);
        let event = NegRiskEvent {
            neg_risk_market_id: bytes(77),
            title: "Bitcoin price".to_string(),
            markets: vec![market],
            fee_rate_bps: 200,
        };
        assert_eq!(infer_neg_risk_entry_days(&event, None, now), Some(1));
        // a day in the title comes first, and is counted from today
        assert_eq!(infer_neg_risk_entry_days(&event, Some(TODAY + 9), now), Some(9));
        assert_eq!(infer_neg_risk_entry_days(&event, Some(TODAY), now), None);
    }
}

#[test]
fn the_days_to_an_event_are_counted_to_its_first_end() {
    let now = (TODAY as i128 - 719_163) * DAY + 13 * HOUR;
    let days = |ends: Vec<Option<i128>>| {
        let mut markets = Vec::new();
        for end_date in ends {
            let mut market = make_crypto_market("$100,000 or above");
            market.end_date = end_date;
            markets.push(market);
        }
        let event = NegRiskEvent {
            neg_risk_market_id: bytes(77),
            title: "Bitcoin price".to_string(),
            markets,
            fee_rate_bps: 200,
        };
        infer_neg_risk_entry_days(&event, None, now)
    };
    assert_eq!(days(vec![Some(now + 5 * DAY), None, Some(now + 3 * DAY)]), Some(3));
    assert_eq!(days(vec![Some(now + 3 * DAY - 1)]), Some(2));
    assert_eq!(days(vec![Some(now + DAY)]), Some(1));
    assert_eq!(days(vec![Some(now + DAY - 1)]), None);
    assert_eq!(days(vec![Some(now - DAY), Some(now + DAY)]), None);
    assert_eq!(days(vec![None]), None);
}

fn reading(days: i32, held_prob: Option<&str>) -> ExitReading {
    ExitReading { target_day: Some(TODAY + days), title_day: None, event: None, held_prob: held_prob.map(dec) }
}

fn exits(
    strategy: &CryptoAlphaStrategy,
    records: &mut EdgeDecayRecords,
    market: MarketInfo,
    bids: (&str, &str),
    held: HeldPosition,
    reading: ExitReading,
) -> Vec<ExitProposal> {
    let books = BookSet { books: vec![make_crypto_book(1, bids.0), make_crypto_book(2, bids.1)] };
    strategy.scan_exits(
        records,
        &books,
        &vec![market],
        &vec![held],
        &vec![reading],
        &vec![STAMP],
        TODAY,
        NOW,
    )
}

fn held(id: u64, size: &str, avg_cost: &str) -> HeldPosition {
    HeldPosition { token_id: token(id), size: dec(size), avg_cost: dec(avg_cost) }
}

#[test]
fn test_exit_capital_efficiency_crypto() {
    let market = make_crypto_market("Will Bitcoin exceed $100,000 by December 31?");
    let found = exits(
        &make_crypto_strategy(),
        &mut EdgeDecayRecords::new(),
        market,
        ("0.99", "0.01"),
        held(1, "50", "0.60"),
        reading(30, None),
    );
    assert_eq!(found.len(), 1);
    assert_eq!(found[0].decision.reason, "capital_efficiency");
    let opp = &found[0].opportunity;
    assert!(opp.question.starts_with("[EXIT]"));
    assert_eq!(opp.execution_plan.side, TradeSide::Sell);
    assert_eq!(opp.execution_plan.price, dec("0.99"));
    assert_eq!(opp.execution_plan.size, dec("50"));
}

#[test]
fn test_exit_model_reversal_crypto() {
    let market = make_crypto_market("Will Bitcoin exceed $500,000 by December 31, 2026?");
    let found = exits(
        &make_crypto_strategy(),
        &mut EdgeDecayRecords::new(),
        market,
        ("0.80", "0.20"),
        held(1, "30", "0.50"),
        reading(300, Some("0.00")),
    );
    assert_eq!(found.len(), 1, "Should detect model reversal exit");
    assert_eq!(found[0].decision.reason, "model_reversal");
    assert!(found[0].opportunity.question.starts_with("[EXIT]"));
}

#[test]
fn test_exit_relative_stop_loss_crypto() {
    let market = make_crypto_market("Will Bitcoin exceed $120,000 by December 31, 2026?");
    let found = exits(
        &make_crypto_strategy(),
        &mut EdgeDecayRecords::new(),
        market,
        ("0.55", "0.45"),
        held(1, "25", "0.80"),
        reading(300, None),
    );
    assert_eq!(found.len(), 1, "Relative stop-loss should trigger");
    assert!(found[0].opportunity.question.starts_with("[EXIT]"));
}

#[test]
fn test_short_horizon_capital_efficiency_exits_earlier() {
    let question = "Will Bitcoin exceed $100,000 by March 17, 2026?";
    let strategy = make_crypto_strategy();
    let found = exits(
        &strategy,
        &mut EdgeDecayRecords::new(),
        make_crypto_market(question),
        ("0.95", "0.05"),
        held(1, "20", "0.70"),
        reading(1, None),
    );
    assert_eq!(found.len(), 1, "short-dated capital efficiency threshold should trigger earlier exit");
    let found = exits(
        &strategy,
        &mut EdgeDecayRecords::new(),
        make_crypto_market(question),
        ("0.95", "0.05"),
        held(1, "20", "0.70"),
        reading(30, None),
    );
    assert!(found.is_empty());
}

#[test]
fn test_short_horizon_model_reversal_uses_tighter_buffer() {
    let question = "Will Bitcoin exceed $90,000 by March 17, 2026?";
    let strategy = make_crypto_strategy();
    // half of the buffer of fifty basis points below a bid of 0.60
    let found = exits(
        &strategy,
        &mut EdgeDecayRecords::new(),
        make_crypto_market(question),
        ("0.60", "0.40"),
        held(1, "15", "0.52"),
        reading(1, Some("0.597")),
    );
    assert_eq!(found.len(), 1, "short-dated model reversal should use a tighter exit buffer");
    assert_eq!(found[0].decision.reason, "model_reversal");
    let found = exits(
        &strategy,
        &mut EdgeDecayRecords::new(),
        make_crypto_market(question),
        ("0.60", "0.40"),
        held(1, "15", "0.52"),
        reading(30, Some("0.597")),
    );
    assert!(found.is_empty());
}

#[test]
fn test_crypto_exit_thresholds_use_event_aware_override_fallback() {
    let mut strategy = make_crypto_strategy();
    let mut general = row("*", "major", "any", "any", "regulatory");
    general.capital_efficiency_multiplier = Some(dec("0.97"));
    general.model_reversal_buffer_multiplier = Some(dec("0.88"));
    let mut short = row("*", "major", "short", "binary", "regulatory");
    short.model_reversal_buffer_multiplier = Some(dec("0.80"));
    strategy.config.calibration_overrides = vec![general, short];

    let thresholds = |days: u32| {
        strategy.effective_exit_thresholds_for_context(
            days,
            Some(&asset(0)),
            CryptoMarketType::Binary,
            Some(CryptoEventSubtype::Regulatory),
        )
    };
    assert_eq!(thresholds(1), (dec("0.8924"), dec("0.002")));
    assert_eq!(thresholds(30), (dec("0.9506"), dec("0.0044")));
}

#[test]
fn test_exit_edge_decay_crypto() {
    let question = "Will Bitcoin exceed $90,000 by April 16, 2026?";
    let mut strategy = make_crypto_strategy();
    strategy.config.hold_min_edge_bps = 1000;
    let mut records = EdgeDecayRecords::new();
    assert_eq!(
        strategy.note_edge_decay_confirmation(
            &mut records,
            NOW - SECOND,
            token(1),
            30,
            dec("0.0025"),
            Some(&asset(0)),
            CryptoMarketType::Binary,
            None,
        ),
        1
    );
    let found = exits(
        &strategy,
        &mut records,
        make_crypto_market(question),
        ("0.60", "0.40"),
        held(1, "10", "0.50"),
        reading(30, Some("0.6975")),
    );
    assert_eq!(found.len(), 1, "confirmed thin-edge state should trigger edge-decay exit");
    assert_eq!(found[0].decision.reason, "edge_decay");
    assert_eq!(found[0].opportunity.size, dec("2.50"));
    // after the trim the token is left alone
    assert!(records.edge_decay_cooldown_active(token(1), NOW));
    let found = exits(
        &strategy,
        &mut records,
        make_crypto_market(question),
        ("0.60", "0.40"),
        held(1, "10", "0.50"),
        reading(30, Some("0.6975")),
    );
    assert!(found.is_empty());
}

#[test]
fn test_edge_decay_exit_respects_cooldown() {
    let strategy = make_crypto_strategy();
    let mut records = EdgeDecayRecords::new();
    assert!(!records.edge_decay_cooldown_active(token(1), NOW));
    strategy.set_edge_decay_cooldown(
        &mut records,
        NOW,
        token(1),
        30,
        Decimal::zero(),
        None,
        CryptoMarketType::Binary,
        None,
    );
    assert!(
        records.edge_decay_cooldown_active(token(1), NOW),
        "token should enter edge-decay cooldown immediately after a trim"
    );
    assert!(records.edge_decay_cooldown_active(token(1), NOW + 1_799 * SECOND));
    assert!(!records.edge_decay_cooldown_active(token(1), NOW + 1_800 * SECOND));
    assert!(!records.edge_decay_cooldown_active(token(2), NOW));
}

#[test]
fn test_short_horizon_hold_edge_threshold_is_stricter() {
    let strategy = make_crypto_strategy();
    let binary = CryptoMarketType::Binary;
    let hold = |days: u32| strategy.effective_hold_edge_threshold_for_context(days, None, binary, None);
    assert_eq!(hold(30), dec("0.01"));
    assert_eq!(hold(7), dec("0.012"));
    assert_eq!(hold(1), dec("0.015"));
    let fraction = |days: u32| strategy.effective_edge_decay_exit_fraction_for_context(days, None, binary, None);
    assert_eq!(fraction(30), dec("0.25"));
    assert_eq!(fraction(7), dec("0.30"));
    assert_eq!(fraction(1), dec("0.375"));
    let scans = |days: u32, gap: &str| {
        strategy.effective_edge_decay_confirmation_scans_for_context(days, dec(gap), None, binary, None)
    };
    assert_eq!(scans(30, "0"), 2);
    assert_eq!(scans(7, "0"), 2);
    assert_eq!(scans(1, "0"), 1);
    assert_eq!(scans(30, "0.0050"), 2);
    assert_eq!(scans(30, "0.0150"), 1);
    let window = |days: u32, gap: &str| {
        strategy.effective_edge_decay_confirmation_window_secs_for_context(days, dec(gap), None, binary, None)
    };
    assert_eq!(window(30, "0"), 900);
    assert_eq!(window(7, "0"), 675);
    assert_eq!(window(1, "0"), 450);
    assert_eq!(window(30, "0.0050"), 675);
    assert_eq!(window(30, "0.0150"), 450);
    assert_eq!(strategy.max_edge_decay_confirmation_window_secs(), 900);
    let cooldown = |days: u32, gap: &str| {
        strategy.effective_edge_decay_cooldown_secs_for_context(days, dec(gap), None, binary, None)
    };
    assert_eq!(cooldown(30, "0"), 1800);
    assert_eq!(cooldown(7, "0"), 1350);
    assert_eq!(cooldown(1, "0"), 900);
    assert_eq!(cooldown(30, "0.0050"), 1350);
    assert_eq!(cooldown(30, "0.0150"), 900);
    assert_eq!(strategy.config.edge_decay_confirmation_scans, 2);
    let planned = |days: u32, confirmations: u32, gap: &str| {
        strategy.planned_edge_decay_exit_size(
            dec("10"),
            dec("0.60"),
            None,
            binary,
            days,
            None,
            confirmations,
            dec(gap),
        )
    };
    assert_eq!(planned(30, 2, "0.0025"), dec("2.50"));
    assert_eq!(planned(30, 4, "0.0025"), dec("4.50"));
    assert_eq!(planned(1, 1, "0.0025"), dec("3.75"));
    assert_eq!(planned(1, 3, "0.0025"), dec("5.75"));
    assert_eq!(planned(30, 2, "0.0050"), dec("3.12"));
    assert_eq!(planned(30, 2, "0.0150"), dec("5.25"));

    let mut records = EdgeDecayRecords::new();
    let note = |records: &mut EdgeDecayRecords, now: u128| {
        strategy.note_edge_decay_confirmation(records, now, token(42), 30, dec("0.0025"), None, binary, None)
    };
    assert_eq!(note(&mut records, NOW), 1);
    assert_eq!(note(&mut records, NOW), 2);
    records.confirmations.insert(
        token(42),
        EdgeDecayConfirmationState { count: 2, last_seen: NOW - 901 * SECOND },
    );
    assert_eq!(note(&mut records, NOW), 1, "expired confirmation window should reset the sequence");
    records.reset_edge_decay_confirmation(token(42));
    assert_eq!(note(&mut records, NOW), 1);
}

#[test]
fn test_max_edge_decay_confirmation_window_respects_config_upper_bound() {
    let mut strategy = make_crypto_strategy();
    strategy.config.edge_decay_confirmation_window_secs = 900;
    strategy.config.medium_horizon_edge_decay_confirmation_window_multiplier = dec("1.10");
    strategy.config.short_horizon_edge_decay_confirmation_window_multiplier = dec("1.40");
    strategy.config.edge_decay_moderate_confirmation_window_multiplier = dec("1.20");
    strategy.config.edge_decay_severe_confirmation_window_multiplier = dec("1.60");
    assert_eq!(strategy.max_edge_decay_confirmation_window_secs(), 2016);
}

#[test]
fn test_max_edge_decay_confirmation_window_includes_override_upper_bound() {
    let mut strategy = make_crypto_strategy();
    strategy.config.edge_decay_confirmation_window_secs = 900;
    let mut only = row("*", "alt", "long", "range", "unlock");
    only.edge_decay_confirmation_window_multiplier = Some(dec("1.80"));
    strategy.config.calibration_overrides = vec![only];
    assert_eq!(strategy.max_edge_decay_confirmation_window_secs(), 1620);
}

const BASELINE_CRYPTO_SIGMA: f64 = 0.60;

fn effective_ttl(refresh_secs: u64, sigma: f64) -> f64 {
    refresh_secs as f64 / (sigma / BASELINE_CRYPTO_SIGMA).max(1.0)
}

#[test]
fn test_dynamic_cache_ttl() {
    let refresh_secs: u64 = 300;
    let ttl = effective_ttl(refresh_secs, 1.2);
    assert!((ttl - 150.0).abs() < 0.01, "sigma=1.2 should halve TTL to 150s, got {}", ttl);
    let ttl = effective_ttl(refresh_secs, 0.6);
    assert!((ttl - 300.0).abs() < 0.01, "sigma=0.6 (baseline) should keep TTL at 300s, got {}", ttl);
    let ttl = effective_ttl(refresh_secs, 0.3);
    assert!((ttl - 300.0).abs() < 0.01, "sigma=0.3 (below baseline) should keep TTL at 300s, got {}", ttl);

    // a price of that age is fetched anew, a younger one is not
    let strategy = make_crypto_strategy();
    let second = 1_000_000_000i128;
    let mut times = PriceTimes::none();
    times.has_spot = true;
    times.spot_at = Some(0);
    let ttl = effective_ttl(refresh_secs, 1.2) as i64;
    assert!(!strategy.plan_refresh(&asset(0), times, 149 * second, ttl).spot);
    assert!(strategy.plan_refresh(&asset(0), times, 150 * second, ttl).spot);
}

#[test]
fn what_was_fetched_is_fresh() {
    let strategy = make_crypto_strategy();
    let now = 1_000_000_000_000i128;
    let refresh = strategy.plan_refresh(&asset(0), PriceTimes::none(), now, 30);
    assert!(refresh.spot && refresh.history);
    let times = PriceTimes::none().after(refresh, now, true);
    let again = strategy.plan_refresh(&asset(0), times, now + 1_000_000_000, 30);
    assert!(!again.spot && !again.history && !again.iv);
}

#[test]
fn test_crypto_spread_filter_rejects_wide_spread() {
    let books = BookSet {
        books: vec![
            book(1, vec![level("0.40", "500")], vec![level("0.52", "500")]),
            make_crypto_book(2, "0.50"),
        ],
    };
    let mut strategy = make_crypto_strategy();
    strategy.config.max_spread_bps = 1200;
    let market = make_crypto_market("Will Bitcoin exceed $50,000 by December 31?");
    let result = detect(&strategy, &books, &market, 200, None, "0.95");
    assert!(result.candidate.is_none(), "Market with 20% spread should be rejected (max 12%)");
    assert!(result.rejections.contains(&"spread_too_wide"), "{:?}", result.rejections);
}

#[test]
fn test_crypto_spread_filter_accepts_narrow_spread() {
    let spread = (dec("0.50") - dec("0.46")) / dec("0.50");
    let spread_bps = (spread * dec("10000")).to_u32().unwrap_or(u32::MAX);
    assert!(spread_bps <= 1200, "8% spread (800 bps) should pass 12% filter");
    assert_eq!(spread_bps, 800);

    let wide_spread = (dec("0.50") - dec("0.40")) / dec("0.50");
    let wide_bps = (wide_spread * dec("10000")).to_u32().unwrap_or(u32::MAX);
    assert!(wide_bps > 1200, "20% spread (2000 bps) should fail 12% filter");
    assert_eq!(wide_bps, 2000);

    assert_eq!(relative_spread(dec("0.50"), dec("0.46")), dec("0.08"));
    let narrow = book(1, vec![level("0.46", "1")], vec![level("0.50", "1")]);
    let wide = book(1, vec![level("0.40", "1")], vec![level("0.50", "1")]);
    assert!(!spread_is_too_wide(Some(&narrow), 1200));
    assert!(spread_is_too_wide(Some(&wide), 1200));
}

#[test]
fn test_crypto_rejects_entry_when_depth_buffer_too_thin() {
    let market = market_with_token_ids(
        make_crypto_market("Will Bitcoin exceed $105,000 by December 31, 2026?"),
        41,
        42,
        bytes(4),
    );
    let thin = BookSet {
        books: vec![
            book(41, vec![level("0.07", "500")], vec![level("0.08", "25")]),
            book(42, vec![level("0.92", "500")], vec![level("0.94", "500")]),
        ],
    };
    let mut strategy = make_crypto_strategy();
    strategy.config.min_entry_depth_ratio = dec("5.0");
    let result = detect(&strategy, &thin, &market, 200, None, "0.15");
    assert!(
        result.candidate.is_none(),
        "entry should be rejected when available depth is below configured depth buffer"
    );
}

fn size(
    strategy: &CryptoAlphaStrategy,
    recent: &Vec<CryptoCandidateDecision>,
    context: Option<&GateRejectContext>,
    retention: Decimal,
    depth_ratio: Decimal,
) -> SizedEntry {
    let entry_book = book(43, vec![level("0.49", "50")], vec![level("0.50", "10")]);
    strategy.size_entry(
        recent,
        &asset(0),
        CryptoDirectionBucket::Up,
        context,
        EntryFunds {
            balance: dec("200"),
            available: Decimal::max_value(),
            position: Decimal::zero(),
            asset_exposure: Decimal::zero(),
            direction_exposure: Decimal::zero(),
        },
        EntryTerms {
            ask_price: dec("0.50"),
            edge: dec("0.40"),
            days_to_resolution: 30,
            event_size_multiplier: Decimal::one(),
            min_size_retention_ratio: retention,
            min_depth_ratio: depth_ratio,
        },
        Some(&entry_book),
    )
}

#[test]
fn test_crypto_size_entry_caps_to_event_aware_depth_ratio_before_execution() {
    let mut strategy = make_crypto_strategy();
    let baseline = size(
        &strategy,
        &vec![],
        None,
        strategy.deps.base_min_size_retention_ratio,
        strategy.config.min_entry_depth_ratio,
    );
    assert_eq!(baseline.size, Some(dec("8.00")));

    let mut only = row("*", "major", "long", "binary", "regulatory");
    only.depth_ratio_multiplier = Some(dec("2.0"));
    strategy.config.calibration_overrides = vec![only];
    let effective_depth_ratio = strategy.config.min_entry_depth_ratio
        * strategy
            .calibration_override_depth_ratio_multiplier(
                &asset(0),
                30,
                CryptoMarketType::Binary,
                Some(CryptoEventSubtype::Regulatory),
            )
            .unwrap();
    let capped = size(
        &strategy,
        &vec![],
        None,
        strategy.deps.base_min_size_retention_ratio,
        effective_depth_ratio,
    );
    assert_eq!(capped.size, Some(dec("4.00")));
}

#[test]
fn test_crypto_size_entry_caps_to_event_aware_size_retention_before_execution() {
    let mut strategy = make_crypto_strategy();
    let baseline = size(
        &strategy,
        &vec![],
        None,
        strategy.deps.base_min_size_retention_ratio,
        Decimal::zero(),
    );
    assert_eq!(baseline.size, Some(dec("18.00")));

    let mut only = row("*", "major", "long", "binary", "regulatory");
    only.size_retention_multiplier = Some(dec("1.25"));
    strategy.config.calibration_overrides = vec![only];
    let retention = (strategy.deps.base_min_size_retention_ratio
        * strategy
            .calibration_override_size_retention_multiplier(
                &asset(0),
                30,
                CryptoMarketType::Binary,
                Some(CryptoEventSubtype::Regulatory),
            )
            .unwrap())
    .min(Decimal::one())
    .max(Decimal::zero());
    let capped = size(&strategy, &vec![], None, retention, Decimal::zero());
    assert_eq!(capped.size, Some(dec("16.00")));
}

fn calendar_context(title: &str) -> EventContext {
    EventContext {
        source: Some("calendar".to_string()),
        title: Some(title.to_string()),
        category: Some("Crypto".to_string()),
        subtype: Some("unlock".to_string()),
    }
}

fn scaled(n: u8, kept: &str) -> CryptoCandidateDecision {
    CryptoCandidateDecision {
        asset: "Bitcoin".to_string(),
        direction: "Up".to_string(),
        action: "gate_scale".to_string(),
        reason: "scaled_for_depth_buffer".to_string(),
        event: calendar_context("Bitcoin unlock event"),
        selected: DecisionSide {
            question: "Will Bitcoin exceed $105,000 by December 31, 2026?".to_string(),
            condition_id: bytes(n),
            market_type: "binary".to_string(),
            modeled_prob: dec("0.60"),
            is_yes: true,
            days_to_resolution: 30,
            estimated_profit: dec("10"),
            efficiency: dec("0.12"),
            executable_profit_retention: dec("0.90"),
            executable_size_retention: dec(kept),
            executable_quality_score: dec("0.72"),
            executable_efficiency: dec("0.11"),
            depth_buffer: dec("1.10"),
        },
        replaced: None,
    }
}

#[test]
fn test_crypto_size_entry_tightens_after_repeated_gate_scale_feedback() {
    let mut strategy = make_crypto_strategy();
    strategy.config.gate_scale_feedback_lookback = 12;
    strategy.config.gate_scale_feedback_trigger_count = 3;
    strategy.config.gate_scale_feedback_step_multiplier = dec("0.90");
    strategy.config.gate_scale_feedback_max_steps = 2;
    let context = GateRejectContext {
        market_type: CryptoMarketType::Binary,
        question: "Will Bitcoin exceed $105,000 by December 31, 2026?".to_string(),
        days_to_resolution: 30,
        modeled_prob: dec("0.62"),
        is_yes: true,
        condition_id: bytes(9),
        event: calendar_context("Bitcoin unlock event"),
    };
    let baseline = size(&strategy, &vec![], Some(&context), Decimal::zero(), Decimal::zero());
    assert_eq!(baseline.size, Some(dec("18.00")));

    let recent = vec![scaled(1, "0.80"), scaled(2, "0.80"), scaled(3, "0.80")];
    let adapted = size(&strategy, &recent, Some(&context), Decimal::zero(), Decimal::zero());
    assert_eq!(adapted.size, Some(dec("16.20")));
}

#[test]
fn test_crypto_gate_scale_feedback_weights_more_severe_scaling_higher() {
    let mut strategy = make_crypto_strategy();
    strategy.config.gate_scale_feedback_lookback = 8;
    strategy.config.gate_scale_feedback_trigger_count = 2;
    strategy.config.gate_scale_feedback_step_multiplier = dec("0.90");
    strategy.config.gate_scale_feedback_max_steps = 2;
    let multiplier = |recent: &Vec<CryptoCandidateDecision>| {
        strategy.adaptive_gate_scale_size_multiplier(
            recent,
            &asset(0),
            Some(CryptoEventSubtype::Unlock),
            Some("scaled_for_depth_buffer"),
        )
    };
    let mild = multiplier(&vec![scaled(21, "0.95"), scaled(22, "0.95")]);
    let severe = multiplier(&vec![scaled(42, "0.50"), scaled(22, "0.95"), scaled(21, "0.95")]);
    assert!(severe < mild);
}

#[test]
fn test_crypto_event_window_raises_min_edge_threshold() {
    let market = market_with_token_ids(
        make_crypto_market("Will Bitcoin exceed $105,000 by December 31, 2026?"),
        31,
        32,
        bytes(3),
    );
    let books = BookSet {
        books: vec![
            book(31, vec![level("0.07", "500")], vec![level("0.08", "500")]),
            book(32, vec![level("0.92", "500")], vec![level("0.94", "500")]),
        ],
    };
    let strategy = make_crypto_strategy();
    // 0.12 becomes about 0.15: an edge of seven hundred basis points
    let baseline = detect(&strategy, &books, &market, 200, None, "0.12");
    assert!(baseline.candidate.is_some(), "baseline market should pass normal min-edge filter");
    let window = event("bitcoin event", EventImpact::High, EventCategory::Crypto);
    let tightened = detect(&strategy, &books, &market, 200, Some(&window), "0.12");
    assert!(
        tightened.candidate.is_none(),
        "event window should tighten min-edge enough to reject the same market"
    );
}

#[test]
fn test_crypto_single_market_event_title_influences_event_aware_sizing() {
    let plain_market = market_with_token_ids(
        make_crypto_market("Will Solana exceed $200 by December 31, 2026?"),
        81,
        82,
        bytes(8),
    );
    let mut titled_market = plain_market.clone();
    titled_market.event_title = Some("Solana token unlock".to_string());
    let books = BookSet {
        books: vec![
            book(81, vec![level("0.17", "500")], vec![level("0.18", "500")]),
            book(82, vec![level("0.81", "500")], vec![level("0.83", "500")]),
        ],
    };
    let mut strategy = make_crypto_strategy();
    let mut only = row("*", "alt", "long", "binary", "unlock");
    only.size_multiplier = Some(dec("0.50"));
    strategy.config.calibration_overrides = vec![only];
    let unlock = event("solana token unlock", EventImpact::Medium, EventCategory::Crypto);

    let plain = detect(&strategy, &books, &plain_market, 200, None, "0.45")
        .candidate
        .expect("plain market should produce candidate");
    let titled = detect(&strategy, &books, &titled_market, 200, Some(&unlock), "0.45")
        .candidate
        .expect("event-titled market should produce candidate");
    assert!(
        titled.opportunity.size < plain.opportunity.size,
        "event title should tighten single-market event-aware sizing when it carries the matching subtype"
    );
}

fn thresholds(
    strategy: &CryptoAlphaStrategy,
    place: usize,
    days: u32,
    event: Option<&CalendarEvent>,
) -> (u32, u32) {
    strategy.effective_entry_thresholds_for_context(&asset(place), CryptoMarketType::Binary, days, event)
}

#[test]
fn test_crypto_event_thresholds_scale_by_impact() {
    let strategy = make_crypto_strategy();
    assert_eq!(thresholds(&strategy, 0, 30, None), (500, 1500));
    let low = event("bitcoin event", EventImpact::Low, EventCategory::Crypto);
    assert_eq!(thresholds(&strategy, 0, 30, Some(&low)), (600, 1350));
    let high = event("bitcoin event", EventImpact::High, EventCategory::Crypto);
    assert_eq!(thresholds(&strategy, 0, 30, Some(&high)), (1000, 975));
}

#[test]
fn test_crypto_unlock_event_subtype_tightens_entry_thresholds_more_than_generic_event() {
    let generic_strategy = make_crypto_strategy();
    let mut unlock_strategy = make_crypto_strategy();
    let mut only = row("*", "alt", "long", "binary", "unlock");
    only.min_edge_multiplier = Some(dec("1.05"));
    only.max_spread_multiplier = Some(dec("0.98"));
    unlock_strategy.config.calibration_overrides = vec![only];
    let generic_event = event("solana ecosystem event", EventImpact::Medium, EventCategory::Crypto);
    let unlock_event = event("solana token unlock", EventImpact::Medium, EventCategory::Crypto);

    let generic = thresholds(&generic_strategy, 2, 30, Some(&generic_event));
    let unlock = thresholds(&unlock_strategy, 2, 30, Some(&unlock_event));
    assert!(unlock.0 > generic.0);
    assert!(unlock.1 < generic.1);
}

#[test]
fn test_crypto_range_entry_thresholds_use_range_override_market_type() {
    let mut strategy = make_crypto_strategy();
    let mut binary_row = row("*", "alt", "long", "binary", "unlock");
    binary_row.min_edge_multiplier = Some(dec("1.50"));
    binary_row.max_spread_multiplier = Some(dec("0.50"));
    let mut range_row = row("*", "alt", "long", "range", "unlock");
    range_row.min_edge_multiplier = Some(dec("1.08"));
    range_row.max_spread_multiplier = Some(dec("0.97"));
    strategy.config.calibration_overrides = vec![binary_row, range_row];
    let unlock = event("solana token unlock", EventImpact::Medium, EventCategory::Crypto);

    let of = |market_type: CryptoMarketType| {
        strategy.effective_entry_thresholds_for_context(&asset(2), market_type, 30, Some(&unlock))
    };
    let binary = of(CryptoMarketType::Binary);
    let range = of(CryptoMarketType::Range);
    assert!(binary.0 > range.0, "binary row should not leak into range thresholds");
    assert!(binary.1 < range.1, "binary row should not leak into range thresholds");
}

#[test]
fn test_crypto_event_sigma_scales_by_impact() {
    let strategy = make_crypto_strategy();
    assert_eq!(strategy.effective_event_sigma_multiplier(&asset(0), None), (Decimal::one(), None));
    for (impact, expected) in
        [(EventImpact::Low, "1.26"), (EventImpact::Medium, "1.38"), (EventImpact::High, "1.56")]
    {
        let e = event("bitcoin event", impact, EventCategory::Crypto);
        assert_eq!(
            strategy.effective_event_sigma_multiplier(&asset(0), Some(&e)),
            (dec(expected), Some(CryptoEventSubtype::Other))
        );
    }
}

#[test]
fn test_crypto_event_size_scales_by_impact() {
    let strategy = make_crypto_strategy();
    assert_eq!(strategy.effective_event_size_multiplier(&asset(0), None), (Decimal::one(), None));
    for (impact, expected) in
        [(EventImpact::Low, "0.6750"), (EventImpact::Medium, "0.5625"), (EventImpact::High, "0.3750")]
    {
        let e = event("bitcoin event", impact, EventCategory::Crypto);
        assert_eq!(
            strategy.effective_event_size_multiplier(&asset(0), Some(&e)),
            (dec(expected), Some(CryptoEventSubtype::Other))
        );
    }
}

#[test]
fn test_macro_event_category_adds_sigma_and_size_overlay() {
    let strategy = make_crypto_strategy();
    let e = event("bitcoin event", EventImpact::Medium, EventCategory::Macro);
    assert_eq!(strategy.effective_event_sigma_multiplier(&asset(0), Some(&e)), (dec("1.265"), None));
    assert_eq!(strategy.effective_event_size_multiplier(&asset(0), Some(&e)), (dec("0.6375"), None));
}

#[test]
fn test_crypto_event_category_adds_stronger_overlay_than_macro() {
    let strategy = make_crypto_strategy();
    let big = event("bitcoin event", EventImpact::Medium, EventCategory::Macro);
    let own = event("bitcoin event", EventImpact::Medium, EventCategory::Crypto);
    assert!(
        strategy.effective_event_sigma_multiplier(&asset(0), Some(&own)).0
            > strategy.effective_event_sigma_multiplier(&asset(0), Some(&big)).0
    );
    assert!(
        strategy.effective_event_size_multiplier(&asset(0), Some(&own)).0
            < strategy.effective_event_size_multiplier(&asset(0), Some(&big)).0
    );
}

#[test]
fn test_macro_event_overlay_does_not_expand_to_alt_assets() {
    let strategy = make_crypto_strategy();
    let e = event("solana event", EventImpact::Medium, EventCategory::Macro);
    assert_eq!(strategy.effective_event_sigma_multiplier(&asset(2), Some(&e)), (dec("1.15"), None));
    assert_eq!(strategy.effective_event_size_multiplier(&asset(2), Some(&e)), (dec("0.75"), None));
}

fn sigma(strategy: &CryptoAlphaStrategy, place: usize, event: &CalendarEvent) -> Decimal {
    strategy.effective_sigma_multiplier(&asset(place), 30, CryptoMarketType::Binary, Some(event))
}

fn size_multiplier(strategy: &CryptoAlphaStrategy, place: usize, event: &CalendarEvent) -> Decimal {
    strategy.effective_size_multiplier(&asset(place), 30, CryptoMarketType::Binary, Some(event))
}

#[test]
fn test_crypto_unlock_event_subtype_is_more_conservative_than_generic_crypto_event() {
    let generic_strategy = make_crypto_strategy();
    let mut unlock_strategy = make_crypto_strategy();
    let mut only = row("*", "alt", "long", "binary", "unlock");
    only.sigma_multiplier = Some(dec("1.07"));
    only.size_multiplier = Some(dec("0.90"));
    unlock_strategy.config.calibration_overrides = vec![only];
    let generic = event("solana ecosystem event", EventImpact::Medium, EventCategory::Crypto);
    let unlock = event("solana token unlock", EventImpact::Medium, EventCategory::Crypto);
    assert!(sigma(&unlock_strategy, 2, &unlock) > sigma(&generic_strategy, 2, &generic));
    assert!(size_multiplier(&unlock_strategy, 2, &unlock) < size_multiplier(&generic_strategy, 2, &generic));
}

#[test]
fn test_alt_regulatory_event_overlay_is_lighter_than_major_regulatory() {
    let regulatory = |class: &str, values: [&str; 4]| {
        let mut strategy = make_crypto_strategy();
        let mut only = row("*", class, "long", "binary", "regulatory");
        only.sigma_multiplier = Some(dec(values[0]));
        only.size_multiplier = Some(dec(values[1]));
        only.min_edge_multiplier = Some(dec(values[2]));
        only.max_spread_multiplier = Some(dec(values[3]));
        strategy.config.calibration_overrides = vec![only];
        strategy
    };
    let major_strategy = regulatory("major", ["1.08", "0.88", "1.12", "0.92"]);
    let alt_strategy = regulatory("alt", ["1.05", "0.92", "1.08", "0.95"]);
    let major = event("bitcoin sec approval", EventImpact::Medium, EventCategory::Crypto);
    let alt = event("solana sec approval", EventImpact::Medium, EventCategory::Crypto);
    assert!(sigma(&alt_strategy, 2, &alt) < sigma(&major_strategy, 0, &major));
    assert!(size_multiplier(&alt_strategy, 2, &alt) > size_multiplier(&major_strategy, 0, &major));
    assert!(
        thresholds(&alt_strategy, 2, 30, Some(&alt)).0 < thresholds(&major_strategy, 0, 30, Some(&major)).0
    );
}

#[test]
fn test_crypto_horizon_size_scales_by_bucket() {
    let strategy = make_crypto_strategy();
    assert_eq!(strategy.effective_horizon_size_multiplier(30), Decimal::one());
    assert_eq!(strategy.effective_horizon_size_multiplier(7), dec("0.80"));
    assert_eq!(strategy.effective_horizon_size_multiplier(1), dec("0.60"));
}

#[test]
fn test_crypto_probability_calibration_shrinks_extremes_by_asset_and_horizon() {
    let strategy = make_crypto_strategy();
    let raw = dec("0.90");
    let binary = CryptoMarketType::Binary;
    let calibrated = |place: usize, days: u32, market_type: CryptoMarketType| {
        strategy.calibrate_probability(&asset(place), days, market_type, raw)
    };
    assert_eq!(calibrated(0, 30, binary), dec("0.8686"));
    assert_eq!(calibrated(1, 30, binary), dec("0.86084"));
    assert_eq!(calibrated(2, 30, binary), dec("0.84144"));
    assert_eq!(calibrated(0, 1, binary), dec("0.81331"));
    assert_eq!(calibrated(2, 1, binary), dec("0.790224"));
    assert_eq!(calibrated(0, 30, CryptoMarketType::Range), dec("0.842"));
}

#[test]
fn calibrating_draws_towards_one_half_and_keeps_the_order() {
    let strategy = make_crypto_strategy();
    let calibrated = |percent: i64| {
        strategy.calibrate_probability(
            &asset(0),
            1,
            CryptoMarketType::Binary,
            Decimal::new(percent, 2),
        )
    };
    let half = dec("0.5");
    let mut before = Decimal::zero();
    for percent in 0..=100i64 {
        let raw = Decimal::new(percent, 2);
        let drawn = calibrated(percent);
        assert!(drawn >= before);
        if raw < half {
            assert!(raw < drawn && drawn < half);
        } else if raw > half {
            assert!(half < drawn && drawn < raw);
        } else {
            assert_eq!(drawn, half);
        }
        before = drawn;
    }
}

#[test]
fn both_sides_of_a_market_are_calibrated_alike() {
    let mut strategy = make_crypto_strategy();
    // a factor whose products are rounded
    strategy.config.btc_probability_calibration = dec("0.7777777777777777777777777777");
    let calibrated = |raw: Decimal| {
        strategy.calibrate_probability(&asset(0), 1, CryptoMarketType::Binary, raw)
    };
    for n in 0..=9i64 {
        let raw = Decimal::new(n * 104_729, 6);
        let other = Decimal::one() - raw;
        assert_eq!(calibrated(raw) + calibrated(other), Decimal::one());
    }
    assert_eq!(calibrated(dec("0.5")), dec("0.5"));
}

#[test]
fn test_crypto_probability_calibration_override_table() {
    let mut strategy = make_crypto_strategy();
    let mut first = row("BTCUSDT", "", "short", "binary", "");
    first.probability_calibration = Some(dec("0.82"));
    first.sigma_multiplier = Some(dec("1.10"));
    first.size_multiplier = Some(dec("0.70"));
    let mut second = row("*", "", "short", "range", "");
    second.probability_calibration = Some(dec("0.78"));
    second.sigma_multiplier = Some(dec("1.20"));
    second.size_multiplier = Some(dec("0.65"));
    strategy.config.calibration_overrides = vec![first, second];
    strategy.config.override_probability_blend = Decimal::one();
    strategy.config.override_probability_max_delta_bps = 10_000;

    let raw = dec("0.90");
    let binary = CryptoMarketType::Binary;
    let range = CryptoMarketType::Range;
    assert_eq!(strategy.calibrate_probability(&asset(0), 1, binary, raw), dec("0.828"));
    assert_eq!(strategy.calibrate_probability(&asset(2), 1, range, raw), dec("0.812"));
    assert_eq!(strategy.calibrate_probability(&asset(0), 30, binary, raw), dec("0.8686"));
    assert_eq!(strategy.calibration_override_sigma_multiplier(&asset(0), 1, binary, None), Some(dec("1.10")));
    assert_eq!(strategy.calibration_override_size_multiplier(&asset(2), 1, range, None), Some(dec("0.65")));
    assert_eq!(strategy.calibration_override_sigma_multiplier(&asset(0), 30, binary, None), None);
}

#[test]
fn test_crypto_probability_calibration_override_blends_with_baseline() {
    let mut strategy = make_crypto_strategy();
    let mut only = row("BTCUSDT", "", "short", "binary", "");
    only.probability_calibration = Some(dec("0.20"));
    strategy.config.calibration_overrides = vec![only];
    strategy.config.override_probability_blend = dec("0.50");
    strategy.config.override_probability_max_delta_bps = 10_000;
    assert_eq!(
        strategy.effective_probability_calibration_factor(&asset(0), 1, CryptoMarketType::Binary),
        dec("0.49163750")
    );
}

#[test]
fn test_crypto_probability_calibration_override_clamps_to_max_delta() {
    let mut strategy = make_crypto_strategy();
    let mut only = row("BTCUSDT", "", "short", "binary", "");
    only.probability_calibration = Some(dec("0.20"));
    strategy.config.calibration_overrides = vec![only];
    strategy.config.override_probability_blend = Decimal::one();
    strategy.config.override_probability_max_delta_bps = 500;
    assert_eq!(
        strategy.effective_probability_calibration_factor(&asset(0), 1, CryptoMarketType::Binary),
        dec("0.733275")
    );
}

#[test]
fn test_crypto_multiplier_override_blends_with_baseline() {
    let mut strategy = make_crypto_strategy();
    let mut only = row("BTCUSDT", "", "short", "binary", "");
    only.sigma_multiplier = Some(dec("1.40"));
    strategy.config.calibration_overrides = vec![only];
    strategy.config.override_multiplier_blend = dec("0.50");
    strategy.config.override_multiplier_max_delta_bps = 10_000;
    assert_eq!(
        strategy.calibration_override_sigma_multiplier(&asset(0), 1, CryptoMarketType::Binary, None),
        Some(dec("1.20"))
    );
}

#[test]
fn test_crypto_multiplier_override_clamps_to_max_delta() {
    let mut strategy = make_crypto_strategy();
    let mut only = row("BTCUSDT", "", "short", "binary", "");
    only.sigma_multiplier = Some(dec("2.00"));
    strategy.config.calibration_overrides = vec![only];
    strategy.config.override_multiplier_blend = Decimal::one();
    strategy.config.override_multiplier_max_delta_bps = 2_500;
    assert_eq!(
        strategy.calibration_override_sigma_multiplier(&asset(0), 1, CryptoMarketType::Binary, None),
        Some(dec("1.25"))
    );
}

#[test]
fn test_crypto_calibration_override_table_can_match_asset_class_and_event_subtype() {
    let mut strategy = make_crypto_strategy();
    let mut alt = row("*", "alt", "short", "binary", "unlock");
    alt.sigma_multiplier = Some(dec("1.14"));
    alt.size_multiplier = Some(dec("0.82"));
    let mut major = row("*", "major", "short", "binary", "unlock");
    major.sigma_multiplier = Some(dec("1.06"));
    major.size_multiplier = Some(dec("0.90"));
    strategy.config.calibration_overrides = vec![alt, major];
    let binary = CryptoMarketType::Binary;
    let unlock = Some(CryptoEventSubtype::Unlock);
    assert_eq!(strategy.calibration_override_sigma_multiplier(&asset(2), 1, binary, unlock), Some(dec("1.14")));
    assert_eq!(strategy.calibration_override_size_multiplier(&asset(0), 1, binary, unlock), Some(dec("0.90")));
    assert_eq!(
        strategy.calibration_override_sigma_multiplier(
            &asset(2),
            1,
            binary,
            Some(CryptoEventSubtype::Regulatory)
        ),
        None
    );
}

#[test]
fn test_crypto_calibration_override_prefers_more_specific_rule() {
    let mut strategy = make_crypto_strategy();
    let mut general = row("*", "major", "any", "any", "unlock");
    general.sigma_multiplier = Some(dec("1.10"));
    general.size_multiplier = Some(dec("0.90"));
    general.min_edge_multiplier = Some(dec("1.05"));
    general.max_spread_multiplier = Some(dec("0.98"));
    let mut specific = row("*", "major", "short", "binary", "unlock");
    specific.sigma_multiplier = Some(dec("1.04"));
    specific.size_multiplier = Some(dec("0.92"));
    specific.min_edge_multiplier = Some(dec("1.02"));
    specific.max_spread_multiplier = Some(dec("0.99"));
    strategy.config.calibration_overrides = vec![general, specific];
    let binary = CryptoMarketType::Binary;
    let unlock = Some(CryptoEventSubtype::Unlock);
    assert_eq!(strategy.calibration_override_sigma_multiplier(&asset(0), 1, binary, unlock), Some(dec("1.04")));
    assert_eq!(strategy.calibration_override_size_multiplier(&asset(0), 1, binary, unlock), Some(dec("0.92")));
    assert_eq!(
        strategy.calibration_override_value(&asset(0), 1, binary, unlock, OverrideField::MinEdge),
        Some(dec("1.02"))
    );
    assert_eq!(
        strategy.calibration_override_value(&asset(0), 1, binary, unlock, OverrideField::MaxSpread),
        Some(dec("0.99"))
    );
}

#[test]
fn test_crypto_hold_edge_uses_event_aware_override_fallback() {
    let mut strategy = make_crypto_strategy();
    let mut general = row("*", "alt", "any", "any", "unlock");
    general.hold_edge_multiplier = Some(dec("1.10"));
    general.edge_decay_exit_multiplier = Some(dec("1.15"));
    let mut specific = row("*", "alt", "short", "binary", "unlock");
    specific.sigma_multiplier = Some(dec("1.10"));
    specific.size_multiplier = Some(dec("0.82"));
    specific.min_edge_multiplier = Some(dec("1.08"));
    specific.max_spread_multiplier = Some(dec("0.95"));
    strategy.config.calibration_overrides = vec![general, specific];
    assert_eq!(
        strategy.effective_hold_edge_threshold_for_context(
            1,
            Some(&asset(2)),
            CryptoMarketType::Binary,
            Some(CryptoEventSubtype::Unlock),
        ),
        dec("0.0165")
    );
}

#[test]
fn test_crypto_edge_decay_exit_fraction_uses_event_aware_override() {
    let mut strategy = make_crypto_strategy();
    let mut only = row("*", "major", "any", "any", "regulatory");
    only.hold_edge_multiplier = Some(dec("1.12"));
    only.edge_decay_exit_multiplier = Some(dec("1.20"));
    strategy.config.calibration_overrides = vec![only];
    assert_eq!(
        strategy.effective_edge_decay_exit_fraction_for_context(
            30,
            Some(&asset(0)),
            CryptoMarketType::Binary,
            Some(CryptoEventSubtype::Regulatory),
        ),
        dec("0.30")
    );
}

#[test]
fn test_crypto_edge_decay_confirmation_and_cooldown_use_event_aware_override_fallback() {
    let mut strategy = make_crypto_strategy();
    let mut general = row("*", "major", "any", "any", "regulatory");
    general.edge_decay_confirmation_scan_multiplier = Some(dec("0.85"));
    general.edge_decay_confirmation_window_multiplier = Some(dec("0.85"));
    general.edge_decay_cooldown_multiplier = Some(dec("0.90"));
    let mut specific = row("*", "major", "short", "binary", "regulatory");
    specific.sigma_multiplier = Some(dec("1.08"));
    specific.size_multiplier = Some(dec("0.88"));
    specific.min_edge_multiplier = Some(dec("1.12"));
    specific.max_spread_multiplier = Some(dec("0.92"));
    strategy.config.calibration_overrides = vec![general, specific];
    let binary = CryptoMarketType::Binary;
    let regulatory = Some(CryptoEventSubtype::Regulatory);
    let bitcoin = asset(0);
    assert_eq!(
        strategy.effective_edge_decay_confirmation_scans_for_context(
            1,
            Decimal::zero(),
            Some(&bitcoin),
            binary,
            regulatory
        ),
        1
    );
    assert_eq!(
        strategy.effective_edge_decay_confirmation_window_secs_for_context(
            1,
            Decimal::zero(),
            Some(&bitcoin),
            binary,
            regulatory
        ),
        382
    );
    assert_eq!(
        strategy.effective_edge_decay_cooldown_secs_for_context(
            30,
            Decimal::zero(),
            Some(&bitcoin),
            binary,
            regulatory
        ),
        1620
    );
}

#[test]
fn test_crypto_entry_thresholds_apply_calibration_override_multipliers() {
    let mut strategy = make_crypto_strategy();
    let mut only = row("*", "alt", "short", "binary", "unlock");
    only.min_edge_multiplier = Some(dec("1.10"));
    only.max_spread_multiplier = Some(dec("0.90"));
    strategy.config.calibration_overrides = vec![only];
    let unlock = event("solana token unlock", EventImpact::Medium, EventCategory::Crypto);
    assert_eq!(thresholds(&strategy, 2, 1, Some(&unlock)), (1238, 810));
}

#[test]
fn test_crypto_entry_thresholds_tighten_for_short_horizon() {
    let strategy = make_crypto_strategy();
    assert_eq!(thresholds(&strategy, 0, 1, None), (750, 1125));
    assert_eq!(thresholds(&strategy, 0, 7, None), (600, 1350));
    assert_eq!(thresholds(&strategy, 0, 30, None), (500, 1500));
}

fn plain(v: Decimal) -> f64 {
    v.mantissa() as f64 / 10f64.powi(v.scale() as i32)
}

/// The weighted geometric mean by which the execution of an entry is scored.
fn quality(strategy: &CryptoAlphaStrategy, books: &BookSet, opp: &TradingOpportunity) -> Decimal {
    let book = books.get(opp.execution_plan.token_id);
    let blended = strategy.execution_quality_weights().map(|(profit, size, slippage)| {
        let mean = plain(entry_executable_profit_retention(opp, book)).powf(plain(profit))
            * plain(entry_executable_size_retention(opp, book)).powf(plain(size))
            * plain(strategy.entry_executable_slippage_quality(opp, book)).powf(plain(slippage));
        let value = rust_decimal::Decimal::from_f64_retain(mean).unwrap();
        Decimal::from_parts(value.mantissa(), value.scale()).unwrap()
    });
    strategy.entry_execution_quality_score(blended)
}

fn make_entry_candidate(opportunity: TradingOpportunity) -> CryptoEntryCandidate {
    CryptoEntryCandidate {
        opportunity,
        market_type: CryptoMarketType::Binary,
        modeled_prob: dec("0.60"),
        days_to_resolution: 30,
        is_yes: true,
        event: EventContext { source: None, title: None, category: None, subtype: None },
    }
}

fn opportunity(id: u64, name: &str, spread: &str, profit: &str, size: &str, price: &str, order: &str) -> TradingOpportunity {
    TradingOpportunity {
        stamp: STAMP,
        strategy_type: StrategyType::CryptoAlpha,
        condition_id: bytes(id as u8),
        question: name.to_string(),
        spread: dec(spread),
        estimated_profit: dec(profit),
        size: dec(size),
        min_profit_retention_ratio_multiplier: None,
        max_slippage_bps_multiplier: None,
        min_size_retention_ratio_multiplier: None,
        execution_plan: DirectionalBuy {
            token_id: token(id),
            side: TradeSide::Buy,
            price: dec(price),
            size: dec(order),
            condition_id: bytes(id as u8),
        },
    }
}

fn keep(
    strategy: &CryptoAlphaStrategy,
    slots: &mut Vec<EntrySlot>,
    books: &BookSet,
    direction: CryptoDirectionBucket,
    candidate: CryptoEntryCandidate,
) -> Option<CryptoCandidateDecision> {
    let candidate_quality = quality(strategy, books, &candidate.opportunity);
    let existing_quality = slots
        .iter()
        .find(|slot| slot.direction == direction)
        .map_or(Decimal::zero(), |slot| quality(strategy, books, &slot.candidate.opportunity));
    strategy.keep_better_entry(slots, books, &asset(0), direction, candidate, candidate_quality, existing_quality)
}

fn after(books: BookSet, opportunities: Vec<TradingOpportunity>) -> Vec<String> {
    let strategy = make_crypto_strategy();
    let mut slots: Vec<EntrySlot> = vec![];
    let mut kept = vec![];
    for opp in opportunities {
        keep(&strategy, &mut slots, &books, CryptoDirectionBucket::Up, make_entry_candidate(opp));
        assert_eq!(slots.len(), 1);
        assert_eq!(slots[0].symbol, asset(0).binance_symbol);
        kept.push(slots[0].candidate.opportunity.question.clone());
    }
    kept
}

#[test]
fn test_keep_better_entry_prefers_higher_efficiency_then_lower_cost_and_better_depth() {
    let books = BookSet {
        books: vec![
            book(1, vec![], vec![level("0.50", "20")]),
            book(2, vec![], vec![level("0.40", "30")]),
            book(3, vec![], vec![level("0.80", "20")]),
            book(4, vec![], vec![level("0.40", "10")]),
        ],
    };
    let kept = after(
        books,
        vec![
            opportunity(1, "baseline", "0.10", "4.00", "20", "0.50", "20"),
            opportunity(2, "better-efficiency", "0.09", "4.00", "10", "0.40", "10"),
            opportunity(4, "worse-depth", "0.11", "4.00", "10", "0.40", "10"),
            opportunity(3, "same-efficiency-higher-cost", "0.20", "4.00", "20", "0.80", "10"),
        ],
    );
    assert_eq!(kept[0], "baseline");
    assert_eq!(kept[1], "better-efficiency");
    assert_eq!(kept[2], "better-efficiency", "shallower candidate should not replace equally efficient deeper one");
    assert_eq!(kept[3], "better-efficiency", "higher-cost candidate should not replace equally efficient incumbent");
}

#[test]
fn test_keep_better_entry_prefers_more_executable_candidate_over_raw_profit() {
    let books = BookSet {
        books: vec![
            book(21, vec![], vec![level("0.50", "1"), level("0.70", "4")]),
            book(22, vec![], vec![level("0.40", "5")]),
        ],
    };
    let kept = after(
        books,
        vec![
            opportunity(21, "higher-raw-profit", "0.10", "1.50", "5", "0.70", "5"),
            opportunity(22, "better-executable", "0.09", "1.20", "5", "0.40", "5"),
        ],
    );
    assert_eq!(kept[1], "better-executable");
}

#[test]
fn test_keep_better_entry_prefers_higher_profit_retention_before_executable_efficiency() {
    let books = BookSet {
        books: vec![book(31, vec![], vec![level("0.40", "1")]), book(32, vec![], vec![level("0.50", "5")])],
    };
    let kept = after(
        books,
        vec![
            opportunity(31, "higher-efficiency-low-retention", "0.10", "5.00", "5", "0.40", "5"),
            opportunity(32, "lower-efficiency-full-retention", "0.10", "0.80", "5", "0.50", "5"),
        ],
    );
    assert_eq!(kept[1], "lower-efficiency-full-retention");
}

#[test]
fn test_keep_better_entry_prefers_depth_headroom_before_executable_efficiency() {
    let books = BookSet {
        books: vec![book(35, vec![], vec![level("0.50", "6")]), book(36, vec![], vec![level("0.50", "12")])],
    };
    let kept = after(
        books,
        vec![
            opportunity(35, "higher-efficiency-thinner-depth", "0.10", "1.25", "5", "0.50", "5"),
            opportunity(36, "lower-efficiency-deeper-depth", "0.10", "1.00", "5", "0.50", "5"),
        ],
    );
    assert_eq!(kept[1], "lower-efficiency-deeper-depth");
}

#[test]
fn test_keep_better_entry_prefers_lower_executable_slippage_when_retention_ties() {
    let books = BookSet {
        books: vec![
            book(33, vec![], vec![level("0.40", "1"), level("0.50", "4")]),
            book(34, vec![], vec![level("0.50", "5")]),
        ],
    };
    let kept = after(
        books,
        vec![
            opportunity(33, "higher-slippage", "0.10", "1.50", "5", "0.50", "5"),
            opportunity(34, "lower-slippage", "0.10", "1.50", "5", "0.50", "5"),
        ],
    );
    assert_eq!(kept[1], "lower-slippage");
}

/// Looks at each market and keeps the best entries, as a scan does.
fn scan(
    strategy: &CryptoAlphaStrategy,
    books: &BookSet,
    markets: &Vec<MarketInfo>,
    probs: &[&str],
    held: &Vec<HeldPosition>,
) -> Vec<TradingOpportunity> {
    let assets = build_token_asset_map(markets, &vec![], &vec![]);
    let directions = build_token_direction_map(markets, &vec![], &vec![]);
    let mut slots: Vec<EntrySlot> = vec![];
    for planned in plan_markets(markets, &vec![]) {
        let account = account_for(
            &planned.asset,
            held,
            &assets,
            &directions,
            dec("200"),
            Decimal::max_value(),
            vec![TokenPosition { token_id: token(0), size: Decimal::zero() }],
        );
        let outcome = strategy.detect_crypto_opportunity(
            &vec![],
            books,
            &account,
            &markets[planned.place],
            Some(TODAY + 200),
            TODAY,
            None,
            ModelReading::Probability(dec(probs[planned.place])),
            STAMP,
        );
        if let Some(candidate) = outcome.candidate {
            let direction = entry_direction(&directions, candidate.opportunity.execution_plan.token_id);
            keep(strategy, &mut slots, books, direction, candidate);
        }
    }
    gather_opportunities(slots, vec![])
}

#[test]
fn test_crypto_asset_exposure_cap_limits_new_entry() {
    let markets = vec![
        market_with_token_ids(
            make_crypto_market("Will Bitcoin exceed $500,000 by December 31, 2026?"),
            11,
            12,
            bytes(1),
        ),
        market_with_token_ids(
            make_crypto_market("Will Bitcoin exceed $50,000 by December 31, 2026?"),
            21,
            22,
            bytes(2),
        ),
    ];
    let books = BookSet {
        books: vec![
            make_crypto_book(11, "0.60"),
            make_crypto_book(12, "0.40"),
            make_crypto_book(21, "0.18"),
            make_crypto_book(22, "0.82"),
        ],
    };
    let mut strategy = make_crypto_strategy();
    strategy.config.max_exposure_per_asset_pct = dec("0.25");
    let entries = scan(&strategy, &books, &markets, &["0.60", "0.99"], &vec![held(11, "50", "0.60")]);
    let entry = entries.first().expect("expected one entry opportunity");
    assert!(
        entry.execution_plan.price * entry.execution_plan.size <= dec("20.00"),
        "asset cap should limit new BTC exposure to remaining $20"
    );
}

#[test]
fn test_crypto_scan_keeps_only_best_entry_per_asset() {
    let markets = vec![
        market_with_token_ids(
            make_crypto_market("Will Bitcoin exceed $90,000 by December 31, 2026?"),
            31,
            32,
            bytes(3),
        ),
        market_with_token_ids(
            make_crypto_market("Will Bitcoin exceed $100,000 by December 31, 2026?"),
            41,
            42,
            bytes(4),
        ),
    ];
    let books = BookSet {
        books: vec![
            make_crypto_book(31, "0.50"),
            make_crypto_book(32, "0.48"),
            make_crypto_book(41, "0.20"),
            make_crypto_book(42, "0.78"),
        ],
    };
    let entries = scan(&make_crypto_strategy(), &books, &markets, &["0.99", "0.99"], &vec![]);
    assert_eq!(entries.len(), 1, "only one BTC entry should survive dedupe");
}

#[test]
fn test_crypto_scan_keeps_opposite_directions_for_same_asset() {
    let markets = vec![
        market_with_token_ids(
            make_crypto_market("Will Bitcoin exceed $100,000 by December 31, 2026?"),
            51,
            52,
            bytes(5),
        ),
        market_with_token_ids(
            make_crypto_market("Will Bitcoin dip to $85,000 by December 31, 2026?"),
            61,
            62,
            bytes(6),
        ),
    ];
    let books = BookSet {
        books: vec![
            make_crypto_book(51, "0.20"),
            make_crypto_book(52, "0.78"),
            make_crypto_book(61, "0.20"),
            make_crypto_book(62, "0.78"),
        ],
    };
    let entries = scan(&make_crypto_strategy(), &books, &markets, &["0.40", "0.40"], &vec![]);
    assert_eq!(entries.len(), 2, "up/down BTC candidates should coexist");
}

#[test]
fn test_crypto_asset_direction_exposure_cap_limits_same_direction_entry() {
    let markets = vec![
        market_with_token_ids(
            make_crypto_market("Will Bitcoin exceed $90,000 by December 31, 2026?"),
            71,
            72,
            bytes(7),
        ),
        market_with_token_ids(
            make_crypto_market("Will Bitcoin exceed $100,000 by December 31, 2026?"),
            81,
            82,
            bytes(8),
        ),
    ];
    let books = BookSet {
        books: vec![
            make_crypto_book(71, "0.50"),
            make_crypto_book(72, "0.48"),
            make_crypto_book(81, "0.20"),
            make_crypto_book(82, "0.78"),
        ],
    };
    let mut strategy = make_crypto_strategy();
    strategy.config.max_exposure_per_asset_pct = dec("0.90");
    strategy.config.max_exposure_per_asset_direction_pct = dec("0.20");
    let entries = scan(&strategy, &books, &markets, &["0.99", "0.99"], &vec![held(71, "70", "0.60")]);
    assert!(entries.is_empty(), "same-direction BTC entry should be blocked by direction cap");
}

fn event_of_ranges() -> NegRiskEvent {
    NegRiskEvent {
        neg_risk_market_id: bytes(70),
        title: "Bitcoin price on March 1".to_string(),
        markets: vec![
            market_with_token_ids(make_crypto_market("$89,999 or below"), 101, 102, bytes(71)),
            market_with_token_ids(make_crypto_market("$90,000 - $94,999"), 111, 112, bytes(72)),
            market_with_token_ids(make_crypto_market("$95,000 or above"), 121, 122, bytes(73)),
        ],
        fee_rate_bps: 200,
    }
}

fn books_of_ranges() -> BookSet {
    BookSet {
        books: vec![
            make_crypto_book(101, "0.20"),
            make_crypto_book(102, "0.76"),
            make_crypto_book(111, "0.30"),
            make_crypto_book(112, "0.66"),
            make_crypto_book(121, "0.40"),
            make_crypto_book(122, "0.56"),
        ],
    }
}

#[test]
fn the_outcome_with_the_best_edge_is_entered() {
    let strategy = make_crypto_strategy();
    let outcome = strategy.detect_crypto_neg_risk(
        &vec![],
        &books_of_ranges(),
        &account(),
        &event_of_ranges(),
        &asset(0),
        30,
        None,
        true,
        &vec![Some(dec("0.05")), Some(dec("0.80")), Some(dec("0.15"))],
        STAMP,
    );
    let candidate = outcome.candidate.expect("the middle range is underpriced");
    assert_eq!(candidate.opportunity.execution_plan.token_id, token(111));
    assert!(candidate.is_yes);
    assert_eq!(candidate.market_type, CryptoMarketType::Range);
    // 0.5 + 0.3 * 0.95 * 0.90
    assert_eq!(candidate.modeled_prob, dec("0.7565"));
    assert_eq!(candidate.opportunity.spread, dec("0.4365"));
}

#[test]
fn an_event_without_prices_is_not_entered() {
    let strategy = make_crypto_strategy();
    let readings = vec![Some(dec("0.05")), Some(dec("0.80")), Some(dec("0.15"))];
    let look = |has_data: bool, readings: &Vec<Option<Decimal>>| {
        strategy.detect_crypto_neg_risk(
            &vec![],
            &books_of_ranges(),
            &account(),
            &event_of_ranges(),
            &asset(0),
            30,
            None,
            has_data,
            readings,
            STAMP,
        )
    };
    let outcome = look(false, &readings);
    assert!(outcome.candidate.is_none());
    // a number that is none ends the look at the whole event
    let outcome = look(true, &vec![Some(dec("0.05")), None, Some(dec("0.15"))]);
    assert!(outcome.candidate.is_none());
}

fn group() -> BinaryEventGroup {
    BinaryEventGroup {
        title: "What price will Bitcoin hit in 2026?".to_string(),
        markets: vec![
            market_with_token_ids(make_crypto_market("Will Bitcoin reach $150,000?"), 201, 202, bytes(81)),
            market_with_token_ids(make_crypto_market("Will Bitcoin dip to $60,000?"), 211, 212, bytes(82)),
        ],
    }
}

fn group_reading(prob: &str) -> GroupReading {
    GroupReading { target_day: Some(TODAY + 200), event: None, full_event: None, raw_prob: Some(dec(prob)) }
}

#[test]
fn the_best_market_of_a_group_is_entered() {
    let strategy = make_crypto_strategy();
    let books = BookSet {
        books: vec![
            make_crypto_book(201, "0.20"),
            make_crypto_book(202, "0.76"),
            make_crypto_book(211, "0.20"),
            make_crypto_book(212, "0.76"),
        ],
    };
    assert_eq!(find_group_asset(&group()).unwrap().name, "Bitcoin");
    let outcome = strategy.detect_crypto_group(
        &vec![],
        &books,
        &account(),
        &group(),
        &vec![group_reading("0.30"), group_reading("0.60")],
        TODAY,
        true,
        STAMP,
    );
    let candidate = outcome.candidate.expect("the dip is underpriced");
    assert_eq!(candidate.opportunity.execution_plan.token_id, token(211));
    assert_eq!(candidate.opportunity.condition_id, bytes(82));
}

#[test]
fn a_decision_on_one_market_of_a_group_counts_for_the_size_of_another() {
    let mut strategy = make_crypto_strategy();
    strategy.config.gate_scale_feedback_trigger_count = 1;
    strategy.config.gate_scale_feedback_step_multiplier = dec("0.5");
    strategy.config.gate_scale_feedback_max_steps = 1;
    let books = BookSet {
        books: vec![
            make_crypto_book(201, "0.20"),
            make_crypto_book(202, "0.76"),
            make_crypto_book(211, "0.20"),
            make_crypto_book(212, "0.76"),
        ],
    };
    let size = |recent: Vec<CryptoCandidateDecision>, first: GroupReading| {
        let outcome = strategy.detect_crypto_group(
            &recent,
            &books,
            &account(),
            &group(),
            &vec![first, group_reading("0.60")],
            TODAY,
            true,
            STAMP,
        );
        outcome.candidate.expect("the dip is underpriced").opportunity.size
    };
    let cut = || {
        let mut decision = scaled(1, "0.95");
        decision.event = EventContext { source: None, title: None, category: None, subtype: None };
        vec![decision]
    };
    let near = || group_reading("0.30");
    let far = || GroupReading { target_day: Some(TODAY + 100_000), ..group_reading("0.30") };
    let whole = size(vec![], near());
    // the cut weighs 1.05, which reaches the trigger
    assert!(size(cut(), near()) < whole);
    // one decision later it weighs 0.8925
    assert_eq!(size(cut(), far()), whole);
}

#[test]
fn a_scan_keeps_the_better_entry_and_remembers_the_decisions() {
    let strategy = make_crypto_strategy();
    let books = BookSet {
        books: vec![
            make_crypto_book(201, "0.20"),
            make_crypto_book(202, "0.76"),
            make_crypto_book(211, "0.20"),
            make_crypto_book(212, "0.76"),
        ],
    };
    let directions = build_token_direction_map(&group().markets, &vec![], &vec![]);
    let mut scan = EntryScan::start(vec![scaled(1, "0.95")]);
    let look = |scan: &EntryScan, place: usize, prob: &str| {
        strategy.detect_crypto_opportunity(
            &scan.recent,
            &books,
            &account(),
            &group().markets[place],
            Some(TODAY + 30),
            TODAY,
            None,
            ModelReading::Probability(dec(prob)),
            STAMP,
        )
    };
    let first = look(&scan, 0, "0.60");
    assert_eq!(scan.rival(&directions, &asset(0), first.candidate.as_ref().unwrap()), None);
    strategy.take_outcome(&mut scan, &books, &directions, &asset(0), first, dec("0.5"), dec("0"));
    assert_eq!(scan.slots.len(), 1);
    assert_eq!(scan.recent[0].action, "seed");
    assert_eq!(scan.recent.last().unwrap().action, "gate_scale");
    // a worse one in the same direction is turned down
    let again = look(&scan, 0, "0.60");
    assert_eq!(scan.rival(&directions, &asset(0), again.candidate.as_ref().unwrap()), Some(0));
    strategy.take_outcome(&mut scan, &books, &directions, &asset(0), again, dec("0.4"), dec("0.5"));
    assert_eq!(scan.slots.len(), 1);
    assert_eq!(scan.recent[0].action, "reject");
    assert_eq!(scan.recent[1].action, "seed");
    // the other direction has a place of its own
    let down = look(&scan, 1, "0.60");
    strategy.take_outcome(&mut scan, &books, &directions, &asset(0), down, dec("0.4"), dec("0"));
    assert_eq!(scan.slots.len(), 2);
    assert_ne!(scan.slots[0].direction, scan.slots[1].direction);
}

#[test]
fn markets_of_a_group_are_not_looked_at_alone() {
    let mut markets = group().markets;
    markets.push(market_with_token_ids(make_crypto_market("Will Ethereum reach $9,000?"), 301, 302, bytes(83)));
    markets.push(market_with_token_ids(make_crypto_market("Will it rain?"), 311, 312, bytes(84)));
    let planned = plan_markets(&markets, &vec![group()]);
    assert_eq!(planned.len(), 1);
    assert_eq!(planned[0].place, 2);
    assert_eq!(planned[0].asset.name, "Ethereum");
    assert_eq!(plan_groups(&vec![group()]).len(), 1);
}

#[test]
fn an_event_too_far_away_comes_with_its_rejection() {
    let mut strategy = make_crypto_strategy();
    strategy.config.max_entry_days = 10;
    let noon = (TODAY as i128 - 719_163) * DAY + 12 * HOUR;
    let readings = |day: i32| vec![EventReading { title_day: Some(TODAY + day), event: None }];
    let near = strategy.plan_events(&vec![event_of_ranges()], &readings(10), noon);
    assert_eq!(near.len(), 1);
    assert!(near[0].rejection.is_none());
    assert_eq!(near[0].days, 10);
    let far = strategy.plan_events(&vec![event_of_ranges()], &readings(11), noon);
    assert_eq!(far[0].rejection.as_ref().unwrap().reason, "beyond_entry_horizon");
}

#[test]
fn exposure_is_counted_by_asset_and_direction() {
    let markets = vec![
        market_with_token_ids(make_crypto_market("Will Bitcoin exceed $90,000?"), 71, 72, bytes(7)),
        market_with_token_ids(make_crypto_market("Will Ethereum exceed $9,000?"), 81, 82, bytes(8)),
    ];
    let assets = build_token_asset_map(&markets, &vec![event_of_ranges()], &vec![]);
    let directions = build_token_direction_map(&markets, &vec![event_of_ranges()], &vec![]);
    let held = vec![held(71, "10", "0.6"), held(72, "10", "0.3"), held(81, "10", "0.5"), held(111, "10", "0.1")];
    assert_eq!(current_asset_exposure(&asset(0), &held, &assets), dec("10"));
    assert_eq!(current_asset_exposure(&asset(1), &held, &assets), dec("5"));
    let of = |direction: CryptoDirectionBucket| {
        current_asset_direction_exposure(&asset(0), direction, &held, &assets, &directions)
    };
    assert_eq!(of(CryptoDirectionBucket::Up), dec("6"));
    assert_eq!(of(CryptoDirectionBucket::Down), dec("3"));
    assert_eq!(of(CryptoDirectionBucket::InsideRange), dec("1"));
    assert_eq!(of(CryptoDirectionBucket::OutsideRange), dec("0"));
}

#[test]
fn only_days_to_come_count() {
    assert_eq!(days_until(Some(TODAY + 3), TODAY), Some(3));
    assert_eq!(days_until(Some(TODAY), TODAY), None);
    assert_eq!(days_until(None, TODAY), None);
}

#[test]
fn a_model_without_prices_makes_no_entry() {
    let strategy = make_crypto_strategy();
    let books = BookSet { books: vec![make_crypto_book(1, "0.20"), make_crypto_book(2, "0.76")] };
    let market = make_crypto_market("Will Bitcoin exceed $90,000?");
    let look = |model: ModelReading| {
        strategy.detect_crypto_opportunity(
            &vec![],
            &books,
            &account(),
            &market,
            Some(TODAY + 30),
            TODAY,
            None,
            model,
            STAMP,
        )
    };
    assert!(look(ModelReading::NoData).candidate.is_none());
    assert!(look(ModelReading::Unusable).candidate.is_none());
    assert!(look(ModelReading::Probability(dec("0.9"))).candidate.is_some());
}

#[test]
fn the_model_looks_at_least_one_day_ahead() {
    assert_eq!(count_days_left(Some(TODAY + 5), TODAY), 5);
    assert_eq!(count_days_left(Some(TODAY), TODAY), 1);
    assert_eq!(count_days_left(Some(TODAY - 5), TODAY), 1);
    assert_eq!(count_days_left(None, TODAY), 30);
}
