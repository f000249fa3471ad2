//! Leaving a position.
use crate::crypto_alpha::assets::CryptoAsset;
use crate::crypto_alpha::context::{decision_event_context, market_text};
use crate::crypto_alpha::decisions::EventContext;
use crate::crypto_alpha::edge_decay::{EdgeDecayRecords, NANOS};
use crate::crypto_alpha::labels::{
    parse_event_subtype_label, CalendarEvent, CryptoEventSubtype, CryptoMarketType,
};
use crate::crypto_alpha::question::{
    parse_crypto_event_title, parse_crypto_outcome_range, parse_crypto_question,
};
use crate::crypto_alpha::quotes::bid_price;
use crate::crypto_alpha::strategy::CryptoAlphaStrategy;
use crate::decimal::Decimal;
use crate::types::{
    find_market, BookSet, DirectionalBuy, MarketInfo, NegRiskEvent, Stamp, StrategyType, TradeSide,
    TradingOpportunity, B256, U256,
};
use vstd::prelude::*;

verus! {

use crate::crypto_alpha::assets::{asset_record, AssetEntry};
use crate::crypto_alpha::calibration::entry_of;
use crate::crypto_alpha::context::{event_notes, titled};
use crate::crypto_alpha::decisions::EventNotes;
use crate::crypto_alpha::edge_decay::{confirmed_again, cooled_until, cooling, DecayState};
use crate::crypto_alpha::labels::{market_type_label, subtype_of_label};
use crate::crypto_alpha::question::{question_of, range_of, titled_asset};
use crate::crypto_alpha::quotes::bid;
use crate::profitability::{fee_of, law_sale_earns_what_the_price_gained, sell_figures};
use crate::rounding::{
    at_least, close, law_arithmetic_keeps_order, lemma_fraction_representable, lemma_pow10_unit,
    lemma_sum_close, minus, plus, pow10, representable, times, unit, written_as,
};
use crate::types::{
    figure, market_with, text_of, zero_id, MarketRecord, OpportunityRecord, OrderRecord,
};

/// A position: how many shares of a token are held, and what one cost on average.
#[derive(Clone, Copy, Debug)]
pub struct HeldPosition {
    pub token_id: U256,
    pub size: Decimal,
    pub avg_cost: Decimal,
}

/// What is known of a position's market from elsewhere.
#[derive(Debug)]
pub struct ExitReading {
    /// The day that the market's question asks about.
    pub target_day: Option<i32>,
    /// The day that the title of its event speaks of.
    pub title_day: Option<i32>,
    /// The calendar's entry that matches the market.
    pub event: Option<CalendarEvent>,
    /// How likely the price model takes the held side to be.
    pub held_prob: Option<Decimal>,
}

/// The record of a position that is left.
#[derive(Debug)]
pub struct CryptoExitDecision {
    pub asset: Option<String>,
    pub reason: String,
    pub event: EventContext,
    pub question: String,
    pub market_type: Option<String>,
    pub held_is_yes: Option<bool>,
    pub modeled_prob: Option<Decimal>,
    pub days_to_resolution: u32,
    pub best_bid: Decimal,
    pub avg_cost: Decimal,
    pub size: Decimal,
}

/// What the record of an exit says.
pub struct ExitRecord {
    pub asset: Option<Seq<char>>,
    pub reason: Seq<char>,
    pub event: EventNotes,
    pub question: Seq<char>,
    pub market_type: Option<Seq<char>>,
    pub held_is_yes: Option<bool>,
    pub modeled_prob: Option<int>,
    pub days_to_resolution: u32,
    pub best_bid: int,
    pub avg_cost: int,
    pub size: int,
}

impl View for CryptoExitDecision {
    type V = ExitRecord;

    open spec fn view(&self) -> ExitRecord {
        ExitRecord {
            asset: text_of(self.asset),
            reason: self.reason@,
            event: self.event@,
            question: self.question@,
            market_type: text_of(self.market_type),
            held_is_yes: self.held_is_yes,
            modeled_prob: figure(self.modeled_prob),
            days_to_resolution: self.days_to_resolution,
            best_bid: self.best_bid@,
            avg_cost: self.avg_cost@,
            size: self.size@,
        }
    }
}

/// An exit: the proposed sale, and the record of why.
#[derive(Debug)]
pub struct ExitProposal {
    pub decision: CryptoExitDecision,
    pub opportunity: TradingOpportunity,
}

/// What an exit says.
pub struct ProposalRecord {
    pub decision: ExitRecord,
    pub opportunity: OpportunityRecord,
}

impl View for ExitProposal {
    type V = ProposalRecord;

    open spec fn view(&self) -> ProposalRecord {
        ProposalRecord { decision: self.decision@, opportunity: self.opportunity@ }
    }
}

pub open spec fn proposal_at(proposal: Option<ExitProposal>) -> Option<ProposalRecord> {
    match proposal {
        Some(p) => Some(p@),
        None => None,
    }
}

/// The days until a market resolves that nothing is known of.
pub const UNKNOWN_DAYS: u32 = 30;

/// The days until a day, at least one, or thirty where it is not known.
pub open spec fn days_left(day: Option<i32>, today: i32) -> u32 {
    match day {
        Some(d) => if d > today {
            (d - today) as u32
        } else {
            1
        },
        None => UNKNOWN_DAYS,
    }
}

/// The days until a day, at least one, or thirty where it is not known.
pub fn count_days_left(day: Option<i32>, today: i32) -> (r: u32)
    ensures
        r == days_left(day, today),
{
    match day {
        Some(d) => if d > today {
            (d as i64 - today as i64) as u32
        } else {
            1
        },
        None => UNKNOWN_DAYS,
    }
}

/// What is looked at when a position is to be kept or left.
pub struct ExitView {
    pub days: u32,
    pub asset: Option<AssetEntry>,
    pub market_type: CryptoMarketType,
    pub market_label: Option<Seq<char>>,
    pub event: EventNotes,
    pub subtype: Option<CryptoEventSubtype>,
}

/// The asset that an event's title is about, where the market has one.
pub open spec fn event_asset(market: MarketRecord) -> Option<AssetEntry> {
    match market.event_title {
        Some(title) => titled_asset(title),
        None => None,
    }
}

pub open spec fn exit_view(market: MarketRecord, reading: ExitReading, today: i32) -> ExitView {
    let question = question_of(market.question, reading.target_day);
    let event = event_notes(titled(market.event_title, market.question), reading.event);
    ExitView {
        days: if question is Some {
            days_left(reading.target_day, today)
        } else if event_asset(market) is Some {
            days_left(reading.title_day, today)
        } else {
            UNKNOWN_DAYS
        },
        asset: match question {
            Some(q) => Some(q.asset),
            None => event_asset(market),
        },
        market_type: if question is Some {
            CryptoMarketType::Binary
        } else {
            CryptoMarketType::Range
        },
        market_label: if question is Some {
            Some(market_type_label(CryptoMarketType::Binary))
        } else if range_of(market.question) is Some {
            Some(market_type_label(CryptoMarketType::Range))
        } else {
            None
        },
        event,
        subtype: subtype_of_label(event.subtype),
    }
}

/// The held token is the YES token, where the market has tokens.
pub open spec fn held_side(market: MarketRecord, token_id: U256) -> Option<bool> {
    if market.tokens.len() > 0 {
        Some(market.tokens[0].token_id == token_id)
    } else {
        None
    }
}

/// The proposed sale of a part of a position, with what it earns.
pub open spec fn exit_trade(
    market: MarketRecord,
    token_id: U256,
    size: int,
    avg_cost: int,
    best_bid: int,
    stamp: Stamp,
) -> Option<OpportunityRecord> {
    sale(
        market.condition_id,
        market.question,
        market.fee_rate_bps,
        token_id,
        size,
        avg_cost,
        best_bid,
        stamp,
    )
}

pub open spec fn sale(
    condition_id: Seq<u8>,
    question: Seq<char>,
    fee_rate_bps: u32,
    token_id: U256,
    size: int,
    avg_cost: int,
    best_bid: int,
    stamp: Stamp,
) -> Option<OpportunityRecord> {
    match (
        sell_figures(best_bid, avg_cost, size, fee_rate_bps as int),
        minus(Some(best_bid), Some(avg_cost)),
    ) {
        (Some(estimate), Some(spread)) => Some(
            OpportunityRecord {
                stamp,
                strategy_type: StrategyType::CryptoAlpha,
                condition_id,
                question: "[EXIT] "@ + question,
                spread,
                estimated_profit: estimate.net_profit,
                size,
                min_profit_retention_ratio_multiplier: None,
                max_slippage_bps_multiplier: None,
                min_size_retention_ratio_multiplier: None,
                execution_plan: OrderRecord {
                    token_id,
                    side: TradeSide::Sell,
                    price: best_bid,
                    size,
                    condition_id,
                },
            },
        ),
        _ => None,
    }
}

/// The fee in basis points where a token's market is not known.
pub const UNKNOWN_FEE_BPS: u32 = 200;

pub open spec fn fee_at(market: Option<&MarketInfo>) -> u32 {
    match market {
        Some(m) => m.fee_rate_bps,
        None => UNKNOWN_FEE_BPS,
    }
}

pub open spec fn question_at(market: Option<&MarketInfo>) -> Seq<char> {
    match market {
        Some(m) => m.question@,
        None => ""@,
    }
}

/// What comes of a position: an exit or none, and the records of decaying edges afterwards.
pub struct ExitResult {
    pub proposal: Option<ProposalRecord>,
    pub decay: DecayState,
}

pub open spec fn unconfirmed(decay: DecayState, token_id: U256) -> DecayState {
    DecayState { confirmations: decay.confirmations.remove(token_id), ..decay }
}

/// Leaves a position, or a part of it.
pub open spec fn left(
    market: MarketRecord,
    view: ExitView,
    held: HeldPosition,
    best_bid: int,
    reason: Seq<char>,
    modeled_prob: Option<int>,
    size: int,
    stamp: Stamp,
    decay: DecayState,
) -> Option<ExitResult> {
    match exit_trade(market, held.token_id, size, held.avg_cost@, best_bid, stamp) {
        None => None,
        Some(opportunity) => Some(
            ExitResult {
                proposal: Some(
                    ProposalRecord {
                        decision: ExitRecord {
                            asset: match view.asset {
                                Some(a) => Some(a.name),
                                None => None,
                            },
                            reason,
                            event: view.event,
                            question: market.question,
                            market_type: view.market_label,
                            held_is_yes: held_side(market, held.token_id),
                            modeled_prob,
                            days_to_resolution: view.days,
                            best_bid,
                            avg_cost: held.avg_cost@,
                            size,
                        },
                        opportunity,
                    },
                ),
                decay,
            },
        ),
    }
}

/// The bid has fallen through the stop-loss.
pub open spec fn through_stop_loss(avg_cost: int, ratio: int, best_bid: int) -> Option<bool> {
    if avg_cost > 0 && ratio > 0 {
        match times(Some(avg_cost), Some(ratio)) {
            Some(stop) => Some(best_bid < stop),
            None => None,
        }
    } else {
        Some(false)
    }
}

impl CryptoAlphaStrategy {
    /// What comes of a position whose edge has fallen short: the sight is counted, and once there
    /// are enough of them and the token is not left alone, a part is sold.
    pub open spec fn decayed(
        &self,
        decay: DecayState,
        market: MarketRecord,
        view: ExitView,
        held: HeldPosition,
        best_bid: int,
        prob: int,
        shortfall: int,
        now: u128,
        stamp: Stamp,
    ) -> Option<ExitResult> {
        let token_id = held.token_id;
        match self.window_secs(view.days, shortfall, view.asset, view.market_type, view.subtype) {
            None => None,
            Some(window) => match self.seen_again(decay, token_id, now, window) {
                None => None,
                Some(after) => {
                    let count = confirmed_again(decay.confirmations, token_id, now, window).count;
                    match (
                        self.exit_size(
                            held.size@,
                            best_bid,
                            view.asset,
                            view.market_type,
                            view.days,
                            view.subtype,
                            count,
                            shortfall,
                        ),
                        self.scans_needed(
                            view.days,
                            shortfall,
                            view.asset,
                            view.market_type,
                            view.subtype,
                        ),
                    ) {
                        (Some(_), _) if cooling(after, token_id, now) => Some(
                            ExitResult { proposal: None, decay: after },
                        ),
                        (Some(size), Some(needed)) => if count < needed {
                            Some(ExitResult { proposal: None, decay: after })
                        } else {
                            match self.cooldown_secs(
                                view.days,
                                shortfall,
                                view.asset,
                                view.market_type,
                                view.subtype,
                            ) {
                                Some(secs) => if now + secs * NANOS <= u128::MAX {
                                    left(
                                        market,
                                        view,
                                        held,
                                        best_bid,
                                        "edge_decay"@,
                                        Some(prob),
                                        size,
                                        stamp,
                                        cooled_until(
                                            after,
                                            token_id,
                                            now,
                                            (now + secs * NANOS) as u128,
                                        ),
                                    )
                                } else {
                                    None
                                },
                                None => None,
                            }
                        },
                        _ => None,
                    }
                },
            },
        }
    }

    /// What comes of a position given what the model says of the held side.
    pub open spec fn judged_by_model(
        &self,
        decay: DecayState,
        market: MarketRecord,
        view: ExitView,
        held: HeldPosition,
        best_bid: int,
        buffer: int,
        prob: int,
        now: u128,
        stamp: Stamp,
    ) -> Option<ExitResult> {
        match (
            self.hold_edge(view.days, view.asset, view.market_type, view.subtype),
            minus(Some(best_bid), Some(buffer)),
        ) {
            (Some(hold_edge), Some(reversal)) => if prob < reversal {
                left(
                    market,
                    view,
                    held,
                    best_bid,
                    "model_reversal"@,
                    Some(prob),
                    held.size@,
                    stamp,
                    unconfirmed(decay, held.token_id),
                )
            } else {
                match plus(Some(best_bid), Some(hold_edge)) {
                    None => None,
                    Some(worth) => if prob < worth {
                        match at_least(minus(Some(worth), Some(prob)), Some(0)) {
                            None => None,
                            Some(shortfall) => self.decayed(
                                decay,
                                market,
                                view,
                                held,
                                best_bid,
                                prob,
                                shortfall,
                                now,
                                stamp,
                            ),
                        }
                    } else {
                        Some(
                            ExitResult {
                                proposal: None,
                                decay: unconfirmed(decay, held.token_id),
                            },
                        )
                    },
                }
            },
            _ => None,
        }
    }

    /// Why a position is left whatever the model says: its price no longer pays for its capital, or
    /// it has fallen through the stop-loss.
    pub open spec fn forced_exit(
        &self,
        view: ExitView,
        held: HeldPosition,
        best_bid: int,
    ) -> Option<Option<Seq<char>>> {
        match self.capital_efficiency(view.days, view.asset, view.market_type, view.subtype) {
            None => None,
            Some(threshold) => if best_bid >= threshold {
                Some(Some("capital_efficiency"@))
            } else {
                match through_stop_loss(
                    held.avg_cost@,
                    self.config.relative_stop_loss_ratio@,
                    best_bid,
                ) {
                    None => None,
                    Some(true) => Some(Some("relative_stop_loss"@)),
                    Some(false) => Some(None),
                }
            },
        }
    }

    /// What comes of a position in a known market that is bid for.
    pub open spec fn position_judged(
        &self,
        decay: DecayState,
        market: MarketRecord,
        held: HeldPosition,
        best_bid: int,
        reading: ExitReading,
        today: i32,
        now: u128,
        stamp: Stamp,
    ) -> Option<ExitResult> {
        let view = exit_view(market, reading, today);
        match (
            self.forced_exit(view, held, best_bid),
            self.exit_buffer(view.days, view.asset, view.market_type, view.subtype),
        ) {
            (Some(Some(reason)), Some(_)) => left(
                market,
                view,
                held,
                best_bid,
                reason,
                None,
                held.size@,
                stamp,
                unconfirmed(decay, held.token_id),
            ),
            (Some(None), Some(buffer)) => match reading.held_prob {
                Some(prob) => if view.market_label is Some {
                    self.judged_by_model(
                        decay,
                        market,
                        view,
                        held,
                        best_bid,
                        buffer,
                        prob@,
                        now,
                        stamp,
                    )
                } else {
                    Some(ExitResult { proposal: None, decay })
                },
                None => Some(ExitResult { proposal: None, decay }),
            },
            _ => None,
        }
    }

    /// What comes of a position: nothing where it is not bid for or its market is not known.
    pub open spec fn position_exit(
        &self,
        decay: DecayState,
        books: BookSet,
        markets: Seq<MarketInfo>,
        held: HeldPosition,
        reading: ExitReading,
        today: i32,
        now: u128,
        stamp: Stamp,
    ) -> Option<ExitResult> {
        match (bid(books.book(held.token_id)), market_with(markets, held.token_id)) {
            (Some(best_bid), Some(i)) => self.position_judged(
                decay,
                markets[i]@,
                held,
                best_bid,
                reading,
                today,
                now,
                stamp,
            ),
            _ => Some(ExitResult { proposal: None, decay }),
        }
    }
}

/// What comes of the first positions.
pub struct ExitsState {
    pub proposals: Seq<ProposalRecord>,
    pub decay: DecayState,
}

pub open spec fn proposals_of(v: Seq<ExitProposal>) -> Seq<ProposalRecord> {
    v.map_values(|p: ExitProposal| p@)
}

/// What is known of a position's market, with the values behind it.
struct ExitFacts {
    days: u32,
    asset: Option<CryptoAsset>,
    market_type: CryptoMarketType,
    market_label: Option<&'static str>,
    event: EventContext,
    subtype: Option<CryptoEventSubtype>,
}

impl View for ExitFacts {
    type V = ExitView;

    closed spec fn view(&self) -> ExitView {
        ExitView {
            days: self.days,
            asset: asset_record(self.asset),
            market_type: self.market_type,
            market_label: match self.market_label {
                Some(t) => Some(t@),
                None => None,
            },
            event: self.event@,
            subtype: self.subtype,
        }
    }
}

fn asset_ref(asset: &Option<CryptoAsset>) -> (r: Option<&CryptoAsset>)
    ensures
        entry_of(r) == asset_record(*asset),
{
    match asset {
        Some(a) => Some(a),
        None => None,
    }
}

pub fn asset_of_event(market: &MarketInfo) -> (r: Option<CryptoAsset>)
    ensures
        asset_record(r) == event_asset(market@),
{
    match &market.event_title {
        Some(title) => parse_crypto_event_title(title.as_str()),
        None => None,
    }
}

fn exit_facts(market: &MarketInfo, reading: &ExitReading, today: i32) -> (r: ExitFacts)
    ensures
        r@ == exit_view(market@, *reading, today),
{
    let text = market_text(&market.event_title, market.question.as_str());
    let calendar = match &reading.event {
        Some(e) => Some(e),
        None => None,
    };
    let event = decision_event_context(text.as_str(), calendar);
    let subtype = match &event.subtype {
        Some(l) => parse_event_subtype_label(Some(l.as_str())),
        None => parse_event_subtype_label(None),
    };
    match parse_crypto_question(market.question.as_str(), reading.target_day) {
        Some(q) => ExitFacts {
            days: count_days_left(reading.target_day, today),
            asset: Some(q.asset),
            market_type: CryptoMarketType::Binary,
            market_label: Some(CryptoMarketType::Binary.as_str()),
            event,
            subtype,
        },
        None => {
            let asset = asset_of_event(market);
            let is_range = parse_crypto_outcome_range(market.question.as_str()).is_some();
            ExitFacts {
                days: if asset.is_some() {
                    count_days_left(reading.title_day, today)
                } else {
                    UNKNOWN_DAYS
                },
                asset,
                market_type: CryptoMarketType::Range,
                market_label: if is_range {
                    Some(CryptoMarketType::Range.as_str())
                } else {
                    None
                },
                event,
                subtype,
            }
        },
    }
}

/// The place of the first event, from the `i`-th on, that the token is one of the outcomes of.
pub open spec fn event_holding(events: Seq<NegRiskEvent>, token_id: U256, i: nat) -> Option<int>
    decreases events.len() - i,
{
    if i >= events.len() {
        None
    } else if market_with(events[i as int].markets@, token_id) is Some {
        Some(i as int)
    } else {
        event_holding(events, token_id, i + 1)
    }
}

/// The first event that the token is one of the outcomes of.
pub fn find_event(events: &Vec<NegRiskEvent>, token_id: U256) -> (r: Option<usize>)
    ensures
        event_holding(events@, token_id, 0) == (match r {
            Some(i) => Some(i as int),
            None => None,
        }),
        r is Some ==> r->0 < events@.len(),
{
    let mut i: usize = 0;
    while i < events.len()
        invariant
            i <= events@.len(),
            event_holding(events@, token_id, 0) == event_holding(events@, token_id, i as nat),
        decreases events@.len() - i,
    {
        if find_market(&events[i].markets, token_id).is_some() {
            return Some(i);
        }
        i = i + 1;
    }
    None
}

impl CryptoAlphaStrategy {
    /// The proposed sale of a part of a position. Where the token's market is not known, the fee is
    /// taken to be two per cent.
    pub fn build_exit_opportunity(
        &self,
        token_id: U256,
        size: Decimal,
        avg_cost: Decimal,
        best_bid: Decimal,
        market: Option<&MarketInfo>,
        stamp: Stamp,
    ) -> (r: TradingOpportunity)
        requires
            sell_figures(best_bid@, avg_cost@, size@, fee_at(market) as int) is Some,
            minus(Some(best_bid@), Some(avg_cost@)) is Some,
        ensures
            sale(
                r.condition_id@,
                question_at(market),
                fee_at(market),
                token_id,
                size@,
                avg_cost@,
                best_bid@,
                stamp,
            ) == Some(r@),
            market matches Some(m) ==> r.condition_id@ == m.condition_id@,
            market is None ==> r.condition_id@ == zero_id(),
    {
        let condition_id = match market {
            Some(m) => m.condition_id,
            None => B256::zero(),
        };
        let fee_rate_bps: u32 = match market {
            Some(m) => m.fee_rate_bps,
            None => UNKNOWN_FEE_BPS,
        };
        let question = match market {
            Some(m) => m.question.as_str(),
            None => "",
        };
        let estimate = self.profit_calc.directional_sell_profit(
            best_bid,
            avg_cost,
            size,
            fee_rate_bps,
        );
        TradingOpportunity {
            stamp,
            strategy_type: StrategyType::CryptoAlpha,
            condition_id,
            question: "[EXIT] ".to_owned().concat(question),
            spread: best_bid - avg_cost,
            estimated_profit: estimate.net_profit,
            size,
            min_profit_retention_ratio_multiplier: None,
            max_slippage_bps_multiplier: None,
            min_size_retention_ratio_multiplier: None,
            execution_plan: DirectionalBuy {
                token_id,
                side: TradeSide::Sell,
                price: best_bid,
                size,
                condition_id,
            },
        }
    }

    fn leave(
        &self,
        market: &MarketInfo,
        facts: ExitFacts,
        held: HeldPosition,
        best_bid: Decimal,
        reason: &'static str,
        modeled_prob: Option<Decimal>,
        size: Decimal,
        stamp: Stamp,
        decay: Ghost<DecayState>,
    ) -> (r: ExitProposal)
        requires
            left(
                market@,
                facts@,
                held,
                best_bid@,
                reason@,
                figure(modeled_prob),
                size@,
                stamp,
                decay@,
            ) is Some,
        ensures
            left(
                market@,
                facts@,
                held,
                best_bid@,
                reason@,
                figure(modeled_prob),
                size@,
                stamp,
                decay@,
            ) == Some(ExitResult { proposal: Some(r@), decay: decay@ }),
    {
        let opportunity = self.build_exit_opportunity(
            held.token_id,
            size,
            held.avg_cost,
            best_bid,
            Some(market),
            stamp,
        );
        let decision = CryptoExitDecision {
            asset: match facts.asset {
                Some(a) => Some(a.name.to_owned()),
                None => None,
            },
            reason: reason.to_owned(),
            event: facts.event,
            question: market.question.clone(),
            market_type: match facts.market_label {
                Some(t) => Some(t.to_owned()),
                None => None,
            },
            held_is_yes: if market.tokens.len() > 0 {
                Some(market.tokens[0].token_id == held.token_id)
            } else {
                None
            },
            modeled_prob,
            days_to_resolution: facts.days,
            best_bid,
            avg_cost: held.avg_cost,
            size,
        };
        ExitProposal { decision, opportunity }
    }

    fn forced_exit_reason_of(
        &self,
        facts: &ExitFacts,
        held: HeldPosition,
        best_bid: Decimal,
        threshold: Decimal,
    ) -> (r: Option<&'static str>)
        requires
            self.forced_exit(facts@, held, best_bid@) is Some,
            self.capital_efficiency(
                facts@.days,
                facts@.asset,
                facts@.market_type,
                facts@.subtype,
            ) == Some(threshold@),
        ensures
            self.forced_exit(facts@, held, best_bid@) == Some(
                match r {
                    Some(t) => Some(t@),
                    None => None,
                },
            ),
    {
        if best_bid >= threshold {
            return Some("capital_efficiency");
        }
        let ratio = self.config.relative_stop_loss_ratio;
        if held.avg_cost > Decimal::zero() && ratio > Decimal::zero() && best_bid < held.avg_cost
            * ratio {
            return Some("relative_stop_loss");
        }
        None
    }

    fn judge_decay(
        &self,
        records: &mut EdgeDecayRecords,
        market: &MarketInfo,
        facts: ExitFacts,
        held: HeldPosition,
        best_bid: Decimal,
        prob: Decimal,
        shortfall: Decimal,
        now: u128,
        stamp: Stamp,
    ) -> (r: Option<ExitProposal>)
        requires
            self.decayed(
                old(records)@,
                market@,
                facts@,
                held,
                best_bid@,
                prob@,
                shortfall@,
                now,
                stamp,
            ) is Some,
        ensures
            self.decayed(
                old(records)@,
                market@,
                facts@,
                held,
                best_bid@,
                prob@,
                shortfall@,
                now,
                stamp,
            ) == Some(ExitResult { proposal: proposal_at(r), decay: final(records)@ }),
    {
        let confirmations = self.note_edge_decay_confirmation(
            records,
            now,
            held.token_id,
            facts.days,
            shortfall,
            asset_ref(&facts.asset),
            facts.market_type,
            facts.subtype,
        );
        let size = self.planned_edge_decay_exit_size(
            held.size,
            best_bid,
            asset_ref(&facts.asset),
            facts.market_type,
            facts.days,
            facts.subtype,
            confirmations,
            shortfall,
        );
        if records.edge_decay_cooldown_active(held.token_id, now) {
            return None;
        }
        let required = self.effective_edge_decay_confirmation_scans_for_context(
            facts.days,
            shortfall,
            asset_ref(&facts.asset),
            facts.market_type,
            facts.subtype,
        );
        if confirmations < required {
            return None;
        }
        self.set_edge_decay_cooldown(
            records,
            now,
            held.token_id,
            facts.days,
            shortfall,
            asset_ref(&facts.asset),
            facts.market_type,
            facts.subtype,
        );
        Some(
            self.leave(
                market,
                facts,
                held,
                best_bid,
                "edge_decay",
                Some(prob),
                size,
                stamp,
                Ghost(records@),
            ),
        )
    }

    fn judge_by_model(
        &self,
        records: &mut EdgeDecayRecords,
        market: &MarketInfo,
        facts: ExitFacts,
        held: HeldPosition,
        best_bid: Decimal,
        buffer: Decimal,
        prob: Decimal,
        now: u128,
        stamp: Stamp,
    ) -> (r: Option<ExitProposal>)
        requires
            self.judged_by_model(
                old(records)@,
                market@,
                facts@,
                held,
                best_bid@,
                buffer@,
                prob@,
                now,
                stamp,
            ) is Some,
        ensures
            self.judged_by_model(
                old(records)@,
                market@,
                facts@,
                held,
                best_bid@,
                buffer@,
                prob@,
                now,
                stamp,
            ) == Some(ExitResult { proposal: proposal_at(r), decay: final(records)@ }),
    {
        let hold_edge = self.effective_hold_edge_threshold_for_context(
            facts.days,
            asset_ref(&facts.asset),
            facts.market_type,
            facts.subtype,
        );
        if prob < best_bid - buffer {
            records.reset_edge_decay_confirmation(held.token_id);
            return Some(
                self.leave(
                    market,
                    facts,
                    held,
                    best_bid,
                    "model_reversal",
                    Some(prob),
                    held.size,
                    stamp,
                    Ghost(records@),
                ),
            );
        }
        let worth = best_bid + hold_edge;
        if prob < worth {
            let shortfall = (worth - prob).max(Decimal::zero());
            self.judge_decay(
                records,
                market,
                facts,
                held,
                best_bid,
                prob,
                shortfall,
                now,
                stamp,
            )
        } else {
            records.reset_edge_decay_confirmation(held.token_id);
            None
        }
    }

    /// Whether a position is left, and what is remembered of its edge.
    pub fn judge_position(
        &self,
        records: &mut EdgeDecayRecords,
        books: &BookSet,
        markets: &Vec<MarketInfo>,
        held: HeldPosition,
        reading: &ExitReading,
        today: i32,
        now: u128,
        stamp: Stamp,
    ) -> (r: Option<ExitProposal>)
        requires
            self.position_exit(
                old(records)@,
                *books,
                markets@,
                held,
                *reading,
                today,
                now,
                stamp,
            ) is Some,
        ensures
            self.position_exit(
                old(records)@,
                *books,
                markets@,
                held,
                *reading,
                today,
                now,
                stamp,
            ) == Some(ExitResult { proposal: proposal_at(r), decay: final(records)@ }),
    {
        let best_bid = match bid_price(books.get(held.token_id)) {
            Some(b) => b,
            None => return None,
        };
        let place = match find_market(markets, held.token_id) {
            Some(i) => i,
            None => return None,
        };
        let market = &markets[place];
        let facts = exit_facts(market, reading, today);
        let (threshold, buffer) = self.effective_exit_thresholds_for_context(
            facts.days,
            asset_ref(&facts.asset),
            facts.market_type,
            facts.subtype,
        );
        if let Some(reason) = self.forced_exit_reason_of(&facts, held, best_bid, threshold) {
            records.reset_edge_decay_confirmation(held.token_id);
            return Some(
                self.leave(
                    market,
                    facts,
                    held,
                    best_bid,
                    reason,
                    None,
                    held.size,
                    stamp,
                    Ghost(records@),
                ),
            );
        }
        let prob = match reading.held_prob {
            Some(p) => p,
            None => return None,
        };
        if facts.market_label.is_none() {
            return None;
        }
        self.judge_by_model(
            records,
            market,
            facts,
            held,
            best_bid,
            buffer,
            prob,
            now,
            stamp,
        )
    }

    /// What comes of the first `n` positions, one after the other.
    pub open spec fn exits_after(
        &self,
        decay: DecayState,
        books: BookSet,
        markets: Seq<MarketInfo>,
        held: Seq<HeldPosition>,
        readings: Seq<ExitReading>,
        stamps: Seq<Stamp>,
        today: i32,
        now: u128,
        n: nat,
    ) -> Option<ExitsState>
        decreases n,
    {
        if n == 0 {
            Some(ExitsState { proposals: Seq::empty(), decay })
        } else {
            match self.exits_after(
                decay,
                books,
                markets,
                held,
                readings,
                stamps,
                today,
                now,
                (n - 1) as nat,
            ) {
                None => None,
                Some(before) => match self.position_exit(
                    before.decay,
                    books,
                    markets,
                    held[n - 1],
                    readings[n - 1],
                    today,
                    now,
                    stamps[n - 1],
                ) {
                    None => None,
                    Some(result) => Some(
                        ExitsState {
                            proposals: match result.proposal {
                                Some(p) => before.proposals.push(p),
                                None => before.proposals,
                            },
                            decay: result.decay,
                        },
                    ),
                },
            }
        }
    }

    proof fn lemma_exits_prefix(
        &self,
        decay: DecayState,
        books: BookSet,
        markets: Seq<MarketInfo>,
        held: Seq<HeldPosition>,
        readings: Seq<ExitReading>,
        stamps: Seq<Stamp>,
        today: i32,
        now: u128,
        k: nat,
        n: nat,
    )
        requires
            k <= n,
            self.exits_after(
                decay,
                books,
                markets,
                held,
                readings,
                stamps,
                today,
                now,
                n,
            ) is Some,
        ensures
            self.exits_after(
                decay,
                books,
                markets,
                held,
                readings,
                stamps,
                today,
                now,
                k,
            ) is Some,
        decreases n,
    {
        if k < n {
            self.lemma_exits_prefix(
                decay,
                books,
                markets,
                held,
                readings,
                stamps,
                today,
                now,
                k,
                (n - 1) as nat,
            );
        }
    }

    /// Looks at the held positions one after the other and proposes to leave those that no longer
    /// pay. What is known of each position's market, and the mark of an exit, are given with it.
    pub fn scan_exits(
        &self,
        records: &mut EdgeDecayRecords,
        books: &BookSet,
        markets: &Vec<MarketInfo>,
        held: &Vec<HeldPosition>,
        readings: &Vec<ExitReading>,
        stamps: &Vec<Stamp>,
        today: i32,
        now: u128,
    ) -> (r: Vec<ExitProposal>)
        requires
            readings@.len() == held@.len(),
            stamps@.len() == held@.len(),
            self.exits_after(
                old(records)@,
                *books,
                markets@,
                held@,
                readings@,
                stamps@,
                today,
                now,
                held@.len(),
            ) is Some,
        ensures
            self.exits_after(
                old(records)@,
                *books,
                markets@,
                held@,
                readings@,
                stamps@,
                today,
                now,
                held@.len(),
            ) == Some(
                (ExitsState { proposals: proposals_of(r@), decay: final(records)@ }),
            ),
    {
        let mut exits: Vec<ExitProposal> = Vec::new();
        let mut i: usize = 0;
        let ghost start = records@;
        proof {
            assert(proposals_of(exits@) =~= Seq::empty());
        }
        while i < held.len()
            invariant
                i <= held@.len(),
                readings@.len() == held@.len(),
                stamps@.len() == held@.len(),
                self.exits_after(
                    start,
                    *books,
                    markets@,
                    held@,
                    readings@,
                    stamps@,
                    today,
                    now,
                    held@.len(),
                ) is Some,
                self.exits_after(
                    start,
                    *books,
                    markets@,
                    held@,
                    readings@,
                    stamps@,
                    today,
                    now,
                    i as nat,
                ) == Some((ExitsState { proposals: proposals_of(exits@), decay: records@ })),
            decreases held@.len() - i,
        {
            proof {
                self.lemma_exits_prefix(
                    start,
                    *books,
                    markets@,
                    held@,
                    readings@,
                    stamps@,
                    today,
                    now,
                    (i + 1) as nat,
                    held@.len(),
                );
            }
            let exit = self.judge_position(
                records,
                books,
                markets,
                held[i],
                &readings[i],
                today,
                now,
                stamps[i],
            );
            if let Some(p) = exit {
                let ghost before = exits@;
                exits.push(p);
                proof {
                    assert(proposals_of(exits@) =~= proposals_of(before).push(p@));
                }
            }
            i = i + 1;
        }
        exits
    }
}

/// An exit sells what is held, at the best bid, and never more than is held.
pub proof fn law_exit_sells_what_is_held(
    strategy: CryptoAlphaStrategy,
    decay: DecayState,
    books: BookSet,
    markets: Seq<MarketInfo>,
    held: HeldPosition,
    reading: ExitReading,
    today: i32,
    now: u128,
    stamp: Stamp,
)
    requires
        strategy.position_exit(decay, books, markets, held, reading, today, now, stamp) is Some,
        strategy.position_exit(
            decay,
            books,
            markets,
            held,
            reading,
            today,
            now,
            stamp,
        )->0.proposal is Some,
    ensures
        ({
            let proposal = strategy.position_exit(
                decay,
                books,
                markets,
                held,
                reading,
                today,
                now,
                stamp,
            )->0.proposal->0;
            let order = proposal.opportunity.execution_plan;
            &&& order.token_id == held.token_id
            &&& order.side is Sell
            &&& Some(order.price) == bid(books.book(held.token_id))
            &&& order.size <= held.size@
            &&& order.size == proposal.opportunity.size == proposal.decision.size
        }),
{
}

/// While a token is left alone, a decaying edge alone does not make it sold.
pub proof fn law_no_decay_exit_while_cooling(
    strategy: CryptoAlphaStrategy,
    decay: DecayState,
    market: MarketRecord,
    view: ExitView,
    held: HeldPosition,
    best_bid: int,
    prob: int,
    shortfall: int,
    now: u128,
    stamp: Stamp,
)
    requires
        cooling(decay, held.token_id, now),
        strategy.decayed(
            decay,
            market,
            view,
            held,
            best_bid,
            prob,
            shortfall,
            now,
            stamp,
        ) is Some,
    ensures
        strategy.decayed(
            decay,
            market,
            view,
            held,
            best_bid,
            prob,
            shortfall,
            now,
            stamp,
        )->0.proposal is None,
{
}

/// After a part of a position was sold for its decaying edge, its token is left alone.
pub proof fn law_decay_exit_starts_cooldown(
    strategy: CryptoAlphaStrategy,
    decay: DecayState,
    market: MarketRecord,
    view: ExitView,
    held: HeldPosition,
    best_bid: int,
    prob: int,
    shortfall: int,
    now: u128,
    stamp: Stamp,
)
    requires
        strategy.decayed(
            decay,
            market,
            view,
            held,
            best_bid,
            prob,
            shortfall,
            now,
            stamp,
        ) is Some,
        strategy.decayed(
            decay,
            market,
            view,
            held,
            best_bid,
            prob,
            shortfall,
            now,
            stamp,
        )->0.proposal is Some,
    ensures
        cooling(
            strategy.decayed(
                decay,
                market,
                view,
                held,
                best_bid,
                prob,
                shortfall,
                now,
                stamp,
            )->0.decay,
            held.token_id,
            now,
        ),
{
    let secs = strategy.cooldown_secs(
        view.days,
        shortfall,
        view.asset,
        view.market_type,
        view.subtype,
    )->0;
    assert(secs >= 1);
    assert(now + secs * NANOS > now) by (nonlinear_arith)
        requires
            secs >= 1,
            NANOS == 1_000_000_000,
    ;
}

/// Without a word from the model, a position is left only where it is left whatever the model says,
/// and is otherwise passed over with nothing remembered.
pub proof fn law_forced_exits_need_no_model(
    strategy: CryptoAlphaStrategy,
    decay: DecayState,
    market: MarketRecord,
    held: HeldPosition,
    best_bid: int,
    reading: ExitReading,
    other: ExitReading,
    today: i32,
    now: u128,
    stamp: Stamp,
)
    requires
        reading.held_prob is None,
        other.target_day == reading.target_day,
        other.title_day == reading.title_day,
        other.event == reading.event,
        strategy.position_judged(
            decay,
            market,
            held,
            best_bid,
            reading,
            today,
            now,
            stamp,
        ) is Some,
    ensures
        ({
            let silent = strategy.position_judged(
                decay,
                market,
                held,
                best_bid,
                reading,
                today,
                now,
                stamp,
            );
            &&& silent->0.proposal is Some ==> strategy.position_judged(
                decay,
                market,
                held,
                best_bid,
                other,
                today,
                now,
                stamp,
            ) == silent
            &&& silent->0.proposal is None ==> silent->0.decay == decay
        }),
{
    assert(exit_view(market, other, today) == exit_view(market, reading, today));
}

/// The prices and the margins that a position is judged by lie within one of zero.
pub open spec fn is_ordinary(v: int) -> bool {
    -unit() <= v <= unit()
}

/// A position is left for one of four reasons, tried in this order. It is left whole where the bid has
/// reached the capital-efficiency threshold; where its cost and the stop-loss ratio are above zero and
/// the bid is below the cost times the ratio; and where the model, even with the buffer added, is below
/// the bid. Where the model is not above the bid by the edge that is asked for holding on, a part may
/// be left for a decaying edge. In every other case it is kept, and without a word from the model only
/// the first two count.
pub proof fn law_exit_has_its_reason(
    strategy: CryptoAlphaStrategy,
    decay: DecayState,
    books: BookSet,
    markets: Seq<MarketInfo>,
    held: HeldPosition,
    reading: ExitReading,
    today: i32,
    now: u128,
    stamp: Stamp,
)
    requires
        strategy.position_exit(decay, books, markets, held, reading, today, now, stamp) is Some,
        bid(books.book(held.token_id)) is Some,
        market_with(markets, held.token_id) is Some,
        0 <= bid(books.book(held.token_id))->0 <= unit(),
        reading.held_prob matches Some(prob) ==> is_ordinary(prob@),
        ({
            let view = exit_view(
                markets[market_with(markets, held.token_id)->0]@,
                reading,
                today,
            );
            &&& is_ordinary(
                strategy.exit_buffer(view.days, view.asset, view.market_type, view.subtype)->0,
            )
            &&& is_ordinary(
                strategy.hold_edge(view.days, view.asset, view.market_type, view.subtype)->0,
            )
        }),
    ensures
        ({
            let market = markets[market_with(markets, held.token_id)->0]@;
            let view = exit_view(market, reading, today);
            let price = bid(books.book(held.token_id))->0;
            let cost = held.avg_cost@;
            let ratio = strategy.config.relative_stop_loss_ratio@;
            let enough = strategy.capital_efficiency(
                view.days,
                view.asset,
                view.market_type,
                view.subtype,
            )->0;
            let buffer = strategy.exit_buffer(
                view.days,
                view.asset,
                view.market_type,
                view.subtype,
            )->0;
            let margin = strategy.hold_edge(
                view.days,
                view.asset,
                view.market_type,
                view.subtype,
            )->0;
            let result = strategy.position_exit(
                decay,
                books,
                markets,
                held,
                reading,
                today,
                now,
                stamp,
            )->0;
            let left_for = |reason: Seq<char>|
                result.proposal matches Some(p) && p.decision.reason == reason && p.decision.size
                    == held.size@ && p.opportunity.execution_plan.size == held.size@;
            let spared = cost <= 0 || ratio <= 0 || price * unit() >= cost * ratio;
            &&& price >= enough ==> left_for("capital_efficiency"@)
            &&& price < enough && cost > 0 && ratio > 0 && (price + 1) * unit() <= cost * ratio
                ==> left_for("relative_stop_loss"@)
            &&& price < enough && spared && (reading.held_prob is None || view.market_label is None)
                ==> result.proposal is None && result.decay == decay
            &&& price < enough && spared && reading.held_prob is Some && view.market_label is Some ==> {
                let prob = reading.held_prob->0@;
                &&& prob + buffer < price ==> left_for("model_reversal"@)
                &&& prob + buffer >= price && prob >= price + margin ==> result.proposal is None
                &&& prob + buffer >= price && prob < price + margin ==> (
                result.proposal matches Some(p) ==> p.decision.reason == "edge_decay"@
                    && p.decision.size <= held.size@)
            }
        }),
{
    let market = markets[market_with(markets, held.token_id)->0]@;
    let view = exit_view(market, reading, today);
    let price = bid(books.book(held.token_id))->0;
    let cost = held.avg_cost@;
    let ratio = strategy.config.relative_stop_loss_ratio@;
    let buffer = strategy.exit_buffer(
        view.days,
        view.asset,
        view.market_type,
        view.subtype,
    )->0;
    let margin = strategy.hold_edge(view.days, view.asset, view.market_type, view.subtype)->0;
    lemma_pow10_unit();
    assert(representable(price)) by {
        lemma_fraction_representable(price);
    }
    assert(representable(price + 1)) by {
        assert(written_as(price + 1, price + 1, 28));
    }
    law_arithmetic_keeps_order(cost, ratio, price);
    law_arithmetic_keeps_order(cost, ratio, price + 1);
    lemma_sum_close(price, buffer, 0);
    lemma_sum_close(price, margin, 0);
}

/// What an exit says: the spread is what the bid gained on the cost, and the profit is that on every
/// share that is sold, less the fee. What is put on record is the bid, the cost and whether the first
/// token of the market is held. It holds up to the rounding of the last digits.
pub proof fn law_exit_earns_what_the_bid_gained(
    strategy: CryptoAlphaStrategy,
    decay: DecayState,
    books: BookSet,
    markets: Seq<MarketInfo>,
    held: HeldPosition,
    reading: ExitReading,
    today: i32,
    now: u128,
    stamp: Stamp,
    k: nat,
)
    requires
        k <= 20,
        strategy.position_exit(decay, books, markets, held, reading, today, now, stamp) is Some,
        strategy.position_exit(
            decay,
            books,
            markets,
            held,
            reading,
            today,
            now,
            stamp,
        )->0.proposal is Some,
        0 <= bid(books.book(held.token_id))->0 <= unit(),
        0 <= held.avg_cost@ <= unit(),
        0 <= held.size@ <= pow10(k) * unit(),
        0 <= strategy.position_exit(
            decay,
            books,
            markets,
            held,
            reading,
            today,
            now,
            stamp,
        )->0.proposal->0.opportunity.size,
        markets[market_with(markets, held.token_id)->0].fee_rate_bps <= 10000,
    ensures
        ({
            let market = markets[market_with(markets, held.token_id)->0]@;
            let proposal = strategy.position_exit(
                decay,
                books,
                markets,
                held,
                reading,
                today,
                now,
                stamp,
            )->0.proposal->0;
            let sold = proposal.opportunity;
            let price = bid(books.book(held.token_id))->0;
            let gained = price - held.avg_cost@;
            let fee = fee_of(price, market.fee_rate_bps as int)->0;
            &&& sold.strategy_type == StrategyType::CryptoAlpha
            &&& sold.condition_id == market.condition_id
            &&& sold.execution_plan.condition_id == market.condition_id
            &&& sold.spread == gained
            &&& close(sold.estimated_profit, (gained - fee) * sold.size, unit(), 4 * pow10(k))
            &&& proposal.decision.best_bid == price
            &&& proposal.decision.avg_cost == held.avg_cost@
            &&& proposal.decision.held_is_yes == (if market.tokens.len() > 0 {
                Some(market.tokens[0].token_id == held.token_id)
            } else {
                None
            })
        }),
{
    let market = markets[market_with(markets, held.token_id)->0]@;
    let proposal = strategy.position_exit(
        decay,
        books,
        markets,
        held,
        reading,
        today,
        now,
        stamp,
    )->0.proposal->0;
    let price = bid(books.book(held.token_id))->0;
    law_exit_sells_what_is_held(
        strategy,
        decay,
        books,
        markets,
        held,
        reading,
        today,
        now,
        stamp,
    );
    assert(pow10(0) == 1);
    lemma_sum_close(price, held.avg_cost@, 0);
    law_sale_earns_what_the_price_gained(
        price,
        held.avg_cost@,
        proposal.opportunity.size,
        market.fee_rate_bps,
        k,
    );
}

/// A position whose edge has fallen short by what the model lacks of the bid and the edge for holding on
/// is left in part exactly where it does not cool down and this sight is at least the last one that is
/// needed. Either way the sight is counted, within the window for that shortfall.
pub proof fn law_decaying_position_is_left_after_enough_sights(
    strategy: CryptoAlphaStrategy,
    decay: DecayState,
    market: MarketRecord,
    view: ExitView,
    held: HeldPosition,
    best_bid: int,
    buffer: int,
    prob: int,
    now: u128,
    stamp: Stamp,
)
    requires
        strategy.judged_by_model(
            decay,
            market,
            view,
            held,
            best_bid,
            buffer,
            prob,
            now,
            stamp,
        ) is Some,
        is_ordinary(best_bid),
        is_ordinary(buffer),
        is_ordinary(prob),
        is_ordinary(
            strategy.hold_edge(view.days, view.asset, view.market_type, view.subtype)->0,
        ),
    ensures
        ({
            let margin = strategy.hold_edge(
                view.days,
                view.asset,
                view.market_type,
                view.subtype,
            )->0;
            let shortfall = best_bid + margin - prob;
            let window = strategy.window_secs(
                view.days,
                shortfall,
                view.asset,
                view.market_type,
                view.subtype,
            )->0;
            let seen = confirmed_again(decay.confirmations, held.token_id, now, window);
            let needed = strategy.scans_needed(
                view.days,
                shortfall,
                view.asset,
                view.market_type,
                view.subtype,
            )->0;
            let pause = strategy.cooldown_secs(
                view.days,
                shortfall,
                view.asset,
                view.market_type,
                view.subtype,
            )->0;
            let part = strategy.exit_size(
                held.size@,
                best_bid,
                view.asset,
                view.market_type,
                view.days,
                view.subtype,
                seen.count,
                shortfall,
            );
            let result = strategy.judged_by_model(
                decay,
                market,
                view,
                held,
                best_bid,
                buffer,
                prob,
                now,
                stamp,
            )->0;
            prob + buffer >= best_bid && shortfall > 0 ==> {
                &&& result.proposal is Some <==> !cooling(decay, held.token_id, now) && seen.count
                    >= needed
                &&& result.proposal matches Some(p) ==> Some(p.opportunity.size) == part
                &&& result.proposal is Some ==> result.decay.cooldowns.contains_key(held.token_id)
                    ==> result.decay.cooldowns[held.token_id] == now + pause * 1_000_000_000
            }
        }),
{
    assert(pow10(0) == 1);
    lemma_sum_close(best_bid, buffer, 0);
    let margin = strategy.hold_edge(view.days, view.asset, view.market_type, view.subtype)->0;
    lemma_sum_close(best_bid, margin, 0);
    lemma_sum_close(best_bid + margin, prob, 0);
}

/// The days until a question resolves are those from today to its day, at least one; thirty where the day
/// is not known.
pub proof fn law_days_are_counted_from_today(day: i32, today: i32)
    requires
        day - today <= i32::MAX,
    ensures
        day > today ==> days_left(Some(day), today) == day - today,
        day <= today ==> days_left(Some(day), today) == 1,
        days_left(None, today) == 30,
{
}

} // verus!
