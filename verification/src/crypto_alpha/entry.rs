//! From an edge to a proposed entry.
use crate::crypto_alpha::assets::CryptoAsset;
use crate::crypto_alpha::candidates::CryptoEntryCandidate;
use crate::crypto_alpha::config::OverrideField;
use crate::crypto_alpha::decisions::{
    gate_reject_decision, CryptoCandidateDecision, EventContext, GateRejectContext,
};
use crate::crypto_alpha::labels::{
    CalendarEvent, CryptoDirectionBucket, CryptoEventSubtype, CryptoMarketType,
};
use crate::crypto_alpha::sizing::{EntryFunds, EntryTerms};
use crate::crypto_alpha::strategy::CryptoAlphaStrategy;
use crate::decimal::Decimal;
use crate::types::{
    BookSet, DirectionalBuy, Stamp, StrategyType, TradeSide, TradingOpportunity, B256, U256,
};
use vstd::prelude::*;

verus! {

use crate::crypto_alpha::assets::AssetEntry;
use crate::crypto_alpha::calibration::fraction;
use crate::crypto_alpha::decisions::{
    gate_record, kept_share, records, DecisionRecord, EventNotes, GateNotes,
};
use crate::crypto_alpha::labels::subtype_of_label;
use crate::crypto_alpha::sizing::{FundsFigures, SizingResult, TermsFigures};
use crate::crypto_alpha::edge_decay::given_or_one;
use crate::crypto_alpha::thresholds::{
    event_at, is_held, is_mild, lemma_held, lemma_mild_product,
};
use crate::profitability::{buy_figures, fee_of, law_purchase_earns_its_edge};
use crate::rounding::{
    close, count_of, count_or, lemma_in_ten_thousandths, pow10, product, times, unit, whole,
};
use crate::types::{OpportunityRecord, OrderRecord};

/// What is tied up in one asset, by direction.
#[derive(Clone, Copy, Debug)]
pub struct DirectionExposure {
    pub up: Decimal,
    pub down: Decimal,
    pub inside_range: Decimal,
    pub outside_range: Decimal,
}

impl DirectionExposure {
    pub open spec fn spec_of(&self, direction: CryptoDirectionBucket) -> Decimal {
        match direction {
            CryptoDirectionBucket::Up => self.up,
            CryptoDirectionBucket::Down => self.down,
            CryptoDirectionBucket::InsideRange => self.inside_range,
            CryptoDirectionBucket::OutsideRange => self.outside_range,
        }
    }

    pub fn of(&self, direction: CryptoDirectionBucket) -> (r: Decimal)
        ensures
            r == self.spec_of(direction),
    {
        match direction {
            CryptoDirectionBucket::Up => self.up,
            CryptoDirectionBucket::Down => self.down,
            CryptoDirectionBucket::InsideRange => self.inside_range,
            CryptoDirectionBucket::OutsideRange => self.outside_range,
        }
    }
}

/// How many shares of a token are held.
#[derive(Clone, Copy, Debug)]
pub struct TokenPosition {
    pub token_id: U256,
    pub size: Decimal,
}

/// What an entry on one asset is weighed against.
#[derive(Debug)]
pub struct Account {
    pub balance: Decimal,
    pub available: Decimal,
    pub positions: Vec<TokenPosition>,
    pub asset_exposure: Decimal,
    pub direction_exposure: DirectionExposure,
}

/// How many shares of a token the first entry for it says, zero where there is none.
pub open spec fn shares_held(positions: Seq<TokenPosition>, token_id: U256) -> int
    decreases positions.len(),
{
    if positions.len() == 0 {
        0
    } else if positions[0].token_id == token_id {
        positions[0].size@
    } else {
        shares_held(positions.drop_first(), token_id)
    }
}

/// How many shares of a token the first entry for it says, zero where there is none.
pub fn find_position(positions: &Vec<TokenPosition>, token_id: U256) -> (r: Decimal)
    ensures
        r@ == shares_held(positions@, token_id),
{
    let mut i: usize = 0;
    proof {
        assert(positions@.subrange(0, positions@.len() as int) =~= positions@);
    }
    while i < positions.len()
        invariant
            i <= positions@.len(),
            shares_held(positions@, token_id) == shares_held(
                positions@.subrange(i as int, positions@.len() as int),
                token_id,
            ),
        decreases positions@.len() - i,
    {
        proof {
            let rest = positions@.subrange(i as int, positions@.len() as int);
            assert(rest[0] == positions@[i as int]);
            assert(rest.drop_first() =~= positions@.subrange(i + 1, positions@.len() as int));
        }
        if positions[i].token_id == token_id {
            return positions[i].size;
        }
        i = i + 1;
    }
    Decimal::zero()
}

impl Account {
    /// How many shares of a token are held.
    pub fn position(&self, token_id: U256) -> (r: Decimal)
        ensures
            r@ == shares_held(self.positions@, token_id),
    {
        find_position(&self.positions, token_id)
    }
}

/// The side of a market with the edge.
#[derive(Clone, Copy, Debug)]
pub struct EntryPick {
    pub token_id: U256,
    pub condition_id: B256,
    pub fee_rate_bps: u32,
    pub ask_price: Decimal,
    pub prob: Decimal,
    pub edge: Decimal,
    pub direction: CryptoDirectionBucket,
    pub is_yes: bool,
}

/// What a picked side says.
pub struct PickRecord {
    pub token_id: U256,
    pub condition_id: Seq<u8>,
    pub fee_rate_bps: u32,
    pub ask_price: int,
    pub prob: int,
    pub edge: int,
    pub direction: CryptoDirectionBucket,
    pub is_yes: bool,
}

impl View for EntryPick {
    type V = PickRecord;

    open spec fn view(&self) -> PickRecord {
        PickRecord {
            token_id: self.token_id,
            condition_id: self.condition_id@,
            fee_rate_bps: self.fee_rate_bps,
            ask_price: self.ask_price@,
            prob: self.prob@,
            edge: self.edge@,
            direction: self.direction,
            is_yes: self.is_yes,
        }
    }
}

/// What a candidate says.
pub struct CandidateRecord {
    pub opportunity: OpportunityRecord,
    pub market_type: CryptoMarketType,
    pub modeled_prob: int,
    pub days_to_resolution: u32,
    pub is_yes: bool,
    pub event: EventNotes,
}

impl View for CryptoEntryCandidate {
    type V = CandidateRecord;

    open spec fn view(&self) -> CandidateRecord {
        CandidateRecord {
            opportunity: self.opportunity@,
            market_type: self.market_type,
            modeled_prob: self.modeled_prob@,
            days_to_resolution: self.days_to_resolution,
            is_yes: self.is_yes,
            event: self.event@,
        }
    }
}

/// What came of looking for an entry: the candidate if there is one, the reasons for which others
/// were turned down, the records of that, and the largest edge that fell short.
#[derive(Debug)]
pub struct EntryOutcome {
    pub candidate: Option<CryptoEntryCandidate>,
    pub rejections: Vec<&'static str>,
    pub decisions: Vec<CryptoCandidateDecision>,
    pub near_miss_edge_bps: Option<u32>,
}

/// What an outcome says.
#[verifier::ext_equal]
pub struct EntryResult {
    pub candidate: Option<CandidateRecord>,
    pub rejections: Seq<Seq<char>>,
    pub decisions: Seq<DecisionRecord>,
    pub near_miss_edge_bps: Option<int>,
}

pub open spec fn texts(v: Seq<&'static str>) -> Seq<Seq<char>> {
    v.map_values(|t: &'static str| t@)
}

pub open spec fn candidate_at(candidate: Option<CryptoEntryCandidate>) -> Option<CandidateRecord> {
    match candidate {
        Some(c) => Some(c@),
        None => None,
    }
}

impl View for EntryOutcome {
    type V = EntryResult;

    open spec fn view(&self) -> EntryResult {
        EntryResult {
            candidate: candidate_at(self.candidate),
            rejections: texts(self.rejections@),
            decisions: records(self.decisions@),
            near_miss_edge_bps: match self.near_miss_edge_bps {
                Some(n) => Some(n as int),
                None => None,
            },
        }
    }
}

/// Nothing to propose and nothing to record.
pub open spec fn no_entry() -> EntryResult {
    EntryResult {
        candidate: None,
        rejections: Seq::empty(),
        decisions: Seq::empty(),
        near_miss_edge_bps: None,
    }
}

/// The result with what was turned down before it.
pub open spec fn preceded_by(
    result: EntryResult,
    rejections: Seq<Seq<char>>,
    decisions: Seq<DecisionRecord>,
) -> EntryResult {
    EntryResult {
        candidate: result.candidate,
        rejections: rejections + result.rejections,
        decisions: decisions + result.decisions,
        near_miss_edge_bps: result.near_miss_edge_bps,
    }
}

impl EntryOutcome {
    pub fn nothing() -> (r: EntryOutcome)
        ensures
            r@ == no_entry(),
    {
        let r = EntryOutcome {
            candidate: None,
            rejections: Vec::new(),
            decisions: Vec::new(),
            near_miss_edge_bps: None,
        };
        proof {
            assert(r@ =~= no_entry());
        }
        r
    }

    /// What came of an entry after what was turned down before it.
    pub fn followed_by(self, entry: EntryOutcome) -> (r: EntryOutcome)
        ensures
            r@ == preceded_by(entry@, self@.rejections, self@.decisions),
    {
        let mut rejections = self.rejections;
        let mut decisions = self.decisions;
        let mut later_rejections = entry.rejections;
        let mut later_decisions = entry.decisions;
        rejections.append(&mut later_rejections);
        decisions.append(&mut later_decisions);
        let r = EntryOutcome {
            candidate: entry.candidate,
            rejections,
            decisions,
            near_miss_edge_bps: entry.near_miss_edge_bps,
        };
        proof {
            assert(r@.rejections =~= self@.rejections + entry@.rejections);
            assert(r@.decisions =~= self@.decisions + entry@.decisions);
        }
        r
    }

    /// Notes a reason for which an entry was turned down.
    pub fn reject(&mut self, reason: &'static str)
        ensures
            final(self)@ == (EntryResult {
                rejections: old(self)@.rejections.push(reason@),
                ..old(self)@
            }),
    {
        self.rejections.push(reason);
        proof {
            assert(self@.rejections =~= old(self)@.rejections.push(reason@));
        }
    }

    /// Notes the record of a decision.
    pub fn record(&mut self, decision: CryptoCandidateDecision)
        ensures
            final(self)@ == (EntryResult {
                decisions: old(self)@.decisions.push(decision@),
                ..old(self)@
            }),
    {
        self.decisions.push(decision);
        proof {
            assert(self@.decisions =~= old(self)@.decisions.push(decision@));
        }
    }
}

/// What is known of the market that an entry would be made in.
#[derive(Debug)]
pub struct EntrySetting {
    pub market_type: CryptoMarketType,
    pub days: u32,
    /// The edge that is asked for.
    pub min_edge_bps: u32,
    /// The question as the records give it, and as the proposed trade does.
    pub record_question: String,
    pub trade_question: String,
    /// The event as a record of too small an edge gives it, and as the entry does.
    pub short_event: EventContext,
    pub event: EventContext,
}

/// What a setting says.
pub struct SettingRecord {
    pub market_type: CryptoMarketType,
    pub days: u32,
    pub min_edge_bps: int,
    pub record_question: Seq<char>,
    pub trade_question: Seq<char>,
    pub short_event: EventNotes,
    pub event: EventNotes,
}

impl View for EntrySetting {
    type V = SettingRecord;

    open spec fn view(&self) -> SettingRecord {
        SettingRecord {
            market_type: self.market_type,
            days: self.days,
            min_edge_bps: self.min_edge_bps as int,
            record_question: self.record_question@,
            trade_question: self.trade_question@,
            short_event: self.short_event@,
            event: self.event@,
        }
    }
}

/// A fraction of one in whole basis points, the default where it is negative or too large.
pub open spec fn in_bps(v: int, default: int) -> Option<int> {
    match times(Some(v), Some(whole(10000))) {
        Some(x) => Some(count_or(count_of(x, u32::MAX as int), default)),
        None => None,
    }
}

pub fn to_bps(v: Decimal, default: u32) -> (r: u32)
    requires
        in_bps(v@, default as int) is Some,
    ensures
        in_bps(v@, default as int) == Some(r as int),
{
    match (v * Decimal::from_u32(10000)).to_u32() {
        Some(n) => n,
        None => default,
    }
}

/// The subtype that a record names, exactly.
pub open spec fn recorded_subtype(label: Option<Seq<char>>) -> Option<CryptoEventSubtype> {
    match label {
        None => None,
        Some(v) => if v == "unlock"@ {
            Some(CryptoEventSubtype::Unlock)
        } else if v == "upgrade"@ {
            Some(CryptoEventSubtype::Upgrade)
        } else if v == "regulatory"@ {
            Some(CryptoEventSubtype::Regulatory)
        } else if v == "other"@ {
            Some(CryptoEventSubtype::Other)
        } else {
            None
        },
    }
}

/// A multiplier, one where there is none.
pub open spec fn or_one(multiplier: Option<Option<int>>) -> Option<int> {
    match multiplier {
        Some(Some(m)) => Some(m),
        Some(None) => Some(unit()),
        None => None,
    }
}

pub open spec fn setting_notes(
    setting: SettingRecord,
    pick: PickRecord,
    event: EventNotes,
) -> GateNotes {
    GateNotes {
        market_type: setting.market_type,
        question: setting.record_question,
        days_to_resolution: setting.days,
        modeled_prob: pick.prob,
        is_yes: pick.is_yes,
        condition_id: pick.condition_id,
        event,
    }
}

/// The records that a sizing leaves.
pub open spec fn sizing_records(
    result: SizingResult,
    asset_name: Seq<char>,
    direction: CryptoDirectionBucket,
    notes: GateNotes,
) -> Seq<DecisionRecord> {
    (match result.scale {
        Some((reason, after, before)) => seq![
            gate_record(
                "gate_scale"@,
                asset_name,
                Some(direction),
                notes,
                reason,
                kept_share(after, before)->0,
            ),
        ],
        None => Seq::empty(),
    }) + (if result.reject_recorded {
        seq![
            gate_record(
                "gate_reject"@,
                asset_name,
                Some(direction),
                notes,
                result.rejection->0,
                0,
            ),
        ]
    } else {
        Seq::empty()
    })
}

/// The proposed trade.
pub open spec fn proposed(
    pick: PickRecord,
    setting: SettingRecord,
    stamp: Stamp,
    size: int,
    profit: int,
    profit_retention: int,
    slippage: int,
    size_retention: int,
) -> CandidateRecord {
    CandidateRecord {
        opportunity: OpportunityRecord {
            stamp,
            strategy_type: StrategyType::CryptoAlpha,
            condition_id: pick.condition_id,
            question: setting.trade_question,
            spread: pick.edge,
            estimated_profit: profit,
            size,
            min_profit_retention_ratio_multiplier: Some(profit_retention),
            max_slippage_bps_multiplier: Some(slippage),
            min_size_retention_ratio_multiplier: Some(size_retention),
            execution_plan: OrderRecord {
                token_id: pick.token_id,
                side: TradeSide::Buy,
                price: pick.ask_price,
                size,
                condition_id: pick.condition_id,
            },
        },
        market_type: setting.market_type,
        modeled_prob: pick.prob,
        days_to_resolution: setting.days,
        is_yes: pick.is_yes,
        event: setting.event,
    }
}

pub open spec fn seq_of<T>(v: Option<T>) -> Seq<T> {
    match v {
        Some(x) => seq![x],
        None => Seq::empty(),
    }
}

/// The means for an entry on a token.
pub open spec fn funds_for(account: Account, pick: PickRecord) -> FundsFigures {
    FundsFigures {
        balance: account.balance@,
        available: account.available@,
        position: shares_held(account.positions@, pick.token_id),
        asset_exposure: account.asset_exposure@,
        direction_exposure: account.direction_exposure.spec_of(pick.direction)@,
    }
}

impl CryptoAlphaStrategy {
    /// The multiplier that the table gives for an entry, one where it gives none.
    pub open spec fn entry_multiplier(
        &self,
        asset: AssetEntry,
        setting: SettingRecord,
        field: OverrideField,
    ) -> Option<int> {
        or_one(
            self.multiplier(
                Some(asset),
                setting.days,
                setting.market_type,
                recorded_subtype(setting.event.subtype),
                field,
            ),
        )
    }

    /// What is asked of the size of an entry.
    pub open spec fn terms_for(
        &self,
        asset: AssetEntry,
        setting: SettingRecord,
        pick: PickRecord,
        event: Option<CalendarEvent>,
    ) -> Option<TermsFigures> {
        let depth_ratio = times(
            Some(self.config.min_entry_depth_ratio@),
            self.entry_multiplier(asset, setting, OverrideField::DepthRatio),
        );
        let retention = fraction(
            times(
                Some(self.deps.base_min_size_retention_ratio@),
                self.entry_multiplier(asset, setting, OverrideField::SizeRetention),
            ),
        );
        match (
            depth_ratio,
            retention,
            self.size_share(asset, setting.days, setting.market_type, event),
        ) {
            (Some(min_depth_ratio), Some(min_size_retention_ratio), Some(event_size_multiplier)) => {
                Some(
                    TermsFigures {
                        ask_price: pick.ask_price,
                        edge: pick.edge,
                        days_to_resolution: setting.days,
                        event_size_multiplier,
                        min_size_retention_ratio,
                        min_depth_ratio,
                    },
                )
            },
            _ => None,
        }
    }

    /// The entry of a given size, if it earns anything.
    pub open spec fn sized_candidate(
        &self,
        asset: AssetEntry,
        setting: SettingRecord,
        pick: PickRecord,
        stamp: Stamp,
        size: int,
    ) -> Option<Option<CandidateRecord>> {
        match buy_figures(pick.ask_price, pick.prob, size, pick.fee_rate_bps as int) {
            None => None,
            Some(estimate) => if estimate.net_profit <= 0 {
                Some(None)
            } else {
                match (
                    self.entry_multiplier(asset, setting, OverrideField::ProfitRetention),
                    self.entry_multiplier(asset, setting, OverrideField::Slippage),
                    self.entry_multiplier(asset, setting, OverrideField::SizeRetention),
                ) {
                    (Some(profit_retention), Some(slippage), Some(size_retention)) => Some(
                        Some(
                            proposed(
                                pick,
                                setting,
                                stamp,
                                size,
                                estimate.net_profit,
                                profit_retention,
                                slippage,
                                size_retention,
                            ),
                        ),
                    ),
                    _ => None,
                }
            },
        }
    }

    /// What comes of the side with the edge: nothing where the edge is too small, the size comes to
    /// nothing or the entry would earn nothing.
    pub open spec fn entry_result(
        &self,
        recent: Seq<DecisionRecord>,
        books: BookSet,
        account: Account,
        asset: AssetEntry,
        setting: SettingRecord,
        pick: PickRecord,
        event: Option<CalendarEvent>,
        stamp: Stamp,
    ) -> Option<EntryResult> {
        match in_bps(pick.edge, 0) {
            None => None,
            Some(edge_bps) => if edge_bps < setting.min_edge_bps {
                Some(
                    EntryResult {
                        candidate: None,
                        rejections: seq!["edge_below_threshold"@],
                        decisions: seq![
                            gate_record(
                                "gate_reject"@,
                                asset.name,
                                Some(pick.direction),
                                setting_notes(setting, pick, setting.short_event),
                                "edge_below_threshold"@,
                                0,
                            ),
                        ],
                        near_miss_edge_bps: Some(edge_bps),
                    },
                )
            } else {
                let notes = setting_notes(setting, pick, setting.event);
                match self.terms_for(asset, setting, pick, event) {
                    None => None,
                    Some(terms) => match self.sizing(
                        recent,
                        asset,
                        subtype_of_label(setting.event.subtype),
                        funds_for(account, pick),
                        terms,
                        books.book(pick.token_id),
                        true,
                    ) {
                        None => None,
                        Some(sized) => {
                            let candidate = match sized.size {
                                Some(size) => self.sized_candidate(
                                    asset,
                                    setting,
                                    pick,
                                    stamp,
                                    size,
                                ),
                                None => Some(None),
                            };
                            match candidate {
                                None => None,
                                Some(c) => Some(
                                    EntryResult {
                                        candidate: c,
                                        rejections: seq_of(sized.rejection),
                                        decisions: sizing_records(
                                            sized,
                                            asset.name,
                                            pick.direction,
                                            notes,
                                        ),
                                        near_miss_edge_bps: None,
                                    },
                                ),
                            }
                        },
                    },
                }
            },
        }
    }

    fn multiplier_or_one(
        &self,
        asset: &CryptoAsset,
        setting: &EntrySetting,
        subtype: Option<CryptoEventSubtype>,
        field: OverrideField,
    ) -> (r: Decimal)
        requires
            subtype == recorded_subtype(setting@.event.subtype),
            self.entry_multiplier(asset@, setting@, field) is Some,
        ensures
            self.entry_multiplier(asset@, setting@, field) == Some(r@),
    {
        match self.override_multiplier(
            Some(asset),
            setting.days,
            setting.market_type,
            subtype,
            field,
        ) {
            Some(m) => m,
            None => Decimal::one(),
        }
    }

    fn entry_terms(
        &self,
        asset: &CryptoAsset,
        setting: &EntrySetting,
        subtype: Option<CryptoEventSubtype>,
        pick: EntryPick,
        event: Option<&CalendarEvent>,
    ) -> (r: EntryTerms)
        requires
            subtype == recorded_subtype(setting@.event.subtype),
            self.terms_for(asset@, setting@, pick@, event_at(event)) is Some,
        ensures
            self.terms_for(asset@, setting@, pick@, event_at(event)) == Some(r@),
    {
        let min_depth_ratio = self.config.min_entry_depth_ratio * self.multiplier_or_one(
            asset,
            setting,
            subtype,
            OverrideField::DepthRatio,
        );
        let min_size_retention_ratio = (self.deps.base_min_size_retention_ratio
            * self.multiplier_or_one(asset, setting, subtype, OverrideField::SizeRetention)).min(
            Decimal::one(),
        ).max(Decimal::zero());
        EntryTerms {
            ask_price: pick.ask_price,
            edge: pick.edge,
            days_to_resolution: setting.days,
            event_size_multiplier: self.effective_size_multiplier(
                asset,
                setting.days,
                setting.market_type,
                event,
            ),
            min_size_retention_ratio,
            min_depth_ratio,
        }
    }

    fn candidate_of_size(
        &self,
        asset: &CryptoAsset,
        setting: &EntrySetting,
        subtype: Option<CryptoEventSubtype>,
        pick: EntryPick,
        stamp: Stamp,
        size: Decimal,
    ) -> (r: Option<CryptoEntryCandidate>)
        requires
            subtype == recorded_subtype(setting@.event.subtype),
            self.sized_candidate(asset@, setting@, pick@, stamp, size@) is Some,
        ensures
            self.sized_candidate(asset@, setting@, pick@, stamp, size@) == Some(candidate_at(r)),
    {
        let estimate = self.profit_calc.directional_buy_profit(
            pick.ask_price,
            pick.prob,
            size,
            pick.fee_rate_bps,
        );
        if estimate.net_profit <= Decimal::zero() {
            return None;
        }
        let profit_retention = self.multiplier_or_one(
            asset,
            setting,
            subtype,
            OverrideField::ProfitRetention,
        );
        let slippage = self.multiplier_or_one(asset, setting, subtype, OverrideField::Slippage);
        let size_retention = self.multiplier_or_one(
            asset,
            setting,
            subtype,
            OverrideField::SizeRetention,
        );
        Some(
            CryptoEntryCandidate {
                opportunity: TradingOpportunity {
                    stamp,
                    strategy_type: StrategyType::CryptoAlpha,
                    condition_id: pick.condition_id,
                    question: setting.trade_question.clone(),
                    spread: pick.edge,
                    estimated_profit: estimate.net_profit,
                    size,
                    min_profit_retention_ratio_multiplier: Some(profit_retention),
                    max_slippage_bps_multiplier: Some(slippage),
                    min_size_retention_ratio_multiplier: Some(size_retention),
                    execution_plan: DirectionalBuy {
                        token_id: pick.token_id,
                        side: TradeSide::Buy,
                        price: pick.ask_price,
                        size,
                        condition_id: pick.condition_id,
                    },
                },
                market_type: setting.market_type,
                modeled_prob: pick.prob,
                days_to_resolution: setting.days,
                is_yes: pick.is_yes,
                event: setting.event.clone(),
            },
        )
    }

    /// Proposes an entry on the side with the edge. The event is the calendar's entry that matches
    /// the market.
    pub fn propose_entry(
        &self,
        recent: &Vec<CryptoCandidateDecision>,
        books: &BookSet,
        account: &Account,
        asset: &CryptoAsset,
        setting: EntrySetting,
        pick: EntryPick,
        event: Option<&CalendarEvent>,
        stamp: Stamp,
    ) -> (r: EntryOutcome)
        requires
            self.entry_result(
                records(recent@),
                *books,
                *account,
                asset@,
                setting@,
                pick@,
                event_at(event),
                stamp,
            ) is Some,
        ensures
            self.entry_result(
                records(recent@),
                *books,
                *account,
                asset@,
                setting@,
                pick@,
                event_at(event),
                stamp,
            ) == Some(r@),
    {
        let mut outcome = EntryOutcome::nothing();
        let edge_bps = to_bps(pick.edge, 0);
        if edge_bps < setting.min_edge_bps {
            let context = GateRejectContext {
                market_type: setting.market_type,
                question: setting.record_question,
                days_to_resolution: setting.days,
                modeled_prob: pick.prob,
                is_yes: pick.is_yes,
                condition_id: pick.condition_id,
                event: setting.short_event,
            };
            outcome.reject("edge_below_threshold");
            outcome.record(
                gate_reject_decision(asset, Some(pick.direction), &context, "edge_below_threshold"),
            );
            outcome.near_miss_edge_bps = Some(edge_bps);
            return outcome;
        }
        let subtype = match &setting.event.subtype {
            Some(l) => CryptoEventSubtype::from_decision_context(Some(l.as_str())),
            None => CryptoEventSubtype::from_decision_context(None),
        };
        let terms = self.entry_terms(asset, &setting, subtype, pick, event);
        let context = GateRejectContext {
            market_type: setting.market_type,
            question: setting.record_question.clone(),
            days_to_resolution: setting.days,
            modeled_prob: pick.prob,
            is_yes: pick.is_yes,
            condition_id: pick.condition_id,
            event: setting.event.clone(),
        };
        let funds = EntryFunds {
            balance: account.balance,
            available: account.available,
            position: account.position(pick.token_id),
            asset_exposure: account.asset_exposure,
            direction_exposure: account.direction_exposure.of(pick.direction),
        };
        let sized = self.size_entry(
            recent,
            asset,
            pick.direction,
            Some(&context),
            funds,
            terms,
            books.get(pick.token_id),
        );
        if let Some(size) = sized.size {
            outcome.candidate = self.candidate_of_size(
                asset,
                &setting,
                subtype,
                pick,
                stamp,
                size,
            );
        }
        if let Some(reason) = sized.rejection {
            outcome.reject(reason);
        }
        if let Some(decision) = sized.scale_decision {
            outcome.record(decision);
        }
        if let Some(decision) = sized.reject_decision {
            outcome.record(decision);
        }
        outcome
    }
}

/// An entry is proposed exactly where the edge comes to the basis points that are asked for, the sizing
/// gives a size, and that many shares are expected to earn something after fees. It buys the picked
/// token at what is asked for it, as many shares as the sizing gives, and its spread is the edge. Too
/// small an edge is remembered as a near miss, in whole basis points.
pub proof fn law_entry_needs_its_edge(
    strategy: CryptoAlphaStrategy,
    recent: Seq<DecisionRecord>,
    books: BookSet,
    account: Account,
    asset: AssetEntry,
    setting: SettingRecord,
    pick: PickRecord,
    event: Option<CalendarEvent>,
    stamp: Stamp,
    k: nat,
)
    requires
        k <= 20,
        strategy.entry_result(
            recent,
            books,
            account,
            asset,
            setting,
            pick,
            event,
            stamp,
        ) is Some,
        0 <= pick.edge <= unit(),
        0 <= pick.ask_price <= unit(),
        0 <= pick.prob <= unit(),
        pick.fee_rate_bps <= 10000,
    ensures
        ({
            let u = unit();
            let result = strategy.entry_result(
                recent,
                books,
                account,
                asset,
                setting,
                pick,
                event,
                stamp,
            )->0;
            let enough = pick.edge * 10000 >= setting.min_edge_bps * u;
            let sized = strategy.sizing(
                recent,
                asset,
                subtype_of_label(setting.event.subtype),
                funds_for(account, pick),
                strategy.terms_for(asset, setting, pick, event)->0,
                books.book(pick.token_id),
                true,
            );
            let fee = fee_of(pick.ask_price, pick.fee_rate_bps as int)->0;
            &&& !enough ==> {
                &&& result.candidate is None
                &&& result.rejections == seq!["edge_below_threshold"@]
                &&& result.near_miss_edge_bps == Some((pick.edge * 10000) / u)
            }
            &&& enough ==> result.near_miss_edge_bps is None && sized is Some
            &&& enough && sized->0.size is None ==> result.candidate is None
            &&& enough && sized->0.size is Some ==> {
                let size = sized->0.size->0;
                let earned = (pick.prob - pick.ask_price - fee) * size;
                &&& result.candidate matches Some(c) ==> {
                    let trade = c.opportunity;
                    &&& trade.size == size
                    &&& trade.spread == pick.edge
                    &&& trade.strategy_type == StrategyType::CryptoAlpha
                    &&& trade.condition_id == pick.condition_id
                    &&& trade.execution_plan == (OrderRecord {
                        token_id: pick.token_id,
                        side: TradeSide::Buy,
                        price: pick.ask_price,
                        size,
                        condition_id: pick.condition_id,
                    })
                    &&& trade.estimated_profit > 0
                    &&& 0 <= size <= pow10(k) * u ==> close(
                        trade.estimated_profit,
                        earned,
                        u,
                        2 * pow10(k),
                    )
                    &&& c.is_yes == pick.is_yes && c.modeled_prob == pick.prob
                    &&& c.days_to_resolution == setting.days && c.market_type
                        == setting.market_type
                }
                &&& 0 <= size <= pow10(k) * u && earned > 2 * pow10(k) * u
                    ==> result.candidate is Some
            }
        }),
{
    let u = unit();
    let min = setting.min_edge_bps;
    lemma_in_ten_thousandths(pick.edge);
    assert((pick.edge * 10000) / u < min <==> pick.edge * 10000 < min * u);
    let sized = strategy.sizing(
        recent,
        asset,
        subtype_of_label(setting.event.subtype),
        funds_for(account, pick),
        strategy.terms_for(asset, setting, pick, event)->0,
        books.book(pick.token_id),
        true,
    );
    if pick.edge * 10000 >= min * u && sized->0.size is Some {
        let size = sized->0.size->0;
        if 0 <= size <= pow10(k) * u {
            law_purchase_earns_its_edge(
                pick.ask_price,
                pick.prob,
                size,
                pick.fee_rate_bps,
                k,
            );
            let net = buy_figures(
                pick.ask_price,
                pick.prob,
                size,
                pick.fee_rate_bps as int,
            )->0.net_profit;
            let fee = fee_of(pick.ask_price, pick.fee_rate_bps as int)->0;
            let earned = (pick.prob - pick.ask_price - fee) * size;
            assert(earned > 2 * pow10(k) * u ==> net > 0) by (nonlinear_arith)
                requires
                    earned - net * u <= (2 * pow10(k)) * u,
                    u > 0,
            ;
        }
    }
}

/// What is asked of the size of an entry is what is set, times what the table gives for it or one: the
/// multiple of the depth, and the share of the size that the book must hold, between zero and one. The ask
/// and the edge are those of the side, and what the event and the horizon leave is taken as it is.
pub proof fn law_terms_are_scaled_by_the_table(
    strategy: CryptoAlphaStrategy,
    asset: AssetEntry,
    setting: SettingRecord,
    pick: PickRecord,
    event: Option<CalendarEvent>,
)
    requires
        strategy.terms_for(asset, setting, pick, event) is Some,
        is_mild(strategy.config.min_entry_depth_ratio@),
        is_mild(strategy.deps.base_min_size_retention_ratio@),
    ensures
        ({
            let u = unit();
            let terms = strategy.terms_for(asset, setting, pick, event)->0;
            let given = |field: OverrideField|
                strategy.multiplier(
                    Some(asset),
                    setting.days,
                    setting.market_type,
                    recorded_subtype(setting.event.subtype),
                    field,
                );
            let for_depth = given_or_one(given(OverrideField::DepthRatio));
            let for_size = given_or_one(given(OverrideField::SizeRetention));
            &&& terms.ask_price == pick.ask_price
            &&& terms.edge == pick.edge
            &&& terms.days_to_resolution == setting.days
            &&& Some(terms.event_size_multiplier) == strategy.size_share(
                asset,
                setting.days,
                setting.market_type,
                event,
            )
            &&& is_mild(for_depth) ==> close(
                terms.min_depth_ratio,
                strategy.config.min_entry_depth_ratio@ * for_depth,
                u,
                10,
            )
            &&& is_mild(for_size) ==> is_held(
                terms.min_size_retention_ratio,
                strategy.deps.base_min_size_retention_ratio@ * for_size,
                u,
                10,
            )
        }),
{
    let u = unit();
    let subtype = recorded_subtype(setting.event.subtype);
    let a = given_or_one(
        strategy.multiplier(
            Some(asset),
            setting.days,
            setting.market_type,
            subtype,
            OverrideField::DepthRatio,
        ),
    );
    let b = given_or_one(
        strategy.multiplier(
            Some(asset),
            setting.days,
            setting.market_type,
            subtype,
            OverrideField::SizeRetention,
        ),
    );
    let x = strategy.config.min_entry_depth_ratio@;
    let y = strategy.deps.base_min_size_retention_ratio@;
    if is_mild(a) {
        lemma_mild_product(x, a);
    }
    if is_mild(b) {
        lemma_mild_product(y, b);
        lemma_held(product(y, b)->0, y * b, u, 10);
    }
}

} // verus!
