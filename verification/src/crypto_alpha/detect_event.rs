//! Looking for an entry in an event with several outcomes.
use crate::crypto_alpha::assets::CryptoAsset;
use crate::crypto_alpha::context::{decision_event_context, join};
use crate::crypto_alpha::decisions::{with_newer, CryptoCandidateDecision, EventContext};
use crate::crypto_alpha::entry::{Account, EntryOutcome, EntrySetting};
use crate::crypto_alpha::labels::{CalendarEvent, CryptoMarketType};
use crate::crypto_alpha::outcomes::{OutcomeFacts, OutcomeScan};
use crate::crypto_alpha::question::{parse_crypto_outcome_range, range_direction_bucket};
use crate::crypto_alpha::quotes::SideChances;
use crate::crypto_alpha::strategy::CryptoAlphaStrategy;
use crate::decimal::Decimal;
use crate::types::{BookSet, NegRiskEvent, Stamp};
use vstd::prelude::*;

verus! {

use crate::crypto_alpha::assets::AssetEntry;
use crate::crypto_alpha::context::event_notes;
use crate::crypto_alpha::decisions::{recent_after, records, DecisionRecord, EventNotes};
use crate::crypto_alpha::entry::{no_entry, EntryResult, SettingRecord};
use crate::crypto_alpha::outcomes::{
    after_scan, best_pick, is_offered, lemma_outcome_is_weighed, none_better, outcome_seen, scan_only,
    scan_start, OutcomeView, ScanState,
};
use crate::crypto_alpha::probability::calibrated;
use crate::crypto_alpha::question::{range_bucket, range_of, RangeRecord};
use crate::crypto_alpha::quotes::best_edge;
use crate::crypto_alpha::thresholds::{event_at, max_spread_allowed, min_edge_needed};

/// How an outcome of an event is named.
pub open spec fn outcome_name(title: Seq<char>, question: Seq<char>) -> Seq<char> {
    title + " → "@ + question
}

/// An outcome of an event as it is looked at.
pub open spec fn outcome_view(
    event: NegRiskEvent,
    asset: AssetEntry,
    days: u32,
    notes: EventNotes,
    max_spread_bps: int,
    range: RangeRecord,
    prob: int,
    place: int,
) -> OutcomeView {
    let market = event.markets@[place]@;
    OutcomeView {
        place,
        market,
        asset_name: asset.name,
        market_type: CryptoMarketType::Range,
        question: outcome_name(event.title@, market.question),
        days,
        prob,
        yes_direction: range_bucket(range, true),
        no_direction: range_bucket(range, false),
        fee_rate_bps: event.fee_rate_bps,
        max_spread_bps,
        event: notes,
    }
}

impl CryptoAlphaStrategy {
    /// What is known after the first `n` outcomes of an event.
    pub open spec fn event_scan(
        &self,
        books: BookSet,
        event: NegRiskEvent,
        asset: AssetEntry,
        days: u32,
        notes: EventNotes,
        readings: Seq<Option<Decimal>>,
        max_spread_bps: int,
        n: nat,
    ) -> Option<ScanState>
        decreases n,
    {
        if n == 0 {
            Some(scan_start())
        } else {
            let market = event.markets@[n - 1]@;
            match self.event_scan(
                books,
                event,
                asset,
                days,
                notes,
                readings,
                max_spread_bps,
                (n - 1) as nat,
            ) {
                None => None,
                Some(state) => if state.aborted || !market.active || market.tokens.len() < 2 {
                    Some(state)
                } else {
                    match (range_of(market.question), readings[n - 1]) {
                        (None, _) => Some(state),
                        (Some(_), None) => Some(ScanState { aborted: true, ..state }),
                        (Some(range), Some(raw)) => match calibrated(
                            self.config,
                            asset,
                            days,
                            CryptoMarketType::Range,
                            raw@,
                        ) {
                            None => None,
                            Some(prob) => outcome_seen(
                                state,
                                books,
                                outcome_view(
                                    event,
                                    asset,
                                    days,
                                    notes,
                                    max_spread_bps,
                                    range,
                                    prob,
                                    n - 1,
                                ),
                            ),
                        },
                    }
                },
            }
        }
    }

    proof fn lemma_event_scan_prefix(
        &self,
        books: BookSet,
        event: NegRiskEvent,
        asset: AssetEntry,
        days: u32,
        notes: EventNotes,
        readings: Seq<Option<Decimal>>,
        max_spread_bps: int,
        k: nat,
        n: nat,
    )
        requires
            k <= n,
            self.event_scan(
                books,
                event,
                asset,
                days,
                notes,
                readings,
                max_spread_bps,
                n,
            ) is Some,
        ensures
            self.event_scan(
                books,
                event,
                asset,
                days,
                notes,
                readings,
                max_spread_bps,
                k,
            ) is Some,
        decreases n,
    {
        if k < n {
            self.lemma_event_scan_prefix(
                books,
                event,
                asset,
                days,
                notes,
                readings,
                max_spread_bps,
                k,
                (n - 1) as nat,
            );
        }
    }

    /// An outcome of an event as it is weighed against the others; none where it is passed over.
    pub open spec fn weighed_outcome(
        &self,
        event: NegRiskEvent,
        asset: AssetEntry,
        days: u32,
        notes: EventNotes,
        readings: Seq<Option<Decimal>>,
        max_spread_bps: int,
        place: int,
    ) -> Option<OutcomeView> {
        let market = event.markets@[place]@;
        match (range_of(market.question), readings[place]) {
            (Some(range), Some(raw)) => match calibrated(
                self.config,
                asset,
                days,
                CryptoMarketType::Range,
                raw@,
            ) {
                Some(prob) => if market.active && market.tokens.len() >= 2 {
                    Some(
                        outcome_view(
                            event,
                            asset,
                            days,
                            notes,
                            max_spread_bps,
                            range,
                            prob,
                            place,
                        ),
                    )
                } else {
                    None
                },
                None => None,
            },
            _ => None,
        }
    }

    /// Over a whole event the side that is taken further has the largest edge: no side of any outcome
    /// that is weighed has a larger one. It is a side of the outcome that it is said to be of, and its
    /// edge is above zero; where there is none, no side has an edge above zero.
    pub proof fn law_event_takes_the_largest_edge(
        &self,
        books: BookSet,
        event: NegRiskEvent,
        asset: AssetEntry,
        days: u32,
        notes: EventNotes,
        readings: Seq<Option<Decimal>>,
        max_spread_bps: int,
        n: nat,
    )
        requires
            n <= event.markets@.len(),
            self.event_scan(
                books,
                event,
                asset,
                days,
                notes,
                readings,
                max_spread_bps,
                n,
            ) is Some,
            !self.event_scan(
                books,
                event,
                asset,
                days,
                notes,
                readings,
                max_spread_bps,
                n,
            )->0.aborted,
        ensures
            ({
                let best = self.event_scan(
                    books,
                    event,
                    asset,
                    days,
                    notes,
                    readings,
                    max_spread_bps,
                    n,
                )->0.best;
                &&& best_edge(best_pick(best)) >= 0
                &&& forall|i: int|
                    0 <= i < n && (#[trigger] self.weighed_outcome(
                        event,
                        asset,
                        days,
                        notes,
                        readings,
                        max_spread_bps,
                        i,
                    )) is Some ==> none_better(
                        books,
                        self.weighed_outcome(
                            event,
                            asset,
                            days,
                            notes,
                            readings,
                            max_spread_bps,
                            i,
                        )->0,
                        best,
                    )
                &&& best matches Some((place, pick)) ==> {
                    let view = self.weighed_outcome(
                        event,
                        asset,
                        days,
                        notes,
                        readings,
                        max_spread_bps,
                        place,
                    );
                    &&& 0 <= place < n
                    &&& view is Some
                    &&& is_offered(books, view->0, pick)
                }
            }),
        decreases n,
    {
        if n > 0 {
            let before = self.event_scan(
                books,
                event,
                asset,
                days,
                notes,
                readings,
                max_spread_bps,
                (n - 1) as nat,
            )->0;
            self.law_event_takes_the_largest_edge(
                books,
                event,
                asset,
                days,
                notes,
                readings,
                max_spread_bps,
                (n - 1) as nat,
            );
            if let Some(view) = self.weighed_outcome(
                event,
                asset,
                days,
                notes,
                readings,
                max_spread_bps,
                n - 1,
            ) {
                lemma_outcome_is_weighed(before, books, view);
            }
        }
    }

    /// What comes of looking at the outcomes of an event: the side with the largest edge is the one
    /// that is taken further.
    pub open spec fn event_entry(
        &self,
        recent: Seq<DecisionRecord>,
        books: BookSet,
        account: Account,
        event: NegRiskEvent,
        asset: AssetEntry,
        days: u32,
        calendar: Option<CalendarEvent>,
        has_data: bool,
        readings: Seq<Option<Decimal>>,
        stamp: Stamp,
    ) -> Option<EntryResult> {
        let notes = event_notes(event.title@ + " "@ + asset.name, calendar);
        if days > self.config.max_entry_days {
            Some(no_entry())
        } else {
            match (
                min_edge_needed(self.config, asset, CryptoMarketType::Range, days, calendar),
                max_spread_allowed(self.config, asset, CryptoMarketType::Range, days, calendar),
            ) {
                (Some(min_edge_bps), Some(max_spread_bps)) => if !has_data {
                    Some(no_entry())
                } else {
                    match self.event_scan(
                        books,
                        event,
                        asset,
                        days,
                        notes,
                        readings,
                        max_spread_bps,
                        event.markets@.len(),
                    ) {
                        None => None,
                        Some(state) => match state.best {
                            Some((place, pick)) => if state.aborted {
                                Some(scan_only(state))
                            } else {
                                let name = outcome_name(
                                    event.title@,
                                    event.markets@[place].question@,
                                );
                                after_scan(
                                    state,
                                    self.entry_result(
                                        recent_after(recent, state.decisions),
                                        books,
                                        account,
                                        asset,
                                        SettingRecord {
                                            market_type: CryptoMarketType::Range,
                                            days,
                                            min_edge_bps,
                                            record_question: name,
                                            trade_question: name,
                                            short_event: notes,
                                            event: notes,
                                        },
                                        pick,
                                        calendar,
                                        stamp,
                                    ),
                                )
                            },
                            None => Some(scan_only(state)),
                        },
                    }
                },
                _ => None,
            }
        }
    }

    fn scan_event(
        &self,
        books: &BookSet,
        event: &NegRiskEvent,
        asset: &CryptoAsset,
        days: u32,
        context: &EventContext,
        readings: &Vec<Option<Decimal>>,
        max_spread_bps: u32,
    ) -> (r: OutcomeScan)
        requires
            readings@.len() == event.markets@.len(),
            self.event_scan(
                *books,
                *event,
                asset@,
                days,
                context@,
                readings@,
                max_spread_bps as int,
                event.markets@.len(),
            ) is Some,
        ensures
            self.event_scan(
                *books,
                *event,
                asset@,
                days,
                context@,
                readings@,
                max_spread_bps as int,
                event.markets@.len(),
            ) == Some(r@),
            r.best is Some ==> (r.best->0).0 < event.markets@.len(),
            r.outcome.candidate is None,
            r.outcome.near_miss_edge_bps is None,
    {
        let mut scan = OutcomeScan::start();
        let mut i: usize = 0;
        while i < event.markets.len()
            invariant
                i <= event.markets@.len(),
                readings@.len() == event.markets@.len(),
                self.event_scan(
                    *books,
                    *event,
                    asset@,
                    days,
                    context@,
                    readings@,
                    max_spread_bps as int,
                    event.markets@.len(),
                ) is Some,
                self.event_scan(
                    *books,
                    *event,
                    asset@,
                    days,
                    context@,
                    readings@,
                    max_spread_bps as int,
                    i as nat,
                ) == Some(scan@),
                scan.best is Some ==> (scan.best->0).0 < i,
                scan.outcome.candidate is None,
                scan.outcome.near_miss_edge_bps is None,
            decreases event.markets@.len() - i,
        {
            proof {
                self.lemma_event_scan_prefix(
                    *books,
                    *event,
                    asset@,
                    days,
                    context@,
                    readings@,
                    max_spread_bps as int,
                    (i + 1) as nat,
                    event.markets@.len(),
                );
            }
            let market = &event.markets[i];
            if !scan.aborted && market.active && market.tokens.len() >= 2 {
                if let Some(range) = parse_crypto_outcome_range(market.question.as_str()) {
                    match readings[i] {
                        None => {
                            scan.aborted = true;
                        },
                        Some(raw) => {
                            let prob = self.calibrate_probability(
                                asset,
                                days,
                                CryptoMarketType::Range,
                                raw,
                            );
                            let name = join(event.title.as_str(), " → ", market.question.as_str());
                            let chances = SideChances {
                                prob,
                                yes_direction: range_direction_bucket(&range, true),
                                no_direction: range_direction_bucket(&range, false),
                            };
                            let facts = OutcomeFacts {
                                place: i,
                                market,
                                asset,
                                market_type: CryptoMarketType::Range,
                                question: name.as_str(),
                                days,
                                chances,
                                fee_rate_bps: event.fee_rate_bps,
                                max_spread_bps,
                                event: context,
                            };
                            scan.see(books, &facts);
                        },
                    }
                }
            }
            i = i + 1;
        }
        scan
    }

    /// Looks for an entry in an event with several outcomes, on the side with the largest edge. The
    /// calendar's entry is the one that matches the event; the readings are what the model says of
    /// each outcome.
    pub fn detect_crypto_neg_risk(
        &self,
        recent: &Vec<CryptoCandidateDecision>,
        books: &BookSet,
        account: &Account,
        event: &NegRiskEvent,
        asset: &CryptoAsset,
        days: u32,
        calendar: Option<&CalendarEvent>,
        has_data: bool,
        readings: &Vec<Option<Decimal>>,
        stamp: Stamp,
    ) -> (r: EntryOutcome)
        requires
            readings@.len() == event.markets@.len(),
            self.event_entry(
                records(recent@),
                *books,
                *account,
                *event,
                asset@,
                days,
                event_at(calendar),
                has_data,
                readings@,
                stamp,
            ) is Some,
        ensures
            self.event_entry(
                records(recent@),
                *books,
                *account,
                *event,
                asset@,
                days,
                event_at(calendar),
                has_data,
                readings@,
                stamp,
            ) == Some(r@),
    {
        let text = join(event.title.as_str(), " ", asset.name);
        if !self.within_entry_horizon(days) {
            return EntryOutcome::nothing();
        }
        let context = decision_event_context(text.as_str(), calendar);
        let (min_edge_bps, max_spread_bps) = self.effective_entry_thresholds_for_context(
            asset,
            CryptoMarketType::Range,
            days,
            calendar,
        );
        if !has_data {
            return EntryOutcome::nothing();
        }
        let scan = self.scan_event(books, event, asset, days, &context, readings, max_spread_bps);
        let aborted = scan.aborted;
        match scan.best {
            Some((place, pick)) => {
                if aborted {
                    return scan.outcome;
                }
                let name = join(
                    event.title.as_str(),
                    " → ",
                    event.markets[place].question.as_str(),
                );
                let setting = EntrySetting {
                    market_type: CryptoMarketType::Range,
                    days,
                    min_edge_bps,
                    record_question: name.clone(),
                    trade_question: name,
                    short_event: context.clone(),
                    event: context,
                };
                let entry = self.propose_entry(
                    &with_newer(recent, &scan.outcome.decisions),
                    books,
                    account,
                    asset,
                    setting,
                    pick,
                    calendar,
                    stamp,
                );
                scan.outcome.followed_by(entry)
            },
            None => scan.outcome,
        }
    }
}

/// An event is passed over just where it resolves beyond the last day for an entry or nothing is known of
/// its asset; right at that day its outcomes are still looked at, by the limits of a range market.
pub proof fn law_event_is_scanned_up_to_the_horizon(
    strategy: CryptoAlphaStrategy,
    recent: Seq<DecisionRecord>,
    books: BookSet,
    account: Account,
    event: NegRiskEvent,
    asset: AssetEntry,
    days: u32,
    calendar: Option<CalendarEvent>,
    has_data: bool,
    readings: Seq<Option<Decimal>>,
    stamp: Stamp,
)
    requires
        strategy.event_entry(
            recent,
            books,
            account,
            event,
            asset,
            days,
            calendar,
            has_data,
            readings,
            stamp,
        ) is Some,
    ensures
        ({
            let found = strategy.event_entry(
                recent,
                books,
                account,
                event,
                asset,
                days,
                calendar,
                has_data,
                readings,
                stamp,
            )->0;
            let scanned = strategy.event_scan(
                books,
                event,
                asset,
                days,
                event_notes(event.title@ + " "@ + asset.name, calendar),
                readings,
                max_spread_allowed(
                    strategy.config,
                    asset,
                    CryptoMarketType::Range,
                    days,
                    calendar,
                )->0,
                event.markets@.len(),
            );
            &&& days > strategy.config.max_entry_days || !has_data ==> found == no_entry()
            &&& days <= strategy.config.max_entry_days && has_data ==> {
                &&& scanned is Some
                &&& scanned->0.best is None || scanned->0.aborted ==> found.candidate is None
                    && found.rejections == scanned->0.rejections && found.decisions
                    == scanned->0.decisions
            }
        }),
{
}

} // verus!
