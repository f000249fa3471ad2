//! Looking for an entry in a group of markets about one asset.
use crate::crypto_alpha::assets::{find_asset, CryptoAsset};
use crate::crypto_alpha::context::{decision_event_context, join};
use crate::crypto_alpha::decisions::{with_newer, CryptoCandidateDecision};
use crate::crypto_alpha::detect::days_until;
use crate::crypto_alpha::entry::{Account, EntryOutcome, EntrySetting};
use crate::crypto_alpha::labels::{binary_direction_bucket, CalendarEvent, CryptoMarketType};
use crate::crypto_alpha::outcomes::{reject_market, OutcomeFacts, OutcomeScan};
use crate::crypto_alpha::question::parse_crypto_question;
use crate::crypto_alpha::quotes::SideChances;
use crate::crypto_alpha::strategy::CryptoAlphaStrategy;
use crate::decimal::Decimal;
use crate::types::{BinaryEventGroup, BookSet, MarketInfo, Stamp};
use vstd::prelude::*;

verus! {

use crate::crypto_alpha::assets::{asset_in, asset_record, AssetEntry};
use crate::crypto_alpha::context::event_notes;
use crate::crypto_alpha::decisions::{recent_after, records, DecisionRecord};
use crate::crypto_alpha::detect::days_ahead;
use crate::crypto_alpha::entry::{no_entry, EntryResult, SettingRecord};
use crate::crypto_alpha::labels::binary_bucket;
use crate::crypto_alpha::outcomes::{
    after_scan, best_pick, is_offered, lemma_outcome_is_weighed, market_rejection, none_better,
    outcome_seen, scan_only, scan_start, OutcomeView, ScanState,
};
use crate::crypto_alpha::probability::calibrated;
use crate::crypto_alpha::question::question_of;
use crate::crypto_alpha::quotes::best_edge;
use crate::crypto_alpha::thresholds::{event_at, max_spread_allowed, min_edge_needed};

/// What is known of a market of a group from elsewhere.
#[derive(Debug)]
pub struct GroupReading {
    /// The day that the market asks about.
    pub target_day: Option<i32>,
    /// The calendar's entry that matches the group's title and the question, or the question alone
    /// where the group has no title.
    pub event: Option<CalendarEvent>,
    /// The calendar's entry that matches the title, a blank and the question.
    pub full_event: Option<CalendarEvent>,
    /// What the price model says of the market.
    pub raw_prob: Option<Decimal>,
}

/// The text of a market of a group.
pub open spec fn group_text(title: Seq<char>, question: Seq<char>) -> Seq<char> {
    if title.len() == 0 {
        question
    } else {
        title + " "@ + question
    }
}

/// The text of a market of a group.
pub fn group_market_text(title: &String, question: &str) -> (r: String)
    ensures
        r@ == group_text(title@, question@),
{
    if title.as_str().is_empty() {
        question.to_owned()
    } else {
        join(title.as_str(), " ", question)
    }
}

/// The first asset that a question of the markets is about, from the `i`-th market on.
pub open spec fn first_asked(markets: Seq<MarketInfo>, i: nat) -> Option<AssetEntry>
    decreases markets.len() - i,
{
    if i >= markets.len() {
        None
    } else {
        match question_of(markets[i as int].question@, None) {
            Some(q) => Some(q.asset),
            None => first_asked(markets, i + 1),
        }
    }
}

/// The asset that a group is about: the one in its title, or the first that a question asks for.
pub open spec fn group_asset(group: BinaryEventGroup) -> Option<AssetEntry> {
    match asset_in(group.title@) {
        Some(a) => Some(a),
        None => first_asked(group.markets@, 0),
    }
}

/// The asset that a group is about.
pub fn find_group_asset(group: &BinaryEventGroup) -> (r: Option<CryptoAsset>)
    ensures
        asset_record(r) == group_asset(*group),
{
    if let Some(asset) = find_asset(group.title.as_str()) {
        return Some(asset);
    }
    let mut i: usize = 0;
    while i < group.markets.len()
        invariant
            i <= group.markets@.len(),
            asset_in(group.title@) is None,
            first_asked(group.markets@, 0) == first_asked(group.markets@, i as nat),
        decreases group.markets@.len() - i,
    {
        if let Some(q) = parse_crypto_question(group.markets[i].question.as_str(), None) {
            return Some(q.asset);
        }
        i = i + 1;
    }
    None
}

fn event_ref(event: &Option<CalendarEvent>) -> (r: Option<&CalendarEvent>)
    ensures
        event_at(r) == *event,
{
    match event {
        Some(e) => Some(e),
        None => None,
    }
}

/// A market of a group as it is looked at.
pub open spec fn group_view(
    group: BinaryEventGroup,
    asset: AssetEntry,
    reading: GroupReading,
    days: u32,
    max_spread_bps: int,
    prob: int,
    place: int,
) -> OutcomeView {
    let market = group.markets@[place]@;
    let direction = question_of(market.question, reading.target_day)->0.direction;
    OutcomeView {
        place,
        market,
        asset_name: asset.name,
        market_type: CryptoMarketType::Binary,
        question: market.question,
        days,
        prob,
        yes_direction: binary_bucket(direction, true),
        no_direction: binary_bucket(direction, false),
        fee_rate_bps: market.fee_rate_bps,
        max_spread_bps,
        event: event_notes(group_text(group.title@, market.question), reading.event),
    }
}

impl CryptoAlphaStrategy {
    /// What is known after a market of a group that is still to come is looked at.
    pub open spec fn group_market_seen(
        &self,
        state: ScanState,
        books: BookSet,
        group: BinaryEventGroup,
        asset: AssetEntry,
        reading: GroupReading,
        days: u32,
        place: int,
    ) -> Option<ScanState> {
        let market = group.markets@[place]@;
        let notes = event_notes(group_text(group.title@, market.question), reading.event);
        if days > self.config.max_entry_days {
            Some(
                ScanState {
                    decisions: state.decisions.push(
                        market_rejection(
                            asset.name,
                            CryptoMarketType::Binary,
                            market.question,
                            days,
                            0,
                            false,
                            market.condition_id,
                            notes,
                            "beyond_entry_horizon"@,
                        ),
                    ),
                    ..state
                },
            )
        } else {
            match (
                min_edge_needed(self.config, asset, CryptoMarketType::Binary, days, reading.event),
                max_spread_allowed(
                    self.config,
                    asset,
                    CryptoMarketType::Binary,
                    days,
                    reading.event,
                ),
            ) {
                (Some(_), Some(max_spread_bps)) => match reading.raw_prob {
                    None => Some(ScanState { aborted: true, ..state }),
                    Some(raw) => match calibrated(
                        self.config,
                        asset,
                        days,
                        CryptoMarketType::Binary,
                        raw@,
                    ) {
                        None => None,
                        Some(prob) => outcome_seen(
                            state,
                            books,
                            group_view(group, asset, reading, days, max_spread_bps, prob, place),
                        ),
                    },
                },
                _ => None,
            }
        }
    }

    /// What is known after the first `n` markets of a group.
    pub open spec fn group_scan(
        &self,
        books: BookSet,
        group: BinaryEventGroup,
        asset: AssetEntry,
        readings: Seq<GroupReading>,
        today: i32,
        n: nat,
    ) -> Option<ScanState>
        decreases n,
    {
        if n == 0 {
            Some(scan_start())
        } else {
            let market = group.markets@[n - 1]@;
            let reading = readings[n - 1];
            match self.group_scan(books, group, asset, readings, today, (n - 1) as nat) {
                None => None,
                Some(state) => match (
                    question_of(market.question, reading.target_day),
                    days_ahead(reading.target_day, today),
                ) {
                    (Some(_), Some(days)) => if state.aborted || !market.active
                        || market.tokens.len() != 2 {
                        Some(state)
                    } else {
                        self.group_market_seen(state, books, group, asset, reading, days, n - 1)
                    },
                    _ => Some(state),
                },
            }
        }
    }

    proof fn lemma_group_scan_prefix(
        &self,
        books: BookSet,
        group: BinaryEventGroup,
        asset: AssetEntry,
        readings: Seq<GroupReading>,
        today: i32,
        k: nat,
        n: nat,
    )
        requires
            k <= n,
            self.group_scan(books, group, asset, readings, today, n) is Some,
        ensures
            self.group_scan(books, group, asset, readings, today, k) is Some,
        decreases n,
    {
        if k < n {
            self.lemma_group_scan_prefix(
                books,
                group,
                asset,
                readings,
                today,
                k,
                (n - 1) as nat,
            );
        }
    }

    /// A market of a group as it is weighed against the others; none where it is passed over.
    pub open spec fn weighed_market(
        &self,
        group: BinaryEventGroup,
        asset: AssetEntry,
        readings: Seq<GroupReading>,
        today: i32,
        place: int,
    ) -> Option<OutcomeView> {
        let market = group.markets@[place]@;
        let reading = readings[place];
        match (
            question_of(market.question, reading.target_day),
            days_ahead(reading.target_day, today),
            reading.raw_prob,
        ) {
            (Some(_), Some(days), Some(raw)) => match (
                max_spread_allowed(
                    self.config,
                    asset,
                    CryptoMarketType::Binary,
                    days,
                    reading.event,
                ),
                calibrated(self.config, asset, days, CryptoMarketType::Binary, raw@),
            ) {
                (Some(max_spread_bps), Some(prob)) => if market.active && market.tokens.len() == 2
                    && days <= self.config.max_entry_days {
                    Some(group_view(group, asset, reading, days, max_spread_bps, prob, place))
                } else {
                    None
                },
                _ => None,
            },
            _ => None,
        }
    }

    /// Over a whole group the side that is taken further has the largest edge: no side of any market
    /// that is weighed has a larger one. It is a side of the market that it is said to be of, and its
    /// edge is above zero; where there is none, no side has an edge above zero.
    pub proof fn law_group_takes_the_largest_edge(
        &self,
        books: BookSet,
        group: BinaryEventGroup,
        asset: AssetEntry,
        readings: Seq<GroupReading>,
        today: i32,
        n: nat,
    )
        requires
            n <= group.markets@.len(),
            self.group_scan(books, group, asset, readings, today, n) is Some,
            !self.group_scan(books, group, asset, readings, today, n)->0.aborted,
        ensures
            ({
                let best = self.group_scan(books, group, asset, readings, today, n)->0.best;
                &&& best_edge(best_pick(best)) >= 0
                &&& forall|i: int|
                    0 <= i < n && (#[trigger] self.weighed_market(
                        group,
                        asset,
                        readings,
                        today,
                        i,
                    )) is Some ==> none_better(
                        books,
                        self.weighed_market(group, asset, readings, today, i)->0,
                        best,
                    )
                &&& best matches Some((place, pick)) ==> {
                    let view = self.weighed_market(group, asset, readings, today, place);
                    &&& 0 <= place < n
                    &&& view is Some
                    &&& is_offered(books, view->0, pick)
                }
            }),
        decreases n,
    {
        if n > 0 {
            let before = self.group_scan(books, group, asset, readings, today, (n - 1) as nat)->0;
            self.law_group_takes_the_largest_edge(
                books,
                group,
                asset,
                readings,
                today,
                (n - 1) as nat,
            );
            if let Some(view) = self.weighed_market(group, asset, readings, today, n - 1) {
                lemma_outcome_is_weighed(before, books, view);
            }
        }
    }

    /// What comes of the best side of a group.
    pub open spec fn group_winner_entry(
        &self,
        recent: Seq<DecisionRecord>,
        books: BookSet,
        account: Account,
        group: BinaryEventGroup,
        asset: AssetEntry,
        readings: Seq<GroupReading>,
        today: i32,
        stamp: Stamp,
        state: ScanState,
    ) -> Option<EntryResult> {
        let (place, pick) = state.best->0;
        let question = group.markets@[place].question@;
        let reading = readings[place];
        let days = days_ahead(reading.target_day, today)->0;
        match (
            min_edge_needed(self.config, asset, CryptoMarketType::Binary, days, reading.event),
            max_spread_allowed(self.config, asset, CryptoMarketType::Binary, days, reading.event),
        ) {
            (Some(min_edge_bps), Some(_)) => after_scan(
                state,
                self.entry_result(
                    recent_after(recent, state.decisions),
                    books,
                    account,
                    asset,
                    SettingRecord {
                        market_type: CryptoMarketType::Binary,
                        days,
                        min_edge_bps,
                        record_question: question,
                        trade_question: "[Group] "@ + group.title@ + " → "@ + question,
                        short_event: event_notes(
                            group_text(group.title@, question),
                            reading.event,
                        ),
                        event: event_notes(
                            group.title@ + " "@ + question,
                            reading.full_event,
                        ),
                    },
                    pick,
                    reading.full_event,
                    stamp,
                ),
            ),
            _ => None,
        }
    }

    /// What comes of looking at the markets of a group: the side with the largest edge is the one
    /// that is taken further.
    pub open spec fn group_entry(
        &self,
        recent: Seq<DecisionRecord>,
        books: BookSet,
        account: Account,
        group: BinaryEventGroup,
        readings: Seq<GroupReading>,
        today: i32,
        has_data: bool,
        stamp: Stamp,
    ) -> Option<EntryResult> {
        match group_asset(group) {
            None => Some(no_entry()),
            Some(asset) => if !has_data {
                Some(no_entry())
            } else {
                match self.group_scan(
                    books,
                    group,
                    asset,
                    readings,
                    today,
                    group.markets@.len(),
                ) {
                    None => None,
                    Some(state) => if state.aborted || state.best is None {
                        Some(scan_only(state))
                    } else {
                        self.group_winner_entry(
                            recent,
                            books,
                            account,
                            group,
                            asset,
                            readings,
                            today,
                            stamp,
                            state,
                        )
                    },
                }
            },
        }
    }

    fn see_group_market(
        &self,
        scan: &mut OutcomeScan,
        books: &BookSet,
        group: &BinaryEventGroup,
        asset: &CryptoAsset,
        reading: &GroupReading,
        days: u32,
        place: usize,
    )
        requires
            place < group.markets@.len(),
            group.markets@[place as int].tokens@.len() == 2,
            question_of(group.markets@[place as int].question@, reading.target_day) is Some,
            self.group_market_seen(
                old(scan)@,
                *books,
                *group,
                asset@,
                *reading,
                days,
                place as int,
            ) is Some,
        ensures
            self.group_market_seen(
                old(scan)@,
                *books,
                *group,
                asset@,
                *reading,
                days,
                place as int,
            ) == Some(final(scan)@),
            old(scan).outcome.candidate is None ==> final(scan).outcome.candidate is None,
            old(scan).outcome.near_miss_edge_bps is None ==>
                final(scan).outcome.near_miss_edge_bps is None,
    {
        let market = &group.markets[place];
        let text = group_market_text(&group.title, market.question.as_str());
        let context = decision_event_context(text.as_str(), event_ref(&reading.event));
        if !self.within_entry_horizon(days) {
            let decision = reject_market(
                asset,
                CryptoMarketType::Binary,
                market.question.as_str(),
                days,
                Decimal::zero(),
                false,
                market.condition_id,
                context,
                "beyond_entry_horizon",
            );
            scan.outcome.record(decision);
            return;
        }
        let (_, max_spread_bps) = self.effective_entry_thresholds_for_context(
            asset,
            CryptoMarketType::Binary,
            days,
            event_ref(&reading.event),
        );
        let raw = match reading.raw_prob {
            Some(p) => p,
            None => {
                scan.aborted = true;
                return;
            },
        };
        let prob = self.calibrate_probability(asset, days, CryptoMarketType::Binary, raw);
        let question = parse_crypto_question(market.question.as_str(), reading.target_day);
        if let Some(q) = question {
            let chances = SideChances {
                prob,
                yes_direction: binary_direction_bucket(q.direction, true),
                no_direction: binary_direction_bucket(q.direction, false),
            };
            let facts = OutcomeFacts {
                place,
                market,
                asset,
                market_type: CryptoMarketType::Binary,
                question: market.question.as_str(),
                days,
                chances,
                fee_rate_bps: market.fee_rate_bps,
                max_spread_bps,
                event: &context,
            };
            scan.see(books, &facts);
        }
    }

    fn scan_group(
        &self,
        books: &BookSet,
        group: &BinaryEventGroup,
        asset: &CryptoAsset,
        readings: &Vec<GroupReading>,
        today: i32,
    ) -> (r: OutcomeScan)
        requires
            readings@.len() == group.markets@.len(),
            self.group_scan(
                *books,
                *group,
                asset@,
                readings@,
                today,
                group.markets@.len(),
            ) is Some,
        ensures
            self.group_scan(
                *books,
                *group,
                asset@,
                readings@,
                today,
                group.markets@.len(),
            ) == Some(r@),
            r.best matches Some((place, _)) ==> place < group.markets@.len() && days_ahead(
                readings@[place as int].target_day,
                today,
            ) is Some,
            r.outcome.candidate is None,
            r.outcome.near_miss_edge_bps is None,
    {
        let mut scan = OutcomeScan::start();
        let mut i: usize = 0;
        while i < group.markets.len()
            invariant
                i <= group.markets@.len(),
                readings@.len() == group.markets@.len(),
                self.group_scan(
                    *books,
                    *group,
                    asset@,
                    readings@,
                    today,
                    group.markets@.len(),
                ) is Some,
                self.group_scan(*books, *group, asset@, readings@, today, i as nat) == Some(scan@),
                scan.best matches Some((place, _)) ==> place < i && days_ahead(
                    readings@[place as int].target_day,
                    today,
                ) is Some,
                scan.outcome.candidate is None,
                scan.outcome.near_miss_edge_bps is None,
            decreases group.markets@.len() - i,
        {
            proof {
                self.lemma_group_scan_prefix(
                    *books,
                    *group,
                    asset@,
                    readings@,
                    today,
                    (i + 1) as nat,
                    group.markets@.len(),
                );
            }
            let market = &group.markets[i];
            let reading = &readings[i];
            if !scan.aborted && market.active && market.tokens.len() == 2 {
                let question = parse_crypto_question(market.question.as_str(), reading.target_day);
                let days = days_until(reading.target_day, today);
                if let (Some(_), Some(d)) = (question, days) {
                    self.see_group_market(&mut scan, books, group, asset, reading, d, i);
                }
            }
            i = i + 1;
        }
        scan
    }

    /// Looks for an entry in a group of markets, on the side with the largest edge. The readings
    /// are what is known of each market.
    pub fn detect_crypto_group(
        &self,
        recent: &Vec<CryptoCandidateDecision>,
        books: &BookSet,
        account: &Account,
        group: &BinaryEventGroup,
        readings: &Vec<GroupReading>,
        today: i32,
        has_data: bool,
        stamp: Stamp,
    ) -> (r: EntryOutcome)
        requires
            readings@.len() == group.markets@.len(),
            self.group_entry(
                records(recent@),
                *books,
                *account,
                *group,
                readings@,
                today,
                has_data,
                stamp,
            ) is Some,
        ensures
            self.group_entry(
                records(recent@),
                *books,
                *account,
                *group,
                readings@,
                today,
                has_data,
                stamp,
            ) == Some(r@),
    {
        let asset = match find_group_asset(group) {
            Some(a) => a,
            None => return EntryOutcome::nothing(),
        };
        if !has_data {
            return EntryOutcome::nothing();
        }
        let scan = self.scan_group(books, group, &asset, readings, today);
        if scan.aborted {
            return scan.outcome;
        }
        let (place, pick) = match scan.best {
            Some(b) => b,
            None => return scan.outcome,
        };
        let market = &group.markets[place];
        let reading = &readings[place];
        let days = match days_until(reading.target_day, today) {
            Some(d) => d,
            None => return scan.outcome,
        };
        let (min_edge_bps, _) = self.effective_entry_thresholds_for_context(
            &asset,
            CryptoMarketType::Binary,
            days,
            event_ref(&reading.event),
        );
        let text = group_market_text(&group.title, market.question.as_str());
        let full_text = join(group.title.as_str(), " ", market.question.as_str());
        let short_event = decision_event_context(text.as_str(), event_ref(&reading.event));
        let event = decision_event_context(full_text.as_str(), event_ref(&reading.full_event));
        let title = join("[Group] ", group.title.as_str(), " → ");
        let setting = EntrySetting {
            market_type: CryptoMarketType::Binary,
            days,
            min_edge_bps,
            record_question: market.question.clone(),
            trade_question: title.concat(market.question.as_str()),
            short_event,
            event,
        };
        let entry = self.propose_entry(
            &with_newer(recent, &scan.outcome.decisions),
            books,
            account,
            &asset,
            setting,
            pick,
            event_ref(&reading.full_event),
            stamp,
        );
        scan.outcome.followed_by(entry)
    }
}

/// A group is passed over where it is about no asset or nothing is known of the asset; otherwise its
/// markets are looked at, and without a side to take in them what was turned down is all there is.
pub proof fn law_group_is_scanned_where_its_asset_is_known(
    strategy: CryptoAlphaStrategy,
    recent: Seq<DecisionRecord>,
    books: BookSet,
    account: Account,
    group: BinaryEventGroup,
    readings: Seq<GroupReading>,
    today: i32,
    has_data: bool,
    stamp: Stamp,
)
    requires
        strategy.group_entry(
            recent,
            books,
            account,
            group,
            readings,
            today,
            has_data,
            stamp,
        ) is Some,
    ensures
        ({
            let found = strategy.group_entry(
                recent,
                books,
                account,
                group,
                readings,
                today,
                has_data,
                stamp,
            )->0;
            let asset = group_asset(group);
            let scanned = strategy.group_scan(
                books,
                group,
                asset->0,
                readings,
                today,
                group.markets@.len(),
            );
            &&& asset is None || !has_data ==> found == no_entry()
            &&& asset is Some && has_data ==> {
                &&& scanned is Some
                &&& scanned->0.best is None || scanned->0.aborted ==> found.candidate is None
                    && found.rejections == scanned->0.rejections && found.decisions
                    == scanned->0.decisions
            }
        }),
{
}

} // verus!
