//! What a scan looks at, and what comes of it.
use crate::crypto_alpha::assets::CryptoAsset;
use crate::crypto_alpha::candidates::EntrySlot;
use crate::crypto_alpha::context::decision_event_context;
use crate::crypto_alpha::decisions::CryptoCandidateDecision;
use crate::crypto_alpha::detect_group::find_group_asset;
use crate::crypto_alpha::exits::ExitProposal;
use crate::crypto_alpha::labels::{CalendarEvent, CryptoDirectionBucket, CryptoMarketType};
use crate::crypto_alpha::outcomes::reject_market;
use crate::crypto_alpha::question::{parse_crypto_event_title, parse_crypto_question};
use crate::crypto_alpha::strategy::CryptoAlphaStrategy;
use crate::decimal::Decimal;
use crate::keyed::Keyed;
use crate::types::{
    BinaryEventGroup, MarketInfo, NegRiskEvent, TradingOpportunity, B256, DAY, U256,
};
use vstd::prelude::*;

verus! {

use crate::crypto_alpha::assets::AssetEntry;
use crate::crypto_alpha::context::event_notes;
use crate::crypto_alpha::decisions::{record_of, DecisionRecord, EventNotes};
use crate::crypto_alpha::detect_group::group_asset;
use crate::crypto_alpha::outcomes::market_rejection;
use crate::crypto_alpha::question::{question_of, titled_asset};
use crate::types::{zero_id, OpportunityRecord};

/// A group or a market to look at, and the asset that it is about.
#[derive(Clone, Copy, Debug)]
pub struct Planned {
    pub place: usize,
    pub asset: CryptoAsset,
}

/// An event to look at, with the days until it resolves; one that is too far away comes with the
/// record of its rejection.
#[derive(Debug)]
pub struct PlannedEvent {
    pub place: usize,
    pub asset: CryptoAsset,
    pub days: u32,
    pub rejection: Option<CryptoCandidateDecision>,
}

/// What a planned item says.
pub struct PlanRecord {
    pub place: int,
    pub asset: AssetEntry,
}

/// What a planned event says.
pub struct PlanEventRecord {
    pub place: int,
    pub asset: AssetEntry,
    pub days: int,
    pub rejection: Option<DecisionRecord>,
}

impl View for Planned {
    type V = PlanRecord;

    open spec fn view(&self) -> PlanRecord {
        PlanRecord { place: self.place as int, asset: self.asset@ }
    }
}

impl View for PlannedEvent {
    type V = PlanEventRecord;

    open spec fn view(&self) -> PlanEventRecord {
        PlanEventRecord {
            place: self.place as int,
            asset: self.asset@,
            days: self.days as int,
            rejection: record_of(self.rejection),
        }
    }
}

pub open spec fn plan_views(v: Seq<Planned>) -> Seq<PlanRecord> {
    v.map_values(|p: Planned| p@)
}

pub open spec fn event_plan_views(v: Seq<PlannedEvent>) -> Seq<PlanEventRecord> {
    v.map_values(|p: PlannedEvent| p@)
}

/// The groups about an asset, among the first `n`.
pub open spec fn planned_groups(groups: Seq<BinaryEventGroup>, n: nat) -> Seq<PlanRecord>
    decreases n,
{
    if n == 0 {
        Seq::empty()
    } else {
        let before = planned_groups(groups, (n - 1) as nat);
        match group_asset(groups[n - 1]) {
            Some(asset) => before.push(PlanRecord { place: n - 1, asset }),
            None => before,
        }
    }
}

/// A market with the condition is in one of the groups.
pub open spec fn is_grouped(groups: Seq<BinaryEventGroup>, condition_id: Seq<u8>) -> bool {
    exists|g: int, m: int| in_group(groups, g, m, condition_id)
}

pub open spec fn in_group(
    groups: Seq<BinaryEventGroup>,
    g: int,
    m: int,
    condition_id: Seq<u8>,
) -> bool {
    &&& 0 <= g < groups.len()
    &&& 0 <= m < groups[g].markets@.len()
    &&& groups[g].markets@[m].condition_id@ == condition_id
}

/// The markets to look at on their own, among the first `n`: the active ones about an asset that are
/// neither an outcome of an event nor in a group.
pub open spec fn planned_markets(
    markets: Seq<MarketInfo>,
    groups: Seq<BinaryEventGroup>,
    n: nat,
) -> Seq<PlanRecord>
    decreases n,
{
    if n == 0 {
        Seq::empty()
    } else {
        let before = planned_markets(markets, groups, (n - 1) as nat);
        let market = markets[n - 1]@;
        match question_of(market.question, None) {
            Some(q) => if market.active && !market.neg_risk && !is_grouped(
                groups,
                market.condition_id,
            ) {
                before.push(PlanRecord { place: n - 1, asset: q.asset })
            } else {
                before
            },
            None => before,
        }
    }
}

/// The first of January 1970, in days since the start of the Common Era.
pub const EPOCH_DAY: i128 = 719_163;

/// The day of a moment that is given in nanoseconds since 1970.
pub open spec fn day_of(moment: i128) -> int {
    EPOCH_DAY + moment as int / DAY as int
}

fn day_at(moment: i128) -> (r: i128)
    ensures
        r == day_of(moment),
{
    let days: i128 = if moment >= 0 {
        moment / DAY
    } else {
        let back: i128 = -(moment + 1);
        proof {
            let q = back as int / DAY as int;
            let rem = back as int % DAY as int;
            assert(moment as int == (-q - 1) * DAY + (DAY - 1 - rem));
            vstd::arithmetic::div_mod::lemma_fundamental_div_mod_converse(
                moment as int,
                DAY as int,
                -q - 1,
                DAY - 1 - rem,
            );
        }
        -(back / DAY) - 1
    };
    EPOCH_DAY + days
}

/// When the first of the first `n` markets ends.
pub open spec fn first_end(markets: Seq<MarketInfo>, n: nat) -> Option<i128>
    decreases n,
{
    if n == 0 {
        None
    } else {
        match (first_end(markets, (n - 1) as nat), markets[n - 1].end_date) {
            (before, None) => before,
            (None, Some(end)) => Some(end),
            (Some(before), Some(end)) => if end < before {
                Some(end)
            } else {
                Some(before)
            },
        }
    }
}

/// The days from a moment until an event resolves: from the moment's day to the day in the event's
/// title, or where that has none, the whole days until the first of its markets ends. There are none
/// where that is less than a day ahead.
pub open spec fn event_days(event: NegRiskEvent, title_day: Option<i32>, now: i128) -> Option<int> {
    let days = match (titled_asset(event.title@), title_day) {
        (Some(_), Some(day)) => Some(day - day_of(now)),
        _ => match first_end(event.markets@, event.markets@.len()) {
            Some(end) => Some((end - now) / DAY as int),
            None => None,
        },
    };
    match days {
        Some(d) => if d > 0 {
            Some(d)
        } else {
            None
        },
        None => None,
    }
}

fn find_first_end(markets: &Vec<MarketInfo>) -> (r: Option<i128>)
    ensures
        r == first_end(markets@, markets@.len()),
{
    let mut first: Option<i128> = None;
    let mut i: usize = 0;
    while i < markets.len()
        invariant
            i <= markets@.len(),
            first == first_end(markets@, i as nat),
        decreases markets@.len() - i,
    {
        if let Some(end) = markets[i].end_date {
            first = match first {
                Some(before) => if end < before {
                    Some(end)
                } else {
                    Some(before)
                },
                None => Some(end),
            };
        }
        i = i + 1;
    }
    first
}

/// The days until an event resolves, from a moment in nanoseconds since 1970. The day in the event's
/// title is read elsewhere.
pub fn infer_neg_risk_entry_days(event: &NegRiskEvent, title_day: Option<i32>, now: i128) -> (r:
    Option<u32>)
    requires
        event_days(*event, title_day, now) is Some ==> event_days(*event, title_day, now)->0
            <= u32::MAX,
    ensures
        event_days(*event, title_day, now) == (match r {
            Some(d) => Some(d as int),
            None => None,
        }),
{
    if let Some(day) = title_day {
        if parse_crypto_event_title(event.title.as_str()).is_some() {
            let today: i128 = day_at(now);
            return if day as i128 > today {
                Some((day as i128 - today) as u32)
            } else {
                None
            };
        }
    }
    match find_first_end(&event.markets) {
        Some(end) => if end > now && end - now >= DAY {
            Some(((end - now) / DAY) as u32)
        } else {
            None
        },
        None => None,
    }
}

/// What is known of an event from elsewhere.
#[derive(Debug)]
pub struct EventReading {
    /// The day in the event's title.
    pub title_day: Option<i32>,
    /// The calendar's entry that matches the title.
    pub event: Option<CalendarEvent>,
}

/// The condition of an event's first market, all zero where it has none.
pub open spec fn first_condition(event: NegRiskEvent) -> Seq<u8> {
    if event.markets@.len() > 0 {
        event.markets@[0].condition_id@
    } else {
        zero_id()
    }
}

/// The record of an event that is too far away.
pub open spec fn far_event_record(
    event: NegRiskEvent,
    asset: AssetEntry,
    days: int,
    notes: EventNotes,
) -> DecisionRecord {
    market_rejection(
        asset.name,
        CryptoMarketType::Range,
        event.title@,
        days as u32,
        0,
        false,
        first_condition(event),
        notes,
        "beyond_entry_horizon"@,
    )
}

/// The plan for an event: none where it is about no asset or is not ahead.
pub open spec fn event_plan(
    max_entry_days: u32,
    event: NegRiskEvent,
    reading: EventReading,
    now: i128,
    place: int,
) -> Option<PlanEventRecord> {
    match (titled_asset(event.title@), event_days(event, reading.title_day, now)) {
        (Some(asset), Some(days)) => Some(
            PlanEventRecord {
                place,
                asset,
                days,
                rejection: if days > max_entry_days {
                    Some(
                        far_event_record(
                            event,
                            asset,
                            days,
                            event_notes(event.title@, reading.event),
                        ),
                    )
                } else {
                    None
                },
            },
        ),
        _ => None,
    }
}

/// The events to look at, among the first `n`.
pub open spec fn planned_events(
    max_entry_days: u32,
    events: Seq<NegRiskEvent>,
    readings: Seq<EventReading>,
    now: i128,
    n: nat,
) -> Seq<PlanEventRecord>
    decreases n,
{
    if n == 0 {
        Seq::empty()
    } else {
        let before = planned_events(max_entry_days, events, readings, now, (n - 1) as nat);
        match event_plan(max_entry_days, events[n - 1], readings[n - 1], now, n - 1) {
            Some(p) => before.push(p),
            None => before,
        }
    }
}

/// The groups to look at.
pub fn plan_groups(groups: &Vec<BinaryEventGroup>) -> (r: Vec<Planned>)
    ensures
        plan_views(r@) == planned_groups(groups@, groups@.len()),
{
    let mut plan: Vec<Planned> = Vec::new();
    let mut i: usize = 0;
    proof {
        assert(plan_views(plan@) =~= Seq::empty());
    }
    while i < groups.len()
        invariant
            i <= groups@.len(),
            plan_views(plan@) == planned_groups(groups@, i as nat),
        decreases groups@.len() - i,
    {
        if let Some(asset) = find_group_asset(&groups[i]) {
            let ghost before = plan@;
            let item = Planned { place: i, asset };
            plan.push(item);
            proof {
                assert(plan_views(plan@) =~= plan_views(before).push(item@));
            }
        }
        i = i + 1;
    }
    plan
}

fn grouped(groups: &Vec<BinaryEventGroup>, condition_id: B256) -> (r: bool)
    ensures
        r == is_grouped(groups@, condition_id@),
{
    let mut g: usize = 0;
    while g < groups.len()
        invariant
            g <= groups@.len(),
            forall|h: int, m: int| 0 <= h < g ==> !in_group(groups@, h, m, condition_id@),
        decreases groups@.len() - g,
    {
        let list = &groups[g].markets;
        let mut m: usize = 0;
        while m < list.len()
            invariant
                g < groups@.len(),
                *list == groups@[g as int].markets,
                m <= list@.len(),
                forall|k: int| 0 <= k < m ==> !in_group(groups@, g as int, k, condition_id@),
            decreases list@.len() - m,
        {
            if list[m].condition_id == condition_id {
                proof {
                    assert(in_group(groups@, g as int, m as int, condition_id@));
                }
                return true;
            }
            m = m + 1;
        }
        g = g + 1;
    }
    false
}

/// The markets to look at on their own.
pub fn plan_markets(markets: &Vec<MarketInfo>, groups: &Vec<BinaryEventGroup>) -> (r: Vec<Planned>)
    ensures
        plan_views(r@) == planned_markets(markets@, groups@, markets@.len()),
{
    let mut plan: Vec<Planned> = Vec::new();
    let mut i: usize = 0;
    proof {
        assert(plan_views(plan@) =~= Seq::empty());
    }
    while i < markets.len()
        invariant
            i <= markets@.len(),
            plan_views(plan@) == planned_markets(markets@, groups@, i as nat),
        decreases markets@.len() - i,
    {
        let market = &markets[i];
        if market.active && !market.neg_risk && !grouped(groups, market.condition_id) {
            if let Some(q) = parse_crypto_question(market.question.as_str(), None) {
                let ghost before = plan@;
                let item = Planned { place: i, asset: q.asset };
                plan.push(item);
                proof {
                    assert(plan_views(plan@) =~= plan_views(before).push(item@));
                }
            }
        }
        i = i + 1;
    }
    plan
}

impl CryptoAlphaStrategy {
    fn plan_event(&self, event: &NegRiskEvent, reading: &EventReading, now: i128, place: usize) -> (r:
        Option<PlannedEvent>)
        requires
            event_days(*event, reading.title_day, now) is Some ==> event_days(
                *event,
                reading.title_day,
                now,
            )->0 <= u32::MAX,
        ensures
            event_plan(self.config.max_entry_days, *event, *reading, now, place as int) == (
            match r {
                Some(p) => Some(p@),
                None => None,
            }),
    {
        let asset = match parse_crypto_event_title(event.title.as_str()) {
            Some(a) => a,
            None => return None,
        };
        let days = match infer_neg_risk_entry_days(event, reading.title_day, now) {
            Some(d) => d,
            None => return None,
        };
        let rejection = if self.within_entry_horizon(days) {
            None
        } else {
            let calendar = match &reading.event {
                Some(e) => Some(e),
                None => None,
            };
            let context = decision_event_context(event.title.as_str(), calendar);
            let condition_id = if event.markets.len() > 0 {
                event.markets[0].condition_id
            } else {
                B256::zero()
            };
            Some(
                reject_market(
                    &asset,
                    CryptoMarketType::Range,
                    event.title.as_str(),
                    days,
                    Decimal::zero(),
                    false,
                    condition_id,
                    context,
                    "beyond_entry_horizon",
                ),
            )
        };
        Some(PlannedEvent { place, asset, days, rejection })
    }

    /// The events to look at.
    pub fn plan_events(
        &self,
        events: &Vec<NegRiskEvent>,
        readings: &Vec<EventReading>,
        now: i128,
    ) -> (r: Vec<PlannedEvent>)
        requires
            readings@.len() == events@.len(),
            forall|i: int|
                0 <= i < events@.len() && (#[trigger] event_days(
                    events@[i],
                    readings@[i].title_day,
                    now,
                )) is Some ==> event_days(events@[i], readings@[i].title_day, now)->0 <= u32::MAX,
        ensures
            event_plan_views(r@) == planned_events(
                self.config.max_entry_days,
                events@,
                readings@,
                now,
                events@.len(),
            ),
    {
        let mut plan: Vec<PlannedEvent> = Vec::new();
        let mut i: usize = 0;
        proof {
            assert(event_plan_views(plan@) =~= Seq::empty());
        }
        while i < events.len()
            invariant
                i <= events@.len(),
                readings@.len() == events@.len(),
                forall|i: int|
                    0 <= i < events@.len() && (#[trigger] event_days(
                        events@[i],
                        readings@[i].title_day,
                        now,
                    )) is Some ==> event_days(events@[i], readings@[i].title_day, now)->0
                        <= u32::MAX,
                event_plan_views(plan@) == planned_events(
                    self.config.max_entry_days,
                    events@,
                    readings@,
                    now,
                    i as nat,
                ),
            decreases events@.len() - i,
        {
            if let Some(item) = self.plan_event(&events[i], &readings[i], now, i) {
                let ghost before = plan@;
                plan.push(item);
                proof {
                    assert(event_plan_views(plan@) =~= event_plan_views(before).push(item@));
                }
            }
            i = i + 1;
        }
        plan
    }
}

/// The direction that an entry on a token counts for.
pub open spec fn direction_for(
    token_directions: Map<U256, CryptoDirectionBucket>,
    token_id: U256,
) -> CryptoDirectionBucket {
    if token_directions.contains_key(token_id) {
        token_directions[token_id]
    } else {
        CryptoDirectionBucket::OutsideRange
    }
}

pub fn entry_direction(
    token_directions: &Keyed<U256, CryptoDirectionBucket>,
    token_id: U256,
) -> (r: CryptoDirectionBucket)
    ensures
        r == direction_for(token_directions@, token_id),
{
    match token_directions.get(token_id) {
        Some(d) => d,
        None => CryptoDirectionBucket::OutsideRange,
    }
}

pub open spec fn opportunities_of(v: Seq<TradingOpportunity>) -> Seq<OpportunityRecord> {
    v.map_values(|o: TradingOpportunity| o@)
}

/// What a scan proposes: the entries that were kept, and the exits.
pub fn gather_opportunities(slots: Vec<EntrySlot>, exits: Vec<ExitProposal>) -> (r: Vec<
    TradingOpportunity,
>)
    ensures
        opportunities_of(r@) == slots@.map_values(|s: EntrySlot| s.candidate.opportunity@)
            + exits@.map_values(|e: ExitProposal| e.opportunity@),
{
    let mut all: Vec<TradingOpportunity> = Vec::new();
    let ghost entries = slots@.map_values(|s: EntrySlot| s.candidate.opportunity@);
    let ghost sales = exits@.map_values(|e: ExitProposal| e.opportunity@);
    for slot in it: slots
        invariant
            opportunities_of(all@) == entries.take(it.index()),
            entries == it.seq().map_values(|s: EntrySlot| s.candidate.opportunity@),
    {
        let ghost before = all@;
        all.push(slot.candidate.opportunity);
        proof {
            assert(opportunities_of(all@) =~= opportunities_of(before).push(
                slot.candidate.opportunity@,
            ));
            assert(entries.take(it.index() + 1) =~= entries.take(it.index()).push(
                slot.candidate.opportunity@,
            ));
        }
    }
    for exit in it: exits
        invariant
            opportunities_of(all@) == entries + sales.take(it.index()),
            sales == it.seq().map_values(|e: ExitProposal| e.opportunity@),
    {
        let ghost before = all@;
        all.push(exit.opportunity);
        proof {
            assert(opportunities_of(all@) =~= opportunities_of(before).push(exit.opportunity@));
            assert(sales.take(it.index() + 1) =~= sales.take(it.index()).push(exit.opportunity@));
        }
    }
    all
}

/// A market is looked at on its own at most once, and never where it is in a group.
pub proof fn law_grouped_markets_are_not_looked_at_twice(
    markets: Seq<MarketInfo>,
    groups: Seq<BinaryEventGroup>,
    n: nat,
)
    requires
        n <= markets.len(),
    ensures
        ({
            let plan = planned_markets(markets, groups, n);
            &&& forall|i: int|
                0 <= i < plan.len() ==> 0 <= (#[trigger] plan[i]).place < n && !is_grouped(
                    groups,
                    markets[plan[i].place].condition_id@,
                )
            &&& forall|i: int, j: int|
                0 <= i < j < plan.len() ==> (#[trigger] plan[i]).place < (
                #[trigger] plan[j]).place
        }),
    decreases n,
{
    if n > 0 {
        law_grouped_markets_are_not_looked_at_twice(markets, groups, (n - 1) as nat);
    }
}

/// The first end is that of one of the markets, and no market ends before it. There is none just where no
/// market ends.
pub proof fn law_first_end_is_the_earliest(markets: Seq<MarketInfo>, n: nat)
    requires
        n <= markets.len(),
    ensures
        match first_end(markets, n) {
            Some(end) => (exists|i: int| 0 <= i < n && (#[trigger] markets[i]).end_date == Some(end))
                && forall|i: int|
                0 <= i < n && (#[trigger] markets[i]).end_date is Some ==> end
                    <= markets[i].end_date->0,
            None => forall|i: int| 0 <= i < n ==> (#[trigger] markets[i]).end_date is None,
        },
    decreases n,
{
    if n > 0 {
        let m = (n - 1) as nat;
        law_first_end_is_the_earliest(markets, m);
        match first_end(markets, n) {
            Some(end) => {
                if markets[n - 1].end_date == Some(end) {
                    assert(0 <= n - 1 < n && markets[n - 1].end_date == Some(end));
                } else {
                    let i = choose|i: int|
                        0 <= i < m && (#[trigger] markets[i]).end_date == Some(end);
                    assert(0 <= i < n && markets[i].end_date == Some(end));
                }
            },
            None => {},
        }
    }
}

/// An event resolves in as many days as there are from today to the day in its title, which is counted
/// from the start of the Common Era. Where the title names none, it resolves in the whole days until the
/// first of its markets ends. It has to be at least one day ahead.
pub proof fn law_event_days_are_whole_days(event: NegRiskEvent, title_day: Option<i32>, now: i128)
    ensures
        ({
            let found = event_days(event, title_day, now);
            let day: int = 86_400_000_000_000;
            let titled = titled_asset(event.title@) is Some && title_day is Some;
            let end = first_end(event.markets@, event.markets@.len());
            let midnight = (title_day->0 - 719_163) * day;
            &&& titled ==> (found is Some <==> midnight > now)
            &&& titled && found is Some ==> (found->0 - 1) * day < midnight - now <= found->0 * day
            &&& !titled && end is None ==> found is None
            &&& !titled && end is Some ==> {
                &&& found is None <==> end->0 - now < day
                &&& found is Some ==> found->0 * day <= end->0 - now < (found->0 + 1) * day
            }
        }),
{
    let day: int = 86_400_000_000_000;
    let today = now as int / day;
    assert(today * day <= now < (today + 1) * day) by (nonlinear_arith)
        requires
            today == now as int / day,
            day > 0,
    ;
    if title_day is Some {
        let d = title_day->0 - 719_163 - today;
        let midnight = (title_day->0 - 719_163) * day;
        assert(d > 0 <==> midnight > now) by (nonlinear_arith)
            requires
                today * day <= now < (today + 1) * day,
                d == title_day->0 - 719_163 - today,
                midnight == (title_day->0 - 719_163) * day,
                day > 0,
        {
            assert(midnight == (d + today) * day);
            if d > 0 {
                assert((d + today) * day >= (today + 1) * day);
            } else {
                assert((d + today) * day <= today * day);
            }
        }
        assert((d - 1) * day < midnight - now <= d * day) by (nonlinear_arith)
            requires
                today * day <= now < (today + 1) * day,
                d == title_day->0 - 719_163 - today,
                midnight == (title_day->0 - 719_163) * day,
        {
            assert(midnight == d * day + today * day);
        }
    }
    let end = first_end(event.markets@, event.markets@.len());
    if end is Some {
        let away = end->0 - now;
        let q = away / day;
        assert(q * day <= away < (q + 1) * day && (q > 0 <==> away >= day)) by (nonlinear_arith)
            requires
                q == away / day,
                day > 0,
        ;
    }
}

/// A market is looked at on its own exactly where it asks for the price of an asset, is active, is no
/// part of a larger event and is in none of the groups.
pub proof fn law_lone_markets_are_looked_at(
    markets: Seq<MarketInfo>,
    groups: Seq<BinaryEventGroup>,
    n: nat,
    i: int,
)
    requires
        0 <= i < n <= markets.len(),
    ensures
        ({
            let market = markets[i]@;
            let question = question_of(market.question, None);
            let alone = forall|g: int, m: int|
                0 <= g < groups.len() && 0 <= m < groups[g].markets@.len()
                    ==> #[trigger] groups[g].markets@[m].condition_id@ != market.condition_id;
            let found = planned_markets(markets, groups, n);
            (exists|r: int| 0 <= r < found.len() && (#[trigger] found[r]).place == i) <==> question
                is Some && market.active && !market.neg_risk && alone
        }),
    decreases n,
{
    let before = planned_markets(markets, groups, (n - 1) as nat);
    let found = planned_markets(markets, groups, n);
    let market = markets[i]@;
    let id = market.condition_id;
    assert(is_grouped(groups, id) <==> !(forall|g: int, m: int|
        0 <= g < groups.len() && 0 <= m < groups[g].markets@.len()
            ==> #[trigger] groups[g].markets@[m].condition_id@ != id)) by {
        if is_grouped(groups, id) {
            let (g, m) = choose|g: int, m: int| in_group(groups, g, m, id);
            assert(groups[g].markets@[m].condition_id@ == id);
        }
        if !(forall|g: int, m: int|
            0 <= g < groups.len() && 0 <= m < groups[g].markets@.len()
                ==> #[trigger] groups[g].markets@[m].condition_id@ != id) {
            let (g, m) = choose|g: int, m: int|
                0 <= g < groups.len() && 0 <= m < groups[g].markets@.len()
                    && #[trigger] groups[g].markets@[m].condition_id@ == id;
            assert(in_group(groups, g, m, id));
        }
    }
    lemma_places_below(markets, groups, (n - 1) as nat);
    if i < n - 1 {
        law_lone_markets_are_looked_at(markets, groups, (n - 1) as nat, i);
        if exists|r: int| 0 <= r < before.len() && (#[trigger] before[r]).place == i {
            let r = choose|r: int| 0 <= r < before.len() && (#[trigger] before[r]).place == i;
            assert(found[r].place == i);
        }
        if exists|r: int| 0 <= r < found.len() && (#[trigger] found[r]).place == i {
            let r = choose|r: int| 0 <= r < found.len() && (#[trigger] found[r]).place == i;
            assert(before[r].place == i);
        }
    } else {
        if found.len() > before.len() {
            assert(found[before.len() as int].place == i);
        }
        if exists|r: int| 0 <= r < found.len() && (#[trigger] found[r]).place == i {
            let r = choose|r: int| 0 <= r < found.len() && (#[trigger] found[r]).place == i;
            if r < before.len() {
                assert(before[r].place < n - 1);
            }
        }
    }
}

proof fn lemma_places_below(markets: Seq<MarketInfo>, groups: Seq<BinaryEventGroup>, n: nat)
    ensures
        forall|r: int|
            0 <= r < planned_markets(markets, groups, n).len() ==> (#[trigger] planned_markets(
                markets,
                groups,
                n,
            )[r]).place < n,
    decreases n,
{
    if n > 0 {
        lemma_places_below(markets, groups, (n - 1) as nat);
    }
}

} // verus!
