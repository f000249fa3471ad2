//! Buying every outcome of an event.
use crate::arbitrage::{ArbitrageOpportunity, ExecutionPlan, NegRiskLeg};
use crate::decimal::Decimal;
use crate::profitability::ProfitCalculator;
use crate::text;
use crate::types::{BookSet, NegRiskEvent, Outcome, Stamp, StrategyType, TradeSide};
use vstd::prelude::*;

verus! {

use crate::arbitrage::{leg_views, ArbitrageRecord, LegRecord, PlanRecord};
use crate::cross_market::trade_views;
use crate::engine::trade_at;
use crate::rounding::{
    law_arithmetic_keeps_order, lemma_in_ten_thousandths, lemma_pow10_below_unit,
    lemma_quotient_close, lemma_representable_bound, lemma_sum_close, lemma_whole_representable,
    lesser, minus, over, plus, pow10, quotient, representable, times, unit, whole, MAX_MANTISSA,
};
use crate::text::decimal_text;

/// The cost of one outcome: what its best ask says.
pub open spec fn outcome_leg(event: NegRiskEvent, books: BookSet, i: int) -> Option<LegRecord> {
    let market = event.markets@[i]@;
    if market.tokens.len() == 0 || !market.active {
        None
    } else {
        match books.book(market.tokens[0].token_id) {
            Some(book) => if book.asks@.len() > 0 {
                Some(
                    LegRecord {
                        token_id: market.tokens[0].token_id,
                        condition_id: market.condition_id,
                        outcome: Outcome::Yes,
                        side: TradeSide::Buy,
                        price: book.asks@[0].price@,
                        size: book.asks@[0].size@,
                    },
                )
            } else {
                None
            },
            None => None,
        }
    }
}

/// The costs of the first `n` outcomes, if every one has a price.
pub open spec fn outcome_legs(event: NegRiskEvent, books: BookSet, n: nat) -> Option<Seq<LegRecord>>
    decreases n,
{
    if n == 0 {
        Some(Seq::empty())
    } else {
        match (
            outcome_legs(event, books, (n - 1) as nat),
            outcome_leg(event, books, n - 1),
        ) {
            (Some(before), Some(leg)) => Some(before.push(leg)),
            _ => None,
        }
    }
}

/// What the first `n` legs cost together.
pub open spec fn total_price(legs: Seq<LegRecord>, n: nat) -> Option<int>
    decreases n,
{
    if n == 0 {
        Some(0)
    } else {
        plus(total_price(legs, (n - 1) as nat), Some(legs[n - 1].price))
    }
}

/// The smallest size of the first `n` legs.
pub open spec fn smallest_size(legs: Seq<LegRecord>, n: nat) -> int
    decreases n,
{
    if n == 0 {
        whole(MAX_MANTISSA as int)
    } else {
        lesser(smallest_size(legs, (n - 1) as nat), legs[n - 1].size)
    }
}

/// What buying every outcome of an event offers.
pub struct EventOfferRecord {
    pub legs: Seq<LegRecord>,
    pub total: int,
    pub spread: int,
    pub size: int,
}

/// What buying every outcome offers, where the prices come to less than one by the least spread:
/// `Some(None)` where they do not.
pub open spec fn event_offer(
    event: NegRiskEvent,
    books: BookSet,
    min_spread_bps: u32,
    max_trade_size: int,
) -> Option<Option<EventOfferRecord>> {
    if event.markets@.len() < 2 {
        Some(None)
    } else {
        match outcome_legs(event, books, event.markets@.len()) {
            None => Some(None),
            Some(legs) => match total_price(legs, legs.len()) {
                None => None,
                Some(total) => if total >= unit() {
                    Some(None)
                } else {
                    match minus(Some(unit()), Some(total)) {
                        None => None,
                        Some(spread) => match times(Some(spread), Some(whole(10000))) {
                            None => None,
                            Some(bps) => if bps < whole(min_spread_bps as int) {
                                Some(None)
                            } else {
                                match over(Some(max_trade_size), Some(total)) {
                                    None => None,
                                    Some(affordable) => {
                                        let size = lesser(
                                            smallest_size(legs, legs.len()),
                                            affordable,
                                        );
                                        if size <= 0 {
                                            Some(None)
                                        } else {
                                            Some(
                                                Some(
                                                    EventOfferRecord {
                                                        legs,
                                                        total,
                                                        spread,
                                                        size,
                                                    },
                                                ),
                                            )
                                        }
                                    },
                                }
                            },
                        },
                    }
                },
            },
        }
    }
}

pub open spec fn sized(legs: Seq<LegRecord>, size: int) -> Seq<LegRecord> {
    legs.map_values(|l: LegRecord| LegRecord { size, ..l })
}

/// The trade that takes an offer, if it earns enough.
pub open spec fn event_trade(
    event: NegRiskEvent,
    offer: EventOfferRecord,
    net_profit: int,
    stamp: Stamp,
) -> ArbitrageRecord {
    ArbitrageRecord {
        stamp,
        strategy_type: StrategyType::NegRiskConvert,
        condition_id: event.neg_risk_market_id@,
        question: "NegRisk event ("@ + decimal_text(event.markets@.len()) + " outcomes)"@,
        spread: offer.spread,
        estimated_profit: net_profit,
        size: offer.size,
        execution_plan: PlanRecord::NegRiskArbitrage {
            neg_risk_market_id: event.neg_risk_market_id@,
            legs: sized(offer.legs, offer.size),
            amount: offer.size,
        },
    }
}

/// What buying every outcome of an event offers.
#[derive(Debug)]
pub struct EventOffer {
    pub legs: Vec<NegRiskLeg>,
    /// What one of each costs together.
    pub total: Decimal,
    pub spread: Decimal,
    pub size: Decimal,
}

impl View for EventOffer {
    type V = EventOfferRecord;

    open spec fn view(&self) -> EventOfferRecord {
        EventOfferRecord {
            legs: leg_views(self.legs@),
            total: self.total@,
            spread: self.spread@,
            size: self.size@,
        }
    }
}

pub open spec fn offer_at(offer: Option<EventOffer>) -> Option<EventOfferRecord> {
    match offer {
        Some(o) => Some(o@),
        None => None,
    }
}

/// Finds events whose outcomes cost less together than one of them pays.
#[derive(Debug)]
pub struct NegRiskArbitrage {
    pub min_spread_bps: u32,
    pub max_trade_size: Decimal,
    pub min_profit: Decimal,
    pub profit_calc: ProfitCalculator,
    pub events: Vec<NegRiskEvent>,
}

proof fn lemma_legs_none(event: NegRiskEvent, books: BookSet, k: nat, n: nat)
    requires
        k <= n,
        outcome_legs(event, books, k) is None,
    ensures
        outcome_legs(event, books, n) is None,
    decreases n,
{
    if k < n {
        lemma_legs_none(event, books, k, (n - 1) as nat);
    }
}

proof fn lemma_total_prefix(legs: Seq<LegRecord>, k: nat, n: nat)
    requires
        k <= n,
        total_price(legs, n) is Some,
    ensures
        total_price(legs, k) is Some,
    decreases n,
{
    if k < n {
        lemma_total_prefix(legs, k, (n - 1) as nat);
    }
}

fn collect_legs(event: &NegRiskEvent, books: &BookSet) -> (r: Option<Vec<NegRiskLeg>>)
    ensures
        outcome_legs(*event, *books, event.markets@.len()) == (match r {
            Some(legs) => Some(leg_views(legs@)),
            None => None,
        }),
{
    let mut legs: Vec<NegRiskLeg> = Vec::new();
    let mut i: usize = 0;
    proof {
        assert(leg_views(legs@) =~= Seq::empty());
    }
    while i < event.markets.len()
        invariant
            i <= event.markets@.len(),
            outcome_legs(*event, *books, i as nat) == Some(leg_views(legs@)),
        decreases event.markets@.len() - i,
    {
        let market = &event.markets[i];
        let ask = if market.tokens.len() == 0 || !market.active {
            None
        } else {
            match books.get(market.tokens[0].token_id) {
                Some(book) => book.best_ask(),
                None => None,
            }
        };
        match ask {
            Some(level) => {
                let leg = NegRiskLeg {
                    token_id: market.tokens[0].token_id,
                    condition_id: market.condition_id,
                    outcome: Outcome::Yes,
                    side: TradeSide::Buy,
                    price: level.price,
                    size: level.size,
                };
                let ghost before = legs@;
                legs.push(leg);
                proof {
                    assert(leg_views(legs@) =~= leg_views(before).push(leg@));
                }
            },
            None => {
                proof {
                    lemma_legs_none(*event, *books, (i + 1) as nat, event.markets@.len());
                }
                return None;
            },
        }
        i = i + 1;
    }
    Some(legs)
}

fn sum_prices(legs: &Vec<NegRiskLeg>) -> (r: Decimal)
    requires
        total_price(leg_views(legs@), legs@.len()) is Some,
    ensures
        total_price(leg_views(legs@), legs@.len()) == Some(r@),
{
    let mut total = Decimal::zero();
    let mut i: usize = 0;
    while i < legs.len()
        invariant
            i <= legs@.len(),
            total_price(leg_views(legs@), legs@.len()) is Some,
            total_price(leg_views(legs@), i as nat) == Some(total@),
        decreases legs@.len() - i,
    {
        proof {
            lemma_total_prefix(leg_views(legs@), (i + 1) as nat, legs@.len());
            assert(leg_views(legs@)[i as int] == legs@[i as int]@);
        }
        total = total + legs[i].price;
        i = i + 1;
    }
    total
}

fn least_size(legs: &Vec<NegRiskLeg>) -> (r: Decimal)
    ensures
        r@ == smallest_size(leg_views(legs@), legs@.len()),
{
    let mut least = Decimal::max_value();
    let mut i: usize = 0;
    while i < legs.len()
        invariant
            i <= legs@.len(),
            least@ == smallest_size(leg_views(legs@), i as nat),
        decreases legs@.len() - i,
    {
        proof {
            assert(leg_views(legs@)[i as int] == legs@[i as int]@);
        }
        least = least.min(legs[i].size);
        i = i + 1;
    }
    least
}

fn resize(legs: &Vec<NegRiskLeg>, size: Decimal) -> (r: Vec<NegRiskLeg>)
    ensures
        leg_views(r@) == sized(leg_views(legs@), size@),
{
    let mut r: Vec<NegRiskLeg> = Vec::new();
    let mut i: usize = 0;
    while i < legs.len()
        invariant
            i <= legs@.len(),
            r@.len() == i,
            forall|k: int|
                0 <= k < i ==> (#[trigger] r@[k])@ == (LegRecord { size: size@, ..legs@[k]@ }),
        decreases legs@.len() - i,
    {
        let leg = legs[i];
        r.push(
            NegRiskLeg {
                token_id: leg.token_id,
                condition_id: leg.condition_id,
                outcome: leg.outcome,
                side: leg.side,
                price: leg.price,
                size,
            },
        );
        i = i + 1;
    }
    proof {
        assert(leg_views(r@) =~= sized(leg_views(legs@), size@));
    }
    r
}

impl NegRiskArbitrage {
    pub fn new(
        min_spread_bps: u32,
        max_trade_size: Decimal,
        min_profit: Decimal,
        gas_cost_usd: Decimal,
        events: Vec<NegRiskEvent>,
    ) -> (r: NegRiskArbitrage)
        ensures
            r.min_spread_bps == min_spread_bps,
            r.max_trade_size == max_trade_size,
            r.min_profit == min_profit,
            r.profit_calc.gas_cost_usd == gas_cost_usd,
            r.events == events,
    {
        NegRiskArbitrage {
            min_spread_bps,
            max_trade_size,
            min_profit,
            profit_calc: ProfitCalculator::new(gas_cost_usd),
            events,
        }
    }

    /// What buying every outcome of an event offers.
    pub fn look_at_event(&self, event: &NegRiskEvent, books: &BookSet) -> (r: Option<EventOffer>)
        requires
            event_offer(
                *event,
                *books,
                self.min_spread_bps,
                self.max_trade_size@,
            ) is Some,
        ensures
            event_offer(*event, *books, self.min_spread_bps, self.max_trade_size@) == Some(
                offer_at(r),
            ),
    {
        if event.markets.len() < 2 {
            return None;
        }
        let legs = match collect_legs(event, books) {
            Some(l) => l,
            None => return None,
        };
        proof {
            assert(leg_views(legs@).len() == legs@.len());
        }
        let total = sum_prices(&legs);
        if total >= Decimal::one() {
            return None;
        }
        let spread = Decimal::one() - total;
        if spread * Decimal::from_u32(10000) < Decimal::from_u32(self.min_spread_bps) {
            return None;
        }
        let size = least_size(&legs).min(self.max_trade_size / total);
        if size <= Decimal::zero() {
            return None;
        }
        Some(EventOffer { legs, total, spread, size })
    }

    /// What comes of an event, given what the trade would earn.
    pub open spec fn event_result(
        &self,
        event: NegRiskEvent,
        books: BookSet,
        net_profit: int,
        stamp: Stamp,
    ) -> Option<Option<ArbitrageRecord>> {
        match event_offer(event, books, self.min_spread_bps, self.max_trade_size@) {
            None => None,
            Some(None) => Some(None),
            Some(Some(offer)) => if net_profit < self.min_profit@ {
                Some(None)
            } else {
                Some(Some(event_trade(event, offer, net_profit, stamp)))
            },
        }
    }

    /// Looks at an event. What buying all of it would earn is given with it.
    pub fn detect_event(
        &self,
        event: &NegRiskEvent,
        books: &BookSet,
        net_profit: Decimal,
        stamp: Stamp,
    ) -> (r: Option<ArbitrageOpportunity>)
        requires
            self.event_result(*event, *books, net_profit@, stamp) is Some,
        ensures
            self.event_result(*event, *books, net_profit@, stamp) == Some(trade_at(r)),
    {
        let offer = match self.look_at_event(event, books) {
            Some(o) => o,
            None => return None,
        };
        if net_profit < self.min_profit {
            return None;
        }
        let count = text::number_text(event.markets.len() as u64);
        Some(
            ArbitrageOpportunity {
                stamp,
                strategy_type: StrategyType::NegRiskConvert,
                condition_id: event.neg_risk_market_id,
                question: "NegRisk event (".to_owned().concat(count.as_str()).concat(" outcomes)"),
                spread: offer.spread,
                estimated_profit: net_profit,
                size: offer.size,
                execution_plan: ExecutionPlan::NegRiskArbitrage {
                    neg_risk_market_id: event.neg_risk_market_id,
                    legs: resize(&offer.legs, offer.size),
                    amount: offer.size,
                },
            },
        )
    }
}

impl NegRiskArbitrage {
    /// The trades on the first `n` events.
    pub open spec fn trades(
        &self,
        books: BookSet,
        profits: Seq<Decimal>,
        stamps: Seq<Stamp>,
        n: nat,
    ) -> Option<Seq<ArbitrageRecord>>
        decreases n,
    {
        if n == 0 {
            Some(Seq::empty())
        } else {
            match (
                self.trades(books, profits, stamps, (n - 1) as nat),
                self.event_result(
                    self.events@[n - 1],
                    books,
                    profits[n - 1]@,
                    stamps[n - 1],
                ),
            ) {
                (Some(before), Some(Some(trade))) => Some(before.push(trade)),
                (Some(before), Some(None)) => Some(before),
                _ => None,
            }
        }
    }

    proof fn lemma_trades_prefix(
        &self,
        books: BookSet,
        profits: Seq<Decimal>,
        stamps: Seq<Stamp>,
        k: nat,
        n: nat,
    )
        requires
            k <= n,
            self.trades(books, profits, stamps, n) is Some,
        ensures
            self.trades(books, profits, stamps, k) is Some,
        decreases n,
    {
        if k < n {
            self.lemma_trades_prefix(books, profits, stamps, k, (n - 1) as nat);
        }
    }

    /// Looks at every event. What buying all of one would earn, and the mark of the trade, are given
    /// with it.
    pub fn scan(&self, books: &BookSet, profits: &Vec<Decimal>, stamps: &Vec<Stamp>) -> (r: Vec<
        ArbitrageOpportunity,
    >)
        requires
            profits@.len() == self.events@.len(),
            stamps@.len() == self.events@.len(),
            self.trades(*books, profits@, stamps@, self.events@.len()) is Some,
        ensures
            self.trades(*books, profits@, stamps@, self.events@.len()) == Some(trade_views(r@)),
    {
        let mut found: Vec<ArbitrageOpportunity> = Vec::new();
        let mut i: usize = 0;
        proof {
            assert(trade_views(found@) =~= Seq::empty());
        }
        while i < self.events.len()
            invariant
                i <= self.events@.len(),
                profits@.len() == self.events@.len(),
                stamps@.len() == self.events@.len(),
                self.trades(*books, profits@, stamps@, self.events@.len()) is Some,
                self.trades(*books, profits@, stamps@, i as nat) == Some(trade_views(found@)),
            decreases self.events@.len() - i,
        {
            proof {
                self.lemma_trades_prefix(
                    *books,
                    profits@,
                    stamps@,
                    (i + 1) as nat,
                    self.events@.len(),
                );
            }
            if let Some(trade) = self.detect_event(&self.events[i], books, profits[i], stamps[i]) {
                let ghost before = found@;
                found.push(trade);
                proof {
                    assert(trade_views(found@) =~= trade_views(before).push(trade@));
                }
            }
            i = i + 1;
        }
        found
    }
}

/// What is bought of an event is the same of every outcome, no more than any of them offers, and
/// together costs less than it pays.
pub proof fn law_every_outcome_is_bought_alike(
    strategy: NegRiskArbitrage,
    event: NegRiskEvent,
    books: BookSet,
    net_profit: int,
    stamp: Stamp,
)
    requires
        strategy.event_result(event, books, net_profit, stamp) matches Some(Some(_)),
    ensures
        ({
            let trade = strategy.event_result(event, books, net_profit, stamp)->0->0;
            let legs = trade.execution_plan->legs;
            &&& trade.execution_plan is NegRiskArbitrage
            &&& legs.len() == event.markets@.len()
            &&& trade.estimated_profit >= strategy.min_profit@
            &&& trade.size > 0
            &&& total_price(legs, legs.len())->0 < unit()
            &&& forall|i: int|
                0 <= i < legs.len() ==> (#[trigger] legs[i]).size == trade.size && legs[i].token_id
                    == event.markets@[i].tokens@[0].token_id && trade.size <= outcome_leg(
                    event,
                    books,
                    i,
                )->0.size
        }),
{
    let offer = event_offer(event, books, strategy.min_spread_bps, strategy.max_trade_size@)->0->0;
    lemma_legs(event, books, event.markets@.len());
    lemma_smallest(offer.legs, offer.legs.len());
    lemma_same_prices(offer.legs, sized(offer.legs, offer.size), offer.legs.len());
}

proof fn lemma_legs(event: NegRiskEvent, books: BookSet, n: nat)
    requires
        outcome_legs(event, books, n) is Some,
    ensures
        outcome_legs(event, books, n)->0.len() == n,
        forall|i: int|
            0 <= i < n ==> Some(#[trigger] outcome_legs(event, books, n)->0[i]) == outcome_leg(
                event,
                books,
                i,
            ),
    decreases n,
{
    if n > 0 {
        lemma_legs(event, books, (n - 1) as nat);
    }
}

proof fn lemma_smallest(legs: Seq<LegRecord>, n: nat)
    requires
        n <= legs.len(),
    ensures
        forall|i: int| 0 <= i < n ==> smallest_size(legs, n) <= (#[trigger] legs[i]).size,
    decreases n,
{
    if n > 0 {
        lemma_smallest(legs, (n - 1) as nat);
    }
}

proof fn lemma_same_prices(a: Seq<LegRecord>, b: Seq<LegRecord>, n: nat)
    requires
        n <= a.len(),
        a.len() == b.len(),
        forall|i: int| 0 <= i < a.len() ==> (#[trigger] a[i]).price == b[i].price,
    ensures
        total_price(a, n) == total_price(b, n),
    decreases n,
{
    if n > 0 {
        lemma_same_prices(a, b, (n - 1) as nat);
        assert(a[n - 1].price == b[n - 1].price);
    }
}

/// What the first `n` outcomes of an event cost together, at the best ask for the first token of each.
pub open spec fn cost_of_all(event: NegRiskEvent, books: BookSet, n: nat) -> int
    decreases n,
{
    if n == 0 {
        0
    } else {
        cost_of_all(event, books, (n - 1) as nat) + books.book(
            event.markets@[n - 1].tokens@[0].token_id,
        )->0.asks@[0].price@
    }
}

/// An outcome can be bought: its market is active and has a first token with an ask.
pub open spec fn can_be_bought(event: NegRiskEvent, books: BookSet, i: int) -> bool {
    &&& event.markets@[i].active
    &&& event.markets@[i].tokens@.len() > 0
    &&& books.book(event.markets@[i].tokens@[0].token_id) is Some
    &&& books.book(event.markets@[i].tokens@[0].token_id)->0.asks@.len() > 0
}

/// Every outcome of an event is bought, the same of each and at its best ask, exactly where there are two
/// or more and each can be bought, one of each costs less than one by at least the least spread, that
/// earns enough, and something can be bought. As much is bought as every best ask offers and the largest
/// trade pays for. It holds up to the rounding of the last digits.
pub proof fn law_event_is_bought_below_one(
    strategy: NegRiskArbitrage,
    event: NegRiskEvent,
    books: BookSet,
    net_profit: int,
    stamp: Stamp,
    k: nat,
)
    requires
        k <= 20,
        strategy.event_result(event, books, net_profit, stamp) is Some,
        forall|i: int|
            0 <= i < event.markets@.len() && (#[trigger] can_be_bought(event, books, i)) ==> 0
                < books.book(event.markets@[i].tokens@[0].token_id)->0.asks@[0].price@ <= unit()
                && 0 < books.book(event.markets@[i].tokens@[0].token_id)->0.asks@[0].size@ <= whole(
                MAX_MANTISSA as int,
            ),
        0 <= strategy.max_trade_size@ <= 7 * pow10(k) * cost_of_all(
            event,
            books,
            event.markets@.len(),
        ),
    ensures
        ({
            let u = unit();
            let found = strategy.event_result(event, books, net_profit, stamp)->0;
            let n = event.markets@.len();
            let cost = cost_of_all(event, books, n);
            let complete = n >= 2 && forall|i: int|
                0 <= i < n ==> #[trigger] can_be_bought(event, books, i);
            let worth_it = complete && cost < u && (u - cost) * 10000 >= strategy.min_spread_bps * u
                && net_profit >= strategy.min_profit@;
            &&& found is Some ==> worth_it
            &&& worth_it && strategy.max_trade_size@ * u >= cost * pow10(k) + cost
                ==> found is Some
            &&& found matches Some(trade) ==> {
                &&& trade.spread == u - cost
                &&& trade.estimated_profit == net_profit
                &&& trade.condition_id == event.neg_risk_market_id@
                &&& trade.strategy_type == StrategyType::NegRiskConvert
                &&& trade.execution_plan matches PlanRecord::NegRiskArbitrage {
                    neg_risk_market_id,
                    legs,
                    amount,
                } && {
                    &&& neg_risk_market_id == event.neg_risk_market_id@
                    &&& amount == trade.size
                    &&& legs.len() == n
                    &&& forall|i: int|
                        0 <= i < n ==> {
                            let leg = #[trigger] legs[i];
                            let level = books.book(
                                event.markets@[i].tokens@[0].token_id,
                            )->0.asks@[0];
                            &&& leg.token_id == event.markets@[i].tokens@[0].token_id
                            &&& leg.condition_id == event.markets@[i].condition_id@
                            &&& leg.outcome == Outcome::Yes && leg.side == TradeSide::Buy
                            &&& leg.price == level.price@
                            &&& leg.size == trade.size
                            &&& trade.size <= level.size@
                        }
                }
                &&& trade.size * cost <= strategy.max_trade_size@ * u + cost * pow10(k)
                &&& trade.size * cost >= strategy.max_trade_size@ * u - cost * pow10(k)
                    || exists|i: int|
                    0 <= i < n && trade.size == (#[trigger] books.book(
                        event.markets@[i].tokens@[0].token_id,
                    ))->0.asks@[0].size@
            }
        }),
{
    let u = unit();
    let n = event.markets@.len();
    let max = strategy.max_trade_size@;
    let cost = cost_of_all(event, books, n);
    let p = pow10(k);
    lemma_pow10_below_unit(k);
    lemma_legs_complete(event, books, n);
    if n >= 2 && outcome_legs(event, books, n) is Some {
        let legs = outcome_legs(event, books, n)->0;
        lemma_legs(event, books, n);
        assert forall|i: int| 0 <= i < n implies 0 < (#[trigger] legs[i]).price <= u
            && legs[i].price == books.book(event.markets@[i].tokens@[0].token_id)->0.asks@[0].price@ && legs[i].size
            == books.book(event.markets@[i].tokens@[0].token_id)->0.asks@[0].size@ && 0
            < legs[i].size <= whole(MAX_MANTISSA as int) by {
            assert(can_be_bought(event, books, i));
        }
        if total_price(legs, n) is Some {
            lemma_total(event, books, legs, n);
            let total = total_price(legs, n)->0;
            if total < u {
                assert(total == cost);
                assert(pow10(0) == 1);
                lemma_cost_positive(event, books, legs, n);
                lemma_sum_close(u, cost, 0);
                lemma_in_ten_thousandths(u - cost);
                lemma_quotient_close(max, cost, k);
                let affordable = quotient(max, cost)->0;
                let least = smallest_size(legs, n);
                let size = lesser(least, affordable);
                assert(0 <= total < u);
                lemma_smallest(legs, n);
                lemma_smallest_is_one(legs, n);
                assert(size * cost <= affordable * cost) by (nonlinear_arith)
                    requires
                        size <= affordable,
                        cost > 0,
                ;
                assert(p * cost == cost * p) by (nonlinear_arith);
                assert(cost * p >= 0) by (nonlinear_arith)
                    requires
                        cost > 0,
                        p > 0,
                ;
                assert(max * u >= cost * p + cost ==> affordable > 0) by (nonlinear_arith)
                    requires
                        2 * (max * u - affordable * cost) <= p * cost,
                        cost > 0,
                        p > 0,
                {
                    if affordable <= 0 {
                        assert(affordable * cost <= 0);
                        assert(2 * (cost * p) > p * cost);
                    }
                }
                if strategy.event_result(event, books, net_profit, stamp)->0 is Some {
                    let trade = strategy.event_result(event, books, net_profit, stamp)->0->0;
                    let sized_legs = trade.execution_plan->legs;
                    assert forall|i: int| 0 <= i < n implies {
                        let leg = #[trigger] sized_legs[i];
                        leg == (LegRecord { size: trade.size, ..legs[i] }) && trade.size <= legs[i].size
                    } by {
                        assert(legs[i].size >= least);
                    }
                    if size == least {
                        let j = choose|j: int| 0 <= j < n && #[trigger] legs[j].size == least;
                        assert(trade.size == books.book(
                            event.markets@[j].tokens@[0].token_id,
                        )->0.asks@[0].size@);
                    }
                }
            }
        }
    }
}

proof fn lemma_legs_complete(event: NegRiskEvent, books: BookSet, n: nat)
    requires
        n <= event.markets@.len(),
    ensures
        outcome_legs(event, books, n) is Some <==> forall|i: int|
            0 <= i < n ==> #[trigger] can_be_bought(event, books, i),
    decreases n,
{
    if n > 0 {
        lemma_legs_complete(event, books, (n - 1) as nat);
        assert(can_be_bought(event, books, n - 1) <==> outcome_leg(event, books, n - 1) is Some);
    }
}

/// Prices that come to less than seven are added up exactly; what comes to more stays above one.
proof fn lemma_total(event: NegRiskEvent, books: BookSet, legs: Seq<LegRecord>, n: nat)
    requires
        n <= legs.len(),
        n <= event.markets@.len(),
        total_price(legs, n) is Some,
        forall|i: int|
            0 <= i < n ==> 0 < (#[trigger] legs[i]).price <= unit() && legs[i].price == books.book(
                event.markets@[i].tokens@[0].token_id,
            )->0.asks@[0].price@,
    ensures
        cost_of_all(event, books, n) >= 0,
        cost_of_all(event, books, n) <= 7 * unit() ==> total_price(legs, n)->0 == cost_of_all(
            event,
            books,
            n,
        ),
        cost_of_all(event, books, n) > 7 * unit() ==> total_price(legs, n)->0 >= 6 * unit(),
    decreases n,
{
    if n > 0 {
        let m = (n - 1) as nat;
        lemma_total(event, books, legs, m);
        let before = total_price(legs, m)->0;
        let price = legs[n - 1].price;
        assert(pow10(0) == 1);
        lemma_sum_close(before, price, 0);
        lemma_whole_representable(6);
        law_arithmetic_keeps_order(before, price, 6 * unit());
    }
}

proof fn lemma_cost_positive(event: NegRiskEvent, books: BookSet, legs: Seq<LegRecord>, n: nat)
    requires
        0 < n <= legs.len(),
        forall|i: int|
            0 <= i < n ==> 0 < (#[trigger] legs[i]).price && legs[i].price == books.book(
                event.markets@[i].tokens@[0].token_id,
            )->0.asks@[0].price@,
    ensures
        cost_of_all(event, books, n) > 0,
    decreases n,
{
    assert(legs[n - 1].price > 0);
    assert(cost_of_all(event, books, 0) == 0);
    if n > 1 {
        lemma_cost_positive(event, books, legs, (n - 1) as nat);
    }
}

proof fn lemma_smallest_is_one(legs: Seq<LegRecord>, n: nat)
    requires
        0 < n <= legs.len(),
        forall|i: int| 0 <= i < n ==> representable((#[trigger] legs[i]).size) || legs[i].size
            <= whole(MAX_MANTISSA as int),
    ensures
        exists|j: int| 0 <= j < n && #[trigger] legs[j].size == smallest_size(legs, n),
    decreases n,
{
    if n == 1 {
        if representable(legs[0].size) {
            lemma_representable_bound(legs[0].size);
        }
        assert(smallest_size(legs, 0) == whole(MAX_MANTISSA as int));
        assert(legs[0].size == smallest_size(legs, 1));
    } else {
        lemma_smallest_is_one(legs, (n - 1) as nat);
        let j = choose|j: int|
            0 <= j < n - 1 && #[trigger] legs[j].size == smallest_size(legs, (n - 1) as nat);
        assert(legs[j].size == smallest_size(legs, n) || legs[n - 1].size == smallest_size(
            legs,
            n,
        ));
    }
}

} // verus!
