//! Leaving positions that have lost half of what they cost.
use crate::arbitrage::{ArbitrageOpportunity, ExecutionPlan};
use crate::decimal::Decimal;
use crate::engine::{EngineState, ExecutionReport};
use crate::types::{
    find_market, BookSet, DirectionalBuy, MarketInfo, OrderBook, Stamp, StrategyType, TokenInfo,
    TradeSide, B256, U256,
};
use vstd::prelude::*;

verus! {

use crate::arbitrage::{ArbitrageRecord, PlanRecord};
use crate::engine::{after_report, clock_fits, cooled_for, cooling_down, trade_at, EngineRecord};
use crate::cross_market::is_priced;
use crate::rounding::{
    cents, close, law_arithmetic_keeps_order, law_digits_are_dropped_to_the_nearest,
    lemma_pow10_below_unit, lemma_product_close, lemma_sum_close,
    lesser, magnitude, minus, pow10, product, round_dp_of, times, unit, written_as,
};
use crate::text::decimal_text;
use crate::types::{
    depth_of, law_last_market_of_a_token_counts, market_with, number_of, zero_id, OrderRecord,
};

/// A position as the engine knows it.
#[derive(Clone, Copy, Debug)]
pub struct StopLossPosition {
    pub token_id: U256,
    pub size: Decimal,
    pub avg_cost: Decimal,
    pub strategy_type: Option<StrategyType>,
    pub condition_id: Option<B256>,
}

fn hundredths(n: i64) -> (r: Decimal)
    ensures
        r@ == cents(n as int),
{
    Decimal::new(n, 2)
}

/// What is done about a position.
pub enum StopLossRecord {
    Keep,
    /// Nothing for so many seconds.
    Wait { condition_id: Seq<u8>, secs: u64 },
    Sell(ArbitrageRecord),
}

/// The strategy that a position counts for.
pub open spec fn strategy_of(position: StopLossPosition) -> StrategyType {
    match position.strategy_type {
        Some(s) => s,
        None => StrategyType::CryptoAlpha,
    }
}

/// The condition of a position, or the given one where it is not known.
pub open spec fn condition_or(position: StopLossPosition, other: Seq<u8>) -> Seq<u8> {
    match position.condition_id {
        Some(c) => c@,
        None => other,
    }
}

/// The bid has lost at least half of what the position cost.
pub open spec fn lost_half(position: StopLossPosition, bid: int) -> Option<bool> {
    match times(Some(position.avg_cost@), Some(cents(50))) {
        Some(stop) => Some(bid <= stop),
        None => None,
    }
}

/// The ask says that the position is still worth what it cost, and is not far from the bid.
pub open spec fn still_worth_it(position: StopLossPosition, bid: int, ask: Option<int>) -> Option<
    bool,
> {
    match ask {
        Some(a) => if a >= position.avg_cost@ {
            match times(Some(a), Some(cents(10))) {
                Some(tenth) => Some(bid >= tenth),
                None => None,
            }
        } else {
            Some(false)
        },
        None => Some(false),
    }
}

/// The market has ended by a moment that is given, as its end is, in nanoseconds since 1970.
pub open spec fn expired(market: MarketInfo, now_utc: i128) -> bool {
    market.end_date matches Some(end) && end <= now_utc
}

/// The first token from the `i`-th on that is not the given one.
pub open spec fn other_token(tokens: Seq<TokenInfo>, token_id: U256, i: nat) -> Option<U256>
    decreases tokens.len() - i,
{
    if i >= tokens.len() {
        None
    } else if tokens[i as int].token_id != token_id {
        Some(tokens[i as int].token_id)
    } else {
        other_token(tokens, token_id, i + 1)
    }
}

/// The other side of the market has a book in which less than one half is bid, so that both books are
/// more likely stale than right.
pub open spec fn both_sides_low(market: MarketInfo, token_id: U256, books: BookSet) -> bool {
    market.tokens@.len() == 2 && match other_token(market.tokens@, token_id, 0) {
        Some(other) => match books.book(other) {
            Some(book) => best_bid_or_zero(book) < cents(50),
            None => false,
        },
        None => false,
    }
}

pub open spec fn best_bid_or_zero(book: OrderBook) -> int {
    if book.bids@.len() > 0 {
        book.bids@[0].price@
    } else {
        0
    }
}

pub open spec fn best_ask_of(book: OrderBook) -> Option<int> {
    if book.asks@.len() > 0 {
        Some(book.asks@[0].price@)
    } else {
        None
    }
}

/// The forced sale of a position at the bid.
pub open spec fn forced_sale(
    position: StopLossPosition,
    condition_id: Seq<u8>,
    bid: int,
    size: int,
    stamp: Stamp,
) -> Option<ArbitrageRecord> {
    match (
        minus(Some(position.avg_cost@), Some(bid)),
        times(minus(Some(bid), Some(position.avg_cost@)), Some(size)),
    ) {
        (Some(spread), Some(estimated_profit)) => Some(
            ArbitrageRecord {
                stamp,
                strategy_type: strategy_of(position),
                condition_id,
                question: "[STOP-LOSS] Force exit token "@ + decimal_text(
                    number_of(position.token_id),
                ),
                spread,
                estimated_profit,
                size,
                execution_plan: PlanRecord::DirectionalBuy(
                    OrderRecord {
                        token_id: position.token_id,
                        side: TradeSide::Sell,
                        price: bid,
                        size,
                        condition_id,
                    },
                ),
            },
        ),
        _ => None,
    }
}

/// What is done about a position that is to be sold: what the bids can take of it is, unless that is
/// too little.
pub open spec fn sold(
    state: EngineRecord,
    position: StopLossPosition,
    condition_id: Seq<u8>,
    book: OrderBook,
    bid: int,
    now: u128,
    stamp: Stamp,
) -> Option<StopLossRecord> {
    if cooling_down(state, condition_id, strategy_of(position), now) {
        Some(StopLossRecord::Keep)
    } else {
        match times(Some(bid), Some(position.size@)) {
            None => None,
            Some(value) => if value < cents(5) {
                Some(StopLossRecord::Wait { condition_id, secs: 3600 })
            } else {
                match depth_of(book, TradeSide::Sell, bid) {
                    None => None,
                    Some(depth) => {
                        let size = round_dp_of(lesser(position.size@, depth), 2);
                        if size < cents(1) {
                            Some(StopLossRecord::Wait { condition_id, secs: 3600 })
                        } else {
                            match forced_sale(position, condition_id, bid, size, stamp) {
                                Some(trade) => Some(StopLossRecord::Sell(trade)),
                                None => None,
                            }
                        }
                    },
                }
            },
        }
    }
}

/// What is done about a position that has lost half of what it cost and whose market may be known.
pub open spec fn checked_sale(
    state: EngineRecord,
    position: StopLossPosition,
    books: BookSet,
    market: Option<MarketInfo>,
    book: OrderBook,
    bid: int,
    now: u128,
    now_utc: i128,
    stamp: Stamp,
) -> Option<StopLossRecord> {
    match market {
        Some(m) => {
            let condition_id = condition_or(position, m.condition_id@);
            if expired(m, now_utc) && bid >= cents(10) {
                if cooling_down(state, condition_id, strategy_of(position), now) {
                    Some(StopLossRecord::Keep)
                } else {
                    Some(StopLossRecord::Wait { condition_id, secs: 3600 })
                }
            } else if both_sides_low(m, position.token_id, books) {
                Some(StopLossRecord::Wait { condition_id, secs: 600 })
            } else {
                sold(state, position, condition_id, book, bid, now, stamp)
            }
        },
        None => sold(state, position, condition_or(position, zero_id()), book, bid, now, stamp),
    }
}

/// What is done about a position.
pub open spec fn stop_loss(
    state: EngineRecord,
    position: StopLossPosition,
    books: BookSet,
    markets: Seq<MarketInfo>,
    now: u128,
    now_utc: i128,
    stamp: Stamp,
) -> Option<StopLossRecord> {
    if position.size@ <= 0 || position.avg_cost@ <= 0 || cooling_down(
        state,
        condition_or(position, zero_id()),
        strategy_of(position),
        now,
    ) {
        Some(StopLossRecord::Keep)
    } else {
        match books.book(position.token_id) {
            Some(book) => if book.bids@.len() == 0 {
                Some(StopLossRecord::Keep)
            } else {
                let bid = book.bids@[0].price@;
                match lost_half(position, bid) {
                    None => None,
                    Some(false) => Some(StopLossRecord::Keep),
                    Some(true) => match still_worth_it(position, bid, best_ask_of(book)) {
                        None => None,
                        Some(true) => Some(StopLossRecord::Keep),
                        Some(false) => checked_sale(
                            state,
                            position,
                            books,
                            match market_with(markets, position.token_id) {
                                Some(i) => Some(markets[i]),
                                None => None,
                            },
                            book,
                            bid,
                            now,
                            now_utc,
                            stamp,
                        ),
                    },
                }
            },
            None => Some(StopLossRecord::Keep),
        }
    }
}

/// The engine's state after a position was looked at.
pub open spec fn after_stop_loss(
    state: EngineRecord,
    position: StopLossPosition,
    done: StopLossRecord,
    now: u128,
) -> EngineRecord {
    match done {
        StopLossRecord::Wait { condition_id, secs } => cooled_for(
            state,
            condition_id,
            strategy_of(position),
            now,
            secs,
        ),
        _ => state,
    }
}

/// A position is sold only where all of this holds: it has lost half of what it cost or more, the
/// ask does not say otherwise, its market has not ended with the position worth a tenth or more, and
/// the other side is not just as low.
pub proof fn law_stop_loss_is_guarded(
    state: EngineRecord,
    position: StopLossPosition,
    books: BookSet,
    markets: Seq<MarketInfo>,
    now: u128,
    now_utc: i128,
    stamp: Stamp,
)
    requires
        stop_loss(state, position, books, markets, now, now_utc, stamp) is Some,
        stop_loss(state, position, books, markets, now, now_utc, stamp)->0 is Sell,
    ensures
        ({
            let book = books.book(position.token_id)->0;
            let bid = book.bids@[0].price@;
            let trade = stop_loss(state, position, books, markets, now, now_utc, stamp)->0->Sell_0;
            &&& lost_half(position, bid) == Some(true)
            &&& still_worth_it(position, bid, best_ask_of(book)) == Some(false)
            &&& market_with(markets, position.token_id) matches Some(i) ==> {
                &&& !(expired(markets[i], now_utc) && bid >= cents(10))
                &&& !both_sides_low(markets[i], position.token_id, books)
            }
            &&& !cooling_down(state, trade.condition_id, strategy_of(position), now)
            &&& trade.execution_plan matches PlanRecord::DirectionalBuy(order) && {
                &&& order.token_id == position.token_id
                &&& order.side is Sell
                &&& order.price == bid
                &&& order.size == round_dp_of(
                    lesser(position.size@, depth_of(book, TradeSide::Sell, bid)->0),
                    2,
                )
            }
        }),
{
}

fn find_other(tokens: &Vec<TokenInfo>, token_id: U256) -> (r: Option<U256>)
    ensures
        r == other_token(tokens@, token_id, 0),
{
    let mut i: usize = 0;
    while i < tokens.len()
        invariant
            i <= tokens@.len(),
            other_token(tokens@, token_id, 0) == other_token(tokens@, token_id, i as nat),
        decreases tokens@.len() - i,
    {
        if tokens[i].token_id != token_id {
            return Some(tokens[i].token_id);
        }
        i = i + 1;
    }
    None
}

fn is_low_on_both_sides(market: &MarketInfo, token_id: U256, books: &BookSet) -> (r: bool)
    ensures
        r == both_sides_low(*market, token_id, *books),
{
    if market.tokens.len() != 2 {
        return false;
    }
    match find_other(&market.tokens, token_id) {
        Some(other) => match books.get(other) {
            Some(book) => {
                let bid = match book.best_bid() {
                    Some(level) => level.price,
                    None => Decimal::zero(),
                };
                bid < hundredths(50)
            },
            None => false,
        },
        None => false,
    }
}

fn is_still_worth_it(position: &StopLossPosition, bid: Decimal, book: &OrderBook) -> (r: bool)
    requires
        still_worth_it(*position, bid@, best_ask_of(*book)) is Some,
    ensures
        still_worth_it(*position, bid@, best_ask_of(*book)) == Some(r),
{
    match book.best_ask() {
        Some(level) => level.price >= position.avg_cost && bid >= level.price * hundredths(10),
        None => false,
    }
}

impl EngineState {
    fn sell_at_bid(
        &mut self,
        position: StopLossPosition,
        condition_id: B256,
        strategy_type: StrategyType,
        book: &OrderBook,
        bid: Decimal,
        now: u128,
        stamp: Stamp,
    ) -> (r: Option<ArbitrageOpportunity>)
        requires
            clock_fits(now),
            strategy_type == strategy_of(position),
            sold(old(self)@, position, condition_id@, *book, bid@, now, stamp) is Some,
        ensures
            ({
                let done = sold(old(self)@, position, condition_id@, *book, bid@, now, stamp)->0;
                &&& final(self)@ == after_stop_loss(old(self)@, position, done, now)
                &&& trade_at(r) == (match done {
                    StopLossRecord::Sell(trade) => Some(trade),
                    _ => None,
                })
            }),
    {
        if self.is_cooled_down(condition_id, strategy_type, now) {
            return None;
        }
        let value = bid * position.size;
        if value < hundredths(5) {
            self.set_cooldown(condition_id, strategy_type, 3600, now);
            return None;
        }
        let depth = book.available_depth(TradeSide::Sell, bid);
        let size = position.size.min(depth).round_dp(2);
        if size < hundredths(1) {
            self.set_cooldown(condition_id, strategy_type, 3600, now);
            return None;
        }
        let number = position.token_id.outside_text();
        Some(
            ArbitrageOpportunity {
                stamp,
                strategy_type,
                condition_id,
                question: "[STOP-LOSS] Force exit token ".to_owned().concat(number.as_str()),
                spread: position.avg_cost - bid,
                estimated_profit: (bid - position.avg_cost) * size,
                size,
                execution_plan: ExecutionPlan::DirectionalBuy(
                    DirectionalBuy {
                        token_id: position.token_id,
                        side: TradeSide::Sell,
                        price: bid,
                        size,
                        condition_id,
                    },
                ),
            },
        )
    }

    fn check_and_sell(
        &mut self,
        position: StopLossPosition,
        books: &BookSet,
        market: Option<&MarketInfo>,
        book: &OrderBook,
        bid: Decimal,
        now: u128,
        now_utc: i128,
        stamp: Stamp,
    ) -> (r: Option<ArbitrageOpportunity>)
        requires
            clock_fits(now),
            checked_sale(
                old(self)@,
                position,
                *books,
                market_at(market),
                *book,
                bid@,
                now,
                now_utc,
                stamp,
            ) is Some,
        ensures
            ({
                let done = checked_sale(
                    old(self)@,
                    position,
                    *books,
                    market_at(market),
                    *book,
                    bid@,
                    now,
                    now_utc,
                    stamp,
                )->0;
                &&& final(self)@ == after_stop_loss(old(self)@, position, done, now)
                &&& trade_at(r) == (match done {
                    StopLossRecord::Sell(trade) => Some(trade),
                    _ => None,
                })
            }),
    {
        let strategy_type = match position.strategy_type {
            Some(s) => s,
            None => StrategyType::CryptoAlpha,
        };
        let condition_id = match (position.condition_id, market) {
            (Some(c), _) => c,
            (None, Some(m)) => m.condition_id,
            (None, None) => B256::zero(),
        };
        if let Some(m) = market {
            let has_ended = match m.end_date {
                Some(end) => end <= now_utc,
                None => false,
            };
            if has_ended && bid >= hundredths(10) {
                if !self.is_cooled_down(condition_id, strategy_type, now) {
                    self.set_cooldown(condition_id, strategy_type, 3600, now);
                }
                return None;
            }
            if is_low_on_both_sides(m, position.token_id, books) {
                self.set_cooldown(condition_id, strategy_type, 600, now);
                return None;
            }
        }
        self.sell_at_bid(position, condition_id, strategy_type, book, bid, now, stamp)
    }

    /// Looks at one position: the sale that is forced, if one is, and otherwise perhaps a cooldown.
    pub fn scan_stop_loss(
        &mut self,
        position: StopLossPosition,
        books: &BookSet,
        markets: &Vec<MarketInfo>,
        now: u128,
        now_utc: i128,
        stamp: Stamp,
    ) -> (r: Option<ArbitrageOpportunity>)
        requires
            clock_fits(now),
            stop_loss(old(self)@, position, *books, markets@, now, now_utc, stamp) is Some,
        ensures
            ({
                let done = stop_loss(
                    old(self)@,
                    position,
                    *books,
                    markets@,
                    now,
                    now_utc,
                    stamp,
                )->0;
                &&& final(self)@ == after_stop_loss(old(self)@, position, done, now)
                &&& trade_at(r) == (match done {
                    StopLossRecord::Sell(trade) => Some(trade),
                    _ => None,
                })
            }),
    {
        if position.size <= Decimal::zero() || position.avg_cost <= Decimal::zero() {
            return None;
        }
        let early_condition = match position.condition_id {
            Some(c) => c,
            None => B256::zero(),
        };
        let strategy_type = match position.strategy_type {
            Some(s) => s,
            None => StrategyType::CryptoAlpha,
        };
        if self.is_cooled_down(early_condition, strategy_type, now) {
            return None;
        }
        let book = match books.get(position.token_id) {
            Some(b) => b,
            None => return None,
        };
        let bid = match book.best_bid() {
            Some(level) => level.price,
            None => return None,
        };
        if bid > position.avg_cost * hundredths(50) {
            return None;
        }
        if is_still_worth_it(&position, bid, book) {
            return None;
        }
        let market = match find_market(markets, position.token_id) {
            Some(i) => Some(&markets[i]),
            None => None,
        };
        self.check_and_sell(position, books, market, book, bid, now, now_utc, stamp)
    }
}

impl EngineState {
    /// Takes note of what came of a forced sale: whatever it was, the position is left alone for
    /// five minutes.
    pub fn note_forced_sale(&mut self, trade: &ArbitrageOpportunity, report: &ExecutionReport, now: u128)
        requires
            clock_fits(now),
        ensures
            final(self)@ == cooled_for(
                after_report(
                    old(self)@,
                    trade@.condition_id,
                    trade@.strategy_type,
                    *report,
                    now,
                ),
                trade@.condition_id,
                trade@.strategy_type,
                now,
                300,
            ),
    {
        self.note_report(trade.condition_id, trade.strategy_type, report, now);
        self.set_cooldown(trade.condition_id, trade.strategy_type, 300, now);
    }
}

/// The market behind a reference.
pub open spec fn market_at(market: Option<&MarketInfo>) -> Option<MarketInfo> {
    match market {
        Some(m) => Some(*m),
        None => None,
    }
}

/// What a position is given up for. It is kept while it is empty, cost nothing or cools down, while no
/// bid is half of what it cost or less, and while the ask still shows that cost with a bid of a tenth of
/// it or more. It waits an hour where its market has ended at a bid of a tenth or more, ten minutes where
/// the other side is bid below one half too, and an hour where less than five cents or less than a
/// hundredth would be sold. Otherwise what the bids take of it is sold at the bid.
pub proof fn law_losing_position_is_given_up(
    state: EngineRecord,
    position: StopLossPosition,
    books: BookSet,
    markets: Seq<MarketInfo>,
    now: u128,
    now_utc: i128,
    stamp: Stamp,
    k: nat,
)
    requires
        k <= 20,
        stop_loss(state, position, books, markets, now, now_utc, stamp) is Some,
        0 < position.avg_cost@ <= unit(),
        0 < position.size@ <= 3 * pow10(k) * unit(),
        books.book(position.token_id) is Some,
        books.book(position.token_id)->0.bids@.len() > 0,
        is_priced(books.book(position.token_id)->0),
    ensures
        ({
            let u = unit();
            let book = books.book(position.token_id)->0;
            let bid = book.bids@[0].price@;
            let cost = position.avg_cost@;
            let done = stop_loss(state, position, books, markets, now, now_utc, stamp)->0;
            let strategy = if position.strategy_type is Some {
                position.strategy_type->0
            } else {
                StrategyType::CryptoAlpha
            };
            let place = market_with(markets, position.token_id);
            let market = markets[place->0];
            let condition = if position.condition_id is Some {
                position.condition_id->0@
            } else if place is Some {
                market.condition_id@
            } else {
                zero_id()
            };
            let ended = place is Some && market.end_date is Some && market.end_date->0 <= now_utc;
            let asleep = cooling_down(
                state,
                if position.condition_id is Some {
                    position.condition_id->0@
                } else {
                    zero_id()
                },
                strategy,
                now,
            );
            let priced_in = book.asks@.len() > 0 && book.asks@[0].price@ >= cost;
            let tired = cooling_down(state, condition, strategy, now);
            let stale = place is Some && market.tokens@.len() == 2 && exists|j: int|
                0 <= j < 2 && (#[trigger] market.tokens@[j]).token_id != position.token_id
                    && is_low(books.book(market.tokens@[j].token_id));
            let lost = !asleep && 2 * bid <= cost && !(priced_in && 10 * bid >= book.asks@[0].price@
                - 10);
            &&& asleep || 2 * bid > cost + 1 ==> done is Keep
            &&& priced_in && 10 * bid >= book.asks@[0].price@ ==> done is Keep
            &&& lost && ended && 10 * bid >= u ==> if tired {
                done is Keep
            } else {
                done == (StopLossRecord::Wait { condition_id: condition, secs: 3600 })
            }
            &&& lost && !(ended && 10 * bid >= u) && stale ==> done == (StopLossRecord::Wait {
                condition_id: condition,
                secs: 600,
            })
            &&& lost && !(ended && 10 * bid >= u) && !stale && tired ==> done is Keep
            &&& lost && !(ended && 10 * bid >= u) && !stale && !tired ==> {
                let depth = depth_of(book, TradeSide::Sell, bid)->0;
                let least = if depth < position.size@ {
                    depth
                } else {
                    position.size@
                };
                &&& 20 * (bid * position.size@) < u * u - 20 * (pow10(k) * u) ==> done == (
                StopLossRecord::Wait { condition_id: condition, secs: 3600 })
                &&& 20 * (bid * position.size@) >= u * u && 200 * least < u ==> done == (
                StopLossRecord::Wait { condition_id: condition, secs: 3600 })
                &&& 20 * (bid * position.size@) >= u * u && 200 * least > u ==> done is Sell
                &&& done matches StopLossRecord::Sell(trade) ==> {
                    &&& trade.strategy_type == strategy
                    &&& trade.condition_id == condition
                    &&& trade.spread == cost - bid
                    &&& close(
                        trade.estimated_profit,
                        (bid - cost) * trade.size,
                        u,
                        pow10(k),
                    )
                    &&& 200 * magnitude(trade.size - least) <= u
                    &&& (100 * trade.size) % u == 0
                    &&& trade.execution_plan == PlanRecord::DirectionalBuy(
                        OrderRecord {
                            token_id: position.token_id,
                            side: TradeSide::Sell,
                            price: bid,
                            size: trade.size,
                            condition_id: condition,
                        },
                    )
                }
            }
        }),
{
    let u = unit();
    let p = pow10(k);
    let book = books.book(position.token_id)->0;
    let bid = book.bids@[0].price@;
    let cost = position.avg_cost@;
    let size = position.size@;
    lemma_pow10_below_unit(k);
    lemma_cents();
    let place = market_with(markets, position.token_id);
    if place is Some {
        law_last_market_of_a_token_counts(markets, position.token_id);
        let tokens = markets[place->0].tokens@;
        if tokens.len() == 2 {
            reveal_with_fuel(other_token, 3);
            assert(tokens[0].token_id == position.token_id || tokens[1].token_id
                == position.token_id);
        }
    }
    lemma_part_of(cost, cents(50), 2);
    if book.asks@.len() > 0 {
        lemma_part_of(book.asks@[0].price@, cents(10), 10);
    }
    lemma_pieces(bid, size, k);
    law_arithmetic_keeps_order(bid, size, cents(5));
    assert(cents(5) * u == u * cents(5) && 20 * (cents(5) * u) == u * u) by (nonlinear_arith)
        requires
            20 * cents(5) == u,
    ;
    assert(20 * (bid * size) < u * u - 20 * (p * u) ==> product(bid, size)->0 < cents(5))
        by (nonlinear_arith)
        requires
            2 * (product(bid, size)->0 * u - bid * size) <= p * u,
            20 * cents(5) == u,
            u > 0,
            p > 0,
    {
        let value = product(bid, size)->0;
        if 20 * (bid * size) < u * u - 20 * (p * u) && value >= cents(5) {
            assert(p * u > 0);
            assert(value * u >= cents(5) * u);
            assert(20 * (cents(5) * u) == u * u);
        }
    }
    let depth = depth_of(book, TradeSide::Sell, bid)->0;
    let least = lesser(size, depth);
    law_digits_are_dropped_to_the_nearest(least, 2);
    let sold = round_dp_of(least, 2);
    let q = sold / cents(1);
    vstd::arithmetic::div_mod::lemma_fundamental_div_mod(sold, cents(1));
    assert(sold == cents(1) * q);
    assert(sold > 0 ==> sold >= cents(1)) by (nonlinear_arith)
        requires
            sold == cents(1) * q,
            cents(1) > 0,
    {
        if q <= 0 {
            assert(sold <= 0);
        } else {
            assert(sold >= cents(1));
        }
    }
    assert(100 * sold == q * u) by (nonlinear_arith)
        requires
            sold == cents(1) * q,
            100 * cents(1) == u,
    ;
    vstd::arithmetic::div_mod::lemma_mod_multiples_basic(q, u);
    lemma_sum_close(cost, bid, 0);
    lemma_sum_close(bid, cost, 0);
    if sold >= cents(1) {
        assert(3 * p * u + u <= 4 * p * u) by (nonlinear_arith)
            requires
                p >= 1,
                u > 0,
        ;
        lemma_pieces(bid - cost, sold, k);
        let profit = product(bid - cost, sold)->0;
        assert(p * u >= 0) by (nonlinear_arith)
            requires
                p > 0,
                u > 0,
        ;
    }
}

/// There is a book, and less than one half is bid in it.
pub open spec fn is_low(book: Option<OrderBook>) -> bool {
    book is Some && (book->0.bids@.len() > 0 ==> 2 * book->0.bids@[0].price@ < unit())
}

proof fn lemma_cents()
    ensures
        pow10(0) == 1,
        pow10(26) == cents(1),
        2 * cents(50) == unit(),
        10 * cents(10) == unit(),
        20 * cents(5) == unit(),
        100 * cents(1) == unit(),
        crate::rounding::representable(cents(5)),
{
    crate::rounding::lemma_pow10_unit();
    crate::rounding::lemma_pow10_sum(2, 26);
    assert(pow10(2) == 100) by {
        reveal_with_fuel(pow10, 3);
    }
    assert(written_as(cents(5), 5, 2));
}

/// The `n`-th part of a number up to one, to within half of the last digit.
proof fn lemma_part_of(v: int, part: int, n: int)
    requires
        0 <= v <= unit(),
        n > 0,
        n * part == unit(),
    ensures
        product(v, part) is Some,
        -n <= 2 * (n * product(v, part)->0 - v) <= n,
{
    let u = unit();
    assert(pow10(0) == 1);
    assert(0 <= part <= u) by (nonlinear_arith)
        requires
            n > 0,
            n * part == u,
            u > 0,
    ;
    assert(0 <= v * part <= 7 * 1 * (u * u)) by (nonlinear_arith)
        requires
            0 <= v <= u,
            0 <= part <= u,
    ;
    lemma_product_close(v, part, 0);
    let x = product(v, part)->0;
    assert(-n <= 2 * (n * x - v) <= n) by (nonlinear_arith)
        requires
            2 * (x * u - v * part) <= 1 * u,
            2 * (v * part - x * u) <= 1 * u,
            n * part == u,
            n > 0,
            part > 0 || u > 0,
    {
        assert(n * (x * u - v * part) == (n * x - v) * u);
        assert(2 * ((n * x - v) * u) <= n * u);
        assert(2 * ((n * x - v) * u) >= -(n * u));
        assert((2 * (n * x - v)) * u <= n * u);
        assert((2 * (n * x - v)) * u >= (-n) * u);
    }
}

proof fn lemma_pieces(a: int, b: int, k: nat)
    requires
        k <= 20,
        -unit() <= a <= unit(),
        0 <= b <= 4 * pow10(k) * unit(),
    ensures
        product(a, b) is Some,
        2 * (product(a, b)->0 * unit() - a * b) <= pow10(k) * unit(),
        2 * (a * b - product(a, b)->0 * unit()) <= pow10(k) * unit(),
{
    let u = unit();
    let p = pow10(k);
    lemma_pow10_below_unit(k);
    assert(-(7 * p * (u * u)) <= a * b <= 7 * p * (u * u)) by (nonlinear_arith)
        requires
            -u <= a <= u,
            0 <= b <= 4 * p * u,
            p > 0,
            u > 0,
    {
        assert(a * b <= u * b && a * b >= (-u) * b);
        assert(u * b <= u * (4 * p * u));
        assert((-u) * b == -(u * b));
        assert(u * (4 * p * u) == 4 * (p * (u * u)));
        assert(p * (u * u) >= 0);
        assert(7 * p * (u * u) == 7 * (p * (u * u)));
    }
    lemma_product_close(a, b, k);
}

} // verus!
