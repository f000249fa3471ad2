//! Prices and sizes to quote.
use crate::decimal::Decimal;
use crate::liquidity_rewards::config::LiquidityRewardsConfig;
use crate::types::{OrderBook, PriceLevel};
use vstd::prelude::*;

verus! {

use crate::rounding::{
    at_least, at_most, ceil_of, cents, close, floor_of, greater, law_arithmetic_is_exact,
    law_arithmetic_keeps_order, law_arithmetic_stays_in_range, lemma_bounded_product,
    lemma_close_times, lemma_fraction_representable, lemma_nearest_exact, lemma_pow10_sum,
    lemma_pow10_unit, lemma_product_close, lemma_product_monotone, lemma_product_of_zero,
    lemma_quotient_close, lemma_quotient_monotone, lemma_quotient_of_zero,
    lemma_representable_bound, lemma_rounded_representable, lemma_scaled, lemma_steps_monotone,
    lemma_steps_within, lemma_sum_close, lemma_sum_monotone, lemma_whole_representable,
    lemma_zero_representable, lesser, magnitude, minus, over, plus, pow10, product, quotient,
    representable, round_dp_of, rounded, times, unit, whole, within, written_as, MAX_MANTISSA,
};

/// A bid and an ask for one token.
#[derive(Clone, Copy, Debug)]
pub struct TokenQuote {
    pub bid_price: Decimal,
    pub ask_price: Decimal,
    pub size: Decimal,
}

/// The figures of a quote.
pub struct QuoteFigures {
    pub bid: int,
    pub ask: int,
    pub size: int,
}

impl View for TokenQuote {
    type V = QuoteFigures;

    open spec fn view(&self) -> QuoteFigures {
        QuoteFigures { bid: self.bid_price@, ask: self.ask_price@, size: self.size@ }
    }
}

pub open spec fn quote_at(quote: Option<TokenQuote>) -> Option<QuoteFigures> {
    match quote {
        Some(q) => Some(q@),
        None => None,
    }
}

/// The tick at or below a price; without ticks, the price to the nearest hundredth.
pub open spec fn tick_below(price: Option<int>, tick: int) -> Option<int> {
    match price {
        None => None,
        Some(p) => if tick <= 0 {
            Some(round_dp_of(p, 2))
        } else {
            match over(Some(p), Some(tick)) {
                Some(ticks) => times(Some(floor_of(ticks)), Some(tick)),
                None => None,
            }
        },
    }
}

/// The tick at or above a price; without ticks, the price to the nearest hundredth.
pub open spec fn tick_above(price: Option<int>, tick: int) -> Option<int> {
    match price {
        None => None,
        Some(p) => if tick <= 0 {
            Some(round_dp_of(p, 2))
        } else {
            match over(Some(p), Some(tick)) {
                Some(ticks) => times(Some(ceil_of(ticks)), Some(tick)),
                None => None,
            }
        },
    }
}

/// Half of the part of the rewarded spread that is quoted.
pub open spec fn half_spread(max_spread: int, fraction: int) -> Option<int> {
    over(times(Some(max_spread), Some(fraction)), Some(whole(2)))
}

/// How full the position is, from minus one to one.
pub open spec fn fullness(position: int, max_position: int) -> Option<int> {
    if max_position > 0 {
        at_least(
            at_most(over(Some(position), Some(max_position)), Some(unit())),
            Some(-unit()),
        )
    } else {
        Some(0)
    }
}

/// By how much a held position moves both quotes down.
pub open spec fn skew(
    position: int,
    max_position: int,
    factor: int,
    half: Option<int>,
) -> Option<int> {
    times(times(fullness(position, max_position), Some(factor)), half)
}

/// The bid, no lower than one hundredth.
pub open spec fn bid_quote(mid: int, half: Option<int>, shift: Option<int>, tick: int) -> Option<
    int,
> {
    at_least(tick_below(minus(Some(mid), plus(half, shift)), tick), Some(cents(1)))
}

/// The ask, no higher than ninety-nine hundredths.
pub open spec fn ask_quote(mid: int, half: Option<int>, shift: Option<int>, tick: int) -> Option<
    int,
> {
    at_most(tick_above(plus(Some(mid), minus(half, shift)), tick), Some(cents(99)))
}

/// The bid and the ask are no further from the midpoint than the rewarded spread.
pub open spec fn in_band(mid: int, bid: int, ask: int, max_spread: int) -> Option<bool> {
    match minus(Some(mid), Some(bid)) {
        None => None,
        Some(below) => if magnitude(below) > max_spread {
            Some(false)
        } else {
            match minus(Some(ask), Some(mid)) {
                None => None,
                Some(above) => Some(magnitude(above) <= max_spread),
            }
        },
    }
}

/// How much is quoted: the largest position, but no less than the least orders of the settings and of
/// the market.
pub open spec fn quoted_size(config: LiquidityRewardsConfig, min_size: int) -> int {
    greater(config.max_position_per_market@, greater(config.min_order_size@, min_size))
}

/// The quotes around a midpoint: `Some(None)` where they would cross or leave the rewarded band.
pub open spec fn quotes(
    mid: int,
    max_spread: int,
    position: int,
    config: LiquidityRewardsConfig,
    min_size: int,
    tick: int,
) -> Option<Option<QuoteFigures>> {
    let half = half_spread(max_spread, config.spread_fraction@);
    let shift = skew(
        position,
        config.max_position_per_market@,
        config.inventory_skew_factor@,
        half,
    );
    match (bid_quote(mid, half, shift, tick), ask_quote(mid, half, shift, tick)) {
        (Some(bid), Some(ask)) => if bid >= ask {
            Some(None)
        } else {
            match in_band(mid, bid, ask, max_spread) {
                None => None,
                Some(false) => Some(None),
                Some(true) => Some(
                    Some(QuoteFigures { bid, ask, size: quoted_size(config, min_size) }),
                ),
            }
        },
        _ => None,
    }
}

fn floor_to_tick(price: Decimal, tick: Decimal) -> (r: Decimal)
    requires
        tick_below(Some(price@), tick@) is Some,
    ensures
        tick_below(Some(price@), tick@) == Some(r@),
{
    if tick <= Decimal::zero() {
        return price.round_dp(2);
    }
    (price / tick).floor() * tick
}

fn ceil_to_tick(price: Decimal, tick: Decimal) -> (r: Decimal)
    requires
        tick_above(Some(price@), tick@) is Some,
    ensures
        tick_above(Some(price@), tick@) == Some(r@),
{
    if tick <= Decimal::zero() {
        return price.round_dp(2);
    }
    (price / tick).ceil() * tick
}

fn within_band(mid: Decimal, bid: Decimal, ask: Decimal, max_spread: Decimal) -> (r: bool)
    requires
        in_band(mid@, bid@, ask@, max_spread@) is Some,
    ensures
        in_band(mid@, bid@, ask@, max_spread@) == Some(r),
{
    if (mid - bid).abs() > max_spread {
        return false;
    }
    (ask - mid).abs() <= max_spread
}

fn target_size(config: &LiquidityRewardsConfig, rewards_min_size: Decimal) -> (r: Decimal)
    ensures
        r@ == quoted_size(*config, rewards_min_size@),
{
    config.max_position_per_market.max(config.min_order_size.max(rewards_min_size))
}

/// The quotes for a token around its midpoint, within the rewarded spread; none where they would
/// cross or leave the band.
pub fn compute_quotes(
    midpoint: Decimal,
    rewards_max_spread: Decimal,
    position: Decimal,
    config: &LiquidityRewardsConfig,
    rewards_min_size: Decimal,
    tick_size: Decimal,
) -> (r: Option<TokenQuote>)
    requires
        quotes(
            midpoint@,
            rewards_max_spread@,
            position@,
            *config,
            rewards_min_size@,
            tick_size@,
        ) is Some,
    ensures
        quotes(
            midpoint@,
            rewards_max_spread@,
            position@,
            *config,
            rewards_min_size@,
            tick_size@,
        ) == Some(quote_at(r)),
{
    let half = rewards_max_spread * config.spread_fraction / Decimal::two();
    let max_position = config.max_position_per_market;
    let ratio = if max_position > Decimal::zero() {
        (position / max_position).min(Decimal::one()).max(Decimal::from_i64(-1))
    } else {
        Decimal::zero()
    };
    let shift = ratio * config.inventory_skew_factor * half;
    let bid_price = floor_to_tick(midpoint - (half + shift), tick_size).max(Decimal::new(1, 2));
    let ask_price = ceil_to_tick(midpoint + (half - shift), tick_size).min(Decimal::new(99, 2));
    if bid_price >= ask_price {
        return None;
    }
    if !within_band(midpoint, bid_price, ask_price, rewards_max_spread) {
        return None;
    }
    Some(TokenQuote { bid_price, ask_price, size: target_size(config, rewards_min_size) })
}

/// A price that an order can have.
pub open spec fn is_price(p: int) -> bool {
    cents(1) <= p <= cents(99)
}

/// The quotes at a depth of the book, counted from one: `Some(None)` where the book is not that
/// deep, or the quotes would cross, be no prices or leave the rewarded band.
pub open spec fn depth_quotes(
    book: OrderBook,
    depth: nat,
    max_spread: int,
    config: LiquidityRewardsConfig,
    min_size: int,
) -> Option<Option<QuoteFigures>> {
    if depth < 1 || book.bids@.len() < depth || book.asks@.len() < depth {
        Some(None)
    } else {
        let bid = book.bids@[depth - 1].price@;
        let ask = book.asks@[depth - 1].price@;
        if bid >= ask || !is_price(bid) || !is_price(ask) {
            Some(None)
        } else {
            let mid = over(
                plus(Some(book.bids@[0].price@), Some(book.asks@[0].price@)),
                Some(whole(2)),
            );
            match mid {
                None => None,
                Some(m) => match in_band(m, bid, ask, max_spread) {
                    None => None,
                    Some(false) => Some(None),
                    Some(true) => Some(
                        Some(QuoteFigures { bid, ask, size: quoted_size(config, min_size) }),
                    ),
                },
            }
        }
    }
}

fn is_valid_price(price: Decimal) -> (r: bool)
    ensures
        r == is_price(price@),
{
    price >= Decimal::new(1, 2) && price <= Decimal::new(99, 2)
}

/// The quotes for a token at a depth of its book; none where the book is not that deep, or the
/// quotes would cross, be no prices or leave the rewarded band.
pub fn compute_depth_quotes(
    book: &OrderBook,
    depth_level: usize,
    rewards_max_spread: Decimal,
    _position: Decimal,
    config: &LiquidityRewardsConfig,
    rewards_min_size: Decimal,
) -> (r: Option<TokenQuote>)
    requires
        depth_quotes(
            *book,
            depth_level as nat,
            rewards_max_spread@,
            *config,
            rewards_min_size@,
        ) is Some,
    ensures
        depth_quotes(
            *book,
            depth_level as nat,
            rewards_max_spread@,
            *config,
            rewards_min_size@,
        ) == Some(quote_at(r)),
{
    if depth_level < 1 {
        return None;
    }
    if book.bids.len() < depth_level || book.asks.len() < depth_level {
        return None;
    }
    let bid_price = book.bids[depth_level - 1].price;
    let ask_price = book.asks[depth_level - 1].price;
    if bid_price >= ask_price {
        return None;
    }
    if !is_valid_price(bid_price) || !is_valid_price(ask_price) {
        return None;
    }
    let midpoint = (book.bids[0].price + book.asks[0].price) / Decimal::two();
    if !within_band(midpoint, bid_price, ask_price, rewards_max_spread) {
        return None;
    }
    Some(TokenQuote { bid_price, ask_price, size: target_size(config, rewards_min_size) })
}

/// A level is strictly better than an order's price.
pub open spec fn better_level(level: PriceLevel, price: int, is_buy: bool) -> bool {
    if is_buy {
        level.price@ > price
    } else {
        level.price@ < price
    }
}

/// How many of the first `n` levels are strictly better than an order's price.
pub open spec fn levels_ahead(levels: Seq<PriceLevel>, price: int, is_buy: bool, n: nat) -> nat
    decreases n,
{
    if n == 0 {
        0
    } else {
        levels_ahead(levels, price, is_buy, (n - 1) as nat) + if better_level(
            levels[n - 1],
            price,
            is_buy,
        ) {
            1nat
        } else {
            0nat
        }
    }
}

/// The side of the book that an order rests on.
pub open spec fn own_side(book: OrderBook, is_buy: bool) -> Seq<PriceLevel> {
    if is_buy {
        book.bids@
    } else {
        book.asks@
    }
}

fn is_better(level: &PriceLevel, price: Decimal, is_buy: bool) -> (r: bool)
    ensures
        r == better_level(*level, price@, is_buy),
{
    if is_buy {
        level.price > price
    } else {
        level.price < price
    }
}

/// Whether an order has come too close to the front of the book: so that its place, counted from one,
/// is no more than the level given. At level zero no order is cancelled.
pub fn should_cancel_depth_order(
    book: &OrderBook,
    order_price: Decimal,
    is_buy: bool,
    cancel_depth_level: usize,
) -> (r: bool)
    ensures
        r == (cancel_depth_level > 0 && levels_ahead(
            own_side(*book, is_buy),
            order_price@,
            is_buy,
            own_side(*book, is_buy).len(),
        ) + 1 <= cancel_depth_level),
{
    if cancel_depth_level == 0 {
        return false;
    }
    let levels: &Vec<PriceLevel> = if is_buy {
        &book.bids
    } else {
        &book.asks
    };
    let mut ahead: usize = 0;
    let mut i: usize = 0;
    while i < levels.len()
        invariant
            ahead <= i <= levels@.len(),
            ahead == levels_ahead(levels@, order_price@, is_buy, i as nat),
        decreases levels@.len() - i,
    {
        if is_better(&levels[i], order_price, is_buy) {
            ahead = ahead + 1;
        }
        i = i + 1;
    }
    ahead < cancel_depth_level
}

/// The size that the balance affords: an equal part of it for each side that is quoted, in whole
/// hundredths, within the limits; zero where that is less than the least order.
pub open spec fn affordable_size(
    price: int,
    balance: int,
    sides: u32,
    max_position: int,
    remaining: int,
    min_size: int,
) -> Option<int> {
    if price <= 0 || sides == 0 || balance <= 0 {
        Some(0)
    } else {
        let raw = over(over(Some(balance), Some(whole(sides as int))), Some(price));
        match times(raw, Some(whole(100))) {
            None => None,
            Some(hundredths) => match over(Some(floor_of(hundredths)), Some(whole(100))) {
                None => None,
                Some(affordable) => {
                    let size = lesser(lesser(affordable, max_position), remaining);
                    Some(
                        if size < min_size {
                            0
                        } else {
                            size
                        },
                    )
                },
            },
        }
    }
}

/// The size that the balance affords at a price, for so many sides that are quoted; zero where that
/// is less than the least order.
pub fn balance_aware_size(
    price: Decimal,
    balance: Decimal,
    sides_quoted: u32,
    max_position_per_market: Decimal,
    remaining_exposure: Decimal,
    min_order_size: Decimal,
) -> (r: Decimal)
    requires
        affordable_size(
            price@,
            balance@,
            sides_quoted,
            max_position_per_market@,
            remaining_exposure@,
            min_order_size@,
        ) is Some,
    ensures
        affordable_size(
            price@,
            balance@,
            sides_quoted,
            max_position_per_market@,
            remaining_exposure@,
            min_order_size@,
        ) == Some(r@),
{
    if price <= Decimal::zero() || sides_quoted == 0 || balance <= Decimal::zero() {
        return Decimal::zero();
    }
    let per_side_budget = balance / Decimal::from_u32(sides_quoted);
    let raw = per_side_budget / price;
    let affordable = (raw * Decimal::from_u32(100)).floor() / Decimal::from_u32(100);
    let size = affordable.min(max_position_per_market).min(remaining_exposure);
    if size < min_order_size {
        Decimal::zero()
    } else {
        size
    }
}

/// A price or a tick that is at least a ten-thousandth and at most one.
pub open spec fn is_fine(v: int) -> bool {
    representable(v) && pow10(24) <= v <= unit()
}

proof fn lemma_fine(v: int)
    requires
        is_fine(v),
    ensures
        within(Some(v), 1),
        v * 10_000 >= unit(),
{
    assert(pow10(24) == 1_000_000_000_000_000_000_000_000) by {
        reveal_with_fuel(pow10, 25);
    }
}

/// Quotes can be reckoned for any midpoint between zero and one, as long as the settings are within
/// wide limits, and the ticks and the largest position are none or at least a ten-thousandth.
pub proof fn law_quotes_can_be_reckoned(
    mid: int,
    max_spread: int,
    position: int,
    config: LiquidityRewardsConfig,
    min_size: int,
    tick: int,
)
    requires
        0 <= mid <= unit(),
        within(Some(max_spread), 100),
        within(Some(position), 1_000_000_000),
        within(Some(config.spread_fraction@), 1),
        within(Some(config.inventory_skew_factor@), 100),
        within(Some(config.max_position_per_market@), 1_000_000_000),
        config.max_position_per_market@ <= 0 || config.max_position_per_market@ >= pow10(24),
        tick <= 0 || is_fine(tick),
    ensures
        quotes(mid, max_spread, position, config, min_size, tick) is Some,
{
    let most = config.max_position_per_market@;
    let factor = config.inventory_skew_factor@;
    let half = half_spread(max_spread, config.spread_fraction@);
    let quoted = times(Some(max_spread), Some(config.spread_fraction@));
    lemma_fraction_representable(mid);
    lemma_whole_representable(2);
    law_arithmetic_stays_in_range(Some(max_spread), Some(config.spread_fraction@), 100, 1, 1);
    law_arithmetic_stays_in_range(quoted, Some(whole(2)), 100, 2, 1);
    let full = fullness(position, most);
    if most > 0 {
        assert(most * 10_000 >= unit()) by {
            assert(pow10(24) == 1_000_000_000_000_000_000_000_000) by {
                reveal_with_fuel(pow10, 25);
            }
        }
        law_arithmetic_stays_in_range(
            Some(position),
            Some(most),
            1_000_000_000,
            1_000_000_000,
            10_000,
        );
    }
    lemma_fraction_representable(full->0);
    law_arithmetic_stays_in_range(full, Some(factor), 1, 100, 1);
    law_arithmetic_stays_in_range(times(full, Some(factor)), half, 100, 100, 1);
    let shift = skew(position, most, factor, half);
    law_arithmetic_stays_in_range(half, shift, 100, 10_000, 1);
    let low = minus(Some(mid), plus(half, shift));
    let high = plus(Some(mid), minus(half, shift));
    law_arithmetic_stays_in_range(Some(mid), plus(half, shift), 1, 10_100, 1);
    law_arithmetic_stays_in_range(Some(mid), minus(half, shift), 1, 10_100, 1);
    if tick > 0 {
        lemma_fine(tick);
        let ticks_low = over(low, Some(tick));
        let ticks_high = over(high, Some(tick));
        law_arithmetic_stays_in_range(low, Some(tick), 10_101, 1, 10_000);
        law_arithmetic_stays_in_range(high, Some(tick), 10_101, 1, 10_000);
        lemma_steps_within(ticks_low->0, 101_010_000);
        lemma_steps_within(ticks_high->0, 101_010_000);
        law_arithmetic_stays_in_range(
            Some(floor_of(ticks_low->0)),
            Some(tick),
            101_010_000,
            1,
            1,
        );
        law_arithmetic_stays_in_range(
            Some(ceil_of(ticks_high->0)),
            Some(tick),
            101_010_000,
            1,
            1,
        );
    }
    let bid = bid_quote(mid, half, shift, tick)->0;
    let ask = ask_quote(mid, half, shift, tick)->0;
    if bid < ask {
        lemma_prices_within_one(bid, ask);
        law_arithmetic_stays_in_range(Some(mid), Some(bid), 1, 1, 1);
        law_arithmetic_stays_in_range(Some(ask), Some(mid), 1, 1, 1);
    }
}

proof fn lemma_prices_within_one(bid: int, ask: int)
    requires
        cents(1) <= bid < ask <= cents(99),
    ensures
        within(Some(bid), 1),
        within(Some(ask), 1),
{
    assert(pow10(26) == 100_000_000_000_000_000_000_000_000) by {
        reveal_with_fuel(pow10, 27);
    }
    lemma_fraction_representable(bid);
    lemma_fraction_representable(ask);
}

/// The affordable size can be reckoned at any price from a ten-thousandth to one, for any balance up
/// to 10^12.
pub proof fn law_affordable_size_can_be_reckoned(
    price: int,
    balance: int,
    sides: u32,
    max_position: int,
    remaining: int,
    min_size: int,
)
    requires
        is_fine(price),
        within(Some(balance), 1_000_000_000_000),
    ensures
        affordable_size(price, balance, sides, max_position, remaining, min_size) is Some,
{
    if sides > 0 {
        let n = sides as int;
        lemma_fine(price);
        lemma_whole_representable(n);
        lemma_whole_representable(100);
        assert(magnitude(whole(n)) * 1 >= unit()) by (nonlinear_arith)
            requires
                n >= 1,
                unit() > 0,
        ;
        let each = over(Some(balance), Some(whole(n)));
        law_arithmetic_stays_in_range(Some(balance), Some(whole(n)), 1_000_000_000_000, n, 1);
        law_arithmetic_stays_in_range(each, Some(price), 1_000_000_000_000, 1, 10_000);
        let raw = over(each, Some(price));
        law_arithmetic_stays_in_range(raw, Some(whole(100)), 10_000_000_000_000_000, 100, 1);
        let hundredths = times(raw, Some(whole(100)));
        lemma_steps_within(hundredths->0, 1_000_000_000_000_000_000);
        law_arithmetic_stays_in_range(
            Some(floor_of(hundredths->0)),
            Some(whole(100)),
            1_000_000_000_000_000_000,
            100,
            1,
        );
    }
}

/// Quotes never cross, are prices between one and ninety-nine hundredths on the sides that matter, and
/// stay within the rewarded band around the midpoint. The size is at least the least order.
pub proof fn law_quotes_earn_rewards(
    mid: int,
    max_spread: int,
    position: int,
    config: LiquidityRewardsConfig,
    min_size: int,
    tick: int,
)
    requires
        quotes(mid, max_spread, position, config, min_size, tick) matches Some(Some(_)),
    ensures
        ({
            let q = quotes(mid, max_spread, position, config, min_size, tick)->0->0;
            &&& cents(1) <= q.bid < q.ask <= cents(99)
            &&& magnitude(minus(Some(mid), Some(q.bid))->0) <= max_spread
            &&& magnitude(minus(Some(q.ask), Some(mid))->0) <= max_spread
            &&& q.size >= config.min_order_size@
            &&& q.size >= min_size
        }),
{
}

proof fn lemma_ticks_monotone(a: int, b: int, tick: int)
    requires
        a <= b,
    ensures
        tick_below(Some(a), tick) is Some && tick_below(Some(b), tick) is Some ==> tick_below(
            Some(a),
            tick,
        )->0 <= tick_below(Some(b), tick)->0,
        tick_above(Some(a), tick) is Some && tick_above(Some(b), tick) is Some ==> tick_above(
            Some(a),
            tick,
        )->0 <= tick_above(Some(b), tick)->0,
{
    lemma_steps_monotone(a, b, 2);
    let x = over(Some(a), Some(tick));
    let y = over(Some(b), Some(tick));
    if tick > 0 && x is Some && y is Some {
        lemma_quotient_monotone(a, b, tick);
        lemma_steps_monotone(x->0, y->0, 2);
        if tick_below(Some(a), tick) is Some && tick_below(Some(b), tick) is Some {
            lemma_product_monotone(floor_of(x->0), floor_of(y->0), tick);
        }
        if tick_above(Some(a), tick) is Some && tick_above(Some(b), tick) is Some {
            lemma_product_monotone(ceil_of(x->0), ceil_of(y->0), tick);
        }
    }
}

/// The more is held, the lower both quotes are: what is held is bought less eagerly and sold more
/// eagerly.
pub proof fn law_inventory_lowers_quotes(
    mid: int,
    max_spread: int,
    less: int,
    more: int,
    config: LiquidityRewardsConfig,
    min_size: int,
    tick: int,
)
    requires
        less <= more,
        max_spread >= 0,
        config.spread_fraction@ >= 0,
        config.inventory_skew_factor@ >= 0,
        quotes(mid, max_spread, less, config, min_size, tick) matches Some(Some(_)),
        quotes(mid, max_spread, more, config, min_size, tick) matches Some(Some(_)),
    ensures
        quotes(mid, max_spread, more, config, min_size, tick)->0->0.bid <= quotes(
            mid,
            max_spread,
            less,
            config,
            min_size,
            tick,
        )->0->0.bid,
        quotes(mid, max_spread, more, config, min_size, tick)->0->0.ask <= quotes(
            mid,
            max_spread,
            less,
            config,
            min_size,
            tick,
        )->0->0.ask,
{
    let max_position = config.max_position_per_market@;
    let factor = config.inventory_skew_factor@;
    let fraction = config.spread_fraction@;
    let half = half_spread(max_spread, fraction)->0;
    let quoted = product(max_spread, fraction)->0;
    lemma_product_of_zero(fraction);
    lemma_product_monotone(0, max_spread, fraction);
    lemma_quotient_of_zero(whole(2));
    lemma_quotient_monotone(0, quoted, whole(2));
    assert(half >= 0);
    let f1 = fullness(less, max_position)->0;
    let f2 = fullness(more, max_position)->0;
    if max_position > 0 {
        lemma_quotient_monotone(less, more, max_position);
    }
    assert(f1 <= f2);
    lemma_product_monotone(f1, f2, factor);
    let g1 = product(f1, factor)->0;
    let g2 = product(f2, factor)->0;
    lemma_product_monotone(g1, g2, half);
    let s1 = product(g1, half)->0;
    let s2 = product(g2, half)->0;
    assert(s1 <= s2);
    lemma_sum_monotone(half, s1, s2);
    let up1 = plus(Some(half), Some(s1))->0;
    let up2 = plus(Some(half), Some(s2))->0;
    let down1 = minus(Some(half), Some(s1))->0;
    let down2 = minus(Some(half), Some(s2))->0;
    lemma_sum_monotone(mid, up1, up2);
    lemma_sum_monotone(mid, down2, down1);
    let bid1 = minus(Some(mid), Some(up1))->0;
    let bid2 = minus(Some(mid), Some(up2))->0;
    let ask1 = plus(Some(mid), Some(down1))->0;
    let ask2 = plus(Some(mid), Some(down2))->0;
    lemma_ticks_monotone(bid2, bid1, tick);
    lemma_ticks_monotone(ask2, ask1, tick);
}

/// Quotes at a depth never cross, are prices, stay within the rewarded band around the middle of the
/// book and are the prices of levels of the book.
pub proof fn law_depth_quotes_earn_rewards(
    book: OrderBook,
    depth: nat,
    max_spread: int,
    config: LiquidityRewardsConfig,
    min_size: int,
)
    requires
        depth_quotes(book, depth, max_spread, config, min_size) matches Some(Some(_)),
    ensures
        ({
            let q = depth_quotes(book, depth, max_spread, config, min_size)->0->0;
            let mid = over(
                plus(Some(book.bids@[0].price@), Some(book.asks@[0].price@)),
                Some(whole(2)),
            )->0;
            &&& 1 <= depth <= book.bids@.len() && depth <= book.asks@.len()
            &&& q.bid == book.bids@[depth - 1].price@
            &&& q.ask == book.asks@[depth - 1].price@
            &&& cents(1) <= q.bid < q.ask <= cents(99)
            &&& magnitude(minus(Some(mid), Some(q.bid))->0) <= max_spread
            &&& magnitude(minus(Some(q.ask), Some(mid))->0) <= max_spread
        }),
{
}

/// An affordable size is within both limits, and is zero or at least the least order.
pub proof fn law_affordable_size_is_within_limits(
    price: int,
    balance: int,
    sides: u32,
    max_position: int,
    remaining: int,
    min_size: int,
)
    requires
        affordable_size(price, balance, sides, max_position, remaining, min_size) is Some,
    ensures
        ({
            let size = affordable_size(
                price,
                balance,
                sides,
                max_position,
                remaining,
                min_size,
            )->0;
            size == 0 || min_size <= size && size <= max_position && size <= remaining
        }),
{
}

/// Neither the balance's part for a side nor the size that it buys is rounded up.
pub open spec fn parts_are_not_rounded_up(price: int, balance: int, sides: u32) -> bool {
    let each = over(Some(balance), Some(whole(sides as int)));
    let raw = over(each, Some(price));
    each->0 * sides <= balance && raw->0 * price <= each->0 * unit()
}

/// A hundred times a decimal is exact where it fits, and so is a hundredth of its whole part.
proof fn lemma_hundredths(raw: int)
    requires
        representable(raw),
        product(raw, whole(100)) is Some,
    ensures
        product(raw, whole(100)) == Some(100 * raw),
        quotient(floor_of(100 * raw), whole(100)) is Some,
        quotient(floor_of(100 * raw), whole(100))->0 <= raw,
        100 * quotient(floor_of(100 * raw), whole(100))->0 > 100 * raw - unit(),
        (100 * quotient(floor_of(100 * raw), whole(100))->0) % unit() == 0,
{
    let (m, s) = choose|m: int, s: nat| written_as(raw, m, s);
    let h = 100 * raw;
    let u = unit();
    lemma_pow10_unit();
    assert(pow10(2) == 100) by {
        reveal_with_fuel(pow10, 3);
    }
    assert(raw * whole(100) == h * u) by (nonlinear_arith)
        requires
            whole(100) == 100 * u,
            h == 100 * raw,
    ;
    assert(representable(h)) by {
        if s >= 2 {
            let p = pow10((28 - s) as nat);
            lemma_pow10_sum(2, (28 - s) as nat);
            assert(100 * (m * p) == m * (100 * p)) by (nonlinear_arith);
            assert(written_as(h, m, (s - 2) as nat));
        } else {
            let q = pow10((2 - s) as nat);
            lemma_pow10_sum((2 - s) as nat, 28);
            lemma_pow10_sum(2, (28 - s) as nat);
            let p = pow10((28 - s) as nat);
            assert(100 * (m * p) == m * (100 * p)) by (nonlinear_arith);
            assert(m * (q * u) == (m * q) * u) by (nonlinear_arith);
            assert(h == (m * q) * u);
            assert(magnitude(m * q) <= MAX_MANTISSA) by {
                reveal(product);
                reveal(rounded);
                let d = u * u;
                assert(h * u == (m * q) * d) by (nonlinear_arith)
                    requires
                        h == (m * q) * u,
                        d == u * u,
                ;
                assert(d > 0) by (nonlinear_arith)
                    requires
                        d == u * u,
                        u > 0,
                ;
                lemma_nearest_exact(m * q, d);
            }
            assert(written_as(h, m * q, 0));
        }
    }
    law_arithmetic_is_exact(raw, whole(100), h);
    let k = h / u;
    let v = k * pow10(26);
    lemma_pow10_sum(2, 26);
    lemma_representable_bound(h);
    vstd::arithmetic::div_mod::lemma_fundamental_div_mod(h, u);
    assert(k * u == 100 * v) by (nonlinear_arith)
        requires
            u == 100 * pow10(26),
            v == k * pow10(26),
    ;
    assert(magnitude(k) <= MAX_MANTISSA) by (nonlinear_arith)
        requires
            magnitude(h) <= MAX_MANTISSA * u,
            h == u * k + h % u,
            0 <= h % u < u,
            u > 0,
    {
        assert(u * k <= MAX_MANTISSA * u);
        assert(k <= MAX_MANTISSA);
        assert(u * (k + 1) > -(MAX_MANTISSA * u));
        assert(k + 1 > -MAX_MANTISSA);
    }
    assert(written_as(v, k, 2));
    assert(floor_of(h) == k * u) by {
        reveal(floor_of);
    }
    assert((k * u) * u == v * whole(100)) by (nonlinear_arith)
        requires
            k * u == 100 * v,
            whole(100) == 100 * u,
    ;
    assert(whole(100) != 0);
    law_arithmetic_is_exact(k * u, whole(100), v);
    assert(k * u <= h && h < k * u + u) by (nonlinear_arith)
        requires
            h == u * k + h % u,
            0 <= h % u < u,
    ;
    vstd::arithmetic::div_mod::lemma_mod_multiples_basic(k, u);
}

/// An affordable size is one that the balance affords: bought on every side that is quoted it costs
/// no more than there is, wherever no part of the balance is rounded up.
pub proof fn law_affordable_size_is_affordable(
    price: int,
    balance: int,
    sides: u32,
    max_position: int,
    remaining: int,
    min_size: int,
)
    requires
        affordable_size(price, balance, sides, max_position, remaining, min_size) is Some,
        price > 0,
        parts_are_not_rounded_up(price, balance, sides),
    ensures
        affordable_size(price, balance, sides, max_position, remaining, min_size)->0 * price * sides
            <= greater(balance, 0) * unit(),
{
    let size = affordable_size(price, balance, sides, max_position, remaining, min_size)->0;
    let u = unit();
    if size == 0 {
        assert(0 * price * sides == 0) by (nonlinear_arith);
        assert(greater(balance, 0) * u >= 0) by (nonlinear_arith)
            requires
                greater(balance, 0) >= 0,
                u > 0,
        ;
    } else {
        let n = sides as int;
        let each = over(Some(balance), Some(whole(n)))->0;
        let raw = quotient(each, price)->0;
        assert(representable(raw)) by {
            reveal(quotient);
            lemma_rounded_representable(each, price);
        }
        lemma_hundredths(raw);
        assert(size <= raw);
        assert(size * price * n <= balance * u) by (nonlinear_arith)
            requires
                size <= raw,
                raw * price <= each * u,
                each * n <= balance,
                price > 0,
                n > 0,
                u > 0,
        {
            assert(size * price <= raw * price);
            assert(size * price <= each * u);
            assert((size * price) * n <= (each * u) * n);
            assert((each * u) * n == (each * n) * u);
            assert((each * n) * u <= balance * u);
        }
    }
}

/// How far rounding may move a price that is put on a tick: some of the last digits.
pub open spec fn tick_tolerance() -> int {
    100_000
}

/// The settings under which prices are quoted lie within one.
pub open spec fn is_usual(
    mid: int,
    max_spread: int,
    config: LiquidityRewardsConfig,
    tick: int,
) -> bool {
    &&& 0 <= mid <= unit()
    &&& 0 <= max_spread <= unit()
    &&& 0 <= config.spread_fraction@ <= unit()
    &&& 0 <= config.inventory_skew_factor@ <= unit()
    &&& pow10(24) <= tick <= unit()
}

/// The position that counts: no further from zero than the largest one.
pub open spec fn held_within(position: int, largest: int) -> int {
    if position > largest {
        largest
    } else if position < -largest {
        -largest
    } else {
        position
    }
}

/// Half of the quoted spread is half of the configured share of the rewarded one. Both quotes are moved
/// down by the share of the largest position that is held, times the skew factor and that half: a
/// position of the largest size moves them by the whole of it, a tenth of that position by a tenth.
/// Without a largest position they are not moved. It holds up to the rounding of the last digits.
pub proof fn law_skew_is_proportional_to_the_position(
    mid: int,
    max_spread: int,
    position: int,
    config: LiquidityRewardsConfig,
    tick: int,
)
    requires
        is_usual(mid, max_spread, config, tick),
    ensures
        ({
            let u = unit();
            let half = half_spread(max_spread, config.spread_fraction@);
            let largest = config.max_position_per_market@;
            let shift = skew(position, largest, config.inventory_skew_factor@, half);
            &&& half is Some
            &&& 0 <= half->0 <= u
            &&& close(half->0, max_spread * config.spread_fraction@, 2 * u, 1)
            &&& largest > 0 && fullness(position, largest) is Some ==> {
                &&& shift is Some
                &&& -u <= shift->0 <= u
                &&& close(
                    shift->0,
                    held_within(position, largest) * u * config.inventory_skew_factor@ * half->0,
                    largest * u * u,
                    3,
                )
            }
            &&& largest <= 0 ==> shift == Some(0int)
        }),
{
    let u = unit();
    let (a, b) = (max_spread, config.spread_fraction@);
    lemma_pow10_unit();
    assert(pow10(0) == 1);
    lemma_bounded_product(a, 1, b, 1);
    lemma_product_close(a, b, 0);
    let spread = product(a, b)->0;
    lemma_quotient_close(spread, whole(2), 0);
    let half = quotient(spread, whole(2))->0;
    lemma_zero_representable();
    lemma_whole_representable(1);
    law_arithmetic_keeps_order(spread, whole(2), 0);
    law_arithmetic_keeps_order(spread, whole(2), u);
    assert(spread * u >= 0 && spread * u <= u * whole(2)) by (nonlinear_arith)
        requires
            0 <= spread <= u,
            whole(2) == 2 * u,
            u > 0,
    ;
    assert(close(half, a * b, 2 * u, 1)) by (nonlinear_arith)
        requires
            2 * (half * (2 * u) - spread * u) <= 1 * (2 * u),
            2 * (spread * u - half * (2 * u)) <= 1 * (2 * u),
            2 * (spread * u - a * b) <= 1 * u,
            2 * (a * b - spread * u) <= 1 * u,
            u > 0,
    ;
    let largest = config.max_position_per_market@;
    let factor = config.inventory_skew_factor@;
    if largest > 0 && fullness(position, largest) is Some {
        let held = held_within(position, largest);
        let full = fullness(position, largest)->0;
        lemma_fullness(position, largest);
        lemma_within_one(full, factor);
        lemma_close_times(full, held * u, largest, 1, factor, 1, 0);
        let f1 = product(full, factor)->0;
        lemma_scaled(largest);
        lemma_within_one(f1, half);
        lemma_close_times(f1, held * u * factor, largest * u, 2, half, 1, 0);
    }
    if largest <= 0 {
        lemma_product_of_zero(factor);
        lemma_product_of_zero(half);
    }
}

proof fn lemma_fullness(position: int, largest: int)
    requires
        largest > 0,
        fullness(position, largest) is Some,
    ensures
        -unit() <= fullness(position, largest)->0 <= unit(),
        close(
            fullness(position, largest)->0,
            held_within(position, largest) * unit(),
            largest,
            1,
        ),
{
    let u = unit();
    let held = held_within(position, largest);
    lemma_pow10_unit();
    assert(pow10(0) == 1);
    assert(7 * 1 * largest == 7 * largest) by (nonlinear_arith);
    lemma_quotient_close(held, largest, 0);
    lemma_whole_representable(1);
    lemma_whole_representable(-1);
    law_arithmetic_keeps_order(position, largest, u);
    law_arithmetic_keeps_order(position, largest, -u);
    assert(position >= largest ==> position * u >= u * largest) by (nonlinear_arith)
        requires
            u > 0,
    ;
    assert(position <= largest ==> position * u <= u * largest) by (nonlinear_arith)
        requires
            u > 0,
    ;
    assert(position <= -largest ==> position * u <= -u * largest) by (nonlinear_arith)
        requires
            u > 0,
    ;
    assert(position >= -largest ==> position * u >= -u * largest) by (nonlinear_arith)
        requires
            u > 0,
    ;
    assert(u * largest - largest * u == 0 && -u * largest - (-largest) * u == 0)
        by (nonlinear_arith);
    assert(1 * largest == largest);
}

proof fn lemma_within_one(a: int, b: int)
    requires
        -unit() <= a <= unit(),
        0 <= b <= unit(),
    ensures
        magnitude(a * b) <= 7 * pow10(0) * (unit() * unit()),
        product(a, b) is Some,
        -unit() <= product(a, b)->0 <= unit(),
{
    let u = unit();
    assert(pow10(0) == 1);
    assert(-(u * u) <= a * b <= u * u) by (nonlinear_arith)
        requires
            -u <= a <= u,
            0 <= b <= u,
    ;
    lemma_product_close(a, b, 0);
    lemma_whole_representable(1);
    lemma_whole_representable(-1);
    law_arithmetic_keeps_order(a, b, u);
    law_arithmetic_keeps_order(a, b, -u);
}

/// A price on the tick below is a whole number of ticks, and the next one is above the price.
proof fn lemma_ticks(price: int, tick: int)
    requires
        -3 * unit() <= price <= 3 * unit(),
        pow10(24) <= tick <= unit(),
    ensures
        ({
            let low = tick_below(Some(price), tick);
            let high = tick_above(Some(price), tick);
            &&& low is Some && high is Some
            &&& low->0 % tick == 0 && high->0 % tick == 0
            &&& low->0 <= price + tick_tolerance()
            &&& low->0 + tick > price - tick_tolerance()
            &&& high->0 >= price - tick_tolerance()
            &&& high->0 - tick < price + tick_tolerance()
        }),
{
    let u = unit();
    assert(pow10(24) == 1_000_000_000_000_000_000_000_000 && pow10(4) == 10_000 && pow10(0) == 1)
        by {
        reveal_with_fuel(pow10, 25);
    }
    assert(7 * pow10(4) * tick == 70_000 * tick) by (nonlinear_arith)
        requires
            pow10(4) == 10_000,
    ;
    lemma_quotient_close(price, tick, 4);
    assert(pow10(4) * tick == 10_000 * tick) by (nonlinear_arith)
        requires
            pow10(4) == 10_000,
    ;
    let q = quotient(price, tick)->0;
    let n = q / u;
    let m = -((-q) / u);
    vstd::arithmetic::div_mod::lemma_fundamental_div_mod(q, u);
    vstd::arithmetic::div_mod::lemma_fundamental_div_mod(-q, u);
    assert(floor_of(q) == n * u) by {
        reveal(floor_of);
    }
    assert(ceil_of(q) == m * u) by {
        reveal(ceil_of);
    }
    assert(n * u <= q < n * u + u && m * u - u < q <= m * u) by (nonlinear_arith)
        requires
            q == u * n + q % u,
            0 <= q % u < u,
            -q == u * (-m) + (-q) % u,
            0 <= (-q) % u < u,
    ;
    lemma_on_tick(n, q, price, tick);
    lemma_on_tick(m, q, price, tick);
    assert((n + 1) * tick == n * tick + tick && (m - 1) * tick == m * tick - tick)
        by (nonlinear_arith);
    lemma_tick_bound(n, q, price, tick);
    lemma_tick_bound(n + 1, q, price, tick);
    lemma_tick_bound(m, q, price, tick);
    lemma_tick_bound(m - 1, q, price, tick);
    assert((n + 1) * u == n * u + u && (m - 1) * u == m * u - u) by (nonlinear_arith);
}

/// Which side of a price a number of ticks is on, up to the rounding of the quotient.
proof fn lemma_tick_bound(n: int, q: int, price: int, tick: int)
    requires
        0 < tick <= unit(),
        2 * (q * tick - price * unit()) <= 10_000 * tick,
        2 * (price * unit() - q * tick) <= 10_000 * tick,
    ensures
        n * unit() <= q ==> n * tick <= price + tick_tolerance(),
        n * unit() > q ==> n * tick > price - tick_tolerance(),
        n * unit() >= q ==> n * tick >= price - tick_tolerance(),
        n * unit() < q ==> n * tick < price + tick_tolerance(),
{
    let u = unit();
    let t = tick_tolerance();
    assert(n * u <= q ==> n * tick <= price + t && (n * u < q ==> n * tick < price + t))
        by (nonlinear_arith)
        requires
            0 < tick <= u,
            2 * (q * tick - price * u) <= 10_000 * tick,
            t == 100_000,
            u > 0,
    {
        if n * u <= q {
            assert((n * u) * tick <= q * tick);
            assert((n * tick) * u <= price * u + 5_000 * u);
            assert((n * tick - price - 5_000) * u <= 0);
            assert(n * tick <= price + 5_000);
        }
    }
    assert(n * u >= q ==> n * tick > price - t) by (nonlinear_arith)
        requires
            0 < tick <= u,
            2 * (price * u - q * tick) <= 10_000 * tick,
            t == 100_000,
            u > 0,
    {
        if n * u >= q {
            assert((n * u) * tick >= q * tick);
            assert((n * tick) * u >= price * u - 5_000 * u);
            assert((n * tick - price + 5_000) * u >= 0);
            assert(n * tick >= price - 5_000);
        }
    }
}

/// So many ticks are reckoned exactly.
proof fn lemma_on_tick(n: int, q: int, price: int, tick: int)
    requires
        -3 * unit() <= price <= 3 * unit(),
        0 < tick <= unit(),
        2 * (q * tick - price * unit()) <= 10_000 * tick,
        2 * (price * unit() - q * tick) <= 10_000 * tick,
        q - unit() < n * unit() < q + unit(),
    ensures
        product(n * unit(), tick) == Some(n * tick),
        (n * tick) % tick == 0,
{
    let u = unit();
    assert(pow10(0) == 1);
    assert((n + 1) * u == n * u + u && (n - 1) * u == n * u - u) by (nonlinear_arith);
    lemma_tick_bound(n + 1, q, price, tick);
    lemma_tick_bound(n - 1, q, price, tick);
    assert((n + 1) * tick == n * tick + tick && (n - 1) * tick == n * tick - tick)
        by (nonlinear_arith);
    let v = n * tick;
    assert(-5 * u <= v <= 5 * u);
    lemma_pow10_unit();
    assert(written_as(v, v, 28));
    assert((n * u) * tick == v * u) by (nonlinear_arith)
        requires
            v == n * tick,
    ;
    law_arithmetic_is_exact(n * u, tick, v);
    vstd::arithmetic::div_mod::lemma_mod_multiples_basic(n, tick);
}

/// The bid is the tick below the midpoint less half of the spread and the skew, no lower than one
/// hundredth; the ask is the tick above the midpoint plus half of the spread less the skew, no higher
/// than ninety-nine hundredths. The size is the largest of the largest position and the two least
/// orders. Quotes that stay inside the book and the rewarded band are always given. It holds up to the
/// rounding of the last digits.
pub proof fn law_quotes_stand_on_ticks_around_the_midpoint(
    mid: int,
    max_spread: int,
    position: int,
    config: LiquidityRewardsConfig,
    min_size: int,
    tick: int,
)
    requires
        is_usual(mid, max_spread, config, tick),
        quotes(mid, max_spread, position, config, min_size, tick) is Some,
    ensures
        ({
            let half = half_spread(max_spread, config.spread_fraction@)->0;
            let shift = skew(
                position,
                config.max_position_per_market@,
                config.inventory_skew_factor@,
                Some(half),
            )->0;
            let buy = mid - half - shift;
            let sell = mid + half - shift;
            let found = quotes(mid, max_spread, position, config, min_size, tick)->0;
            let t = tick_tolerance();
            &&& found matches Some(q) ==> {
                &&& q.bid + tick > buy - t
                &&& q.bid == cents(1) || q.bid % tick == 0 && q.bid <= buy + t
                &&& q.ask - tick < sell + t
                &&& q.ask == cents(99) || q.ask % tick == 0 && q.ask >= sell - t
                &&& q.size >= config.max_position_per_market@
                &&& q.size >= config.min_order_size@
                &&& q.size >= min_size
                &&& q.size == config.max_position_per_market@ || q.size == config.min_order_size@
                    || q.size == min_size
            }
            &&& half > t && cents(1) <= buy && sell <= cents(99) && half + magnitude(shift) + tick
                + t <= max_spread ==> found is Some
        }),
{
    let half = half_spread(max_spread, config.spread_fraction@)->0;
    let largest = config.max_position_per_market@;
    let shift = skew(position, largest, config.inventory_skew_factor@, Some(half))->0;
    assert(pow10(0) == 1);
    assert(cents(100) == unit()) by {
        reveal_with_fuel(pow10, 27);
    }
    law_skew_is_proportional_to_the_position(mid, max_spread, position, config, tick);
    assert(largest > 0 ==> fullness(position, largest) is Some);
    lemma_sum_close(half, shift, 0);
    lemma_sum_close(mid, half + shift, 0);
    lemma_sum_close(mid, half - shift, 0);
    lemma_ticks(mid - (half + shift), tick);
    lemma_ticks(mid + (half - shift), tick);
    let bid = bid_quote(mid, Some(half), Some(shift), tick)->0;
    let ask = ask_quote(mid, Some(half), Some(shift), tick)->0;
    lemma_sum_close(mid, bid, 0);
    lemma_sum_close(ask, mid, 0);
}

/// Levels at a depth are quoted wherever they do not cross, are prices and are no further from the middle
/// of the book than the rewarded spread, and nothing is otherwise. The size is the largest of the largest
/// position and the two least orders.
pub proof fn law_levels_at_a_depth_are_quoted(
    book: OrderBook,
    depth: nat,
    max_spread: int,
    config: LiquidityRewardsConfig,
    min_size: int,
)
    requires
        depth_quotes(book, depth, max_spread, config, min_size) is Some,
        book.bids@.len() > 0 ==> 0 <= book.bids@[0].price@ <= unit(),
        book.asks@.len() > 0 ==> 0 <= book.asks@[0].price@ <= unit(),
    ensures
        ({
            let u = unit();
            let found = depth_quotes(book, depth, max_spread, config, min_size)->0;
            let deep = 1 <= depth <= book.bids@.len() && depth <= book.asks@.len();
            let bid = book.bids@[depth - 1].price@;
            let ask = book.asks@[depth - 1].price@;
            let both = book.bids@[0].price@ + book.asks@[0].price@;
            let apart = deep && bid < ask && 100 * bid >= u && 100 * ask <= 99 * u;
            &&& found is Some ==> apart && both - 2 * bid <= 2 * max_spread + 1 && 2 * ask - both
                <= 2 * max_spread + 1
            &&& apart && magnitude(both - 2 * bid) <= 2 * max_spread - 1 && magnitude(2 * ask - both)
                <= 2 * max_spread - 1 ==> found is Some
            &&& found matches Some(q) ==> {
                &&& q.bid == bid
                &&& q.ask == ask
                &&& q.size >= config.max_position_per_market@
                &&& q.size >= config.min_order_size@
                &&& q.size >= min_size
                &&& q.size == config.max_position_per_market@ || q.size == config.min_order_size@
                    || q.size == min_size
            }
        }),
{
    let u = unit();
    assert(pow10(0) == 1);
    assert(100 * pow10(26) == u) by {
        lemma_pow10_unit();
        lemma_pow10_sum(2, 26);
        assert(pow10(2) == 100) by {
            reveal_with_fuel(pow10, 3);
        }
    }
    assert(cents(1) * 100 == u && cents(99) * 100 == 99 * u);
    if 1 <= depth <= book.bids@.len() && depth <= book.asks@.len() {
        let bid = book.bids@[depth - 1].price@;
        let ask = book.asks@[depth - 1].price@;
        let both = book.bids@[0].price@ + book.asks@[0].price@;
        lemma_sum_close(book.bids@[0].price@, book.asks@[0].price@, 0);
        assert(whole(2) == 2 * u);
        assert(7 * 1 * (2 * u) == 14 * u) by (nonlinear_arith);
        lemma_quotient_close(both, whole(2), 0);
        let mid = quotient(both, whole(2))->0;
        assert(-1 <= 2 * mid - both <= 1) by (nonlinear_arith)
            requires
                2 * (mid * (2 * u) - both * u) <= 1 * (2 * u),
                2 * (both * u - mid * (2 * u)) <= 1 * (2 * u),
                u > 0,
        {
            assert((2 * mid - both) * u <= 1 * u);
            assert((2 * mid - both) * u >= (-1) * u);
        }
        if bid < ask && is_price(bid) && is_price(ask) {
            lemma_sum_close(mid, bid, 0);
            lemma_sum_close(ask, mid, 0);
        }
    }
}

/// The levels ahead of an order are those of its own side with a strictly better price: higher ones for a
/// buyer, lower ones for a seller.
pub proof fn law_levels_ahead_are_better(levels: Seq<PriceLevel>, price: int, is_buy: bool, n: nat)
    requires
        n <= levels.len(),
    ensures
        levels_ahead(levels, price, is_buy, n) == levels.take(n as int).filter(
            |l: PriceLevel| is_buy && l.price@ > price || !is_buy && l.price@ < price,
        ).len(),
    decreases n,
{
    reveal(Seq::filter);
    if n > 0 {
        law_levels_ahead_are_better(levels, price, is_buy, (n - 1) as nat);
        assert(levels.take(n as int).drop_last() =~= levels.take(n - 1));
    }
}

/// An affordable size leaves less than a hundredth unbought of what each side's part of the balance buys,
/// unless a limit holds it. It is nothing only where that, or a limit, is below the least order.
pub proof fn law_affordable_size_is_the_largest(
    price: int,
    balance: int,
    sides: u32,
    max_position: int,
    remaining: int,
    min_size: int,
    k: nat,
)
    requires
        k <= 20,
        affordable_size(price, balance, sides, max_position, remaining, min_size) is Some,
        0 < price <= unit(),
        sides > 0,
        0 < balance <= 7 * pow10(k) * unit(),
        balance * 1 <= 6 * pow10(k) * price,
    ensures
        ({
            let u = unit();
            let size = affordable_size(
                price,
                balance,
                sides,
                max_position,
                remaining,
                min_size,
            )->0;
            exists|each: int, bought: int|
                {
                    &&& close(each, balance, sides as int, pow10(k))
                    &&& #[trigger] close(bought, each * u, price, pow10(k))
                    &&& exists|part: int|
                        {
                            &&& bought - part >= 0 && 100 * (bought - part) < u
                            &&& (100 * part) % u == 0
                            &&& size == #[trigger] kept_or_none(
                                lesser(lesser(part, max_position), remaining),
                                min_size,
                            )
                        }
                }
        }),
{
    let u = unit();
    let p = pow10(k);
    let n = sides as int;
    let w = whole(n);
    crate::rounding::lemma_pow10_below_unit(k);
    assert(balance <= 7 * p * w) by (nonlinear_arith)
        requires
            balance <= 7 * p * u,
            w == n * u,
            n >= 1,
            p > 0,
            u > 0,
    {
        assert(7 * p * w == (7 * p * u) * n);
        assert(7 * p * u > 0);
        assert((7 * p * u) * n >= 7 * p * u);
    }
    lemma_quotient_close(balance, w, k);
    let each = quotient(balance, w)->0;
    assert(close(each, balance, n, p)) by (nonlinear_arith)
        requires
            close(each, balance * u, w, p),
            w == n * u,
            u > 0,
    {
        assert(each * w == (each * n) * u);
        assert(p * w == (p * n) * u);
        assert((each * n - balance) * u <= (p * n) * u);
        assert((balance - each * n) * u <= (p * n) * u);
    }
    lemma_zero_representable();
    law_arithmetic_keeps_order(balance, w, 0);
    assert(each <= balance + p) by (nonlinear_arith)
        requires
            each * n - balance <= p * n,
            n >= 1,
            balance > 0,
            p > 0,
            each >= 0,
    {
        if each > balance + p {
            assert((each - p) * n > balance * n);
            assert(balance * n >= balance);
        }
    }
    assert(p <= p * price) by (nonlinear_arith)
        requires
            price >= 1,
            p > 0,
    ;
    assert(each <= 7 * p * price) by (nonlinear_arith)
        requires
            each <= balance + p,
            balance * 1 <= 6 * p * price,
            p <= p * price,
    ;
    lemma_quotient_close(each, price, k);
    let bought = quotient(each, price)->0;
    assert(representable(bought)) by {
        reveal(quotient);
        lemma_rounded_representable(each, price);
    }
    assert(close(bought, each * u, price, p));
    lemma_hundredths(bought);
    let part = quotient(floor_of(100 * bought), whole(100))->0;
    let held = lesser(lesser(part, max_position), remaining);
    let size = affordable_size(price, balance, sides, max_position, remaining, min_size)->0;
    assert(size == kept_or_none(held, min_size));
}

/// A size, or nothing where it is below the least order.
pub open spec fn kept_or_none(size: int, least: int) -> int {
    if size < least {
        0
    } else {
        size
    }
}

/// Without ticks, quotes stand on the hundredth that is nearest.
pub proof fn law_quotes_without_ticks_stand_on_hundredths(price: int, tick: int)
    requires
        tick <= 0,
    ensures
        tick_below(Some(price), tick) is Some,
        tick_below(Some(price), tick) == tick_above(Some(price), tick),
        tick_below(Some(price), tick)->0 % cents(1) == 0,
        2 * magnitude(tick_below(Some(price), tick)->0 - price) <= cents(1),
{
    crate::rounding::law_digits_are_dropped_to_the_nearest(price, 2);
    assert(cents(1) == pow10(26));
}

} // verus!
