//! What the book leaves of a proposed entry.
use crate::crypto_alpha::strategy::CryptoAlphaStrategy;
use crate::decimal::Decimal;
use crate::types::{BookWalk, OrderBook, TradeSide, TradingOpportunity};
use vstd::prelude::*;

verus! {

use crate::crypto_alpha::calibration::fraction;
use crate::crypto_alpha::sizing::book_at;
use crate::crypto_alpha::thresholds::{is_held, lemma_held};
use crate::rounding::{
    at_least, close, greater, law_arithmetic_keeps_order, law_digits_are_dropped_to_the_nearest,
    lemma_close_times, lemma_pow10_below_unit, lemma_pow10_sum, lemma_pow10_unit,
    lemma_product_close, lemma_product_of_zero, lemma_product_swap, lemma_quotient_close, lemma_quotient_of_zero,
    lemma_share_in_bps,
    lemma_sum_close, lemma_whole_representable, lesser, magnitude, minus, over, plus, pow10, product,
    quotient, round_dp_of, times, unit, whole, MAX_MANTISSA,
};
use crate::types::{depth_of, walk_figures, walk_result, WalkFigures};

/// A buy with a size and a price, which alone is judged by its execution.
pub open spec fn is_entry(opp: TradingOpportunity) -> bool {
    &&& opp.execution_plan.side == TradeSide::Buy
    &&& opp.execution_plan.size@ > 0
    &&& opp.execution_plan.price@ > 0
}

/// How the book would fill the entry within its limit: `Some(None)` where it would not.
pub open spec fn fill_of(opp: TradingOpportunity, book: Option<OrderBook>) -> Option<
    Option<WalkFigures>,
> {
    match book {
        None => Some(None),
        Some(b) => if !is_entry(opp) {
            Some(None)
        } else {
            match walk_result(b, TradeSide::Buy, opp.execution_plan.size@) {
                None => None,
                Some(None) => Some(None),
                Some(Some(w)) => if w.worst_price > opp.execution_plan.price@ {
                    Some(None)
                } else {
                    Some(Some(w))
                },
            }
        },
    }
}

/// How much of the entry would be filled, to the cent.
pub open spec fn filled_size(opp: TradingOpportunity, walk: WalkFigures) -> int {
    round_dp_of(lesser(walk.filled, opp.execution_plan.size@), 2)
}

/// The profit that the fill leaves of the estimate.
pub open spec fn filled_profit(opp: TradingOpportunity, walk: WalkFigures) -> Option<int> {
    let size = Some(filled_size(opp, walk));
    let slippage_cost = times(
        at_least(minus(Some(walk.worst_price), Some(opp.execution_plan.price@)), Some(0)),
        size,
    );
    minus(
        times(Some(opp.estimated_profit@), over(size, Some(opp.execution_plan.size@))),
        slippage_cost,
    )
}

/// The profit per cost of what would be filled.
pub open spec fn fill_efficiency(opp: TradingOpportunity, book: Option<OrderBook>) -> Option<int> {
    match fill_of(opp, book) {
        None => None,
        Some(None) => Some(0),
        Some(Some(w)) => if filled_size(opp, w) <= 0 {
            Some(0)
        } else {
            match (filled_profit(opp, w), times(Some(w.worst_price), Some(filled_size(opp, w)))) {
                (Some(profit), Some(cost)) => if profit > 0 && cost > 0 {
                    over(Some(profit), Some(cost))
                } else {
                    Some(0)
                },
                _ => None,
            }
        },
    }
}

/// The share of the estimated profit that would be kept.
pub open spec fn profit_kept(opp: TradingOpportunity, book: Option<OrderBook>) -> Option<int> {
    if opp.estimated_profit@ <= 0 {
        Some(0)
    } else {
        match fill_of(opp, book) {
            None => None,
            Some(None) => Some(0),
            Some(Some(w)) => if filled_size(opp, w) <= 0 {
                Some(0)
            } else {
                match filled_profit(opp, w) {
                    Some(profit) => if profit <= 0 {
                        Some(0)
                    } else {
                        fraction(over(Some(profit), Some(opp.estimated_profit@)))
                    },
                    None => None,
                }
            },
        }
    }
}

/// The share of the size that would be filled.
pub open spec fn size_kept(opp: TradingOpportunity, book: Option<OrderBook>) -> Option<int> {
    match fill_of(opp, book) {
        None => None,
        Some(None) => Some(0),
        Some(Some(w)) => fraction(
            over(
                Some(lesser(w.filled, opp.execution_plan.size@)),
                Some(opp.execution_plan.size@),
            ),
        ),
    }
}

/// How far the average price would be above the best ask, in basis points; the largest number where
/// the entry would not be filled.
pub open spec fn slippage_of(opp: TradingOpportunity, book: Option<OrderBook>) -> Option<int> {
    match book {
        None => Some(whole(MAX_MANTISSA as int)),
        Some(b) => if !is_entry(opp) || b.asks@.len() == 0 {
            Some(whole(MAX_MANTISSA as int))
        } else {
            match fill_of(opp, book) {
                None => None,
                Some(None) => Some(whole(MAX_MANTISSA as int)),
                Some(Some(w)) => {
                    let best = b.asks@[0].price@;
                    times(
                        over(
                            at_least(minus(Some(w.avg_price), Some(best)), Some(0)),
                            Some(best),
                        ),
                        Some(whole(10000)),
                    )
                },
            }
        },
    }
}

/// How many times the entry the book holds at its limit.
pub open spec fn depth_multiple(opp: TradingOpportunity, book: Option<OrderBook>) -> Option<int> {
    match book {
        None => Some(0),
        Some(b) => if opp.execution_plan.size@ <= 0 {
            Some(0)
        } else {
            over(
                depth_of(b, opp.execution_plan.side, opp.execution_plan.price@),
                Some(opp.execution_plan.size@),
            )
        },
    }
}

/// The profit per cost that was estimated.
pub open spec fn estimated_efficiency(opp: TradingOpportunity) -> Option<int> {
    match opp.execution_plan.cost() {
        None => None,
        Some(cost) => if cost > 0 {
            over(Some(opp.estimated_profit@), Some(cost))
        } else {
            Some(0)
        },
    }
}

fn fill(opp: &TradingOpportunity, book: Option<&OrderBook>) -> (r: Option<BookWalk>)
    requires
        fill_of(*opp, book_at(book)) is Some,
    ensures
        fill_of(*opp, book_at(book)) == Some(walk_figures(r)),
{
    let plan = &opp.execution_plan;
    match book {
        None => None,
        Some(b) => {
            if plan.side != TradeSide::Buy || plan.size <= Decimal::zero() || plan.price
                <= Decimal::zero() {
                return None;
            }
            match b.walk_book(TradeSide::Buy, plan.size) {
                None => None,
                Some(w) => if w.worst_price > plan.price {
                    None
                } else {
                    Some(w)
                },
            }
        },
    }
}

fn profit_of_fill(opp: &TradingOpportunity, walk: &BookWalk, size: Decimal) -> (r: Decimal)
    requires
        size@ == filled_size(*opp, walk_figures(Some(*walk))->0),
        filled_profit(*opp, walk_figures(Some(*walk))->0) is Some,
    ensures
        filled_profit(*opp, walk_figures(Some(*walk))->0) == Some(r@),
{
    let fill_ratio = size / opp.execution_plan.size;
    let slippage_cost = (walk.worst_price - opp.execution_plan.price).max(Decimal::zero()) * size;
    opp.estimated_profit * fill_ratio - slippage_cost
}

/// The profit per cost that was estimated.
pub fn profit_efficiency(opp: &TradingOpportunity) -> (r: Decimal)
    requires
        estimated_efficiency(*opp) is Some,
    ensures
        estimated_efficiency(*opp) == Some(r@),
{
    let cost = opp.execution_plan.estimated_cost();
    if cost > Decimal::zero() {
        opp.estimated_profit / cost
    } else {
        Decimal::zero()
    }
}

pub fn entry_depth_buffer(opp: &TradingOpportunity, book: Option<&OrderBook>) -> (r: Decimal)
    requires
        depth_multiple(*opp, book_at(book)) is Some,
    ensures
        depth_multiple(*opp, book_at(book)) == Some(r@),
{
    match book {
        None => Decimal::zero(),
        Some(b) => {
            if opp.execution_plan.size <= Decimal::zero() {
                return Decimal::zero();
            }
            b.available_depth(opp.execution_plan.side, opp.execution_plan.price)
                / opp.execution_plan.size
        },
    }
}

pub fn entry_executable_profit_efficiency(
    opp: &TradingOpportunity,
    book: Option<&OrderBook>,
) -> (r: Decimal)
    requires
        fill_efficiency(*opp, book_at(book)) is Some,
    ensures
        fill_efficiency(*opp, book_at(book)) == Some(r@),
{
    let walk = match fill(opp, book) {
        Some(w) => w,
        None => return Decimal::zero(),
    };
    let size = walk.filled.min(opp.execution_plan.size).round_dp(2);
    if size <= Decimal::zero() {
        return Decimal::zero();
    }
    let profit = profit_of_fill(opp, &walk, size);
    let cost = walk.worst_price * size;
    if profit > Decimal::zero() && cost > Decimal::zero() {
        profit / cost
    } else {
        Decimal::zero()
    }
}

pub fn entry_executable_profit_retention(
    opp: &TradingOpportunity,
    book: Option<&OrderBook>,
) -> (r: Decimal)
    requires
        profit_kept(*opp, book_at(book)) is Some,
    ensures
        profit_kept(*opp, book_at(book)) == Some(r@),
        0 <= r@ <= unit(),
{
    if opp.estimated_profit <= Decimal::zero() {
        return Decimal::zero();
    }
    let walk = match fill(opp, book) {
        Some(w) => w,
        None => return Decimal::zero(),
    };
    let size = walk.filled.min(opp.execution_plan.size).round_dp(2);
    if size <= Decimal::zero() {
        return Decimal::zero();
    }
    let profit = profit_of_fill(opp, &walk, size);
    if profit <= Decimal::zero() {
        return Decimal::zero();
    }
    (profit / opp.estimated_profit).min(Decimal::one()).max(Decimal::zero())
}

pub fn entry_executable_size_retention(
    opp: &TradingOpportunity,
    book: Option<&OrderBook>,
) -> (r: Decimal)
    requires
        size_kept(*opp, book_at(book)) is Some,
    ensures
        size_kept(*opp, book_at(book)) == Some(r@),
        0 <= r@ <= unit(),
{
    match fill(opp, book) {
        Some(w) => (w.filled.min(opp.execution_plan.size) / opp.execution_plan.size).min(
            Decimal::one(),
        ).max(Decimal::zero()),
        None => Decimal::zero(),
    }
}

pub fn entry_executable_slippage_bps(
    opp: &TradingOpportunity,
    book: Option<&OrderBook>,
) -> (r: Decimal)
    requires
        slippage_of(*opp, book_at(book)) is Some,
    ensures
        slippage_of(*opp, book_at(book)) == Some(r@),
{
    let plan = &opp.execution_plan;
    let b = match book {
        None => return Decimal::max_value(),
        Some(b) => b,
    };
    if plan.side != TradeSide::Buy || plan.size <= Decimal::zero() || plan.price
        <= Decimal::zero() {
        return Decimal::max_value();
    }
    let best = match b.best_ask() {
        Some(level) => level.price,
        None => return Decimal::max_value(),
    };
    match fill(opp, book) {
        None => Decimal::max_value(),
        Some(w) => ((w.avg_price - best).max(Decimal::zero()) / best) * Decimal::from_u32(10000),
    }
}

impl CryptoAlphaStrategy {
    /// The slippage that an entry may have, in basis points.
    pub open spec fn slippage_allowed(&self, opp: TradingOpportunity) -> Option<int> {
        let multiplier = match opp.max_slippage_bps_multiplier {
            Some(m) => greater(m@, 0),
            None => unit(),
        };
        match times(Some(whole(self.deps.base_max_slippage_bps as int)), Some(multiplier)) {
            Some(v) => Some(greater(round_dp_of(v, 0), 0)),
            None => None,
        }
    }

    pub fn entry_effective_max_slippage_bps(&self, opp: &TradingOpportunity) -> (r: Decimal)
        requires
            self.slippage_allowed(*opp) is Some,
        ensures
            self.slippage_allowed(*opp) == Some(r@),
    {
        let multiplier = match opp.max_slippage_bps_multiplier {
            Some(m) => m.max(Decimal::zero()),
            None => Decimal::one(),
        };
        (Decimal::from_u32(self.deps.base_max_slippage_bps) * multiplier).round_dp(0).max(
            Decimal::zero(),
        )
    }

    /// What is left of the allowed slippage: one for none used, zero for all of it.
    pub open spec fn slippage_quality(
        &self,
        opp: TradingOpportunity,
        book: Option<OrderBook>,
    ) -> Option<int> {
        match (self.slippage_allowed(opp), slippage_of(opp, book)) {
            (Some(allowed), Some(slippage)) => if allowed <= 0 {
                Some(
                    if slippage <= 0 {
                        unit()
                    } else {
                        0
                    },
                )
            } else {
                fraction(minus(Some(unit()), over(Some(slippage), Some(allowed))))
            },
            _ => None,
        }
    }

    pub fn entry_executable_slippage_quality(
        &self,
        opp: &TradingOpportunity,
        book: Option<&OrderBook>,
    ) -> (r: Decimal)
        requires
            self.slippage_quality(*opp, book_at(book)) is Some,
        ensures
            self.slippage_quality(*opp, book_at(book)) == Some(r@),
            0 <= r@ <= unit(),
    {
        let allowed = self.entry_effective_max_slippage_bps(opp);
        let slippage = entry_executable_slippage_bps(opp, book);
        if allowed <= Decimal::zero() {
            return if slippage <= Decimal::zero() {
                Decimal::one()
            } else {
                Decimal::zero()
            };
        }
        (Decimal::one() - (slippage / allowed)).min(Decimal::one()).max(Decimal::zero())
    }

    pub open spec fn weight_sum(&self) -> Option<int> {
        plus(
            plus(
                Some(greater(self.deps.execution_quality_profit_weight@, 0)),
                Some(greater(self.deps.execution_quality_size_weight@, 0)),
            ),
            Some(greater(self.deps.execution_quality_slippage_weight@, 0)),
        )
    }

    /// The weights of profit, size and slippage, scaled to add up to one: `Some(None)` where none of
    /// them counts.
    pub open spec fn normalized_weights(&self) -> Option<Option<(int, int, int)>> {
        match self.weight_sum() {
            None => None,
            Some(total) => if total <= 0 {
                Some(None)
            } else {
                match (
                    over(
                        Some(greater(self.deps.execution_quality_profit_weight@, 0)),
                        Some(total),
                    ),
                    over(Some(greater(self.deps.execution_quality_size_weight@, 0)), Some(total)),
                    over(
                        Some(greater(self.deps.execution_quality_slippage_weight@, 0)),
                        Some(total),
                    ),
                ) {
                    (Some(p), Some(s), Some(t)) => Some(Some((p, s, t))),
                    _ => None,
                }
            },
        }
    }

    /// The weights with which the execution quality of an entry is blended.
    pub fn execution_quality_weights(&self) -> (r: Option<(Decimal, Decimal, Decimal)>)
        requires
            self.normalized_weights() is Some,
        ensures
            self.normalized_weights() == Some(
                match r {
                    Some(w) => Some((w.0@, w.1@, w.2@)),
                    None => None,
                },
            ),
    {
        let profit = self.deps.execution_quality_profit_weight.max(Decimal::zero());
        let size = self.deps.execution_quality_size_weight.max(Decimal::zero());
        let slippage = self.deps.execution_quality_slippage_weight.max(Decimal::zero());
        let total = profit + size + slippage;
        if total <= Decimal::zero() {
            return None;
        }
        Some((profit / total, size / total, slippage / total))
    }

    /// The score of an entry's execution. `blended` is the weighted geometric mean of the kept
    /// profit, the kept size and the slippage quality, none where it is not a number.
    pub fn entry_execution_quality_score(&self, blended: Option<Decimal>) -> (r: Decimal)
        requires
            self.weight_sum() is Some,
        ensures
            r@ == (if self.weight_sum()->0 <= 0 {
                unit()
            } else {
                match blended {
                    Some(b) => fraction(Some(b@))->0,
                    None => 0,
                }
            }),
            0 <= r@ <= unit(),
    {
        let profit = self.deps.execution_quality_profit_weight.max(Decimal::zero());
        let size = self.deps.execution_quality_size_weight.max(Decimal::zero());
        let slippage = self.deps.execution_quality_slippage_weight.max(Decimal::zero());
        if profit + size + slippage <= Decimal::zero() {
            return Decimal::one();
        }
        match blended {
            Some(b) => b.min(Decimal::one()).max(Decimal::zero()),
            None => Decimal::zero(),
        }
    }
}

/// An entry is filled by the book exactly where it buys something at a price, the asks hold anything, and
/// no ask that it takes is above its price. What is filled is what the asks give of it.
pub proof fn law_fill_stays_within_its_price(opp: TradingOpportunity, book: OrderBook)
    requires
        fill_of(opp, Some(book)) is Some,
    ensures
        ({
            let order = opp.execution_plan;
            let walk = walk_result(book, TradeSide::Buy, order.size@);
            let buys = order.side == TradeSide::Buy && order.size@ > 0 && order.price@ > 0;
            &&& fill_of(opp, Some(book))->0 is Some <==> buys && walk is Some && walk->0 is Some
                && walk->0->0.worst_price <= order.price@
            &&& fill_of(opp, Some(book))->0 is Some ==> fill_of(opp, Some(book)) == walk
        }),
        fill_of(opp, None) == Some(None::<WalkFigures>),
{
}

/// A fill keeps of the estimated profit the share that it fills of the size, to the cent, as long as it
/// stays within the entry's price. The share of the size is what is filled over what is wanted. Both hold
/// up to the rounding of the last digits.
pub proof fn law_fill_keeps_its_share_of_the_profit(
    opp: TradingOpportunity,
    book: OrderBook,
    k: nat,
)
    requires
        k <= 20,
        fill_of(opp, Some(book)) matches Some(Some(_)),
        0 < fill_of(opp, Some(book))->0->0.filled,
        0 < fill_of(opp, Some(book))->0->0.worst_price <= unit(),
        opp.execution_plan.price@ <= unit(),
        100 * opp.execution_plan.size@ >= unit(),
        0 < opp.estimated_profit@ <= pow10(k) * unit(),
    ensures
        ({
            let u = unit();
            let w = fill_of(opp, Some(book))->0->0;
            let size = opp.execution_plan.size@;
            let profit = opp.estimated_profit@;
            let wanted = if w.filled < size {
                w.filled
            } else {
                size
            };
            let filled = filled_size(opp, w);
            let kept = profit_kept(opp, Some(book));
            &&& (100 * filled) % u == 0 && 200 * (filled - wanted) <= u && 200 * (wanted - filled)
                <= u
            &&& filled_profit(opp, w) is Some
            &&& close(filled_profit(opp, w)->0, profit * filled, size, 3 * pow10(k))
            &&& size_kept(opp, Some(book)) is Some
            &&& close(size_kept(opp, Some(book))->0, wanted * u, size, 1)
            &&& filled <= 0 ==> kept == Some(0int) && fill_efficiency(opp, Some(book)) == Some(
                0int,
            )
        }),
{
    let u = unit();
    let p = pow10(k);
    let w = fill_of(opp, Some(book))->0->0;
    let size = opp.execution_plan.size@;
    let price = opp.execution_plan.price@;
    let profit = opp.estimated_profit@;
    let wanted = lesser(w.filled, size);
    let filled = filled_size(opp, w);
    lemma_pow10_below_unit(k);
    lemma_pow10_unit();
    assert(pow10(26) * 100 == u) by {
        lemma_pow10_sum(2, 26);
        assert(pow10(2) == 100) by {
            reveal_with_fuel(pow10, 3);
        }
    }
    law_digits_are_dropped_to_the_nearest(wanted, 2);
    let cent = pow10(26);
    let q = filled / cent;
    vstd::arithmetic::div_mod::lemma_fundamental_div_mod(filled, cent);
    assert(100 * filled == q * u) by (nonlinear_arith)
        requires
            filled == cent * q,
            cent * 100 == u,
    ;
    vstd::arithmetic::div_mod::lemma_mod_multiples_basic(q, u);
    assert(filled >= 0) by (nonlinear_arith)
        requires
            filled == cent * q,
            2 * (wanted - filled) <= cent,
            wanted > 0,
            cent > 0,
    {
        if q < 0 {
            assert(cent * q <= -cent);
        }
    }
    lemma_sum_close(w.worst_price, price, 0);
    lemma_product_of_zero(filled);
    assert(2 * filled <= 3 * size);
    assert(7 * 1 * size == 7 * size) by (nonlinear_arith);
    lemma_quotient_close(filled, size, 0);
    let share = quotient(filled, size)->0;
    assert(0 <= share <= 2 * u) by (nonlinear_arith)
        requires
            2 * (share * size - filled * u) <= 1 * size,
            2 * (filled * u - share * size) <= 1 * size,
            2 * filled <= 3 * size,
            filled >= 0,
            size > 0,
            u > 1,
    {
        assert((2 * filled) * u <= (3 * size) * u);
        assert((2 * share) * size <= (3 * u + 1) * size);
        assert(2 * share <= 3 * u + 1);
        assert((2 * share) * size >= (-1) * size);
        assert(2 * share >= -1);
    }
    assert(0 <= share * profit <= 7 * p * (u * u)) by (nonlinear_arith)
        requires
            0 <= share <= 2 * u,
            0 < profit <= p * u,
            p > 0,
            u > 0,
    {
        assert(share * profit <= (2 * u) * (p * u));
        assert((2 * u) * (p * u) == 2 * (p * (u * u)));
        assert(7 * p * (u * u) == 7 * (p * (u * u)));
        assert(p * (u * u) > 0);
    }
    lemma_close_times(share, filled * u, size, 1, profit, p, k);
    lemma_product_close(share, profit, k);
    lemma_product_swap(share, profit);
    let part = product(profit, share)->0;
    lemma_whole_representable(0);
    law_arithmetic_keeps_order(share, profit, 0);
    assert(close(part, profit * filled, size, 2 * p)) by (nonlinear_arith)
        requires
            close(part, (filled * u) * profit, size * u, 1 * p + p),
            size > 0,
            u > 0,
    {
        assert((filled * u) * profit == (profit * filled) * u);
        assert(part * (size * u) == (part * size) * u);
        assert((1 * p + p) * (size * u) == ((2 * p) * size) * u);
        assert((part * size - profit * filled) * u <= ((2 * p) * size) * u);
        assert((profit * filled - part * size) * u <= ((2 * p) * size) * u);
    }
    assert(0 <= part <= 2 * (p * u) + p) by (nonlinear_arith)
        requires
            2 * (part * u - share * profit) <= p * u,
            0 <= share * profit,
            part >= 0,
            share <= 2 * u,
            0 < profit <= p * u,
            u > 0,
    {
        assert(share * profit <= (2 * u) * profit);
        assert((2 * u) * profit <= (2 * u) * (p * u));
        assert((2 * part) * u <= (4 * (p * u) + p) * u);
    }
    assert(p * u >= p && 7 * p * u == 7 * (p * u)) by (nonlinear_arith)
        requires
            p > 0,
            u >= 1,
    ;
    lemma_sum_close(part, 0, k);
    let left = filled_profit(opp, w)->0;
    assert(close(left, profit * filled, size, 3 * p)) by (nonlinear_arith)
        requires
            close(part, profit * filled, size, 2 * p),
            -p <= 2 * (left - part) <= p,
            size > 0,
    {
        assert((left - part) * size <= p * size);
        assert((left - part) * size >= (-p) * size);
    }
    lemma_quotient_close(wanted, size, 0);
    lemma_whole_representable(1);
    assert(0 * size <= wanted * u && wanted * u <= u * size) by (nonlinear_arith)
        requires
            0 <= wanted <= size,
            u > 0,
    ;
    law_arithmetic_keeps_order(wanted, size, 0);
    law_arithmetic_keeps_order(wanted, size, u);
}

/// The slippage of a fill is how far its average price is above the best ask, as a share of that ask and
/// in basis points. One that is no worse than the best ask has none.
pub proof fn law_slippage_is_above_the_best_ask(opp: TradingOpportunity, book: OrderBook)
    requires
        fill_of(opp, Some(book)) matches Some(Some(_)),
        book.asks@.len() > 0,
        100 * book.asks@[0].price@ >= unit(),
        book.asks@[0].price@ <= unit(),
        0 <= fill_of(opp, Some(book))->0->0.avg_price <= unit(),
    ensures
        ({
            let u = unit();
            let best = book.asks@[0].price@;
            let avg = fill_of(opp, Some(book))->0->0.avg_price;
            let found = slippage_of(opp, Some(book));
            &&& found is Some
            &&& avg <= best ==> found == Some(0int)
            &&& avg > best ==> close(found->0, ((avg - best) * u) * 10000, best, 10_000_000)
        }),
{
    let u = unit();
    let best = book.asks@[0].price@;
    let avg = fill_of(opp, Some(book))->0->0.avg_price;
    assert(pow10(0) == 1);
    lemma_sum_close(avg, best, 0);
    if avg <= best {
        lemma_quotient_of_zero(best);
        lemma_product_of_zero(whole(10000));
    } else {
        lemma_share_in_bps(avg - best, best);
    }
}

/// The weights that count are those above zero, each over all of them together, so that they come to one
/// up to the rounding of the last digits.
pub proof fn law_weights_come_to_one(strategy: CryptoAlphaStrategy)
    requires
        strategy.deps.execution_quality_profit_weight@ <= unit(),
        strategy.deps.execution_quality_size_weight@ <= unit(),
        strategy.deps.execution_quality_slippage_weight@ <= unit(),
    ensures
        ({
            let u = unit();
            let positive = |v: int| if v > 0 { v } else { 0 };
            let a = positive(strategy.deps.execution_quality_profit_weight@);
            let b = positive(strategy.deps.execution_quality_size_weight@);
            let c = positive(strategy.deps.execution_quality_slippage_weight@);
            let found = strategy.normalized_weights();
            &&& found is Some
            &&& found->0 is None <==> a + b + c == 0
            &&& found->0 matches Some((x, y, z)) ==> {
                &&& close(x, a * u, a + b + c, 1)
                &&& close(y, b * u, a + b + c, 1)
                &&& close(z, c * u, a + b + c, 1)
                &&& u - 2 <= x + y + z <= u + 2
            }
        }),
{
    let u = unit();
    let a = greater(strategy.deps.execution_quality_profit_weight@, 0);
    let b = greater(strategy.deps.execution_quality_size_weight@, 0);
    let c = greater(strategy.deps.execution_quality_slippage_weight@, 0);
    let total = a + b + c;
    assert(pow10(0) == 1);
    lemma_sum_close(a, b, 0);
    lemma_sum_close(a + b, c, 0);
    if total > 0 {
        assert(7 * 1 * total == 7 * total) by (nonlinear_arith);
        lemma_quotient_close(a, total, 0);
        lemma_quotient_close(b, total, 0);
        lemma_quotient_close(c, total, 0);
        let x = quotient(a, total)->0;
        let y = quotient(b, total)->0;
        let z = quotient(c, total)->0;
        assert(u - 2 <= x + y + z <= u + 2) by (nonlinear_arith)
            requires
                2 * (x * total - a * u) <= 1 * total,
                2 * (a * u - x * total) <= 1 * total,
                2 * (y * total - b * u) <= 1 * total,
                2 * (b * u - y * total) <= 1 * total,
                2 * (z * total - c * u) <= 1 * total,
                2 * (c * u - z * total) <= 1 * total,
                total == a + b + c,
                total > 0,
        {
            let s = x + y + z;
            assert(total * u == a * u + b * u + c * u);
            assert(s * total == x * total + y * total + z * total);
            assert((2 * (s - u)) * total <= 3 * total);
            assert((2 * (s - u)) * total >= (-3) * total);
            assert(2 * (s - u) <= 3 && 2 * (s - u) >= -3);
        }
    }
}

/// What a fill keeps of the profit is that profit over the estimate, held between zero and one; what it
/// earns is that profit over the size that is filled at the worst price. Neither is anything where
/// nothing is earned.
pub proof fn law_fill_is_judged_by_what_it_earns(
    opp: TradingOpportunity,
    book: OrderBook,
    k: nat,
)
    requires
        k <= 28,
        fill_of(opp, Some(book)) matches Some(Some(_)),
        filled_size(opp, fill_of(opp, Some(book))->0->0) > 0,
        filled_profit(opp, fill_of(opp, Some(book))->0->0) is Some,
        product(
            fill_of(opp, Some(book))->0->0.worst_price,
            filled_size(opp, fill_of(opp, Some(book))->0->0),
        ) is Some,
    ensures
        ({
            let u = unit();
            let w = fill_of(opp, Some(book))->0->0;
            let earned = filled_profit(opp, w)->0;
            let cost = product(w.worst_price, filled_size(opp, w))->0;
            let estimate = opp.estimated_profit@;
            let kept = profit_kept(opp, Some(book));
            let rate = fill_efficiency(opp, Some(book));
            &&& earned <= 0 || estimate <= 0 ==> kept == Some(0int)
            &&& 0 < earned <= 7 * pow10(k) * estimate ==> kept is Some && is_held(
                kept->0,
                earned * u,
                estimate,
                pow10(k),
            )
            &&& earned <= 0 || cost <= 0 ==> rate == Some(0int)
            &&& cost > 0 && 0 < earned <= 7 * pow10(k) * cost ==> rate is Some && close(
                rate->0,
                earned * u,
                cost,
                pow10(k),
            )
        }),
        fill_efficiency(opp, None) == Some(0int),
        size_kept(opp, None) == Some(0int),
        profit_kept(opp, None) == Some(0int),
{
    let w = fill_of(opp, Some(book))->0->0;
    let earned = filled_profit(opp, w)->0;
    let cost = product(w.worst_price, filled_size(opp, w))->0;
    let estimate = opp.estimated_profit@;
    let p = pow10(k);
    lemma_pow10_below_unit(k);
    if 0 < earned <= 7 * p * estimate {
        assert(estimate > 0) by (nonlinear_arith)
            requires
                0 < 7 * p * estimate,
                p > 0,
        ;
        lemma_quotient_close(earned, estimate, k);
        lemma_held(quotient(earned, estimate)->0, earned * unit(), estimate, p);
    }
    if cost > 0 && 0 < earned <= 7 * p * cost {
        lemma_quotient_close(earned, cost, k);
    }
}

/// The book holds its depth over the entry's size as many times the entry, and an entry is estimated to
/// earn its profit over its cost.
pub proof fn law_entry_is_measured_by_size_and_cost(
    opp: TradingOpportunity,
    book: OrderBook,
    k: nat,
)
    requires
        k <= 28,
    ensures
        ({
            let order = opp.execution_plan;
            let depth = depth_of(book, order.side, order.price@);
            let found = depth_multiple(opp, Some(book));
            &&& order.size@ <= 0 ==> found == Some(0int)
            &&& depth is Some && order.size@ > 0 && 0 <= depth->0 <= 7 * pow10(k) * order.size@
                ==> found is Some && close(found->0, depth->0 * unit(), order.size@, pow10(k))
        }),
        depth_multiple(opp, None) == Some(0int),
        ({
            let cost = opp.execution_plan.cost();
            let found = estimated_efficiency(opp);
            let profit = opp.estimated_profit@;
            &&& cost is Some && cost->0 <= 0 ==> found == Some(0int)
            &&& cost is Some && cost->0 > 0 && 0 <= profit <= 7 * pow10(k) * cost->0 ==> found
                is Some && close(found->0, profit * unit(), cost->0, pow10(k))
        }),
{
    let order = opp.execution_plan;
    let depth = depth_of(book, order.side, order.price@);
    if depth is Some && order.size@ > 0 && 0 <= depth->0 <= 7 * pow10(k) * order.size@ {
        lemma_quotient_close(depth->0, order.size@, k);
    }
    let cost = opp.execution_plan.cost();
    let profit = opp.estimated_profit@;
    if cost is Some && cost->0 > 0 && 0 <= profit <= 7 * pow10(k) * cost->0 {
        lemma_quotient_close(profit, cost->0, k);
    }
}

/// An entry may slip by the base slippage times its own multiplier, to the nearest basis point. What is
/// left of that after its slippage is its quality, held between zero and one. Where none is allowed, only
/// an entry that does not slip has any.
pub proof fn law_slippage_uses_up_what_is_allowed(
    strategy: CryptoAlphaStrategy,
    opp: TradingOpportunity,
    book: Option<OrderBook>,
    k: nat,
)
    requires
        k <= 6,
        strategy.deps.base_max_slippage_bps <= pow10(k),
        opp.max_slippage_bps_multiplier matches Some(m) ==> m@ <= 7 * unit(),
        slippage_of(opp, book) is Some,
    ensures
        ({
            let u = unit();
            let base = strategy.deps.base_max_slippage_bps as int;
            let multiplier = match opp.max_slippage_bps_multiplier {
                Some(m) => if m@ > 0 {
                    m@
                } else {
                    0
                },
                None => u,
            };
            let allowed = strategy.slippage_allowed(opp);
            let slippage = slippage_of(opp, book)->0;
            let found = strategy.slippage_quality(opp, book);
            &&& allowed is Some && allowed->0 >= 0 && allowed->0 % u == 0
            &&& -u - pow10(k) <= 2 * (allowed->0 - base * multiplier) <= u + pow10(k)
            &&& allowed->0 == 0 ==> found == Some(
                if slippage <= 0 {
                    u
                } else {
                    0
                },
            )
            &&& allowed->0 > 0 && 0 <= slippage <= 6 * allowed->0 ==> found is Some && is_held(
                found->0,
                (allowed->0 - slippage) * u,
                allowed->0,
                1,
            )
        }),
{
    let u = unit();
    let p = pow10(k);
    let base = strategy.deps.base_max_slippage_bps as int;
    let m = match opp.max_slippage_bps_multiplier {
        Some(m) => greater(m@, 0),
        None => u,
    };
    lemma_pow10_below_unit(k);
    lemma_pow10_unit();
    assert(0 <= base * m <= 7 * p * u) by (nonlinear_arith)
        requires
            0 <= base <= p,
            0 <= m <= 7 * u,
            u > 0,
    ;
    assert(whole(base) * m == (base * m) * u) by (nonlinear_arith)
        requires
            whole(base) == base * u,
    ;
    assert(0 <= (base * m) * u <= 7 * p * (u * u)) by (nonlinear_arith)
        requires
            0 <= base * m <= 7 * p * u,
            u > 0,
    ;
    lemma_product_close(whole(base), m, k);
    let v = product(whole(base), m)->0;
    assert(-p <= 2 * (v - base * m) <= p) by (nonlinear_arith)
        requires
            2 * (v * u - (base * m) * u) <= p * u,
            2 * ((base * m) * u - v * u) <= p * u,
            u > 0,
    {
        assert((2 * (v - base * m)) * u <= p * u);
        assert((2 * (v - base * m)) * u >= (-p) * u);
    }
    lemma_whole_representable(0);
    law_arithmetic_keeps_order(whole(base), m, 0);
    law_digits_are_dropped_to_the_nearest(v, 0);
    let allowed = round_dp_of(v, 0);
    let q = allowed / u;
    vstd::arithmetic::div_mod::lemma_fundamental_div_mod(allowed, u);
    assert(allowed >= 0) by (nonlinear_arith)
        requires
            allowed == u * q,
            2 * (v - allowed) <= u,
            v >= 0,
            u > 0,
    {
        if q < 0 {
            assert(u * q <= -u);
        }
    }
    let slippage = slippage_of(opp, book)->0;
    if allowed > 0 && 0 <= slippage <= 6 * allowed {
        assert(7 * 1 * allowed == 7 * allowed) by (nonlinear_arith);
        lemma_quotient_close(slippage, allowed, 0);
        let used = quotient(slippage, allowed)->0;
        assert(0 * allowed <= slippage * u && slippage * u <= (6 * u) * allowed) by (nonlinear_arith)
            requires
                0 <= slippage <= 6 * allowed,
                u > 0,
        ;
        lemma_whole_representable(6);
        law_arithmetic_keeps_order(slippage, allowed, 0);
        law_arithmetic_keeps_order(slippage, allowed, 6 * u);
        lemma_sum_close(u, used, 0);
        assert(close(u - used, (allowed - slippage) * u, allowed, 1)) by (nonlinear_arith)
            requires
                close(used, slippage * u, allowed, 1),
        {
            assert((u - used) * allowed == u * allowed - used * allowed);
            assert((allowed - slippage) * u == u * allowed - slippage * u);
        }
        lemma_held(u - used, (allowed - slippage) * u, allowed, 1);
    }
}

} // verus!
