//! A quick look at the two sides of a market.
use crate::decimal::Decimal;
use crate::types::{BookSet, MarketInfo};
use vstd::prelude::*;

verus! {

use crate::rounding::{
    lemma_in_ten_thousandths, lemma_sum_close, minus, plus, pow10, times, unit, whole,
};
use crate::types::{MarketRecord, OrderBook};

/// A difference of at least so many basis points.
pub open spec fn is_wide(spread: Option<int>, threshold_bps: u32) -> Option<bool> {
    match times(spread, Some(whole(10000))) {
        Some(bps) => Some(bps >= whole(threshold_bps as int)),
        None => None,
    }
}

/// Both sides can be bought for less than one, by at least the threshold.
pub open spec fn cheap_together(yes: OrderBook, no: OrderBook, threshold_bps: u32) -> Option<bool> {
    if yes.asks@.len() > 0 && no.asks@.len() > 0 {
        is_wide(
            minus(
                Some(unit()),
                plus(Some(yes.asks@[0].price@), Some(no.asks@[0].price@)),
            ),
            threshold_bps,
        )
    } else {
        Some(false)
    }
}

/// Both sides can be sold for more than one, by at least the threshold.
pub open spec fn dear_together(yes: OrderBook, no: OrderBook, threshold_bps: u32) -> Option<bool> {
    if yes.bids@.len() > 0 && no.bids@.len() > 0 {
        is_wide(
            minus(
                plus(Some(yes.bids@[0].price@), Some(no.bids@[0].price@)),
                Some(unit()),
            ),
            threshold_bps,
        )
    } else {
        Some(false)
    }
}

/// The two sides of a market are off by at least the threshold.
pub open spec fn sides_are_off(market: MarketRecord, books: BookSet, threshold_bps: u32) -> Option<
    bool,
> {
    if market.tokens.len() != 2 {
        Some(false)
    } else {
        match (
            books.book(market.tokens[0].token_id),
            books.book(market.tokens[1].token_id),
        ) {
            (Some(yes), Some(no)) => match cheap_together(yes, no, threshold_bps) {
                None => None,
                Some(true) => Some(true),
                Some(false) => dear_together(yes, no, threshold_bps),
            },
            _ => Some(false),
        }
    }
}

fn at_least_bps(spread: Decimal, threshold_bps: u32) -> (r: bool)
    requires
        is_wide(Some(spread@), threshold_bps) is Some,
    ensures
        is_wide(Some(spread@), threshold_bps) == Some(r),
{
    spread * Decimal::from_u32(10000) >= Decimal::from_u32(threshold_bps)
}

/// Looks at markets through their books.
#[derive(Debug)]
pub struct ArbitrageDetector {
    pub books: BookSet,
}

impl ArbitrageDetector {
    pub fn new(books: BookSet) -> (r: ArbitrageDetector)
        ensures
            r.books == books,
    {
        ArbitrageDetector { books }
    }

    /// Whether both sides of a market can be bought for less than one, or sold for more, by at least
    /// the threshold.
    pub fn quick_check_yesno(&self, market: &MarketInfo, threshold_bps: u32) -> (r: bool)
        requires
            sides_are_off(market@, self.books, threshold_bps) is Some,
        ensures
            sides_are_off(market@, self.books, threshold_bps) == Some(r),
    {
        if market.tokens.len() != 2 {
            return false;
        }
        let yes = match self.books.get(market.tokens[0].token_id) {
            Some(b) => b,
            None => return false,
        };
        let no = match self.books.get(market.tokens[1].token_id) {
            Some(b) => b,
            None => return false,
        };
        if let (Some(a), Some(b)) = (yes.best_ask(), no.best_ask()) {
            if at_least_bps(Decimal::one() - (a.price + b.price), threshold_bps) {
                return true;
            }
        }
        if let (Some(a), Some(b)) = (yes.best_bid(), no.best_bid()) {
            if at_least_bps((a.price + b.price) - Decimal::one(), threshold_bps) {
                return true;
            }
        }
        false
    }
}

/// The two sides of a market are off exactly where it has two tokens with a book each, and either the
/// best asks come to less than one or the best bids to more than one, by at least the threshold.
pub proof fn law_sides_are_off_by_the_threshold(
    market: MarketRecord,
    books: BookSet,
    threshold_bps: u32,
)
    requires
        sides_are_off(market, books, threshold_bps) is Some,
        forall|side: int|
            0 <= side < 2 && (#[trigger] books.book(market.tokens[side].token_id)) is Some
                ==> crate::cross_market::is_priced(books.book(market.tokens[side].token_id)->0),
    ensures
        sides_are_off(market, books, threshold_bps)->0 <==> {
            let yes = books.book(market.tokens[0].token_id);
            let no = books.book(market.tokens[1].token_id);
            &&& market.tokens.len() == 2
            &&& yes is Some
            &&& no is Some
            &&& {
                ||| {
                    &&& yes->0.asks@.len() > 0
                    &&& no->0.asks@.len() > 0
                    &&& (unit() - yes->0.asks@[0].price@ - no->0.asks@[0].price@) * 10000
                        >= threshold_bps * unit()
                }
                ||| {
                    &&& yes->0.bids@.len() > 0
                    &&& no->0.bids@.len() > 0
                    &&& (yes->0.bids@[0].price@ + no->0.bids@[0].price@ - unit()) * 10000
                        >= threshold_bps * unit()
                }
            }
        },
{
    let u = unit();
    assert(pow10(0) == 1);
    let a = books.book(market.tokens[0].token_id);
    let b = books.book(market.tokens[1].token_id);
    if market.tokens.len() == 2 && a is Some && b is Some {
        let (yes, no) = (a->0, b->0);
        if yes.asks@.len() > 0 && no.asks@.len() > 0 {
            let total = yes.asks@[0].price@ + no.asks@[0].price@;
            lemma_sum_close(yes.asks@[0].price@, no.asks@[0].price@, 0);
            lemma_sum_close(u, total, 0);
            lemma_in_ten_thousandths(u - total);
        }
        if yes.bids@.len() > 0 && no.bids@.len() > 0 {
            let total = yes.bids@[0].price@ + no.bids@[0].price@;
            lemma_sum_close(yes.bids@[0].price@, no.bids@[0].price@, 0);
            lemma_sum_close(total, u, 0);
            lemma_in_ten_thousandths(total - u);
        }
    }
}

} // verus!
