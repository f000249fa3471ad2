//! What the books quote for the two sides of a market.
use crate::crypto_alpha::entry::{to_bps, EntryPick};
use crate::crypto_alpha::labels::CryptoDirectionBucket;
use crate::decimal::Decimal;
use crate::types::{BookSet, MarketInfo, OrderBook};
use vstd::prelude::*;

verus! {

use crate::crypto_alpha::entry::{in_bps, PickRecord};
use crate::crypto_alpha::sizing::book_at;
use crate::rounding::{
    law_arithmetic_keeps_order, lemma_in_ten_thousandths, lemma_quotient_close, lemma_sum_close,
    lemma_whole_representable, lemma_zero_representable, minus, over, pow10, quotient, unit,
};
use crate::types::MarketRecord;

/// The price of the best ask.
pub open spec fn asked(book: Option<OrderBook>) -> Option<int> {
    match book {
        Some(b) => if b.asks@.len() > 0 {
            Some(b.asks@[0].price@)
        } else {
            None
        },
        None => None,
    }
}

/// The price of the best bid.
pub open spec fn bid(book: Option<OrderBook>) -> Option<int> {
    match book {
        Some(b) => if b.bids@.len() > 0 {
            Some(b.bids@[0].price@)
        } else {
            None
        },
        None => None,
    }
}

/// What the spread takes of the ask, all of it where nothing is asked.
pub open spec fn spread_of(ask: int, bid: int) -> Option<int> {
    if ask > 0 {
        over(minus(Some(ask), Some(bid)), Some(ask))
    } else {
        Some(unit())
    }
}

/// The spread in basis points.
pub open spec fn spread_bps(spread: Option<int>) -> Option<int> {
    match spread {
        Some(s) => in_bps(s, u32::MAX as int),
        None => None,
    }
}

/// A side that is quoted both ways has too wide a spread.
pub open spec fn too_wide(book: Option<OrderBook>, max_spread_bps: int) -> Option<bool> {
    match (asked(book), bid(book)) {
        (Some(a), Some(b)) => match spread_bps(spread_of(a, b)) {
            Some(bps) => Some(bps > max_spread_bps),
            None => None,
        },
        _ => Some(false),
    }
}

pub fn ask_price(book: Option<&OrderBook>) -> (r: Option<Decimal>)
    ensures
        asked(book_at(book)) == crate::types::figure(r),
{
    match book {
        Some(b) => match b.best_ask() {
            Some(level) => Some(level.price),
            None => None,
        },
        None => None,
    }
}

pub fn bid_price(book: Option<&OrderBook>) -> (r: Option<Decimal>)
    ensures
        bid(book_at(book)) == crate::types::figure(r),
{
    match book {
        Some(b) => match b.best_bid() {
            Some(level) => Some(level.price),
            None => None,
        },
        None => None,
    }
}

pub fn relative_spread(ask: Decimal, bid: Decimal) -> (r: Decimal)
    requires
        spread_of(ask@, bid@) is Some,
    ensures
        spread_of(ask@, bid@) == Some(r@),
{
    if ask > Decimal::zero() {
        (ask - bid) / ask
    } else {
        Decimal::one()
    }
}

pub fn spread_is_too_wide(book: Option<&OrderBook>, max_spread_bps: u32) -> (r: bool)
    requires
        too_wide(book_at(book), max_spread_bps as int) is Some,
    ensures
        too_wide(book_at(book), max_spread_bps as int) == Some(r),
{
    match (ask_price(book), bid_price(book)) {
        (Some(a), Some(b)) => to_bps(relative_spread(a, b), u32::MAX) > max_spread_bps,
        _ => false,
    }
}

/// The chances that a market offers: how likely each side is, and what each stands for.
#[derive(Clone, Copy, Debug)]
pub struct SideChances {
    pub prob: Decimal,
    pub yes_direction: CryptoDirectionBucket,
    pub no_direction: CryptoDirectionBucket,
}

/// The side of a market with its price.
pub open spec fn side_pick(
    market: MarketRecord,
    side: int,
    fee_rate_bps: u32,
    ask_price: int,
    prob: int,
    edge: int,
    direction: CryptoDirectionBucket,
) -> PickRecord {
    PickRecord {
        token_id: market.tokens[side].token_id,
        condition_id: market.condition_id,
        fee_rate_bps,
        ask_price,
        prob,
        edge,
        direction,
        is_yes: market.tokens[side].token_id == market.tokens[0].token_id,
    }
}

/// The edge of the best side so far, zero where there is none.
pub open spec fn best_edge(best: Option<PickRecord>) -> int {
    match best {
        Some(p) => p.edge,
        None => 0,
    }
}

/// The better of the best side so far and one more side of a market.
pub open spec fn with_side(
    best: Option<PickRecord>,
    books: BookSet,
    market: MarketRecord,
    side: int,
    fee_rate_bps: u32,
    prob: Option<int>,
    direction: CryptoDirectionBucket,
) -> Option<Option<PickRecord>> {
    match (prob, asked(books.book(market.tokens[side].token_id))) {
        (None, _) => None,
        (Some(p), Some(ask)) => if p > ask {
            match minus(Some(p), Some(ask)) {
                Some(edge) => if edge > best_edge(best) {
                    Some(Some(side_pick(market, side, fee_rate_bps, ask, p, edge, direction)))
                } else {
                    Some(best)
                },
                None => None,
            }
        } else {
            Some(best)
        },
        (Some(_), None) => Some(best),
    }
}

/// The best side once both sides of a market are looked at, YES first.
pub open spec fn with_market(
    best: Option<PickRecord>,
    books: BookSet,
    market: MarketRecord,
    fee_rate_bps: u32,
    prob: int,
    yes_direction: CryptoDirectionBucket,
    no_direction: CryptoDirectionBucket,
) -> Option<Option<PickRecord>> {
    match with_side(best, books, market, 0, fee_rate_bps, Some(prob), yes_direction) {
        Some(after_yes) => with_side(
            after_yes,
            books,
            market,
            1,
            fee_rate_bps,
            minus(Some(unit()), Some(prob)),
            no_direction,
        ),
        None => None,
    }
}

/// A side is taken only if its edge is larger than that of the best one so far: the best edge never
/// shrinks, and the side that holds it has an edge above zero.
pub proof fn law_best_edge_never_shrinks(
    best: Option<PickRecord>,
    books: BookSet,
    market: MarketRecord,
    fee_rate_bps: u32,
    prob: int,
    yes_direction: CryptoDirectionBucket,
    no_direction: CryptoDirectionBucket,
)
    requires
        best is Some ==> best->0.edge > 0,
        with_market(
            best,
            books,
            market,
            fee_rate_bps,
            prob,
            yes_direction,
            no_direction,
        ) is Some,
    ensures
        ({
            let after = with_market(
                best,
                books,
                market,
                fee_rate_bps,
                prob,
                yes_direction,
                no_direction,
            )->0;
            &&& best_edge(after) >= best_edge(best)
            &&& after is Some ==> after->0.edge > 0
            &&& best is Some ==> after is Some
            &&& best_edge(after) == best_edge(best) ==> after == best
        }),
{
}

/// The best side changes only where its edge grows.
pub proof fn lemma_best_side(
    best: Option<PickRecord>,
    books: BookSet,
    market: MarketRecord,
    fee_rate_bps: u32,
    prob: int,
    yes_direction: CryptoDirectionBucket,
    no_direction: CryptoDirectionBucket,
)
    requires
        with_market(
            best,
            books,
            market,
            fee_rate_bps,
            prob,
            yes_direction,
            no_direction,
        ) is Some,
    ensures
        ({
            let after = with_market(
                best,
                books,
                market,
                fee_rate_bps,
                prob,
                yes_direction,
                no_direction,
            )->0;
            &&& best is Some ==> after is Some
            &&& after == best || best_edge(after) > best_edge(best)
        }),
{
}

pub open spec fn pick_at(pick: Option<EntryPick>) -> Option<PickRecord> {
    match pick {
        Some(p) => Some(p@),
        None => None,
    }
}

fn try_side(
    best: Option<EntryPick>,
    books: &BookSet,
    market: &MarketInfo,
    side: usize,
    fee_rate_bps: u32,
    prob: Decimal,
    direction: CryptoDirectionBucket,
) -> (r: Option<EntryPick>)
    requires
        side < market.tokens@.len(),
        with_side(
            pick_at(best),
            *books,
            market@,
            side as int,
            fee_rate_bps,
            Some(prob@),
            direction,
        ) is Some,
    ensures
        with_side(
            pick_at(best),
            *books,
            market@,
            side as int,
            fee_rate_bps,
            Some(prob@),
            direction,
        ) == Some(pick_at(r)),
{
    let token_id = market.tokens[side].token_id;
    let ask = match ask_price(books.get(token_id)) {
        Some(a) => a,
        None => return best,
    };
    if prob > ask {
        let edge = prob - ask;
        let floor = match best {
            Some(p) => p.edge,
            None => Decimal::zero(),
        };
        if edge > floor {
            return Some(
                EntryPick {
                    token_id,
                    condition_id: market.condition_id,
                    fee_rate_bps,
                    ask_price: ask,
                    prob,
                    edge,
                    direction,
                    is_yes: token_id == market.tokens[0].token_id,
                },
            );
        }
    }
    best
}

/// The best side once both sides of a market are looked at.
pub fn try_market(
    best: Option<EntryPick>,
    books: &BookSet,
    market: &MarketInfo,
    fee_rate_bps: u32,
    chances: SideChances,
) -> (r: Option<EntryPick>)
    requires
        market.tokens@.len() >= 2,
        with_market(
            pick_at(best),
            *books,
            market@,
            fee_rate_bps,
            chances.prob@,
            chances.yes_direction,
            chances.no_direction,
        ) is Some,
    ensures
        with_market(
            pick_at(best),
            *books,
            market@,
            fee_rate_bps,
            chances.prob@,
            chances.yes_direction,
            chances.no_direction,
        ) == Some(pick_at(r)),
{
    let after_yes = try_side(
        best,
        books,
        market,
        0,
        fee_rate_bps,
        chances.prob,
        chances.yes_direction,
    );
    try_side(
        after_yes,
        books,
        market,
        1,
        fee_rate_bps,
        Decimal::one() - chances.prob,
        chances.no_direction,
    )
}

/// The spread of a side is what the bid lacks of the ask, set against the ask, in whole basis points: it
/// is above a limit only if that comes to more than the limit, and is not above it only if it comes to
/// less than one more. It holds up to the rounding of the last digits.
pub proof fn law_spread_is_what_the_bid_lacks(book: OrderBook, limit: int)
    requires
        book.asks@.len() > 0,
        book.bids@.len() > 0,
        0 < book.asks@[0].price@ <= unit(),
        0 <= book.bids@[0].price@ <= book.asks@[0].price@,
        0 <= limit <= 1_000_000,
    ensures
        ({
            let ask = book.asks@[0].price@;
            let lack = (ask - book.bids@[0].price@) * 10000 * unit();
            &&& too_wide(Some(book), limit) is Some
            &&& too_wide(Some(book), limit)->0 ==> lack > ((limit + 1) * unit() - 10000) * ask
            &&& !too_wide(Some(book), limit)->0 ==> lack < ((limit + 1) * unit() + 10000) * ask
        }),
{
    let u = unit();
    let ask = book.asks@[0].price@;
    let off = ask - book.bids@[0].price@;
    assert(pow10(0) == 1);
    lemma_sum_close(ask, book.bids@[0].price@, 0);
    assert(7 * 1 * ask == 7 * ask) by (nonlinear_arith);
    lemma_quotient_close(off, ask, 0);
    let share = quotient(off, ask)->0;
    lemma_zero_representable();
    lemma_whole_representable(1);
    law_arithmetic_keeps_order(off, ask, 0);
    law_arithmetic_keeps_order(off, ask, u);
    assert(off * u >= 0 && off * u <= u * ask) by (nonlinear_arith)
        requires
            0 <= off <= ask,
            u > 0,
    ;
    lemma_in_ten_thousandths(share);
    let more = limit + 1;
    assert((share * 10000) / u < more <==> share * 10000 < more * u);
    assert(share * 10000 < more * u ==> off * 10000 * u < (more * u + 10000) * ask)
        by (nonlinear_arith)
        requires
            2 * (off * u - share * ask) <= 1 * ask,
            ask > 0,
    {
        if share * 10000 < more * u {
            assert((share * 10000) * ask < (more * u) * ask);
            assert(off * 10000 * u <= (share * 10000) * ask + 5000 * ask);
        }
    }
    assert(share * 10000 >= more * u ==> off * 10000 * u > (more * u - 10000) * ask)
        by (nonlinear_arith)
        requires
            2 * (share * ask - off * u) <= 1 * ask,
            ask > 0,
    {
        if share * 10000 >= more * u {
            assert((share * 10000) * ask >= (more * u) * ask);
            assert(off * 10000 * u >= (share * 10000) * ask - 5000 * ask);
        }
    }
}

/// One more side takes the place of the best one so far exactly where its edge, its probability less
/// what is asked for it, is above zero and larger.
pub proof fn law_side_is_taken_for_its_edge(
    best: Option<PickRecord>,
    books: BookSet,
    market: MarketRecord,
    side: int,
    fee_rate_bps: u32,
    prob: int,
    direction: CryptoDirectionBucket,
)
    requires
        0 <= side < market.tokens.len(),
        0 <= prob <= unit(),
        asked(books.book(market.tokens[side].token_id)) matches Some(a) ==> 0 <= a <= unit(),
        best matches Some(b) ==> b.edge > 0,
    ensures
        ({
            let after = with_side(
                best,
                books,
                market,
                side,
                fee_rate_bps,
                Some(prob),
                direction,
            );
            let book = books.book(market.tokens[side].token_id);
            let edge = prob - book->0.asks@[0].price@;
            let takes = book is Some && book->0.asks@.len() > 0 && edge > 0 && (best is None
                || edge > best->0.edge);
            &&& after is Some
            &&& !takes ==> after->0 == best
            &&& takes ==> {
                &&& after->0 is Some
                &&& after->0->0.edge == edge
                &&& after->0->0.ask_price == book->0.asks@[0].price@
                &&& after->0->0.prob == prob
                &&& after->0->0.token_id == market.tokens[side].token_id
                &&& after->0->0.condition_id == market.condition_id
                &&& after->0->0.fee_rate_bps == fee_rate_bps
                &&& after->0->0.direction == direction
            }
        }),
{
    assert(pow10(0) == 1);
    if let Some(a) = asked(books.book(market.tokens[side].token_id)) {
        lemma_sum_close(prob, a, 0);
    }
}

} // verus!
