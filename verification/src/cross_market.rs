//! Trades on two markets whose prices should add up.
use crate::arbitrage::{
    ArbitrageOpportunity, CrossMarketCorrelation, CrossMarketLeg, CrossMarketOp, ExecutionPlan,
};
use crate::decimal::Decimal;
use crate::profitability::ProfitCalculator;
use crate::similarity::word_similarity;
use crate::types::{
    BookSet, MarketInfo, OrderBook, PriceLevel, Stamp, StrategyType, TradeSide, B256,
};
use vstd::prelude::*;

verus! {

use crate::arbitrage::{ArbitrageRecord, CrossLegRecord, PlanRecord};
use crate::engine::trade_at;
use crate::rounding::{
    count_of, count_or, law_arithmetic_is_exact, law_arithmetic_keeps_order, lemma_pow10_sum,
    lemma_pow10_unit, lemma_quotient_close, lemma_sum_close, lesser, minus, plus, pow10, quotient,
    representable, times, unit, whole, written_as,
};
use crate::similarity::{shared_words, word_set};
use crate::types::MarketRecord;

/// Two markets and what their prices should add up to.
#[derive(Debug)]
pub struct CrossMarketPair {
    pub pair_id: B256,
    pub market_a: MarketInfo,
    pub market_b: MarketInfo,
    pub expected_sum: Decimal,
    pub correlation: CrossMarketCorrelation,
}

/// What a pair says.
pub struct PairRecord {
    pub pair_id: Seq<u8>,
    pub market_a: MarketRecord,
    pub market_b: MarketRecord,
    pub expected_sum: int,
    pub correlation: CrossMarketCorrelation,
}

impl View for CrossMarketPair {
    type V = PairRecord;

    open spec fn view(&self) -> PairRecord {
        PairRecord {
            pair_id: self.pair_id@,
            market_a: self.market_a@,
            market_b: self.market_b@,
            expected_sum: self.expected_sum@,
            correlation: self.correlation,
        }
    }
}

/// The Keccak-256 hash of some bytes.
pub uninterp spec fn keccak256(data: Seq<u8>) -> Seq<u8>;

/// `alloy::primitives::keccak256`, whose result has the name `keccak256`.
#[verifier::external_body]
fn outside_keccak256(data: &Vec<u8>) -> (r: B256)
    ensures
        r@ == keccak256(data@),
{
    B256 { bytes: alloy::primitives::keccak256(data).0 }
}

/// The first of two rows of bytes comes before the second, at the first byte from the `i`-th on in
/// which they differ.
pub open spec fn comes_before(a: Seq<u8>, b: Seq<u8>, i: nat) -> bool
    decreases a.len() - i,
{
    if i >= a.len() || i >= b.len() {
        false
    } else if a[i as int] != b[i as int] {
        a[i as int] < b[i as int]
    } else {
        comes_before(a, b, i + 1)
    }
}

/// The bytes of two conditions, those of the lesser one first.
pub open spec fn both_ids(a: Seq<u8>, b: Seq<u8>) -> Seq<u8> {
    if comes_before(a, b, 0) {
        a + b
    } else {
        b + a
    }
}

/// The identifier of a pair of conditions.
pub open spec fn pair_id_of(a: Seq<u8>, b: Seq<u8>) -> Seq<u8> {
    keccak256(both_ids(a, b))
}

proof fn lemma_order(a: Seq<u8>, b: Seq<u8>, i: nat)
    requires
        a.len() == b.len(),
        i <= a.len(),
    ensures
        !(comes_before(a, b, i) && comes_before(b, a, i)),
        !comes_before(a, b, i) && !comes_before(b, a, i) ==> a.skip(i as int) == b.skip(i as int),
    decreases a.len() - i,
{
    if i < a.len() {
        lemma_order(a, b, i + 1);
        if a[i as int] == b[i as int] {
            assert(a.skip(i as int) =~= seq![a[i as int]] + a.skip((i + 1) as int));
            assert(b.skip(i as int) =~= seq![b[i as int]] + b.skip((i + 1) as int));
        }
    } else {
        assert(a.skip(i as int) =~= b.skip(i as int));
    }
}

/// A pair has one identifier, whichever of its conditions comes first.
pub proof fn law_pair_id_ignores_order(a: Seq<u8>, b: Seq<u8>)
    requires
        a.len() == b.len(),
    ensures
        pair_id_of(a, b) == pair_id_of(b, a),
{
    lemma_order(a, b, 0);
    if !comes_before(a, b, 0) && !comes_before(b, a, 0) {
        assert(a.skip(0) =~= a);
        assert(b.skip(0) =~= b);
    }
}

fn is_before(a: &B256, b: &B256) -> (r: bool)
    ensures
        r == comes_before(a@, b@, 0),
{
    let mut i: usize = 0;
    while i < 32
        invariant
            i <= 32,
            comes_before(a@, b@, 0) == comes_before(a@, b@, i as nat),
        decreases 32 - i,
    {
        if a.bytes[i] != b.bytes[i] {
            return a.bytes[i] < b.bytes[i];
        }
        i = i + 1;
    }
    false
}

fn joined_bytes(first: &B256, second: &B256) -> (r: Vec<u8>)
    ensures
        r@ == first@ + second@,
{
    let mut data: Vec<u8> = Vec::new();
    let mut i: usize = 0;
    while i < 32
        invariant
            i <= 32,
            data@ == first@.take(i as int),
        decreases 32 - i,
    {
        data.push(first.bytes[i]);
        i = i + 1;
        proof {
            assert(first@.take(i as int) =~= first@.take(i - 1).push(first@[i - 1]));
        }
    }
    let mut k: usize = 0;
    proof {
        assert(first@.take(32) =~= first@);
        assert(data@ =~= first@ + second@.take(0));
    }
    while k < 32
        invariant
            k <= 32,
            data@ == first@ + second@.take(k as int),
        decreases 32 - k,
    {
        data.push(second.bytes[k]);
        k = k + 1;
        proof {
            assert(second@.take(k as int) =~= second@.take(k - 1).push(second@[k - 1]));
            assert(data@ =~= first@ + second@.take(k as int));
        }
    }
    proof {
        assert(second@.take(32) =~= second@);
    }
    data
}

/// The bytes of two conditions, those of the lesser one first.
pub fn ordered_bytes(a: B256, b: B256) -> (r: Vec<u8>)
    ensures
        r@ == both_ids(a@, b@),
{
    if is_before(&a, &b) {
        joined_bytes(&a, &b)
    } else {
        joined_bytes(&b, &a)
    }
}

/// The identifier of a pair of conditions.
pub fn compute_pair_id(a: B256, b: B256) -> (r: B256)
    ensures
        r@ == pair_id_of(a@, b@),
{
    outside_keccak256(&ordered_bytes(a, b))
}

/// More than this share of their words makes two questions alike: 0.6.
pub open spec fn alike_share() -> int {
    6 * pow10(27)
}

/// A market that can be one of a pair.
pub open spec fn can_pair(market: MarketInfo) -> bool {
    !market.neg_risk && market.active && market.tokens@.len() == 2
}

/// Two markets that make a pair.
pub open spec fn make_pair(a: MarketInfo, b: MarketInfo) -> bool {
    &&& can_pair(a)
    &&& can_pair(b)
    &&& a.condition_id@ != b.condition_id@
    &&& shared_words(a.question@, b.question@)->0 > alike_share()
}

/// The first market from the `j`-th on that makes a pair with the `i`-th and is in none yet.
pub open spec fn partner(markets: Seq<MarketInfo>, used: Set<int>, i: int, j: int) -> Option<int>
    decreases markets.len() - j,
{
    if j >= markets.len() {
        None
    } else if !used.contains(j) && make_pair(markets[i], markets[j]) {
        Some(j)
    } else {
        partner(markets, used, i, j + 1)
    }
}

/// The pairs that the first `n` markets begin, and the markets that are in one.
pub struct Pairing {
    pub pairs: Seq<(int, int)>,
    pub used: Set<int>,
}

pub open spec fn pairing(markets: Seq<MarketInfo>, n: nat) -> Pairing
    decreases n,
{
    if n == 0 {
        Pairing { pairs: Seq::empty(), used: Set::empty() }
    } else {
        let before = pairing(markets, (n - 1) as nat);
        let i = n - 1;
        if before.used.contains(i) {
            before
        } else {
            match partner(markets, before.used, i, n as int) {
                Some(j) => Pairing {
                    pairs: before.pairs.push((i, j)),
                    used: before.used.insert(i).insert(j),
                },
                None => before,
            }
        }
    }
}

proof fn lemma_partner(markets: Seq<MarketInfo>, used: Set<int>, i: int, j: int)
    requires
        j >= 0,
        partner(markets, used, i, j) is Some,
    ensures
        ({
            let k = partner(markets, used, i, j)->0;
            j <= k < markets.len() && !used.contains(k) && make_pair(markets[i], markets[k])
        }),
    decreases markets.len() - j,
{
    if !(!used.contains(j) && make_pair(markets[i], markets[j])) {
        lemma_partner(markets, used, i, j + 1);
    }
}

/// The two of a pair.
pub open spec fn in_pair(pair: (int, int), k: int) -> bool {
    pair.0 == k || pair.1 == k
}

/// No market is in two pairs, and the two of a pair are alike without being the same condition.
pub proof fn law_pairs_are_disjoint(markets: Seq<MarketInfo>, n: nat)
    requires
        n <= markets.len(),
    ensures
        ({
            let p = pairing(markets, n).pairs;
            &&& forall|x: int|
                0 <= x < p.len() ==> 0 <= (#[trigger] p[x]).0 < p[x].1 < markets.len() && make_pair(
                    markets[p[x].0],
                    markets[p[x].1],
                )
            &&& forall|x: int, y: int, k: int|
                0 <= x < y < p.len() && #[trigger] in_pair(p[x], k) ==> !#[trigger] in_pair(
                    p[y],
                    k,
                )
            &&& forall|x: int, k: int|
                0 <= x < p.len() && #[trigger] in_pair(p[x], k) ==> pairing(
                    markets,
                    n,
                ).used.contains(k)
        }),
    decreases n,
{
    if n > 0 {
        law_pairs_are_disjoint(markets, (n - 1) as nat);
        let before = pairing(markets, (n - 1) as nat);
        if !before.used.contains(n - 1) && partner(
            markets,
            before.used,
            n - 1,
            n as int,
        ) is Some {
            lemma_partner(markets, before.used, n - 1, n as int);
            let after = pairing(markets, n);
            let last = before.pairs.len();
            assert forall|x: int, k: int|
                0 <= x < after.pairs.len() && #[trigger] in_pair(
                    after.pairs[x],
                    k,
                ) implies after.used.contains(k) by {
                if x < last {
                    assert(after.pairs[x] == before.pairs[x]);
                }
            }
            assert forall|x: int, y: int, k: int|
                0 <= x < y < after.pairs.len() && #[trigger] in_pair(
                    after.pairs[x],
                    k,
                ) implies !#[trigger] in_pair(after.pairs[y], k) by {
                assert(after.pairs[x] == before.pairs[x]);
                assert(in_pair(before.pairs[x], k));
                if y < last {
                    assert(after.pairs[y] == before.pairs[y]);
                }
            }
        }
    }
}

proof fn lemma_no_partner(markets: Seq<MarketInfo>, used: Set<int>, i: int, j: int, k: int)
    requires
        0 <= j <= k < markets.len(),
        partner(markets, used, i, j) is None,
        !used.contains(k),
    ensures
        !make_pair(markets[i], markets[k]),
    decreases k - j,
{
    if j < k {
        lemma_no_partner(markets, used, i, j + 1, k);
    }
}

/// The pairing is maximal: of the first `n` markets none that is left alone could be paired with a
/// later one that is left alone too. With all of them looked at, no two that are left make a pair.
pub proof fn law_pairing_is_maximal(markets: Seq<MarketInfo>, n: nat)
    requires
        n <= markets.len(),
    ensures
        forall|i: int, j: int|
            0 <= i < n && i < j < markets.len() && !pairing(markets, n).used.contains(i)
                && !pairing(markets, n).used.contains(j) ==> !#[trigger] make_pair(
                markets[i],
                markets[j],
            ),
    decreases n,
{
    if n > 0 {
        let before = pairing(markets, (n - 1) as nat);
        let after = pairing(markets, n);
        law_pairing_is_maximal(markets, (n - 1) as nat);
        assert forall|i: int, j: int|
            0 <= i < n && i < j < markets.len() && !after.used.contains(i) && !after.used.contains(
                j,
            ) implies !#[trigger] make_pair(markets[i], markets[j]) by {
            if i == n - 1 {
                lemma_no_partner(markets, before.used, i, n as int, j);
            }
        }
    }
}

/// The pair of two markets.
pub open spec fn pair_of(markets: Seq<MarketInfo>, pair: (int, int)) -> PairRecord {
    let a = markets[pair.0]@;
    let b = markets[pair.1]@;
    PairRecord {
        pair_id: pair_id_of(a.condition_id, b.condition_id),
        market_a: a,
        market_b: b,
        expected_sum: unit(),
        correlation: CrossMarketCorrelation::ComplementaryYes,
    }
}

pub open spec fn pair_views(pairs: Seq<CrossMarketPair>) -> Seq<PairRecord> {
    pairs.map_values(|p: CrossMarketPair| p@)
}

fn pairable(market: &MarketInfo) -> (r: bool)
    ensures
        r == can_pair(*market),
{
    !market.neg_risk && market.active && market.tokens.len() == 2
}

fn pairs_up(a: &MarketInfo, b: &MarketInfo) -> (r: bool)
    ensures
        r == make_pair(*a, *b),
{
    if !pairable(a) || !pairable(b) || a.condition_id.same_bytes(&b.condition_id) {
        return false;
    }
    word_similarity(a.question.as_str(), b.question.as_str()) > Decimal::new(6, 1)
}

fn find_partner(markets: &Vec<MarketInfo>, used: &Vec<bool>, i: usize) -> (r: Option<usize>)
    requires
        i < markets.len(),
        used@.len() == markets@.len(),
    ensures
        partner(markets@, used_set(used@), i as int, i + 1) == (match r {
            Some(j) => Some(j as int),
            None => None,
        }),
        r matches Some(j) ==> i < j < markets@.len(),
{
    let mut j: usize = i + 1;
    while j < markets.len()
        invariant
            i < j <= markets@.len(),
            used@.len() == markets@.len(),
            partner(markets@, used_set(used@), i as int, i + 1) == partner(
                markets@,
                used_set(used@),
                i as int,
                j as int,
            ),
        decreases markets@.len() - j,
    {
        if !used[j] && pairs_up(&markets[i], &markets[j]) {
            return Some(j);
        }
        j = j + 1;
    }
    None
}

/// The places that are marked.
pub open spec fn used_set(used: Seq<bool>) -> Set<int> {
    Set::new(|k: int| 0 <= k < used.len() && used[k])
}

/// Pairs up the markets whose questions are alike, each with the first that is.
pub fn detect_cross_market_pairs(markets: &Vec<MarketInfo>) -> (r: Vec<CrossMarketPair>)
    ensures
        pair_views(r@) == pairing(markets@, markets@.len()).pairs.map_values(
            |p: (int, int)| pair_of(markets@, p),
        ),
{
    let mut pairs: Vec<CrossMarketPair> = Vec::new();
    let mut used: Vec<bool> = Vec::new();
    let mut k: usize = 0;
    while k < markets.len()
        invariant
            k <= markets@.len(),
            used@ == Seq::new(k as nat, |x: int| false),
        decreases markets@.len() - k,
    {
        used.push(false);
        k = k + 1;
        proof {
            assert(used@ =~= Seq::new(k as nat, |x: int| false));
        }
    }
    let ghost record = |p: (int, int)| pair_of(markets@, p);
    let mut i: usize = 0;
    proof {
        assert(used_set(used@) =~= Set::empty());
        assert(pair_views(pairs@) =~= Seq::<(int, int)>::empty().map_values(record));
    }
    while i < markets.len()
        invariant
            i <= markets@.len(),
            used@.len() == markets@.len(),
            record == |p: (int, int)| pair_of(markets@, p),
            used_set(used@) == pairing(markets@, i as nat).used,
            pair_views(pairs@) == pairing(markets@, i as nat).pairs.map_values(record),
        decreases markets@.len() - i,
    {
        let ghost before = pairing(markets@, i as nat);
        if !used[i] {
            if let Some(j) = find_partner(markets, &used, i) {
                let a = &markets[i];
                let b = &markets[j];
                let pair = CrossMarketPair {
                    pair_id: compute_pair_id(a.condition_id, b.condition_id),
                    market_a: a.clone(),
                    market_b: b.clone(),
                    expected_sum: Decimal::one(),
                    correlation: CrossMarketCorrelation::ComplementaryYes,
                };
                let ghost old_used = used@;
                let ghost old_pairs = pairs@;
                pairs.push(pair);
                used.set(i, true);
                used.set(j, true);
                proof {
                    assert(used_set(used@) =~= used_set(old_used).insert(i as int).insert(
                        j as int,
                    ));
                    assert(pair_views(pairs@) =~= pair_views(old_pairs).push(pair@));
                    assert(before.pairs.push((i as int, j as int)).map_values(record)
                        =~= before.pairs.map_values(record).push(
                        pair_of(markets@, (i as int, j as int)),
                    ));
                }
            }
        }
        i = i + 1;
    }
    pairs
}

/// The best level that an order on the side takes from.
pub open spec fn top(book: OrderBook, side: TradeSide) -> Option<PriceLevel> {
    match side {
        TradeSide::Buy => if book.asks@.len() > 0 {
            Some(book.asks@[0])
        } else {
            None
        },
        TradeSide::Sell => if book.bids@.len() > 0 {
            Some(book.bids@[0])
        } else {
            None
        },
    }
}

fn best_level(book: &OrderBook, side: TradeSide) -> (r: Option<PriceLevel>)
    ensures
        r == top(*book, side),
{
    match side {
        TradeSide::Buy => book.best_ask(),
        TradeSide::Sell => book.best_bid(),
    }
}

/// The books of both sides of two markets.
pub struct PairBooks {
    pub yes_a: OrderBook,
    pub no_a: OrderBook,
    pub yes_b: OrderBook,
    pub no_b: OrderBook,
}

/// The books of a pair, if there is one for every side.
pub open spec fn books_of(pair: PairRecord, books: BookSet) -> Option<PairBooks> {
    if pair.market_a.tokens.len() != 2 || pair.market_b.tokens.len() != 2 {
        None
    } else {
        match (
            books.book(pair.market_a.tokens[0].token_id),
            books.book(pair.market_a.tokens[1].token_id),
            books.book(pair.market_b.tokens[0].token_id),
            books.book(pair.market_b.tokens[1].token_id),
        ) {
            (Some(yes_a), Some(no_a), Some(yes_b), Some(no_b)) => Some(
                PairBooks { yes_a, no_a, yes_b, no_b },
            ),
            _ => None,
        }
    }
}

/// What trading a pair in one direction offers.
pub struct PairOffer {
    pub spread: int,
    pub size: int,
    pub yes_a: int,
    pub no_a: int,
    pub yes_b: int,
    pub no_b: int,
}

/// A look at a pair in one direction.
pub enum PairLook {
    /// A price is missing, so nothing comes of the pair.
    Stop,
    /// There is nothing in this direction.
    Pass,
    Offer(PairOffer),
}

/// By how much the prices are off in the direction, if they are.
pub open spec fn gap(side: TradeSide, total: int, expected: int) -> Option<Option<int>> {
    let off = match side {
        TradeSide::Buy => total < expected,
        TradeSide::Sell => total > expected,
    };
    if off {
        match (match side {
            TradeSide::Buy => minus(Some(expected), Some(total)),
            TradeSide::Sell => minus(Some(total), Some(expected)),
        }) {
            Some(g) => Some(Some(g)),
            None => None,
        }
    } else {
        Some(None)
    }
}

/// A gap in whole basis points.
pub open spec fn gap_bps(spread: int) -> Option<int> {
    match times(Some(spread), Some(whole(10000))) {
        Some(v) => Some(count_or(count_of(v, u32::MAX as int), u32::MAX as int)),
        None => None,
    }
}

/// The YES prices of a pair in one direction.
pub open spec fn complementary_look(
    pair: PairRecord,
    books: PairBooks,
    side: TradeSide,
    min_spread_bps: u32,
    max_size: int,
) -> Option<PairLook> {
    match (top(books.yes_a, side), top(books.yes_b, side)) {
        (Some(yes_a), Some(yes_b)) => match plus(Some(yes_a.price@), Some(yes_b.price@)) {
            None => None,
            Some(total) => match gap(side, total, pair.expected_sum) {
                None => None,
                Some(None) => Some(PairLook::Pass),
                Some(Some(spread)) => match gap_bps(spread) {
                    None => None,
                    Some(bps) => if bps < min_spread_bps {
                        Some(PairLook::Pass)
                    } else {
                        match (top(books.no_a, side), top(books.no_b, side)) {
                            (Some(no_a), Some(no_b)) => Some(
                                PairLook::Offer(
                                    PairOffer {
                                        spread,
                                        size: lesser(
                                            lesser(
                                                lesser(
                                                    lesser(yes_a.size@, yes_b.size@),
                                                    no_a.size@,
                                                ),
                                                no_b.size@,
                                            ),
                                            max_size,
                                        ),
                                        yes_a: yes_a.price@,
                                        no_a: no_a.price@,
                                        yes_b: yes_b.price@,
                                        no_b: no_b.price@,
                                    },
                                ),
                            ),
                            _ => Some(PairLook::Stop),
                        }
                    },
                },
            },
        },
        _ => Some(PairLook::Stop),
    }
}

/// The YES price of the first market and the NO price of the second, bought.
pub open spec fn inverse_look(
    pair: PairRecord,
    books: PairBooks,
    min_spread_bps: u32,
    max_size: int,
) -> Option<PairLook> {
    let side = TradeSide::Buy;
    match (top(books.yes_a, side), top(books.no_b, side)) {
        (Some(yes_a), Some(no_b)) => match plus(Some(yes_a.price@), Some(no_b.price@)) {
            None => None,
            Some(total) => match gap(side, total, pair.expected_sum) {
                None => None,
                Some(None) => Some(PairLook::Pass),
                Some(Some(spread)) => match gap_bps(spread) {
                    None => None,
                    Some(bps) => if bps < min_spread_bps {
                        Some(PairLook::Pass)
                    } else {
                        Some(
                            PairLook::Offer(
                                PairOffer {
                                    spread,
                                    size: lesser(lesser(yes_a.size@, no_b.size@), max_size),
                                    yes_a: yes_a.price@,
                                    no_a: no_b.price@,
                                    yes_b: no_b.price@,
                                    no_b: yes_a.price@,
                                },
                            ),
                        )
                    },
                },
            },
        },
        _ => Some(PairLook::Stop),
    }
}

pub open spec fn cross_leg(
    market: MarketRecord,
    operation: CrossMarketOp,
    yes_price: int,
    no_price: int,
    size: int,
) -> CrossLegRecord {
    CrossLegRecord {
        condition_id: market.condition_id,
        yes_token_id: market.tokens[0].token_id,
        no_token_id: market.tokens[1].token_id,
        operation,
        yes_price,
        no_price,
        size,
    }
}

/// The trade that takes an offer.
pub open spec fn cross_trade(
    pair: PairRecord,
    title: Seq<char>,
    side: TradeSide,
    offer: PairOffer,
    net_profit: int,
    stamp: Stamp,
) -> ArbitrageRecord {
    let operation = match side {
        TradeSide::Buy => CrossMarketOp::BuyAndMerge,
        TradeSide::Sell => CrossMarketOp::SplitAndSell,
    };
    ArbitrageRecord {
        stamp,
        strategy_type: StrategyType::CrossMarket,
        condition_id: pair.pair_id,
        question: title + pair.market_a.question + " / "@ + pair.market_b.question,
        spread: offer.spread,
        estimated_profit: net_profit,
        size: offer.size,
        execution_plan: PlanRecord::CrossMarket {
            pair_id: pair.pair_id,
            leg_a: cross_leg(pair.market_a, operation, offer.yes_a, offer.no_a, offer.size),
            leg_b: cross_leg(pair.market_b, operation, offer.yes_b, offer.no_b, offer.size),
            amount: offer.size,
        },
    }
}

/// What a trade would earn in each direction.
#[derive(Clone, Copy, Debug)]
pub struct PairProfits {
    pub buying: Decimal,
    pub selling: Decimal,
}

/// Finds trades on pairs of markets.
#[derive(Debug)]
pub struct CrossMarketArbitrage {
    pub min_spread_bps: u32,
    pub max_trade_size: Decimal,
    pub min_profit: Decimal,
    pub profit_calc: ProfitCalculator,
    pub pairs: Vec<CrossMarketPair>,
}

/// What trading a pair in one direction offers: by how much the prices are off, how much can be
/// traded, and the prices of all four sides.
#[derive(Clone, Copy, Debug)]
pub struct Offer {
    pub spread: Decimal,
    pub size: Decimal,
    pub yes_a: Decimal,
    pub no_a: Decimal,
    pub yes_b: Decimal,
    pub no_b: Decimal,
}

impl View for Offer {
    type V = PairOffer;

    open spec fn view(&self) -> PairOffer {
        PairOffer {
            spread: self.spread@,
            size: self.size@,
            yes_a: self.yes_a@,
            no_a: self.no_a@,
            yes_b: self.yes_b@,
            no_b: self.no_b@,
        }
    }
}

/// A look at a pair in one direction.
#[derive(Clone, Copy, Debug)]
pub enum Look {
    /// A price is missing, so nothing comes of the pair.
    Stop,
    /// There is nothing in this direction.
    Pass,
    Found(Offer),
}

impl View for Look {
    type V = PairLook;

    open spec fn view(&self) -> PairLook {
        match self {
            Look::Stop => PairLook::Stop,
            Look::Pass => PairLook::Pass,
            Look::Found(offer) => PairLook::Offer(offer@),
        }
    }
}

fn price_gap(side: TradeSide, total: Decimal, expected: Decimal) -> (r: Option<Decimal>)
    requires
        gap(side, total@, expected@) is Some,
    ensures
        gap(side, total@, expected@) == Some(crate::types::figure(r)),
{
    match side {
        TradeSide::Buy => if total < expected {
            Some(expected - total)
        } else {
            None
        },
        TradeSide::Sell => if total > expected {
            Some(total - expected)
        } else {
            None
        },
    }
}

fn to_gap_bps(spread: Decimal) -> (r: u32)
    requires
        gap_bps(spread@) is Some,
    ensures
        gap_bps(spread@) == Some(r as int),
{
    match (spread * Decimal::from_u32(10000)).to_u32() {
        Some(n) => n,
        None => u32::MAX,
    }
}

fn cross_market_leg(
    market: &MarketInfo,
    operation: CrossMarketOp,
    yes_price: Decimal,
    no_price: Decimal,
    size: Decimal,
) -> (r: CrossMarketLeg)
    requires
        market.tokens@.len() == 2,
    ensures
        r@ == cross_leg(market@, operation, yes_price@, no_price@, size@),
{
    CrossMarketLeg {
        condition_id: market.condition_id,
        yes_token_id: market.tokens[0].token_id,
        no_token_id: market.tokens[1].token_id,
        operation,
        yes_price,
        no_price,
        size,
    }
}

fn take_offer(
    pair: &CrossMarketPair,
    title: &str,
    side: TradeSide,
    offer: Offer,
    net_profit: Decimal,
    stamp: Stamp,
) -> (r: ArbitrageOpportunity)
    requires
        pair.market_a.tokens@.len() == 2,
        pair.market_b.tokens@.len() == 2,
    ensures
        r@ == cross_trade(pair@, title@, side, offer@, net_profit@, stamp),
{
    let operation = match side {
        TradeSide::Buy => CrossMarketOp::BuyAndMerge,
        TradeSide::Sell => CrossMarketOp::SplitAndSell,
    };
    let leg_a = cross_market_leg(&pair.market_a, operation, offer.yes_a, offer.no_a, offer.size);
    let leg_b = cross_market_leg(&pair.market_b, operation, offer.yes_b, offer.no_b, offer.size);
    ArbitrageOpportunity {
        stamp,
        strategy_type: StrategyType::CrossMarket,
        condition_id: pair.pair_id,
        question: title.to_owned().concat(pair.market_a.question.as_str()).concat(" / ").concat(
            pair.market_b.question.as_str(),
        ),
        spread: offer.spread,
        estimated_profit: net_profit,
        size: offer.size,
        execution_plan: ExecutionPlan::CrossMarket {
            pair_id: pair.pair_id,
            leg_a,
            leg_b,
            amount: offer.size,
        },
    }
}

impl CrossMarketArbitrage {
    pub fn new(
        min_spread_bps: u32,
        max_trade_size: Decimal,
        min_profit: Decimal,
        gas_cost_usd: Decimal,
        pairs: Vec<CrossMarketPair>,
    ) -> (r: CrossMarketArbitrage)
        ensures
            r.min_spread_bps == min_spread_bps,
            r.max_trade_size == max_trade_size,
            r.min_profit == min_profit,
            r.profit_calc.gas_cost_usd == gas_cost_usd,
            r.pairs == pairs,
    {
        CrossMarketArbitrage {
            min_spread_bps,
            max_trade_size,
            min_profit,
            profit_calc: ProfitCalculator::new(gas_cost_usd),
            pairs,
        }
    }

    /// The most that a trade may be.
    pub open spec fn size_limit(&self, available: int) -> int {
        lesser(self.max_trade_size@, available)
    }

    /// What comes of a pair whose YES prices should add up: both are bought where they come to too
    /// little and that earns enough, and otherwise sold where they come to too much and that does.
    pub open spec fn complementary_trade(
        &self,
        pair: PairRecord,
        books: PairBooks,
        available: int,
        profits: PairProfits,
        stamp: Stamp,
    ) -> Option<Option<ArbitrageRecord>> {
        let limit = self.size_limit(available);
        match complementary_look(pair, books, TradeSide::Buy, self.min_spread_bps, limit) {
            None => None,
            Some(PairLook::Stop) => Some(None),
            Some(look) => if look is Offer && profits.buying@ >= self.min_profit@ {
                Some(
                    Some(
                        cross_trade(
                            pair,
                            "Cross: "@,
                            TradeSide::Buy,
                            look->Offer_0,
                            profits.buying@,
                            stamp,
                        ),
                    ),
                )
            } else {
                match complementary_look(pair, books, TradeSide::Sell, self.min_spread_bps, limit) {
                    None => None,
                    Some(PairLook::Offer(offer)) => if profits.selling@ >= self.min_profit@ {
                        Some(
                            Some(
                                cross_trade(
                                    pair,
                                    "Cross: "@,
                                    TradeSide::Sell,
                                    offer,
                                    profits.selling@,
                                    stamp,
                                ),
                            ),
                        )
                    } else {
                        Some(None)
                    },
                    Some(_) => Some(None),
                }
            },
        }
    }

    /// What comes of a pair whose YES and NO prices should add up: both are bought where they come
    /// to too little and that earns enough.
    pub open spec fn inverse_trade(
        &self,
        pair: PairRecord,
        books: PairBooks,
        available: int,
        profits: PairProfits,
        stamp: Stamp,
    ) -> Option<Option<ArbitrageRecord>> {
        match inverse_look(pair, books, self.min_spread_bps, self.size_limit(available)) {
            None => None,
            Some(PairLook::Offer(offer)) => if profits.buying@ >= self.min_profit@ {
                Some(
                    Some(
                        cross_trade(
                            pair,
                            "Cross(InvYN): "@,
                            TradeSide::Buy,
                            offer,
                            profits.buying@,
                            stamp,
                        ),
                    ),
                )
            } else {
                Some(None)
            },
            Some(_) => Some(None),
        }
    }

    /// What comes of a pair.
    pub open spec fn pair_trade(
        &self,
        pair: PairRecord,
        books: BookSet,
        available: int,
        profits: PairProfits,
        stamp: Stamp,
    ) -> Option<Option<ArbitrageRecord>> {
        match books_of(pair, books) {
            None => Some(None),
            Some(pair_books) => match pair.correlation {
                CrossMarketCorrelation::ComplementaryYes => self.complementary_trade(
                    pair,
                    pair_books,
                    available,
                    profits,
                    stamp,
                ),
                CrossMarketCorrelation::InverseYesNo => self.inverse_trade(
                    pair,
                    pair_books,
                    available,
                    profits,
                    stamp,
                ),
            },
        }
    }

    /// Looks at the YES prices of a pair in one direction.
    pub fn look_at_yes(
        &self,
        pair: &CrossMarketPair,
        yes_a: &OrderBook,
        no_a: &OrderBook,
        yes_b: &OrderBook,
        no_b: &OrderBook,
        side: TradeSide,
        available: Decimal,
    ) -> (r: Look)
        requires
            complementary_look(
                pair@,
                (PairBooks { yes_a: *yes_a, no_a: *no_a, yes_b: *yes_b, no_b: *no_b }),
                side,
                self.min_spread_bps,
                self.size_limit(available@),
            ) is Some,
        ensures
            complementary_look(
                pair@,
                (PairBooks { yes_a: *yes_a, no_a: *no_a, yes_b: *yes_b, no_b: *no_b }),
                side,
                self.min_spread_bps,
                self.size_limit(available@),
            ) == Some(r@),
    {
        let level_a = match best_level(yes_a, side) {
            Some(l) => l,
            None => return Look::Stop,
        };
        let level_b = match best_level(yes_b, side) {
            Some(l) => l,
            None => return Look::Stop,
        };
        let spread = match price_gap(side, level_a.price + level_b.price, pair.expected_sum) {
            Some(g) => g,
            None => return Look::Pass,
        };
        if to_gap_bps(spread) < self.min_spread_bps {
            return Look::Pass;
        }
        let other_a = match best_level(no_a, side) {
            Some(l) => l,
            None => return Look::Stop,
        };
        let other_b = match best_level(no_b, side) {
            Some(l) => l,
            None => return Look::Stop,
        };
        let size = level_a.size.min(level_b.size).min(other_a.size).min(other_b.size).min(
            self.max_trade_size.min(available),
        );
        Look::Found(
            Offer {
                spread,
                size,
                yes_a: level_a.price,
                no_a: other_a.price,
                yes_b: level_b.price,
                no_b: other_b.price,
            },
        )
    }

    /// Looks at a pair whose YES prices should add up. What a trade would earn in each direction is
    /// given with it.
    pub fn detect_complementary_yes(
        &self,
        pair: &CrossMarketPair,
        yes_a: &OrderBook,
        no_a: &OrderBook,
        yes_b: &OrderBook,
        no_b: &OrderBook,
        available: Decimal,
        profits: PairProfits,
        stamp: Stamp,
    ) -> (r: Option<ArbitrageOpportunity>)
        requires
            pair.market_a.tokens@.len() == 2,
            pair.market_b.tokens@.len() == 2,
            self.complementary_trade(
                pair@,
                (PairBooks { yes_a: *yes_a, no_a: *no_a, yes_b: *yes_b, no_b: *no_b }),
                available@,
                profits,
                stamp,
            ) is Some,
        ensures
            self.complementary_trade(
                pair@,
                (PairBooks { yes_a: *yes_a, no_a: *no_a, yes_b: *yes_b, no_b: *no_b }),
                available@,
                profits,
                stamp,
            ) == Some(trade_at(r)),
    {
        match self.look_at_yes(
            pair,
            yes_a,
            no_a,
            yes_b,
            no_b,
            TradeSide::Buy,
            available,
        ) {
            Look::Stop => return None,
            Look::Pass => {},
            Look::Found(offer) => {
                if profits.buying >= self.min_profit {
                    return Some(
                        take_offer(pair, "Cross: ", TradeSide::Buy, offer, profits.buying, stamp),
                    );
                }
            },
        }
        match self.look_at_yes(
            pair,
            yes_a,
            no_a,
            yes_b,
            no_b,
            TradeSide::Sell,
            available,
        ) {
            Look::Found(offer) => if profits.selling >= self.min_profit {
                Some(take_offer(pair, "Cross: ", TradeSide::Sell, offer, profits.selling, stamp))
            } else {
                None
            },
            _ => None,
        }
    }

    /// Looks at what the YES side of the first market and the NO side of the second cost.
    pub fn look_at_yes_and_no(
        &self,
        pair: &CrossMarketPair,
        yes_a: &OrderBook,
        no_a: &OrderBook,
        yes_b: &OrderBook,
        no_b: &OrderBook,
        available: Decimal,
    ) -> (r: Look)
        requires
            inverse_look(
                pair@,
                (PairBooks { yes_a: *yes_a, no_a: *no_a, yes_b: *yes_b, no_b: *no_b }),
                self.min_spread_bps,
                self.size_limit(available@),
            ) is Some,
        ensures
            inverse_look(
                pair@,
                (PairBooks { yes_a: *yes_a, no_a: *no_a, yes_b: *yes_b, no_b: *no_b }),
                self.min_spread_bps,
                self.size_limit(available@),
            ) == Some(r@),
    {
        let level_a = match best_level(yes_a, TradeSide::Buy) {
            Some(l) => l,
            None => return Look::Stop,
        };
        let level_b = match best_level(no_b, TradeSide::Buy) {
            Some(l) => l,
            None => return Look::Stop,
        };
        let total = level_a.price + level_b.price;
        let spread = match price_gap(TradeSide::Buy, total, pair.expected_sum) {
            Some(g) => g,
            None => return Look::Pass,
        };
        if to_gap_bps(spread) < self.min_spread_bps {
            return Look::Pass;
        }
        Look::Found(
            Offer {
                spread,
                size: level_a.size.min(level_b.size).min(self.max_trade_size.min(available)),
                yes_a: level_a.price,
                no_a: level_b.price,
                yes_b: level_b.price,
                no_b: level_a.price,
            },
        )
    }

    /// Looks at a pair whose YES and NO prices should add up. What a trade would earn is given with
    /// it.
    pub fn detect_inverse_yes_no(
        &self,
        pair: &CrossMarketPair,
        yes_a: &OrderBook,
        no_a: &OrderBook,
        yes_b: &OrderBook,
        no_b: &OrderBook,
        available: Decimal,
        profits: PairProfits,
        stamp: Stamp,
    ) -> (r: Option<ArbitrageOpportunity>)
        requires
            pair.market_a.tokens@.len() == 2,
            pair.market_b.tokens@.len() == 2,
            self.inverse_trade(
                pair@,
                (PairBooks { yes_a: *yes_a, no_a: *no_a, yes_b: *yes_b, no_b: *no_b }),
                available@,
                profits,
                stamp,
            ) is Some,
        ensures
            self.inverse_trade(
                pair@,
                (PairBooks { yes_a: *yes_a, no_a: *no_a, yes_b: *yes_b, no_b: *no_b }),
                available@,
                profits,
                stamp,
            ) == Some(trade_at(r)),
    {
        match self.look_at_yes_and_no(pair, yes_a, no_a, yes_b, no_b, available) {
            Look::Found(offer) => if profits.buying >= self.min_profit {
                Some(
                    take_offer(
                        pair,
                        "Cross(InvYN): ",
                        TradeSide::Buy,
                        offer,
                        profits.buying,
                        stamp,
                    ),
                )
            } else {
                None
            },
            _ => None,
        }
    }

    /// Looks at a pair. What a trade would earn in each direction is given with it.
    pub fn detect_pair(
        &self,
        pair: &CrossMarketPair,
        books: &BookSet,
        available: Decimal,
        profits: PairProfits,
        stamp: Stamp,
    ) -> (r: Option<ArbitrageOpportunity>)
        requires
            self.pair_trade(pair@, *books, available@, profits, stamp) is Some,
        ensures
            self.pair_trade(pair@, *books, available@, profits, stamp) == Some(trade_at(r)),
    {
        if pair.market_a.tokens.len() != 2 || pair.market_b.tokens.len() != 2 {
            return None;
        }
        let yes_a = match books.get(pair.market_a.tokens[0].token_id) {
            Some(b) => b,
            None => return None,
        };
        let no_a = match books.get(pair.market_a.tokens[1].token_id) {
            Some(b) => b,
            None => return None,
        };
        let yes_b = match books.get(pair.market_b.tokens[0].token_id) {
            Some(b) => b,
            None => return None,
        };
        let no_b = match books.get(pair.market_b.tokens[1].token_id) {
            Some(b) => b,
            None => return None,
        };
        match pair.correlation {
            CrossMarketCorrelation::ComplementaryYes => self.detect_complementary_yes(
                pair,
                yes_a,
                no_a,
                yes_b,
                no_b,
                available,
                profits,
                stamp,
            ),
            CrossMarketCorrelation::InverseYesNo => self.detect_inverse_yes_no(
                pair,
                yes_a,
                no_a,
                yes_b,
                no_b,
                available,
                profits,
                stamp,
            ),
        }
    }
}

pub open spec fn trade_views(trades: Seq<ArbitrageOpportunity>) -> Seq<ArbitrageRecord> {
    trades.map_values(|t: ArbitrageOpportunity| t@)
}

impl CrossMarketArbitrage {
    /// The trades on the first `n` pairs.
    pub open spec fn trades(
        &self,
        books: BookSet,
        available: int,
        profits: Seq<PairProfits>,
        stamps: Seq<Stamp>,
        n: nat,
    ) -> Option<Seq<ArbitrageRecord>>
        decreases n,
    {
        if n == 0 {
            Some(Seq::empty())
        } else {
            match (
                self.trades(books, available, profits, stamps, (n - 1) as nat),
                self.pair_trade(
                    self.pairs@[n - 1]@,
                    books,
                    available,
                    profits[n - 1],
                    stamps[n - 1],
                ),
            ) {
                (Some(before), Some(Some(trade))) => Some(before.push(trade)),
                (Some(before), Some(None)) => Some(before),
                _ => None,
            }
        }
    }

    proof fn lemma_trades_prefix(
        &self,
        books: BookSet,
        available: int,
        profits: Seq<PairProfits>,
        stamps: Seq<Stamp>,
        k: nat,
        n: nat,
    )
        requires
            k <= n,
            self.trades(books, available, profits, stamps, n) is Some,
        ensures
            self.trades(books, available, profits, stamps, k) is Some,
        decreases n,
    {
        if k < n {
            self.lemma_trades_prefix(books, available, profits, stamps, k, (n - 1) as nat);
        }
    }

    /// Looks at every pair. What trades on each would earn, and the mark of one, are given with it.
    pub fn scan(
        &self,
        books: &BookSet,
        available: Decimal,
        profits: &Vec<PairProfits>,
        stamps: &Vec<Stamp>,
    ) -> (r: Vec<ArbitrageOpportunity>)
        requires
            profits@.len() == self.pairs@.len(),
            stamps@.len() == self.pairs@.len(),
            self.trades(*books, available@, profits@, stamps@, self.pairs@.len()) is Some,
        ensures
            self.trades(*books, available@, profits@, stamps@, self.pairs@.len()) == Some(
                trade_views(r@),
            ),
    {
        let mut found: Vec<ArbitrageOpportunity> = Vec::new();
        let mut i: usize = 0;
        proof {
            assert(trade_views(found@) =~= Seq::empty());
        }
        while i < self.pairs.len()
            invariant
                i <= self.pairs@.len(),
                profits@.len() == self.pairs@.len(),
                stamps@.len() == self.pairs@.len(),
                self.trades(*books, available@, profits@, stamps@, self.pairs@.len()) is Some,
                self.trades(*books, available@, profits@, stamps@, i as nat) == Some(
                    trade_views(found@),
                ),
            decreases self.pairs@.len() - i,
        {
            proof {
                self.lemma_trades_prefix(
                    *books,
                    available@,
                    profits@,
                    stamps@,
                    (i + 1) as nat,
                    self.pairs@.len(),
                );
            }
            if let Some(trade) = self.detect_pair(
                &self.pairs[i],
                books,
                available,
                profits[i],
                stamps[i],
            ) {
                let ghost before = found@;
                found.push(trade);
                proof {
                    assert(trade_views(found@) =~= trade_views(before).push(trade@));
                }
            }
            i = i + 1;
        }
        found
    }
}

/// A trade on a pair is within the limits: it is no larger than the largest trade nor than what is
/// available, earns at least the least profit, and the prices are off by at least the least spread.
pub proof fn law_cross_trades_are_within_limits(
    strategy: CrossMarketArbitrage,
    pair: PairRecord,
    books: BookSet,
    available: int,
    profits: PairProfits,
    stamp: Stamp,
)
    requires
        strategy.pair_trade(pair, books, available, profits, stamp) matches Some(Some(_)),
    ensures
        ({
            let trade = strategy.pair_trade(pair, books, available, profits, stamp)->0->0;
            &&& trade.size <= strategy.max_trade_size@
            &&& trade.size <= available
            &&& trade.estimated_profit >= strategy.min_profit@
            &&& gap_bps(trade.spread)->0 >= strategy.min_spread_bps
        }),
{
}

/// The prices of a book's best levels lie between zero and one.
pub open spec fn is_priced(book: OrderBook) -> bool {
    &&& book.asks@.len() > 0 ==> 0 <= book.asks@[0].price@ <= unit()
    &&& book.bids@.len() > 0 ==> 0 <= book.bids@[0].price@ <= unit()
}

/// A gap is above zero and comes to the least spread, in basis points of one.
pub open spec fn is_wide(gap: int, min_spread_bps: u32) -> bool {
    gap > 0 && gap * 10000 >= min_spread_bps * unit()
}

/// A trade has two legs of one kind and size, one in each market of the pair, at the prices given.
pub open spec fn has_legs(
    trade: ArbitrageRecord,
    pair: PairRecord,
    operation: CrossMarketOp,
    size: int,
    prices_a: (int, int),
    prices_b: (int, int),
) -> bool {
    trade.execution_plan matches PlanRecord::CrossMarket { pair_id, leg_a, leg_b, amount } && {
        &&& pair_id == pair.pair_id
        &&& amount == size
        &&& leg_a.condition_id == pair.market_a.condition_id
        &&& leg_b.condition_id == pair.market_b.condition_id
        &&& leg_a.yes_token_id == pair.market_a.tokens[0].token_id
        &&& leg_a.no_token_id == pair.market_a.tokens[1].token_id
        &&& leg_b.yes_token_id == pair.market_b.tokens[0].token_id
        &&& leg_b.no_token_id == pair.market_b.tokens[1].token_id
        &&& leg_a.operation == operation && leg_b.operation == operation
        &&& leg_a.size == size && leg_b.size == size
        &&& (leg_a.yes_price, leg_a.no_price) == prices_a
        &&& (leg_b.yes_price, leg_b.no_price) == prices_b
    }
}

/// A number is the smallest of several.
pub open spec fn is_smallest(v: int, of: Seq<int>) -> bool {
    &&& of.contains(v)
    &&& forall|i: int| 0 <= i < of.len() ==> v <= #[trigger] of[i]
}

/// Where the YES prices of two markets should add up, both sides are bought and merged if the best asks
/// come to less by at least the least spread and that earns enough; and if that is not so, split and
/// sold if the best bids come to more by at least the least spread and that earns enough. As much is
/// traded as every best level offers, within the largest trade and the capital, at the prices of these
/// levels. Nothing else is ever proposed.
pub proof fn law_complementary_pair_is_traded_on_its_gap(
    strategy: CrossMarketArbitrage,
    pair: PairRecord,
    books: BookSet,
    available: int,
    profits: PairProfits,
    stamp: Stamp,
)
    requires
        strategy.pair_trade(pair, books, available, profits, stamp) is Some,
        pair.correlation is ComplementaryYes,
        books_of(pair, books) is Some,
        ({
            let b = books_of(pair, books)->0;
            is_priced(b.yes_a) && is_priced(b.no_a) && is_priced(b.yes_b) && is_priced(b.no_b)
        }),
        0 <= pair.expected_sum <= 2 * unit(),
        strategy.min_spread_bps <= 1_000_000,
    ensures
        ({
            let found = strategy.pair_trade(pair, books, available, profits, stamp)->0;
            let b = books_of(pair, books)->0;
            let (asks_a, other_asks_a) = (b.yes_a.asks@, b.no_a.asks@);
            let (asks_b, other_asks_b) = (b.yes_b.asks@, b.no_b.asks@);
            let (bids_a, other_bids_a) = (b.yes_a.bids@, b.no_a.bids@);
            let (bids_b, other_bids_b) = (b.yes_b.bids@, b.no_b.bids@);
            let asked = asks_a.len() > 0 && asks_b.len() > 0;
            let cheap = pair.expected_sum - (asks_a[0].price@ + asks_b[0].price@);
            let low = asked && is_wide(cheap, strategy.min_spread_bps);
            let quoted = other_asks_a.len() > 0 && other_asks_b.len() > 0;
            let buys = low && quoted && profits.buying@ >= strategy.min_profit@;
            let bid = bids_a.len() > 0 && bids_b.len() > 0;
            let dear = bids_a[0].price@ + bids_b[0].price@ - pair.expected_sum;
            let sells = asked && (low ==> quoted) && !buys && bid && is_wide(
                dear,
                strategy.min_spread_bps,
            ) && other_bids_a.len() > 0 && other_bids_b.len() > 0 && profits.selling@
                >= strategy.min_profit@;
            &&& found is Some <==> buys || sells
            &&& found is Some ==> found->0.condition_id == pair.pair_id && found->0.strategy_type
                == StrategyType::CrossMarket
            &&& buys ==> {
                let trade = found->0;
                &&& trade.spread == cheap
                &&& trade.estimated_profit == profits.buying@
                &&& is_smallest(
                    trade.size,
                    seq![
                        asks_a[0].size@,
                        asks_b[0].size@,
                        other_asks_a[0].size@,
                        other_asks_b[0].size@,
                        strategy.max_trade_size@,
                        available,
                    ],
                )
                &&& has_legs(
                    trade,
                    pair,
                    CrossMarketOp::BuyAndMerge,
                    trade.size,
                    (asks_a[0].price@, other_asks_a[0].price@),
                    (asks_b[0].price@, other_asks_b[0].price@),
                )
            }
            &&& sells ==> {
                let trade = found->0;
                &&& trade.spread == dear
                &&& trade.estimated_profit == profits.selling@
                &&& is_smallest(
                    trade.size,
                    seq![
                        bids_a[0].size@,
                        bids_b[0].size@,
                        other_bids_a[0].size@,
                        other_bids_b[0].size@,
                        strategy.max_trade_size@,
                        available,
                    ],
                )
                &&& has_legs(
                    trade,
                    pair,
                    CrossMarketOp::SplitAndSell,
                    trade.size,
                    (bids_a[0].price@, other_bids_a[0].price@),
                    (bids_b[0].price@, other_bids_b[0].price@),
                )
            }
        }),
{
    let b = books_of(pair, books)->0;
    let (x, y) = (b.yes_a.asks@[0].price@, b.yes_b.asks@[0].price@);
    let (v, w) = (b.yes_a.bids@[0].price@, b.yes_b.bids@[0].price@);
    let limit = strategy.size_limit(available);
    assert(pow10(0) == 1);
    if b.yes_a.asks@.len() > 0 && b.yes_b.asks@.len() > 0 {
        lemma_sum_close(x, y, 0);
        lemma_sum_close(pair.expected_sum, x + y, 0);
        lemma_gap_bps(pair.expected_sum - (x + y), strategy.min_spread_bps);
    }
    if b.yes_a.bids@.len() > 0 && b.yes_b.bids@.len() > 0 {
        lemma_sum_close(v, w, 0);
        lemma_sum_close(v + w, pair.expected_sum, 0);
        lemma_gap_bps(v + w - pair.expected_sum, strategy.min_spread_bps);
    }
    if let Some(trade) = strategy.pair_trade(pair, books, available, profits, stamp)->0 {
        lemma_smallest(
            b.yes_a.asks@[0].size@,
            b.yes_b.asks@[0].size@,
            b.no_a.asks@[0].size@,
            b.no_b.asks@[0].size@,
            strategy.max_trade_size@,
            available,
        );
        lemma_smallest(
            b.yes_a.bids@[0].size@,
            b.yes_b.bids@[0].size@,
            b.no_a.bids@[0].size@,
            b.no_b.bids@[0].size@,
            strategy.max_trade_size@,
            available,
        );
    }
}

/// Where the YES price of one market and the NO price of the other should add up, both are bought if
/// the best asks come to less by at least the least spread and that earns enough, as much as both
/// levels offer within the largest trade and the capital. Nothing else is ever proposed.
pub proof fn law_inverse_pair_is_bought_on_its_gap(
    strategy: CrossMarketArbitrage,
    pair: PairRecord,
    books: BookSet,
    available: int,
    profits: PairProfits,
    stamp: Stamp,
)
    requires
        strategy.pair_trade(pair, books, available, profits, stamp) is Some,
        pair.correlation is InverseYesNo,
        books_of(pair, books) is Some,
        is_priced(books_of(pair, books)->0.yes_a),
        is_priced(books_of(pair, books)->0.no_b),
        0 <= pair.expected_sum <= 2 * unit(),
        strategy.min_spread_bps <= 1_000_000,
    ensures
        ({
            let found = strategy.pair_trade(pair, books, available, profits, stamp)->0;
            let yes = books_of(pair, books)->0.yes_a.asks@;
            let no = books_of(pair, books)->0.no_b.asks@;
            let cheap = pair.expected_sum - (yes[0].price@ + no[0].price@);
            &&& found is Some <==> yes.len() > 0 && no.len() > 0 && is_wide(
                cheap,
                strategy.min_spread_bps,
            ) && profits.buying@ >= strategy.min_profit@
            &&& found matches Some(trade) ==> {
                &&& trade.condition_id == pair.pair_id
                &&& trade.strategy_type == StrategyType::CrossMarket
                &&& trade.spread == cheap
                &&& trade.estimated_profit == profits.buying@
                &&& is_smallest(
                    trade.size,
                    seq![
                        yes[0].size@,
                        no[0].size@,
                        yes[0].size@,
                        no[0].size@,
                        strategy.max_trade_size@,
                        available,
                    ],
                )
                &&& has_legs(
                    trade,
                    pair,
                    CrossMarketOp::BuyAndMerge,
                    trade.size,
                    (yes[0].price@, no[0].price@),
                    (no[0].price@, yes[0].price@),
                )
            }
        }),
{
    let b = books_of(pair, books)->0;
    let (x, y) = (b.yes_a.asks@[0].price@, b.no_b.asks@[0].price@);
    assert(pow10(0) == 1);
    if b.yes_a.asks@.len() > 0 && b.no_b.asks@.len() > 0 {
        lemma_sum_close(x, y, 0);
        lemma_sum_close(pair.expected_sum, x + y, 0);
        lemma_gap_bps(pair.expected_sum - (x + y), strategy.min_spread_bps);
        lemma_smallest(
            b.yes_a.asks@[0].size@,
            b.no_b.asks@[0].size@,
            b.yes_a.asks@[0].size@,
            b.no_b.asks@[0].size@,
            strategy.max_trade_size@,
            available,
        );
    }
}

/// A pair is passed over where one of its markets has not two tokens or one of its four sides no book.
pub proof fn law_pair_without_books_is_passed_over(
    strategy: CrossMarketArbitrage,
    pair: PairRecord,
    books: BookSet,
    available: int,
    profits: PairProfits,
    stamp: Stamp,
)
    ensures
        ({
            let (a, b) = (pair.market_a.tokens, pair.market_b.tokens);
            let complete = a.len() == 2 && b.len() == 2 && books.book(a[0].token_id) is Some
                && books.book(a[1].token_id) is Some && books.book(b[0].token_id) is Some
                && books.book(b[1].token_id) is Some;
            &&& !complete ==> strategy.pair_trade(pair, books, available, profits, stamp) == Some(
                None::<ArbitrageRecord>,
            )
            &&& complete ==> books_of(pair, books) == Some(
                PairBooks {
                    yes_a: books.book(a[0].token_id)->0,
                    no_a: books.book(a[1].token_id)->0,
                    yes_b: books.book(b[0].token_id)->0,
                    no_b: books.book(b[1].token_id)->0,
                },
            )
        }),
{
}

proof fn lemma_gap_bps(gap: int, min_spread_bps: u32)
    requires
        -7 * unit() <= gap <= 7 * unit(),
        min_spread_bps <= 1_000_000,
    ensures
        gap > 0 ==> gap_bps(gap) is Some && (gap_bps(gap)->0 < min_spread_bps <==> gap * 10000
            < min_spread_bps * unit()),
{
    if gap > 0 {
        let v = gap * 10000;
        let u = unit();
        lemma_pow10_unit();
        assert(pow10(24) * 10000 == u && pow10(4) == 10000) by {
            reveal_with_fuel(pow10, 25);
        }
        assert(written_as(v, gap, 24));
        let w = whole(10000);
        assert(gap * w == v * u) by (nonlinear_arith)
            requires
                v == gap * 10000,
                w == 10000 * u,
        ;
        law_arithmetic_is_exact(gap, whole(10000), v);
        let n = v / u;
        vstd::arithmetic::div_mod::lemma_fundamental_div_mod(v, u);
        assert(n <= 70000) by (nonlinear_arith)
            requires
                v == u * n + v % u,
                0 <= v % u,
                v <= 70000 * u,
                u > 0,
        ;
        assert(n < min_spread_bps <==> v < min_spread_bps * u) by (nonlinear_arith)
            requires
                v == u * n + v % u,
                0 <= v % u < u,
                u > 0,
        ;
    }
}

proof fn lemma_smallest(a: int, b: int, c: int, d: int, e: int, f: int)
    ensures
        is_smallest(
            lesser(lesser(lesser(lesser(a, b), c), d), lesser(e, f)),
            seq![a, b, c, d, e, f],
        ),
        c == a && d == b ==> is_smallest(
            lesser(lesser(a, b), lesser(e, f)),
            seq![a, b, c, d, e, f],
        ),
{
    let of = seq![a, b, c, d, e, f];
    assert(of[0] == a && of[1] == b && of[2] == c && of[3] == d && of[4] == e && of[5] == f);
}

/// Two markets make a pair exactly where both are active, have two tokens and are no part of a larger
/// event, are not the same, and more than six in ten of the words of their questions are in both.
pub proof fn law_pairs_share_their_words(a: MarketInfo, b: MarketInfo)
    requires
        word_set(a.question@).union(word_set(b.question@)).len() <= 1_000_000_000,
        word_set(a.question@).intersect(word_set(b.question@)).len() <= word_set(
            a.question@,
        ).union(word_set(b.question@)).len(),
    ensures
        make_pair(a, b) <==> {
            let both = word_set(a.question@).intersect(word_set(b.question@)).len();
            let all = word_set(a.question@).union(word_set(b.question@)).len();
            &&& a.active && b.active
            &&& !a.neg_risk && !b.neg_risk
            &&& a.tokens@.len() == 2 && b.tokens@.len() == 2
            &&& a.condition_id@ != b.condition_id@
            &&& 10 * both > 6 * all
        },
{
    let u = unit();
    let both = word_set(a.question@).intersect(word_set(b.question@)).len() as int;
    let all = word_set(a.question@).union(word_set(b.question@)).len() as int;
    lemma_pow10_unit();
    assert(10 * pow10(27) == u) by {
        lemma_pow10_sum(1, 27);
        assert(pow10(1) == 10) by {
            reveal_with_fuel(pow10, 2);
        }
    }
    let share = alike_share();
    assert(10 * share == 6 * u);
    assert(representable(share)) by {
        assert(written_as(share, 6, 1));
    }
    if all > 0 {
        let (x, y) = (whole(both), whole(all));
        assert(x == both * u && y == all * u);
        assert(y > 0 && x <= 7 * 1 * y && x >= 0) by (nonlinear_arith)
            requires
                x == both * u,
                y == all * u,
                0 <= both <= all,
                all > 0,
                u > 0,
        ;
        lemma_quotient_close(x, y, 0);
        law_arithmetic_keeps_order(x, y, share);
        let q = quotient(x, y)->0;
        assert(10 * both <= 6 * all ==> x * u <= share * y) by (nonlinear_arith)
            requires
                x == both * u,
                y == all * u,
                10 * share == 6 * u,
                u > 0,
        {
            if 10 * both <= 6 * all {
                assert((10 * both) * (u * u) <= (6 * all) * (u * u));
                assert(10 * (x * u) == (10 * both) * (u * u));
                assert(10 * (share * y) == (6 * all) * (u * u));
            }
        }
        assert(10 * both > 6 * all ==> q > share) by (nonlinear_arith)
            requires
                x == both * u,
                y == all * u,
                10 * share == 6 * u,
                2 * (x * u - q * y) <= 1 * y,
                0 < all <= 1_000_000_000,
                u > 10_000_000_000,
        {
            if 10 * both > 6 * all && q <= share {
                assert(q * y <= share * y);
                assert(10 * (share * y) == (6 * all) * (u * u));
                assert(10 * (x * u) == (10 * both) * (u * u));
                assert((10 * both - 6 * all) * (u * u) >= u * u);
                assert(20 * (x * u - q * y) >= 2 * (u * u));
                assert(10 * y == (10 * all) * u);
                assert((10 * all) * u <= 10_000_000_000 * u);
                assert(10_000_000_000 * u < u * u);
            }
        }
    } else {
        assert(both == 0);
    }
}

} // verus!
