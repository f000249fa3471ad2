//! Markets, order books and orders.
use crate::decimal::Decimal;
use vstd::prelude::*;

verus! {

use crate::rounding::{
    at_most, close, lemma_even_sum, lemma_pow10_below_unit, lemma_pow10_positive,
    lemma_product_close, lemma_quotient_close, lemma_sum_close, magnitude, minus, over, plus, pow10,
    product, times, unit, MAX_MANTISSA,
};
use crate::text::decimal_text;

/// Nanoseconds in a day.
pub const DAY: i128 = 86_400_000_000_000;

/// A 256-bit token identifier.
#[derive(Clone, Copy, Debug, PartialEq, Eq, Structural)]
pub struct U256 {
    pub high: u128,
    pub low: u128,
}

impl U256 {
    pub fn from_u64(n: u64) -> (r: U256)
        ensures
            r == (U256 { high: 0, low: n as u128 }),
    {
        U256 { high: 0, low: n as u128 }
    }
}

/// The number that an identifier is.
pub open spec fn number_of(id: U256) -> nat {
    (id.high * 0x1_0000_0000_0000_0000_0000_0000_0000_0000 + id.low) as nat
}

impl U256 {
    /// The `Display` of `alloy::primitives::U256`: the number in decimal digits.
    #[verifier::external_body]
    pub(crate) fn outside_text(self) -> (r: String)
        ensures
            r@ == decimal_text(number_of(self)),
    {
        let bytes = [self.high.to_be_bytes(), self.low.to_be_bytes()].concat();
        alloy::primitives::U256::from_be_slice(&bytes).to_string()
    }
}

impl crate::keyed::Key for U256 {
    type Id = U256;

    open spec fn id(&self) -> U256 {
        *self
    }

    fn same(&self, other: &U256) -> (r: bool) {
        *self == *other
    }
}

/// A 32-byte identifier of a condition, an event or a pair.
#[derive(Clone, Copy, Debug)]
pub struct B256 {
    pub bytes: [u8; 32],
}

impl View for B256 {
    type V = Seq<u8>;

    open spec fn view(&self) -> Seq<u8> {
        self.bytes@
    }
}

/// The identifier whose bytes are all zero.
pub open spec fn zero_id() -> Seq<u8> {
    Seq::new(32, |i: int| 0u8)
}

impl B256 {
    pub fn zero() -> (r: B256)
        ensures
            r@ == zero_id(),
    {
        let r = B256 { bytes: [0u8; 32] };
        proof {
            assert(r@ =~= zero_id());
        }
        r
    }
}

impl B256 {
    /// Whether the bytes are the same.
    pub fn same_bytes(&self, other: &B256) -> (r: bool)
        ensures
            r == (self@ == other@),
    {
        let mut i: usize = 0;
        while i < 32
            invariant
                i <= 32,
                forall|j: int| 0 <= j < i ==> #[trigger] self.bytes@[j] == other.bytes@[j],
            decreases 32 - i,
        {
            if self.bytes[i] != other.bytes[i] {
                return false;
            }
            i = i + 1;
        }
        proof {
            assert(self.bytes@ =~= other.bytes@);
        }
        true
    }
}

impl PartialEq for B256 {
    fn eq(&self, other: &B256) -> (r: bool) {
        self.same_bytes(other)
    }
}

impl Eq for B256 {

}

impl vstd::std_specs::cmp::PartialEqSpecImpl for B256 {
    open spec fn obeys_eq_spec() -> bool {
        true
    }

    open spec fn eq_spec(&self, other: &B256) -> bool {
        self@ == other@
    }
}

#[derive(Clone, Copy, Debug, PartialEq, Eq, Structural)]
pub enum Outcome {
    Yes,
    No,
}

#[derive(Clone, Copy, Debug, PartialEq, Eq, Structural)]
pub enum TradeSide {
    Buy,
    Sell,
}

#[derive(Clone, Copy, Debug, PartialEq, Eq, Structural)]
pub enum StrategyType {
    YesNoMerge,
    NegRiskConvert,
    CrossMarket,
    ResolutionConvergence,
    LiquidityRewards,
    WeatherAlpha,
    CryptoAlpha,
}

#[derive(Clone, Copy, Debug, PartialEq, Eq, Structural)]
pub struct TokenInfo {
    pub token_id: U256,
    pub outcome: Outcome,
    pub complement_id: U256,
}

/// A market with its tokens, YES first.
#[derive(Debug)]
pub struct MarketInfo {
    pub condition_id: B256,
    pub question: String,
    pub neg_risk: bool,
    pub tokens: Vec<TokenInfo>,
    pub fee_rate_bps: u32,
    pub active: bool,
    pub liquidity: Decimal,
    pub event_title: Option<String>,
    /// When trading ends, in nanoseconds since 1970.
    pub end_date: Option<i128>,
    pub rewards_min_size: Option<Decimal>,
    pub rewards_max_spread: Option<Decimal>,
    pub rewards_daily_rate: Option<Decimal>,
}

/// What a market record says.
#[verifier::ext_equal]
pub struct MarketRecord {
    pub condition_id: Seq<u8>,
    pub question: Seq<char>,
    pub neg_risk: bool,
    pub tokens: Seq<TokenInfo>,
    pub fee_rate_bps: u32,
    pub active: bool,
    pub liquidity: Decimal,
    pub event_title: Option<Seq<char>>,
    pub end_date: Option<i128>,
    pub rewards_min_size: Option<Decimal>,
    pub rewards_max_spread: Option<Decimal>,
    pub rewards_daily_rate: Option<Decimal>,
}

pub open spec fn text_of(s: Option<String>) -> Option<Seq<char>> {
    match s {
        Some(t) => Some(t@),
        None => None,
    }
}

impl View for MarketInfo {
    type V = MarketRecord;

    open spec fn view(&self) -> MarketRecord {
        MarketRecord {
            condition_id: self.condition_id@,
            question: self.question@,
            neg_risk: self.neg_risk,
            tokens: self.tokens@,
            fee_rate_bps: self.fee_rate_bps,
            active: self.active,
            liquidity: self.liquidity,
            event_title: text_of(self.event_title),
            end_date: self.end_date,
            rewards_min_size: self.rewards_min_size,
            rewards_max_spread: self.rewards_max_spread,
            rewards_daily_rate: self.rewards_daily_rate,
        }
    }
}

/// What the records of several markets say.
pub open spec fn market_views(markets: Seq<MarketInfo>) -> Seq<MarketRecord> {
    markets.map_values(|m: MarketInfo| m@)
}

/// A copy of an optional text.
pub fn copy_text(s: &Option<String>) -> (r: Option<String>)
    ensures
        text_of(r) == text_of(*s),
{
    match s {
        Some(t) => Some(t.clone()),
        None => None,
    }
}

/// A copy of a list of tokens.
fn copy_tokens(tokens: &Vec<TokenInfo>) -> (r: Vec<TokenInfo>)
    ensures
        r@ == tokens@,
{
    let mut r: Vec<TokenInfo> = Vec::new();
    let mut i: usize = 0;
    while i < tokens.len()
        invariant
            i <= tokens@.len(),
            r@ == tokens@.take(i as int),
        decreases tokens@.len() - i,
    {
        r.push(tokens[i]);
        i = i + 1;
        proof {
            assert(tokens@.take(i as int) =~= tokens@.take(i - 1).push(tokens@[i - 1]));
        }
    }
    proof {
        assert(tokens@.take(i as int) =~= tokens@);
    }
    r
}

impl Clone for MarketInfo {
    fn clone(&self) -> (r: MarketInfo)
        ensures
            r@ == self@,
    {
        MarketInfo {
            condition_id: self.condition_id,
            question: self.question.clone(),
            neg_risk: self.neg_risk,
            tokens: copy_tokens(&self.tokens),
            fee_rate_bps: self.fee_rate_bps,
            active: self.active,
            liquidity: self.liquidity,
            event_title: copy_text(&self.event_title),
            end_date: self.end_date,
            rewards_min_size: self.rewards_min_size,
            rewards_max_spread: self.rewards_max_spread,
            rewards_daily_rate: self.rewards_daily_rate,
        }
    }
}

/// The token is one of the market's.
pub open spec fn holds_token(tokens: Seq<TokenInfo>, token_id: U256) -> bool {
    exists|i: int| 0 <= i < tokens.len() && (#[trigger] tokens[i]).token_id == token_id
}

/// The map with the tokens of a market standing for a value.
pub open spec fn with_tokens<V>(m: Map<U256, V>, tokens: Seq<TokenInfo>, v: V) -> Map<U256, V> {
    m.union_prefer_right(Map::new(|t: U256| holds_token(tokens, t), |t: U256| v))
}

/// One more token adds one more entry.
pub proof fn lemma_with_tokens<V>(m: Map<U256, V>, tokens: Seq<TokenInfo>, v: V, i: int)
    requires
        0 <= i < tokens.len(),
    ensures
        with_tokens(m, tokens.take(i + 1), v) == with_tokens(m, tokens.take(i), v).insert(
            tokens[i].token_id,
            v,
        ),
{
    let now = tokens.take(i + 1);
    let earlier = tokens.take(i);
    let id = tokens[i].token_id;
    assert forall|t: U256| #[trigger] holds_token(now, t) == (holds_token(earlier, t) || t
        == id) by {
        if holds_token(earlier, t) {
            let k = choose|k: int| 0 <= k < earlier.len() && (#[trigger] earlier[k]).token_id == t;
            assert(now[k].token_id == t);
        }
        assert(now[i].token_id == id);
        if holds_token(now, t) && t != id {
            let k = choose|k: int| 0 <= k < now.len() && (#[trigger] now[k]).token_id == t;
            assert(earlier[k].token_id == t);
        }
    }
    assert(with_tokens(m, now, v) =~= with_tokens(m, earlier, v).insert(id, v));
}

/// The place of the last market that the token is one of.
pub open spec fn market_with(markets: Seq<MarketInfo>, token_id: U256) -> Option<int>
    decreases markets.len(),
{
    if markets.len() == 0 {
        None
    } else if holds_token(markets.last().tokens@, token_id) {
        Some(markets.len() - 1)
    } else {
        market_with(markets.drop_last(), token_id)
    }
}

impl MarketInfo {
    /// Whether the token is one of the market's.
    pub fn holds(&self, token_id: U256) -> (r: bool)
        ensures
            r == holds_token(self.tokens@, token_id),
    {
        let mut i: usize = 0;
        while i < self.tokens.len()
            invariant
                i <= self.tokens@.len(),
                forall|j: int| 0 <= j < i ==> (#[trigger] self.tokens@[j]).token_id != token_id,
            decreases self.tokens@.len() - i,
        {
            if self.tokens[i].token_id == token_id {
                return true;
            }
            i = i + 1;
        }
        false
    }
}

/// The place of the last market that the token is one of.
pub fn find_market(markets: &Vec<MarketInfo>, token_id: U256) -> (r: Option<usize>)
    ensures
        market_with(markets@, token_id) == (match r {
            Some(i) => Some(i as int),
            None => None,
        }),
        r is Some ==> r->0 < markets@.len(),
{
    let mut n: usize = markets.len();
    proof {
        assert(markets@.take(n as int) =~= markets@);
    }
    while n > 0
        invariant
            n <= markets@.len(),
            market_with(markets@, token_id) == market_with(markets@.take(n as int), token_id),
        decreases n,
    {
        proof {
            assert(markets@.take(n as int).last() == markets@[n - 1]);
            assert(markets@.take(n as int).drop_last() =~= markets@.take(n - 1));
        }
        if markets[n - 1].holds(token_id) {
            return Some(n - 1);
        }
        n = n - 1;
    }
    None
}

/// A question with several outcomes, each a market of its own.
#[derive(Debug)]
pub struct NegRiskEvent {
    pub neg_risk_market_id: B256,
    pub title: String,
    pub markets: Vec<MarketInfo>,
    pub fee_rate_bps: u32,
}

/// Binary markets that one event title gathers.
#[derive(Debug)]
pub struct BinaryEventGroup {
    pub title: String,
    pub markets: Vec<MarketInfo>,
}

#[derive(Clone, Copy, Debug)]
pub struct PriceLevel {
    pub price: Decimal,
    pub size: Decimal,
}

/// The resting orders for one token, on each side the best price first.
#[derive(Debug)]
pub struct OrderBook {
    pub token_id: U256,
    pub bids: Vec<PriceLevel>,
    pub asks: Vec<PriceLevel>,
}

/// What an order that takes from the best level on would get.
#[derive(Clone, Copy, Debug)]
pub struct BookWalk {
    pub filled: Decimal,
    pub avg_price: Decimal,
    pub worst_price: Decimal,
}

/// The level can serve an order on `side` that is limited to `limit`.
pub open spec fn within_limit(side: TradeSide, price: int, limit: int) -> bool {
    match side {
        TradeSide::Buy => price <= limit,
        TradeSide::Sell => price >= limit,
    }
}

/// How much the first `n` levels offer an order on `side` at `limit` or better.
pub open spec fn depth_within(
    levels: Seq<PriceLevel>,
    side: TradeSide,
    limit: int,
    n: nat,
) -> Option<int>
    decreases n,
{
    if n == 0 {
        Some(0)
    } else {
        let before = depth_within(levels, side, limit, (n - 1) as nat);
        let level = levels[n - 1];
        if within_limit(side, level.price@, limit) {
            plus(before, Some(level.size@))
        } else {
            before
        }
    }
}

/// What an order has got after the first `n` levels: how much is filled, what it cost, and the
/// price of the last level that it took from.
pub struct WalkState {
    pub filled: int,
    pub cost: int,
    pub worst: int,
}

pub open spec fn walked(levels: Seq<PriceLevel>, size: int, n: nat) -> Option<WalkState>
    decreases n,
{
    if n == 0 {
        Some(WalkState { filled: 0, cost: 0, worst: 0 })
    } else {
        match walked(levels, size, (n - 1) as nat) {
            None => None,
            Some(s) => if s.filled >= size {
                Some(s)
            } else {
                let level = levels[n - 1];
                let take = at_most(minus(Some(size), Some(s.filled)), Some(level.size@));
                let filled = plus(Some(s.filled), take);
                let cost = plus(Some(s.cost), times(Some(level.price@), take));
                if take is Some && filled is Some && cost is Some {
                    Some(WalkState { filled: filled->0, cost: cost->0, worst: level.price@ })
                } else {
                    None
                }
            },
        }
    }
}

pub open spec fn levels_for(book: OrderBook, side: TradeSide) -> Seq<PriceLevel> {
    match side {
        TradeSide::Buy => book.asks@,
        TradeSide::Sell => book.bids@,
    }
}

/// How much the book offers an order on `side` at `limit` or better.
pub open spec fn depth_of(book: OrderBook, side: TradeSide, limit: int) -> Option<int> {
    let levels = levels_for(book, side);
    depth_within(levels, side, limit, levels.len())
}

/// The outcome of taking `size` from the book, level by level.
pub open spec fn walk_of(book: OrderBook, side: TradeSide, size: int) -> Option<WalkState> {
    let levels = levels_for(book, side);
    walked(levels, size, levels.len())
}

impl OrderBook {
    pub fn best_bid(&self) -> (r: Option<PriceLevel>)
        ensures
            r == (if self.bids@.len() > 0 {
                Some(self.bids@[0])
            } else {
                None
            }),
    {
        if self.bids.len() > 0 {
            Some(self.bids[0])
        } else {
            None
        }
    }

    pub fn best_ask(&self) -> (r: Option<PriceLevel>)
        ensures
            r == (if self.asks@.len() > 0 {
                Some(self.asks@[0])
            } else {
                None
            }),
    {
        if self.asks.len() > 0 {
            Some(self.asks[0])
        } else {
            None
        }
    }

    /// How much the book offers an order on `side` at `limit` or better.
    pub fn available_depth(&self, side: TradeSide, limit: Decimal) -> (r: Decimal)
        requires
            depth_of(*self, side, limit@) is Some,
        ensures
            depth_of(*self, side, limit@) == Some(r@),
    {
        let levels: &Vec<PriceLevel> = match side {
            TradeSide::Buy => &self.asks,
            TradeSide::Sell => &self.bids,
        };
        let mut total = Decimal::zero();
        let mut i: usize = 0;
        while i < levels.len()
            invariant
                i <= levels@.len(),
                depth_within(levels@, side, limit@, levels@.len()) is Some,
                depth_within(levels@, side, limit@, i as nat) == Some(total@),
            decreases levels@.len() - i,
        {
            proof {
                lemma_depth_prefix(levels@, side, limit@, (i + 1) as nat, levels@.len());
            }
            let level = levels[i];
            let within = match side {
                TradeSide::Buy => level.price <= limit,
                TradeSide::Sell => level.price >= limit,
            };
            if within {
                total = total + level.size;
            }
            i = i + 1;
        }
        total
    }

    /// What an order for `size` would get, taking from the best level on; none where it would get
    /// nothing.
    pub fn walk_book(&self, side: TradeSide, size: Decimal) -> (r: Option<BookWalk>)
        requires
            walk_result(*self, side, size@) is Some,
        ensures
            walk_result(*self, side, size@) == Some(walk_figures(r)),
    {
        let levels: &Vec<PriceLevel> = match side {
            TradeSide::Buy => &self.asks,
            TradeSide::Sell => &self.bids,
        };
        let mut filled = Decimal::zero();
        let mut cost = Decimal::zero();
        let mut worst = Decimal::zero();
        let mut i: usize = 0;
        while i < levels.len()
            invariant
                i <= levels@.len(),
                walked(levels@, size@, levels@.len()) is Some,
                walked(levels@, size@, i as nat) == Some(
                    (WalkState { filled: filled@, cost: cost@, worst: worst@ }),
                ),
            decreases levels@.len() - i,
        {
            proof {
                lemma_walk_prefix(levels@, size@, (i + 1) as nat, levels@.len());
            }
            if filled < size {
                let level = levels[i];
                let take = (size - filled).min(level.size);
                filled = filled + take;
                cost = cost + level.price * take;
                worst = level.price;
            }
            i = i + 1;
        }
        if filled > Decimal::zero() {
            Some(BookWalk { filled, avg_price: cost / filled, worst_price: worst })
        } else {
            None
        }
    }
}

proof fn lemma_depth_prefix(
    levels: Seq<PriceLevel>,
    side: TradeSide,
    limit: int,
    k: nat,
    n: nat,
)
    requires
        k <= n,
        depth_within(levels, side, limit, n) is Some,
    ensures
        depth_within(levels, side, limit, k) is Some,
    decreases n,
{
    if k < n {
        lemma_depth_prefix(levels, side, limit, k, (n - 1) as nat);
    }
}

proof fn lemma_walk_prefix(levels: Seq<PriceLevel>, size: int, k: nat, n: nat)
    requires
        k <= n,
        walked(levels, size, n) is Some,
    ensures
        walked(levels, size, k) is Some,
    decreases n,
{
    if k < n {
        lemma_walk_prefix(levels, size, k, (n - 1) as nat);
    }
}

/// The figures of a walk.
pub struct WalkFigures {
    pub filled: int,
    pub avg_price: int,
    pub worst_price: int,
}

pub open spec fn walk_figures(walk: Option<BookWalk>) -> Option<WalkFigures> {
    match walk {
        Some(w) => Some(
            WalkFigures {
                filled: w.filled@,
                avg_price: w.avg_price@,
                worst_price: w.worst_price@,
            },
        ),
        None => None,
    }
}

/// The figures of taking `size` from the book, `Some(None)` where nothing is filled.
pub open spec fn walk_result(
    book: OrderBook,
    side: TradeSide,
    size: int,
) -> Option<Option<WalkFigures>> {
    match walk_of(book, side, size) {
        None => None,
        Some(s) => if s.filled > 0 {
            match over(Some(s.cost), Some(s.filled)) {
                None => None,
                Some(avg) => Some(
                    Some(WalkFigures { filled: s.filled, avg_price: avg, worst_price: s.worst }),
                ),
            }
        } else {
            Some(None)
        },
    }
}

/// The books at hand, one for a token.
#[derive(Debug)]
pub struct BookSet {
    pub books: Vec<OrderBook>,
}

/// The first book for the token.
pub open spec fn book_for(books: Seq<OrderBook>, token_id: U256) -> Option<OrderBook>
    decreases books.len(),
{
    if books.len() == 0 {
        None
    } else if books[0].token_id == token_id {
        Some(books[0])
    } else {
        book_for(books.drop_first(), token_id)
    }
}

impl BookSet {
    pub open spec fn book(&self, token_id: U256) -> Option<OrderBook> {
        book_for(self.books@, token_id)
    }

    /// The book for a token, if there is one.
    pub fn get(&self, token_id: U256) -> (r: Option<&OrderBook>)
        ensures
            self.book(token_id) == (match r {
                Some(b) => Some(*b),
                None => None,
            }),
    {
        let mut i: usize = 0;
        proof {
            assert(self.books@.subrange(0, self.books@.len() as int) =~= self.books@);
        }
        while i < self.books.len()
            invariant
                i <= self.books@.len(),
                book_for(self.books@, token_id) == book_for(
                    self.books@.subrange(i as int, self.books@.len() as int),
                    token_id,
                ),
            decreases self.books@.len() - i,
        {
            proof {
                let rest = self.books@.subrange(i as int, self.books@.len() as int);
                assert(rest[0] == self.books@[i as int]);
                assert(rest.drop_first() =~= self.books@.subrange(i + 1, self.books@.len() as int));
            }
            if self.books[i].token_id == token_id {
                return Some(&self.books[i]);
            }
            i = i + 1;
        }
        None
    }
}

/// An order for one token at a limit price.
#[derive(Clone, Copy, Debug)]
pub struct DirectionalBuy {
    pub token_id: U256,
    pub side: TradeSide,
    pub price: Decimal,
    pub size: Decimal,
    pub condition_id: B256,
}

/// What marks an opportunity: an identifier and the moment it was seen, in milliseconds since the
/// epoch.
#[derive(Clone, Copy, Debug, PartialEq, Eq, Structural)]
pub struct Stamp {
    pub id: u128,
    pub detected_at: i64,
}

/// A trade that a strategy proposes, with what it asks of its execution.
#[derive(Debug)]
pub struct TradingOpportunity {
    pub stamp: Stamp,
    pub strategy_type: StrategyType,
    pub condition_id: B256,
    pub question: String,
    pub spread: Decimal,
    pub estimated_profit: Decimal,
    pub size: Decimal,
    pub min_profit_retention_ratio_multiplier: Option<Decimal>,
    pub max_slippage_bps_multiplier: Option<Decimal>,
    pub min_size_retention_ratio_multiplier: Option<Decimal>,
    pub execution_plan: DirectionalBuy,
}

/// What an order says.
pub struct OrderRecord {
    pub token_id: U256,
    pub side: TradeSide,
    pub price: int,
    pub size: int,
    pub condition_id: Seq<u8>,
}

/// What a proposed trade says.
pub struct OpportunityRecord {
    pub stamp: Stamp,
    pub strategy_type: StrategyType,
    pub condition_id: Seq<u8>,
    pub question: Seq<char>,
    pub spread: int,
    pub estimated_profit: int,
    pub size: int,
    pub min_profit_retention_ratio_multiplier: Option<int>,
    pub max_slippage_bps_multiplier: Option<int>,
    pub min_size_retention_ratio_multiplier: Option<int>,
    pub execution_plan: OrderRecord,
}

/// The figure in an optional decimal.
pub open spec fn figure(v: Option<Decimal>) -> Option<int> {
    match v {
        Some(d) => Some(d@),
        None => None,
    }
}

impl View for DirectionalBuy {
    type V = OrderRecord;

    open spec fn view(&self) -> OrderRecord {
        OrderRecord {
            token_id: self.token_id,
            side: self.side,
            price: self.price@,
            size: self.size@,
            condition_id: self.condition_id@,
        }
    }
}

impl View for TradingOpportunity {
    type V = OpportunityRecord;

    open spec fn view(&self) -> OpportunityRecord {
        OpportunityRecord {
            stamp: self.stamp,
            strategy_type: self.strategy_type,
            condition_id: self.condition_id@,
            question: self.question@,
            spread: self.spread@,
            estimated_profit: self.estimated_profit@,
            size: self.size@,
            min_profit_retention_ratio_multiplier: figure(
                self.min_profit_retention_ratio_multiplier,
            ),
            max_slippage_bps_multiplier: figure(self.max_slippage_bps_multiplier),
            min_size_retention_ratio_multiplier: figure(self.min_size_retention_ratio_multiplier),
            execution_plan: self.execution_plan@,
        }
    }
}

impl DirectionalBuy {
    /// What the order costs if it is filled at its limit.
    pub open spec fn cost(&self) -> Option<int> {
        times(Some(self.price@), Some(self.size@))
    }

    pub fn estimated_cost(&self) -> (r: Decimal)
        requires
            self.cost() is Some,
        ensures
            self.cost() == Some(r@),
    {
        self.price * self.size
    }
}

/// What the first `n` asks offer at the limit or below it.
pub open spec fn offered_up_to(asks: Seq<PriceLevel>, limit: int, n: nat) -> int
    decreases n,
{
    if n == 0 {
        0
    } else {
        offered_up_to(asks, limit, (n - 1) as nat) + if asks[n - 1].price@ <= limit {
            asks[n - 1].size@
        } else {
            0
        }
    }
}

/// What the first `n` bids take at the limit or above it.
pub open spec fn offered_down_to(bids: Seq<PriceLevel>, limit: int, n: nat) -> int
    decreases n,
{
    if n == 0 {
        0
    } else {
        offered_down_to(bids, limit, (n - 1) as nat) + if bids[n - 1].price@ >= limit {
            bids[n - 1].size@
        } else {
            0
        }
    }
}

/// A buyer finds what the asks at the limit or below it offer, and a seller what the bids at the limit
/// or above it take, up to the rounding of the last digits.
pub proof fn law_depth_is_what_the_levels_offer(
    book: OrderBook,
    side: TradeSide,
    limit: int,
    k: nat,
)
    requires
        k <= 28,
        levels_for(book, side).len() <= u64::MAX,
        forall|i: int| 0 <= i < levels_for(book, side).len() ==> 0 <= (#[trigger] levels_for(book, side)[i]).size@,
        offered_up_to(book.asks@, limit, book.asks@.len()) <= 6 * pow10(k) * unit(),
        offered_down_to(book.bids@, limit, book.bids@.len()) <= 6 * pow10(k) * unit(),
    ensures
        depth_of(book, side, limit) is Some,
        ({
            let offered = match side {
                TradeSide::Buy => offered_up_to(book.asks@, limit, book.asks@.len()),
                TradeSide::Sell => offered_down_to(book.bids@, limit, book.bids@.len()),
            };
            let found = depth_of(book, side, limit)->0;
            &&& magnitude(found - offered) <= levels_for(book, side).len() * pow10(k)
            &&& k == 0 ==> found == offered
        }),
{
    let levels = levels_for(book, side);
    lemma_pow10_below_unit(k);
    lemma_depth(levels, side, limit, levels.len(), k);
}

spec fn offered(levels: Seq<PriceLevel>, side: TradeSide, limit: int, n: nat) -> int {
    match side {
        TradeSide::Buy => offered_up_to(levels, limit, n),
        TradeSide::Sell => offered_down_to(levels, limit, n),
    }
}

proof fn lemma_offered_grows(
    levels: Seq<PriceLevel>,
    side: TradeSide,
    limit: int,
    m: nat,
    n: nat,
)
    requires
        m <= n <= levels.len(),
        forall|i: int| 0 <= i < levels.len() ==> 0 <= (#[trigger] levels[i]).size@,
    ensures
        0 <= offered(levels, side, limit, m) <= offered(levels, side, limit, n),
    decreases n,
{
    if m < n {
        lemma_offered_grows(levels, side, limit, m, (n - 1) as nat);
        assert(levels[n - 1].size@ >= 0);
    } else if n > 0 {
        lemma_offered_grows(levels, side, limit, (n - 1) as nat, (n - 1) as nat);
        assert(levels[n - 1].size@ >= 0);
    }
}

proof fn lemma_depth(levels: Seq<PriceLevel>, side: TradeSide, limit: int, n: nat, k: nat)
    requires
        k <= 28,
        n <= levels.len() <= u64::MAX,
        forall|i: int| 0 <= i < levels.len() ==> 0 <= (#[trigger] levels[i]).size@,
        offered(levels, side, limit, n) <= 6 * pow10(k) * unit(),
    ensures
        depth_within(levels, side, limit, n) is Some,
        magnitude(depth_within(levels, side, limit, n)->0 - offered(levels, side, limit, n)) <= n
            * pow10(k),
        k == 0 ==> depth_within(levels, side, limit, n)->0 == offered(levels, side, limit, n),
    decreases n,
{
    let p = pow10(k);
    lemma_pow10_below_unit(k);
    if n > 0 {
        let m = (n - 1) as nat;
        lemma_offered_grows(levels, side, limit, m, n);
        lemma_depth(levels, side, limit, m, k);
        let before = depth_within(levels, side, limit, m)->0;
        let size = levels[n - 1].size@;
        assert(m * p <= p * unit() && n * p == m * p + p && m * p >= 0) by (nonlinear_arith)
            requires
                0 <= m <= unit(),
                n == m + 1,
                p > 0,
        ;
        assert(7 * p * unit() == 6 * p * unit() + p * unit()) by (nonlinear_arith);
        lemma_sum_close(before, size, k);
    }
}

/// What the first `n` levels hold together.
pub open spec fn held_by(levels: Seq<PriceLevel>, n: nat) -> int
    decreases n,
{
    if n == 0 {
        0
    } else {
        held_by(levels, (n - 1) as nat) + levels[n - 1].size@
    }
}

/// An order takes from the asks or the bids, from the first level on, what it asks for or all that they
/// hold. The last price is that of the first level by which the order is filled.
pub proof fn law_order_takes_from_the_best_on(book: OrderBook, side: TradeSide, size: int, s: nat)
    requires
        s <= 28,
        walk_of(book, side, size) is Some,
        0 < size <= MAX_MANTISSA * pow10((28 - s) as nat),
        size % pow10((28 - s) as nat) == 0,
        forall|i: int|
            0 <= i < levels_for(book, side).len() ==> 0 < (#[trigger] levels_for(book, side)[i]).size@
                && levels_for(book, side)[i].size@ % pow10((28 - s) as nat) == 0,
    ensures
        ({
            let levels = match side {
                TradeSide::Buy => book.asks@,
                TradeSide::Sell => book.bids@,
            };
            let found = walk_of(book, side, size)->0;
            let held = held_by(levels, levels.len());
            &&& found.filled == if held < size { held } else { size }
            &&& forall|i: nat|
                i < levels.len() && #[trigger] held_by(levels, i) < size && (i + 1 == levels.len()
                    || held_by(levels, i + 1) >= size) ==> found.worst == levels[i as int].price@
        }),
{
    let levels = levels_for(book, side);
    let n = levels.len();
    lemma_walk(levels, size, n, s);
    assert forall|i: nat|
        i < n && #[trigger] held_by(levels, i) < size && (i + 1 == n || held_by(levels, i + 1)
            >= size) implies walked(levels, size, n)->0.worst == levels[i as int].price@ by {
        lemma_walk_prefix(levels, size, i + 1, n);
        lemma_walk(levels, size, i + 1, s);
        lemma_walk(levels, size, i, s);
        lemma_walk_prefix(levels, size, i, n);
        if i + 1 < n {
            lemma_walk_stops(levels, size, i + 1, n);
        }
    }
}

proof fn lemma_walk_stops(levels: Seq<PriceLevel>, size: int, m: nat, n: nat)
    requires
        m <= n,
        walked(levels, size, m) is Some,
        walked(levels, size, m)->0.filled >= size,
    ensures
        walked(levels, size, n) == walked(levels, size, m),
    decreases n,
{
    if m < n {
        lemma_walk_stops(levels, size, m, (n - 1) as nat);
    }
}

proof fn lemma_walk(levels: Seq<PriceLevel>, size: int, n: nat, s: nat)
    requires
        s <= 28,
        n <= levels.len(),
        walked(levels, size, n) is Some,
        0 < size <= MAX_MANTISSA * pow10((28 - s) as nat),
        size % pow10((28 - s) as nat) == 0,
        forall|i: int|
            0 <= i < levels.len() ==> 0 < (#[trigger] levels[i]).size@ && levels[i].size@ % pow10(
                (28 - s) as nat,
            ) == 0,
    ensures
        held_by(levels, n) >= 0,
        walked(levels, size, n)->0.filled == if held_by(levels, n) < size {
            held_by(levels, n)
        } else {
            size
        },
        walked(levels, size, n)->0.filled % pow10((28 - s) as nat) == 0,
    decreases n,
{
    let p = pow10((28 - s) as nat);
    lemma_pow10_positive((28 - s) as nat);
    if n == 0 {
        vstd::arithmetic::div_mod::lemma_mod_multiples_basic(0, p);
        assert(0 * p == 0) by (nonlinear_arith);
    } else {
        let m = (n - 1) as nat;
        lemma_walk(levels, size, m, s);
        let filled = walked(levels, size, m)->0.filled;
        let level = levels[n - 1].size@;
        lemma_even_sum(size, filled, s);
        lemma_even_sum(filled, level, s);
        lemma_even_sum(filled, size - filled, s);
    }
}

/// What an order takes of a level it pays the price of that level, and its average price is what it pays
/// over what it takes, up to the rounding of the last digits.
pub proof fn law_order_pays_each_level_its_price(
    book: OrderBook,
    side: TradeSide,
    size: int,
    n: nat,
    s: nat,
    k: nat,
)
    requires
        s <= 28,
        k <= 28,
        0 < n <= levels_for(book, side).len(),
        walk_of(book, side, size) is Some,
        0 < size <= MAX_MANTISSA * pow10((28 - s) as nat),
        size % pow10((28 - s) as nat) == 0,
        size <= 3 * pow10(k) * unit(),
        forall|i: int|
            0 <= i < levels_for(book, side).len() ==> 0 < (#[trigger] levels_for(book, side)[i]).size@
                && levels_for(book, side)[i].size@ % pow10((28 - s) as nat) == 0 && 0 <= levels_for(
                book,
                side,
            )[i].price@ <= unit(),
        0 <= walked(levels_for(book, side), size, (n - 1) as nat)->0.cost <= 3 * pow10(k) * unit(),
    ensures
        walked(levels_for(book, side), size, 0) == Some(
            WalkState { filled: 0, cost: 0, worst: 0 },
        ),
        ({
            let levels = levels_for(book, side);
            let before = walked(levels, size, (n - 1) as nat)->0;
            let after = walked(levels, size, n)->0;
            let due = levels[n - 1].price@ * (after.filled - before.filled);
            &&& (after.cost - before.cost) * unit() - due <= pow10(k) * unit()
            &&& due - (after.cost - before.cost) * unit() <= pow10(k) * unit()
        }),
        walk_result(book, side, size) matches Some(Some(figures)) ==> {
            let done = walk_of(book, side, size)->0;
            &&& figures.filled == done.filled
            &&& figures.worst_price == done.worst
            &&& 0 <= done.cost <= 7 * pow10(k) * done.filled ==> close(
                figures.avg_price,
                done.cost * unit(),
                done.filled,
                pow10(k),
            )
        },
{
    let u = unit();
    let p = pow10(k);
    let levels = levels_for(book, side);
    let m = (n - 1) as nat;
    lemma_pow10_below_unit(k);
    lemma_walk_prefix(levels, size, n, levels.len());
    lemma_walk_prefix(levels, size, m, levels.len());
    lemma_walk(levels, size, n, s);
    lemma_walk(levels, size, m, s);
    lemma_walk(levels, size, levels.len(), s);
    let before = walked(levels, size, m)->0;
    let after = walked(levels, size, n)->0;
    let price = levels[n - 1].price@;
    let done = walked(levels, size, levels.len())->0;
    if done.filled > 0 && 0 <= done.cost <= 7 * p * done.filled {
        lemma_quotient_close(done.cost, done.filled, k);
    }
    if before.filled < size {
        let take = after.filled - before.filled;
        assert(take == if size - before.filled < levels[n - 1].size@ {
            size - before.filled
        } else {
            levels[n - 1].size@
        });
        lemma_even_sum(size, before.filled, s);
        let paid = product(price, take)->0;
        assert(0 <= price * take <= 7 * p * (u * u)) by (nonlinear_arith)
            requires
                0 <= price <= u,
                0 <= take <= 3 * p * u,
                p > 0,
                u > 0,
        {
            assert(price * take <= u * (3 * p * u));
            assert(u * (3 * p * u) == 3 * (p * (u * u)));
            assert(p * (u * u) >= 0);
            assert(7 * p * (u * u) == 7 * (p * (u * u)));
        }
        lemma_product_close(price, take, k);
        assert(0 <= price * take <= (3 * p * u) * u) by (nonlinear_arith)
            requires
                0 <= price <= u,
                0 <= take <= 3 * p * u,
        ;
        assert(-p <= 2 * paid && 2 * paid <= 6 * p * u + p) by (nonlinear_arith)
            requires
                2 * (paid * u - price * take) <= p * u,
                2 * (price * take - paid * u) <= p * u,
                0 <= price * take <= (3 * p * u) * u,
                u > 0,
        {
            assert((2 * paid) * u <= (6 * p * u + p) * u);
            assert((2 * paid) * u >= (-p) * u);
        }
        assert(p * u >= p) by (nonlinear_arith)
            requires
                p > 0,
                u >= 1,
        ;
        assert(7 * p * u == 7 * (p * u) && 3 * p * u == 3 * (p * u) && 6 * p * u == 6 * (p * u))
            by (nonlinear_arith);
        lemma_sum_close(before.cost, paid, k);
        let gained = after.cost - before.cost;
        assert((gained - paid) * u == gained * u - paid * u) by (nonlinear_arith);
        assert(2 * ((gained - paid) * u) <= p * u && 2 * ((gained - paid) * u) >= -(p * u))
            by (nonlinear_arith)
            requires
                2 * (gained - paid) <= p,
                2 * (gained - paid) >= -p,
                u > 0,
        ;
    } else {
        assert(price * 0 == 0 && 0 * u == 0) by (nonlinear_arith);
        assert(p * u >= 0) by (nonlinear_arith)
            requires
                p > 0,
                u > 0,
        ;
    }
}

/// A token counts for the last market that has it, and for none where no market does.
pub proof fn law_last_market_of_a_token_counts(markets: Seq<MarketInfo>, token_id: U256)
    ensures
        match market_with(markets, token_id) {
            Some(i) => 0 <= i < markets.len() && holds_token(markets[i].tokens@, token_id)
                && forall|j: int|
                i < j < markets.len() ==> !holds_token((#[trigger] markets[j]).tokens@, token_id),
            None => forall|j: int|
                0 <= j < markets.len() ==> !holds_token((#[trigger] markets[j]).tokens@, token_id),
        },
    decreases markets.len(),
{
    if markets.len() > 0 && !holds_token(markets.last().tokens@, token_id) {
        let before = markets.drop_last();
        law_last_market_of_a_token_counts(before, token_id);
        assert forall|j: int| 0 <= j < before.len() implies (#[trigger] markets[j]) == before[j] by {}
    }
}

/// The book for a token is the first that is there for it.
pub proof fn law_first_book_of_a_token_counts(books: Seq<OrderBook>, token_id: U256)
    ensures
        match book_for(books, token_id) {
            Some(book) => exists|i: int|
                0 <= i < books.len() && book == #[trigger] books[i] && book.token_id == token_id
                    && forall|j: int|
                    0 <= j < i ==> (#[trigger] books[j]).token_id != token_id,
            None => forall|j: int|
                0 <= j < books.len() ==> (#[trigger] books[j]).token_id != token_id,
        },
    decreases books.len(),
{
    if books.len() > 0 && books[0].token_id != token_id {
        let rest = books.drop_first();
        law_first_book_of_a_token_counts(rest, token_id);
        match book_for(rest, token_id) {
            Some(book) => {
                let i = choose|i: int|
                    0 <= i < rest.len() && book == #[trigger] rest[i] && book.token_id == token_id
                        && forall|j: int|
                        0 <= j < i ==> (#[trigger] rest[j]).token_id != token_id;
                assert(books[i + 1] == book);
                assert forall|j: int| 0 <= j < i + 1 implies (#[trigger] books[j]).token_id
                    != token_id by {
                    if j > 0 {
                        assert(books[j] == rest[j - 1]);
                    }
                }
            },
            None => {
                assert forall|j: int| 0 <= j < books.len() implies (#[trigger] books[j]).token_id
                    != token_id by {
                    if j > 0 {
                        assert(books[j] == rest[j - 1]);
                    }
                }
            },
        }
    } else if books.len() > 0 {
        assert(books[0].token_id == token_id);
    }
}

} // verus!
