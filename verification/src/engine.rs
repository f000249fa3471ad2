//! What the engine decides between a found trade and its execution.
use crate::arbitrage::ArbitrageOpportunity;
use crate::decimal::Decimal;
use crate::keyed::{Key, Keyed};
use crate::text;
use crate::types::{BookSet, MarketInfo, StrategyType, TradeSide, B256, DAY, U256};
use vstd::prelude::*;

verus! {

use crate::arbitrage::{scaled_trade, sells_held, ArbitrageRecord, PlanRecord};
use crate::keyed::kept;
use crate::types::{lemma_with_tokens, with_tokens};
use crate::rounding::{
    close, difference, greater, law_arithmetic_keeps_order, lemma_difference_exact,
    lemma_nearest_exact, lemma_pow10_positive, lemma_quotient_close, lemma_representable_bound,
    lemma_rounded_defined, lemma_rounded_order, lemma_steps_monotone, lemma_whole_representable,
    lesser, minus, over, pow10, product, quotient, representable, round_dp_of, unit, written_as,
};
use crate::text::occurs_in;
use crate::types::{depth_of, holds_token, market_views, market_with, MarketRecord};

/// Nanoseconds in a second.
pub const NANOS: u128 = 1_000_000_000;

/// How many cooldowns there may be before those that have passed are dropped.
pub const COOLDOWN_LIMIT: usize = 500;

/// What a cooldown is for: a condition and a strategy.
#[derive(Clone, Copy, Debug)]
pub struct CooldownKey {
    pub condition_id: B256,
    pub strategy_type: StrategyType,
}

impl Key for CooldownKey {
    type Id = (Seq<u8>, StrategyType);

    open spec fn id(&self) -> (Seq<u8>, StrategyType) {
        (self.condition_id@, self.strategy_type)
    }

    fn same(&self, other: &CooldownKey) -> (r: bool) {
        self.condition_id.same_bytes(&other.condition_id) && self.strategy_type
            == other.strategy_type
    }
}

/// What the engine remembers between trades. Moments are in nanoseconds on a clock that never runs
/// backwards.
pub struct EngineState {
    pub cooldowns: Keyed<CooldownKey, u128>,
    /// Until when nothing is executed.
    pub paused_until: u128,
}

/// What the engine's state says.
#[verifier::ext_equal]
pub struct EngineRecord {
    pub cooldowns: Map<(Seq<u8>, StrategyType), u128>,
    pub paused_until: u128,
}

impl View for EngineState {
    type V = EngineRecord;

    open spec fn view(&self) -> EngineRecord {
        EngineRecord { cooldowns: self.cooldowns@, paused_until: self.paused_until }
    }
}

/// The condition is cooling down for the strategy.
pub open spec fn cooling_down(
    state: EngineRecord,
    condition_id: Seq<u8>,
    strategy_type: StrategyType,
    now: u128,
) -> bool {
    let key = (condition_id, strategy_type);
    state.cooldowns.contains_key(key) && now < state.cooldowns[key]
}

/// The state once a condition cools down for so many seconds. Where there are too many cooldowns,
/// those that have passed are dropped.
pub open spec fn cooled_for(
    state: EngineRecord,
    condition_id: Seq<u8>,
    strategy_type: StrategyType,
    now: u128,
    secs: u64,
) -> EngineRecord {
    let all = state.cooldowns.insert(
        (condition_id, strategy_type),
        (now + secs * NANOS) as u128,
    );
    EngineRecord {
        cooldowns: if all.dom().len() > COOLDOWN_LIMIT {
            kept(all, |until: u128| until > now)
        } else {
            all
        },
        ..state
    }
}

/// What came of handing a trade on.
#[derive(Debug)]
pub enum ExecutionReport {
    /// The risk manager turned it down.
    Rejected,
    /// It was executed, in full or in part.
    Done,
    /// It was executed, and nothing was filled or it failed.
    NotFilled,
    /// It could not be executed, for the reason given.
    Failed(String),
}

/// The seconds for which a condition cools down after a report.
pub open spec fn report_cooldown(report: ExecutionReport) -> u64 {
    match report {
        ExecutionReport::Rejected => 10,
        ExecutionReport::Done => 10,
        ExecutionReport::NotFilled => 120,
        ExecutionReport::Failed(message) => if occurs_in(message@, "lot size"@) {
            600
        } else if occurs_in(message@, "does not exist"@) {
            86_400
        } else {
            60
        },
    }
}

/// The report says that there is no money or no permission to spend it.
pub open spec fn out_of_funds(report: ExecutionReport) -> bool {
    match report {
        ExecutionReport::Failed(message) => occurs_in(message@, "balance"@) || occurs_in(
            message@,
            "allowance"@,
        ),
        _ => false,
    }
}

/// The state after a report.
pub open spec fn after_report(
    state: EngineRecord,
    condition_id: Seq<u8>,
    strategy_type: StrategyType,
    report: ExecutionReport,
    now: u128,
) -> EngineRecord {
    let paused = EngineRecord {
        paused_until: if out_of_funds(report) {
            (now + 300 * NANOS) as u128
        } else {
            state.paused_until
        },
        ..state
    };
    cooled_for(paused, condition_id, strategy_type, now, report_cooldown(report))
}

/// A moment from which every cooldown can still be reckoned.
pub open spec fn clock_fits(now: u128) -> bool {
    now + 0x1_0000_0000_0000_0000 * NANOS <= u128::MAX
}

impl EngineState {
    pub fn new(now: u128) -> (r: EngineState)
        ensures
            r@ == (EngineRecord { cooldowns: Map::empty(), paused_until: now }),
    {
        EngineState { cooldowns: Keyed::new(), paused_until: now }
    }

    /// Whether nothing is executed at the moment.
    pub fn is_paused(&self, now: u128) -> (r: bool)
        ensures
            r == (now < self@.paused_until),
    {
        now < self.paused_until
    }

    /// Whether the condition is cooling down for the strategy.
    pub fn is_cooled_down(&self, condition_id: B256, strategy_type: StrategyType, now: u128) -> (r:
        bool)
        ensures
            r == cooling_down(self@, condition_id@, strategy_type, now),
    {
        match self.cooldowns.get(CooldownKey { condition_id, strategy_type }) {
            Some(until) => now < until,
            None => false,
        }
    }

    /// Lets a condition cool down.
    pub fn set_cooldown(
        &mut self,
        condition_id: B256,
        strategy_type: StrategyType,
        secs: u64,
        now: u128,
    )
        requires
            clock_fits(now),
        ensures
            final(self)@ == cooled_for(old(self)@, condition_id@, strategy_type, now, secs),
    {
        let until: u128 = now + (secs as u128) * NANOS;
        self.cooldowns.insert(CooldownKey { condition_id, strategy_type }, until);
        if self.cooldowns.len() > COOLDOWN_LIMIT {
            let later = |u: u128| -> (b: bool)
                ensures
                    b == (u > now),
                { u > now };
            self.cooldowns.retain(later, Ghost(|until: u128| until > now));
        }
    }

    /// Takes note of what came of a trade.
    pub fn note_report(
        &mut self,
        condition_id: B256,
        strategy_type: StrategyType,
        report: &ExecutionReport,
        now: u128,
    )
        requires
            clock_fits(now),
        ensures
            final(self)@ == after_report(old(self)@, condition_id@, strategy_type, *report, now),
    {
        let secs: u64 = match report {
            ExecutionReport::Rejected => 10,
            ExecutionReport::Done => 10,
            ExecutionReport::NotFilled => 120,
            ExecutionReport::Failed(message) => {
                let chars = text::chars_of(message.as_str());
                if text::contains(&chars, "balance") || text::contains(&chars, "allowance") {
                    self.paused_until = now + 300 * NANOS;
                }
                if text::contains(&chars, "lot size") {
                    600
                } else if text::contains(&chars, "does not exist") {
                    86_400
                } else {
                    60
                }
            },
        };
        self.set_cooldown(condition_id, strategy_type, secs, now);
    }
}

/// While the cooldown that a report starts lasts, the condition is cooling down for the strategy,
/// and any other condition or strategy is cooling down just where it was before.
pub proof fn law_report_starts_cooldown(
    state: EngineRecord,
    condition_id: Seq<u8>,
    strategy_type: StrategyType,
    report: ExecutionReport,
    now: u128,
    later: u128,
    other: (Seq<u8>, StrategyType),
)
    requires
        clock_fits(now),
        now <= later < now + report_cooldown(report) * NANOS,
        other != (condition_id, strategy_type),
    ensures
        ({
            let after = after_report(state, condition_id, strategy_type, report, now);
            &&& cooling_down(after, condition_id, strategy_type, later)
            &&& cooling_down(after, other.0, other.1, later) == cooling_down(
                state,
                other.0,
                other.1,
                later,
            )
        }),
{
}

/// Only a report of missing funds pauses the engine, and it does so for five minutes.
pub proof fn law_only_missing_funds_pause(
    state: EngineRecord,
    condition_id: Seq<u8>,
    strategy_type: StrategyType,
    report: ExecutionReport,
    now: u128,
    later: u128,
)
    requires
        clock_fits(now),
    ensures
        ({
            let after = after_report(state, condition_id, strategy_type, report, now);
            if out_of_funds(report) {
                later < after.paused_until <==> later < now + 300 * NANOS
            } else {
                after.paused_until == state.paused_until
            }
        }),
{
}

/// What a trade takes from one book.
#[derive(Clone, Copy, Debug)]
pub struct LiquidityRequirement {
    pub token_id: U256,
    pub side: TradeSide,
    pub limit_price: Decimal,
    pub size: Decimal,
}

/// The share of a requirement that the books can fill: `Some(None)` where there is no book or
/// nothing in it.
pub open spec fn fill_ratio(req: LiquidityRequirement, books: BookSet) -> Option<Option<int>> {
    match books.book(req.token_id) {
        None => Some(None),
        Some(book) => match depth_of(book, req.side, req.limit_price@) {
            None => None,
            Some(depth) => if depth == 0 {
                Some(None)
            } else if req.size@ > 0 {
                match over(Some(depth), Some(req.size@)) {
                    Some(ratio) => Some(Some(ratio)),
                    None => None,
                }
            } else {
                Some(Some(unit()))
            },
        },
    }
}

/// The smallest share of the first `n` requirements that the books can fill, no more than one:
/// `Some(None)` where one of them cannot be filled at all.
pub open spec fn least_ratio(reqs: Seq<LiquidityRequirement>, books: BookSet, n: nat) -> Option<
    Option<int>,
>
    decreases n,
{
    if n == 0 {
        Some(Some(unit()))
    } else {
        match least_ratio(reqs, books, (n - 1) as nat) {
            None => None,
            Some(None) => Some(None),
            Some(Some(before)) => match fill_ratio(reqs[n - 1], books) {
                None => None,
                Some(None) => Some(None),
                Some(Some(ratio)) => Some(Some(lesser(before, ratio))),
            },
        }
    }
}

/// The trade as the books can fill it: as it is where it sells what is held or the books hold
/// enough, scaled down where they do not, and none where they hold nothing or what is left is too
/// small.
pub open spec fn fillable(
    trade: ArbitrageRecord,
    reqs: Seq<LiquidityRequirement>,
    books: BookSet,
    min_order: int,
) -> Option<Option<ArbitrageRecord>> {
    if sells_held(trade.execution_plan) {
        Some(Some(trade))
    } else {
        match least_ratio(reqs, books, reqs.len()) {
            None => None,
            Some(None) => Some(None),
            Some(Some(ratio)) => if ratio >= unit() {
                Some(Some(trade))
            } else {
                match scaled_trade(trade, ratio) {
                    None => None,
                    Some(scaled) => if scaled.size < min_order {
                        Some(None)
                    } else {
                        Some(Some(scaled))
                    },
                }
            },
        }
    }
}

proof fn lemma_ratio_prefix(reqs: Seq<LiquidityRequirement>, books: BookSet, k: nat, n: nat)
    requires
        k <= n,
        least_ratio(reqs, books, n) is Some,
    ensures
        least_ratio(reqs, books, k) is Some,
        least_ratio(reqs, books, k) == Some(None::<int>) ==> least_ratio(reqs, books, n) == Some(
            None::<int>,
        ),
    decreases n,
{
    if k < n {
        lemma_ratio_prefix(reqs, books, k, (n - 1) as nat);
    }
}

fn share_of(req: LiquidityRequirement, books: &BookSet) -> (r: Option<Decimal>)
    requires
        fill_ratio(req, *books) is Some,
    ensures
        fill_ratio(req, *books) == Some(crate::types::figure(r)),
{
    let book = match books.get(req.token_id) {
        Some(b) => b,
        None => return None,
    };
    let depth = book.available_depth(req.side, req.limit_price);
    if depth.is_zero() {
        None
    } else if req.size > Decimal::zero() {
        Some(depth / req.size)
    } else {
        Some(Decimal::one())
    }
}

fn smallest_share(reqs: &Vec<LiquidityRequirement>, books: &BookSet) -> (r: Option<Decimal>)
    requires
        least_ratio(reqs@, *books, reqs@.len()) is Some,
    ensures
        least_ratio(reqs@, *books, reqs@.len()) == Some(crate::types::figure(r)),
{
    let mut least = Decimal::one();
    let mut i: usize = 0;
    while i < reqs.len()
        invariant
            i <= reqs@.len(),
            least_ratio(reqs@, *books, reqs@.len()) is Some,
            least_ratio(reqs@, *books, i as nat) == Some(Some(least@)),
        decreases reqs@.len() - i,
    {
        proof {
            lemma_ratio_prefix(reqs@, *books, (i + 1) as nat, reqs@.len());
        }
        match share_of(reqs[i], books) {
            Some(ratio) => {
                if ratio < least {
                    least = ratio;
                }
            },
            None => return None,
        }
        i = i + 1;
    }
    Some(least)
}

pub open spec fn trade_at(trade: Option<ArbitrageOpportunity>) -> Option<ArbitrageRecord> {
    match trade {
        Some(t) => Some(t@),
        None => None,
    }
}

/// Holds a trade against the books: what it takes from them is given with it.
pub fn validate_depth(
    trade: ArbitrageOpportunity,
    reqs: &Vec<LiquidityRequirement>,
    books: &BookSet,
    min_order_usdc: Decimal,
) -> (r: Option<ArbitrageOpportunity>)
    requires
        fillable(trade@, reqs@, *books, min_order_usdc@) is Some,
    ensures
        fillable(trade@, reqs@, *books, min_order_usdc@) == Some(trade_at(r)),
{
    if trade.execution_plan.is_exit() {
        return Some(trade);
    }
    let ratio = match smallest_share(reqs, books) {
        Some(r) => r,
        None => return None,
    };
    if ratio >= Decimal::one() {
        return Some(trade);
    }
    let scaled = trade.scaled(ratio);
    if scaled.size < min_order_usdc {
        None
    } else {
        Some(scaled)
    }
}

proof fn lemma_ratio_at_most_one(reqs: Seq<LiquidityRequirement>, books: BookSet, n: nat)
    ensures
        least_ratio(reqs, books, n) matches Some(Some(ratio)) ==> ratio <= unit(),
    decreases n,
{
    if n > 0 {
        lemma_ratio_at_most_one(reqs, books, (n - 1) as nat);
    }
}

/// Holding a trade against the books never enlarges it: a size with two digits after the point stays
/// or shrinks, and where the trade is changed at all, what is left is at least the smallest order.
pub proof fn law_depth_never_enlarges(
    trade: ArbitrageRecord,
    reqs: Seq<LiquidityRequirement>,
    books: BookSet,
    min_order: int,
    cents: int,
)
    requires
        representable(trade.size),
        0 <= trade.size == cents * pow10(26),
        fillable(trade, reqs, books, min_order) matches Some(Some(_)),
    ensures
        ({
            let filled = fillable(trade, reqs, books, min_order)->0->0;
            &&& filled.size <= trade.size
            &&& filled != trade ==> filled.size >= min_order
        }),
{
    lemma_ratio_at_most_one(reqs, books, reqs.len());
    if fillable(trade, reqs, books, min_order)->0->0 != trade {
        let ratio = least_ratio(reqs, books, reqs.len())->0->0;
        let size = trade.size;
        reveal(product);
        assert((size * ratio) * unit() <= size * (unit() * unit())) by (nonlinear_arith)
            requires
                0 <= size,
                ratio <= unit(),
                unit() > 0,
        {
            assert(size * ratio <= size * unit());
        }
        lemma_rounded_order(size * ratio, unit() * unit(), size);
        lemma_steps_monotone(product(size, ratio)->0, size, 2);
        assert(round_dp_of(size, 2) == size) by {
            reveal(round_dp_of);
            lemma_pow10_positive(26);
            lemma_nearest_exact(cents, pow10(26));
        }
    }
}

/// Whether a trade's cost is within what is left to spend in a cycle. A sale of what is held, or one
/// that costs nothing, always is; the cost of any other that is comes off what is left.
pub open spec fn spent(budget: int, is_exit: bool, cost: int) -> Option<(bool, int)> {
    if is_exit || cost <= 0 {
        Some((true, budget))
    } else if cost > budget {
        Some((false, budget))
    } else {
        match minus(Some(budget), Some(cost)) {
            Some(left) => Some((true, left)),
            None => None,
        }
    }
}

pub fn take_from_budget(budget: &mut Decimal, is_exit: bool, cost: Decimal) -> (r: bool)
    requires
        spent(old(budget)@, is_exit, cost@) is Some,
    ensures
        spent(old(budget)@, is_exit, cost@) == Some((r, final(budget)@)),
{
    if is_exit || cost <= Decimal::zero() {
        return true;
    }
    if cost > *budget {
        return false;
    }
    *budget = *budget - cost;
    true
}

/// The trades of a cycle never spend more than there is: what is left falls neither below zero nor
/// grows, and a trade that is refused costs more than is left and takes nothing.
pub proof fn law_budget_is_never_overspent(budget: int, is_exit: bool, cost: int)
    requires
        representable(budget),
        representable(cost),
        budget >= 0,
    ensures
        spent(budget, is_exit, cost) is Some,
        ({
            let (allowed, left) = spent(budget, is_exit, cost)->0;
            &&& 0 <= left <= budget
            &&& !allowed ==> left == budget && cost > budget
        }),
{
    reveal(difference);
    if !is_exit && 0 < cost && cost <= budget {
        lemma_representable_bound(budget);
        lemma_rounded_defined(budget - cost, unit());
        lemma_rounded_order(budget - cost, unit(), 0);
        lemma_rounded_order(budget - cost, unit(), budget);
        assert((budget - cost) * unit() <= budget * unit()) by (nonlinear_arith)
            requires
                cost > 0,
                unit() > 0,
        ;
        assert((budget - cost) * unit() >= 0) by (nonlinear_arith)
            requires
                cost <= budget,
                unit() > 0,
        ;
    }
}

/// A trade as the budget of a cycle sees it: whether it sells what is held, and what it costs.
pub struct BudgetItem {
    pub is_exit: bool,
    pub cost: int,
}

/// What is left of a cycle's budget after the first `n` trades.
pub open spec fn left_after(budget: int, trades: Seq<BudgetItem>, n: nat) -> Option<int>
    decreases n,
{
    if n == 0 {
        Some(budget)
    } else {
        match left_after(budget, trades, (n - 1) as nat) {
            Some(left) => match spent(left, trades[n - 1].is_exit, trades[n - 1].cost) {
                Some((_, rest)) => Some(rest),
                None => None,
            },
            None => None,
        }
    }
}

/// The `i`-th trade of a cycle is admitted and paid for.
pub open spec fn is_paid(budget: int, trades: Seq<BudgetItem>, i: nat) -> bool {
    let trade = trades[i as int];
    !trade.is_exit && 0 < trade.cost && match left_after(budget, trades, i) {
        Some(left) => trade.cost <= left,
        None => false,
    }
}

/// What the first `n` trades of a cycle cost, of those that are admitted and paid for.
pub open spec fn paid(budget: int, trades: Seq<BudgetItem>, n: nat) -> int
    decreases n,
{
    if n == 0 {
        0
    } else {
        paid(budget, trades, (n - 1) as nat) + if is_paid(budget, trades, (n - 1) as nat) {
            trades[n - 1].cost
        } else {
            0
        }
    }
}

/// A decimal can hold what is left after each of the first `n` trades that is paid for, so that no
/// digit of it is rounded.
pub open spec fn taken_exactly(budget: int, trades: Seq<BudgetItem>, n: nat) -> bool {
    forall|i: nat|
        i < n && #[trigger] is_paid(budget, trades, i) ==> representable(
            left_after(budget, trades, i)->0 - trades[i as int].cost,
        )
}

/// Over a whole cycle the trades that are admitted never cost more than the capital that it starts
/// with, and what is left is the capital without what they cost, wherever no digit is rounded.
pub proof fn law_cycle_stays_within_capital(budget: int, trades: Seq<BudgetItem>, n: nat)
    requires
        n <= trades.len(),
        taken_exactly(budget, trades, n),
    ensures
        left_after(budget, trades, n) is Some,
        left_after(budget, trades, n)->0 + paid(budget, trades, n) == budget,
        budget >= 0 ==> 0 <= left_after(budget, trades, n)->0,
        0 <= paid(budget, trades, n) <= greater(budget, 0),
    decreases n,
{
    if n > 0 {
        let last = (n - 1) as nat;
        law_cycle_stays_within_capital(budget, trades, last);
        if is_paid(budget, trades, last) {
            lemma_difference_exact(left_after(budget, trades, last)->0, trades[n - 1].cost);
        }
    }
}

/// No digit is rounded in a cycle where the capital and the costs are all written with the same
/// number of digits behind the point.
pub proof fn law_even_costs_are_taken_exactly(
    budget: int,
    mantissa: int,
    scale: nat,
    trades: Seq<BudgetItem>,
    n: nat,
)
    requires
        n <= trades.len(),
        written_as(budget, mantissa, scale),
        forall|i: int|
            0 <= i < trades.len() ==> (#[trigger] trades[i]).cost % pow10((28 - scale) as nat) == 0,
    ensures
        taken_exactly(budget, trades, n),
    decreases n,
{
    if n > 0 {
        let last = (n - 1) as nat;
        let p = pow10((28 - scale) as nat);
        law_even_costs_are_taken_exactly(budget, mantissa, scale, trades, last);
        law_cycle_stays_within_capital(budget, trades, last);
        if is_paid(budget, trades, last) {
            let cost = trades[n - 1].cost;
            let taken = paid(budget, trades, last);
            lemma_pow10_positive((28 - scale) as nat);
            lemma_paid_is_even(budget, trades, p, last);
            let rest = budget - taken - cost;
            let m = mantissa - taken / p - cost / p;
            vstd::arithmetic::div_mod::lemma_fundamental_div_mod(taken, p);
            vstd::arithmetic::div_mod::lemma_fundamental_div_mod(cost, p);
            assert(rest == m * p) by (nonlinear_arith)
                requires
                    rest == budget - taken - cost,
                    budget == mantissa * p,
                    taken == p * (taken / p),
                    cost == p * (cost / p),
                    m == mantissa - taken / p - cost / p,
            ;
            assert(0 <= m <= mantissa) by (nonlinear_arith)
                requires
                    p > 0,
                    rest == m * p,
                    budget == mantissa * p,
                    0 <= rest <= budget,
            ;
            assert(written_as(rest, m, scale));
        }
        assert(taken_exactly(budget, trades, n));
    }
}

proof fn lemma_paid_is_even(budget: int, trades: Seq<BudgetItem>, p: int, n: nat)
    requires
        p > 0,
        n <= trades.len(),
        forall|i: int| 0 <= i < trades.len() ==> (#[trigger] trades[i]).cost % p == 0,
    ensures
        paid(budget, trades, n) % p == 0,
    decreases n,
{
    if n == 0 {
        vstd::arithmetic::div_mod::lemma_mod_multiples_basic(0, p);
    } else {
        let before = paid(budget, trades, (n - 1) as nat);
        let cost = trades[n - 1].cost;
        lemma_paid_is_even(budget, trades, p, (n - 1) as nat);
        vstd::arithmetic::div_mod::lemma_fundamental_div_mod(before, p);
        vstd::arithmetic::div_mod::lemma_fundamental_div_mod(cost, p);
        assert(before + cost == (before / p + cost / p) * p) by (nonlinear_arith)
            requires
                before == p * (before / p),
                cost == p * (cost / p),
        ;
        vstd::arithmetic::div_mod::lemma_mod_multiples_basic(before / p + cost / p, p);
    }
}

/// The markets among the first `n` that end by the cutoff or have no end, both in nanoseconds
/// since 1970.
pub open spec fn ending_by(markets: Seq<MarketInfo>, cutoff: int, n: nat) -> Seq<MarketRecord>
    decreases n,
{
    if n == 0 {
        Seq::empty()
    } else {
        let before = ending_by(markets, cutoff, (n - 1) as nat);
        let keep = match markets[n - 1].end_date {
            Some(end) => end <= cutoff,
            None => true,
        };
        if keep {
            before.push(markets[n - 1]@)
        } else {
            before
        }
    }
}

/// The markets that end within so many days or have no end; those that have ended already stay, so
/// that what is held in them can be left.
pub fn markets_ending_within(markets: &Vec<MarketInfo>, max_days: u64, now_utc: i128) -> (r: Vec<
    MarketInfo,
>)
    requires
        now_utc + max_days * DAY <= i128::MAX,
    ensures
        market_views(r@) == ending_by(markets@, now_utc + max_days * DAY, markets@.len()),
{
    let reach: i128 = max_days as i128 * DAY;
    let cutoff: i128 = now_utc + reach;
    let mut kept_markets: Vec<MarketInfo> = Vec::new();
    let mut i: usize = 0;
    proof {
        assert(market_views(kept_markets@) =~= Seq::empty());
    }
    while i < markets.len()
        invariant
            i <= markets@.len(),
            cutoff == now_utc + max_days * DAY,
            market_views(kept_markets@) == ending_by(markets@, cutoff as int, i as nat),
        decreases markets@.len() - i,
    {
        let keep = match markets[i].end_date {
            Some(end) => end <= cutoff,
            None => true,
        };
        if keep {
            let ghost before = kept_markets@;
            let copy = markets[i].clone();
            kept_markets.push(copy);
            proof {
                assert(market_views(kept_markets@) =~= market_views(before).push(copy@));
            }
        }
        i = i + 1;
    }
    kept_markets
}

/// The place of each token's market, the last one where a token is in several.
pub open spec fn places(markets: Seq<MarketInfo>) -> Map<U256, usize> {
    Map::new(
        |t: U256| market_with(markets, t) is Some,
        |t: U256| market_with(markets, t)->0 as usize,
    )
}

proof fn lemma_places(markets: Seq<MarketInfo>, n: int)
    requires
        0 <= n < markets.len() <= usize::MAX,
    ensures
        places(markets.take(n + 1)) == places(markets.take(n)).union_prefer_right(
            Map::new(|t: U256| holds_token(markets[n].tokens@, t), |t: U256| n as usize),
        ),
{
    let now = markets.take(n + 1);
    assert(now.drop_last() =~= markets.take(n));
    assert(now.last() == markets[n]);
    assert(places(now) =~= places(markets.take(n)).union_prefer_right(
        Map::new(|t: U256| holds_token(markets[n].tokens@, t), |t: U256| n as usize),
    ));
}

/// The place of each token's market.
pub fn build_token_to_market(markets: &Vec<MarketInfo>) -> (r: Keyed<U256, usize>)
    ensures
        r@ == places(markets@),
{
    let mut map: Keyed<U256, usize> = Keyed::new();
    let mut i: usize = 0;
    proof {
        assert(map@ =~= places(markets@.take(0)));
    }
    while i < markets.len()
        invariant
            i <= markets@.len(),
            map@ == places(markets@.take(i as int)),
        decreases markets@.len() - i,
    {
        let tokens = &markets[i].tokens;
        let ghost start = map@;
        let mut k: usize = 0;
        proof {
            assert(map@ =~= with_tokens(start, tokens@.take(0), i));
        }
        while k < tokens.len()
            invariant
                k <= tokens@.len(),
                map@ == with_tokens(start, tokens@.take(k as int), i),
            decreases tokens@.len() - k,
        {
            map.insert(tokens[k].token_id, i);
            proof {
                lemma_with_tokens(start, tokens@, i, k as int);
            }
            k = k + 1;
        }
        proof {
            assert(tokens@.take(k as int) =~= tokens@);
            lemma_places(markets@, i as int);
        }
        i = i + 1;
    }
    proof {
        assert(markets@.take(i as int) =~= markets@);
    }
    map
}

/// The trade once an event around it is taken into account: scaled where that asks for less.
pub open spec fn event_scaled(trade: ArbitrageRecord, multiplier: int) -> Option<ArbitrageRecord> {
    if multiplier < unit() {
        scaled_trade(trade, multiplier)
    } else {
        Some(trade)
    }
}

pub fn scale_for_event(trade: ArbitrageOpportunity, multiplier: Decimal) -> (r: ArbitrageOpportunity)
    requires
        event_scaled(trade@, multiplier@) is Some,
    ensures
        event_scaled(trade@, multiplier@) == Some(r@),
{
    if multiplier < Decimal::one() {
        trade.scaled(multiplier)
    } else {
        trade
    }
}

/// What is done with a found trade at first.
#[derive(Clone, Copy, Debug, PartialEq, Eq, Structural)]
pub enum Consideration {
    /// Nothing is executed: neither this trade nor those after it are looked at.
    Stop,
    /// Its condition is cooling down.
    Skip,
    Go,
}

pub open spec fn considered(state: EngineRecord, trade: ArbitrageRecord, now: u128) -> Consideration {
    if now < state.paused_until {
        Consideration::Stop
    } else if cooling_down(state, trade.condition_id, trade.strategy_type, now) {
        Consideration::Skip
    } else {
        Consideration::Go
    }
}

impl EngineState {
    /// Whether a found trade is looked at.
    pub fn consider(&self, trade: &ArbitrageOpportunity, now: u128) -> (r: Consideration)
        ensures
            r == considered(self@, trade@, now),
    {
        if self.is_paused(now) {
            Consideration::Stop
        } else if self.is_cooled_down(trade.condition_id, trade.strategy_type, now) {
            Consideration::Skip
        } else {
            Consideration::Go
        }
    }

    /// Holds a trade against the books; where they cannot fill it, its condition cools down for a
    /// minute.
    pub fn admit_by_depth(
        &mut self,
        trade: ArbitrageOpportunity,
        reqs: &Vec<LiquidityRequirement>,
        books: &BookSet,
        min_order_usdc: Decimal,
        now: u128,
    ) -> (r: Option<ArbitrageOpportunity>)
        requires
            clock_fits(now),
            fillable(trade@, reqs@, *books, min_order_usdc@) is Some,
        ensures
            fillable(trade@, reqs@, *books, min_order_usdc@) == Some(trade_at(r)),
            r is Some ==> final(self)@ == old(self)@,
            r is None ==> final(self)@ == cooled_for(
                old(self)@,
                trade@.condition_id,
                trade@.strategy_type,
                now,
                60,
            ),
    {
        let condition_id = trade.condition_id;
        let strategy_type = trade.strategy_type;
        let r = validate_depth(trade, reqs, books, min_order_usdc);
        if r.is_none() {
            self.set_cooldown(condition_id, strategy_type, 60, now);
        }
        r
    }

    /// Takes a trade's cost from what is left to spend; where that is too little, its condition
    /// cools down for two minutes.
    pub fn admit_by_budget(
        &mut self,
        trade: &ArbitrageOpportunity,
        cost: Decimal,
        budget: &mut Decimal,
        now: u128,
    ) -> (r: bool)
        requires
            clock_fits(now),
            spent(old(budget)@, sells_held(trade@.execution_plan), cost@) is Some,
        ensures
            spent(old(budget)@, sells_held(trade@.execution_plan), cost@) == Some(
                (r, final(budget)@),
            ),
            r ==> final(self)@ == old(self)@,
            !r ==> final(self)@ == cooled_for(
                old(self)@,
                trade@.condition_id,
                trade@.strategy_type,
                now,
                120,
            ),
    {
        if take_from_budget(budget, trade.execution_plan.is_exit(), cost) {
            true
        } else {
            self.set_cooldown(trade.condition_id, trade.strategy_type, 120, now);
            false
        }
    }
}

/// After a report the condition cools down for the strategy until exactly so many seconds have passed:
/// ten once the trade was handed on or turned down, two minutes where nothing was filled, ten minutes
/// where the size did not suit, a day where the book is gone and a minute otherwise.
pub proof fn law_cooldown_lasts_its_seconds(
    state: EngineRecord,
    condition_id: Seq<u8>,
    strategy_type: StrategyType,
    report: ExecutionReport,
    now: u128,
    later: u128,
)
    requires
        clock_fits(now),
        now <= later,
    ensures
        ({
            let after = after_report(state, condition_id, strategy_type, report, now);
            let waits = cooling_down(after, condition_id, strategy_type, later);
            let passed = later - now;
            match report {
                ExecutionReport::Rejected | ExecutionReport::Done => waits <==> passed
                    < 10_000_000_000,
                ExecutionReport::NotFilled => waits <==> passed < 120_000_000_000,
                ExecutionReport::Failed(message) => if occurs_in(message@, "lot size"@) {
                    waits <==> passed < 600_000_000_000
                } else if occurs_in(message@, "does not exist"@) {
                    waits <==> passed < 86_400_000_000_000
                } else {
                    waits <==> passed < 60_000_000_000
                },
            }
        }),
{
}

/// A trade is looked at just where the engine is not paused and the trade's own condition is not
/// cooling down for its strategy, however often others do.
pub proof fn law_trade_waits_for_its_own_condition(
    state: EngineRecord,
    trade: ArbitrageRecord,
    report: ExecutionReport,
    other: (Seq<u8>, StrategyType),
    now: u128,
    later: u128,
)
    requires
        clock_fits(now),
        now <= later,
        state.paused_until <= now,
        !cooling_down(state, trade.condition_id, trade.strategy_type, now),
    ensures
        considered(state, trade, now) is Go,
        ({
            let after = after_report(
                state,
                trade.condition_id,
                trade.strategy_type,
                ExecutionReport::NotFilled,
                now,
            );
            considered(after, trade, later) == if later - now < 120_000_000_000 {
                Consideration::Skip
            } else {
                Consideration::Go
            }
        }),
        other != (trade.condition_id, trade.strategy_type) && !(out_of_funds(report)) ==> {
            let after = after_report(state, other.0, other.1, report, now);
            considered(after, trade, later) is Go
        },
        report matches ExecutionReport::Failed(message) ==> {
            let after = after_report(state, other.0, other.1, report, now);
            (occurs_in(message@, "balance"@) || occurs_in(message@, "allowance"@)) ==> (considered(
                after,
                trade,
                later,
            ) is Stop <==> later - now < 300_000_000_000)
        },
{
}

/// A trade that is held against the books takes the largest share of itself that every book holds for
/// it, up to the rounding of the last digits: all of it where they hold enough, nothing where one of
/// them is missing or empty. A sale of what is held is never cut.
pub proof fn law_trade_is_cut_to_what_the_books_hold(
    trade: ArbitrageRecord,
    reqs: Seq<LiquidityRequirement>,
    books: BookSet,
    min_order: int,
    k: nat,
)
    requires
        k <= 28,
        fillable(trade, reqs, books, min_order) is Some,
        forall|i: int|
            0 <= i < reqs.len() ==> {
                let req = #[trigger] reqs[i];
                &&& req.size@ > 0
                &&& books.book(req.token_id) is Some ==> {
                    let depth = depth_of(books.book(req.token_id)->0, req.side, req.limit_price@);
                    depth is Some && 0 <= depth->0 <= 7 * pow10(k) * req.size@
                }
            },
    ensures
        ({
            let found = fillable(trade, reqs, books, min_order)->0;
            let sells = trade.execution_plan matches PlanRecord::DirectionalBuy(order)
                && order.side == TradeSide::Sell;
            &&& sells ==> found == Some(trade)
            &&& !sells ==> {
                let missing = exists|i: int| 0 <= i < reqs.len() && #[trigger] is_missing(reqs[i], books);
                &&& missing ==> found is None
                &&& !missing && (forall|i: int|
                    0 <= i < reqs.len() ==> depth_of(
                        books.book((#[trigger] reqs[i]).token_id)->0,
                        reqs[i].side,
                        reqs[i].limit_price@,
                    )->0 >= reqs[i].size@) ==> found == Some(trade)
                &&& !missing ==> exists|share: int|
                    {
                        &&& #[trigger] is_largest_share(share, reqs, books, k)
                        &&& found == if share == unit() {
                            Some(trade)
                        } else {
                            let scaled = scaled_trade(trade, share)->0;
                            if scaled.size < min_order {
                                None
                            } else {
                                Some(scaled)
                            }
                        }
                    }
            }
        }),
{
    let n = reqs.len();
    lemma_ratio_at_most_one(reqs, books, n);
    if !sells_held(trade.execution_plan) {
        lemma_missing(reqs, books, n);
        if least_ratio(reqs, books, n)->0 is Some {
            let share = least_ratio(reqs, books, n)->0->0;
            lemma_largest_share(reqs, books, n, k);
            assert(reqs.take(n as int) =~= reqs);
            assert(is_largest_share(share, reqs, books, k));
            if forall|i: int|
                0 <= i < reqs.len() ==> depth_of(
                    books.book((#[trigger] reqs[i]).token_id)->0,
                    reqs[i].side,
                    reqs[i].limit_price@,
                )->0 >= reqs[i].size@ {
                lemma_enough(reqs, books, n);
            }
        }
    }
}

/// There is nothing in the books for a requirement.
pub open spec fn is_missing(req: LiquidityRequirement, books: BookSet) -> bool {
    match books.book(req.token_id) {
        Some(book) => depth_of(book, req.side, req.limit_price@) == Some(0int),
        None => true,
    }
}

/// The share is no more than one and no more than any book holds, and one of those it is.
pub open spec fn is_largest_share(
    share: int,
    reqs: Seq<LiquidityRequirement>,
    books: BookSet,
    k: nat,
) -> bool {
    &&& share <= unit()
    &&& forall|i: int|
        0 <= i < reqs.len() ==> share * (#[trigger] reqs[i]).size@ <= depth_of(
            books.book(reqs[i].token_id)->0,
            reqs[i].side,
            reqs[i].limit_price@,
        )->0 * unit() + pow10(k) * reqs[i].size@
    &&& share == unit() || exists|i: int|
        0 <= i < reqs.len() && close(
            share,
            depth_of(
                books.book((#[trigger] reqs[i]).token_id)->0,
                reqs[i].side,
                reqs[i].limit_price@,
            )->0 * unit(),
            reqs[i].size@,
            pow10(k),
        )
}

proof fn lemma_missing(reqs: Seq<LiquidityRequirement>, books: BookSet, n: nat)
    requires
        n <= reqs.len(),
        least_ratio(reqs, books, n) is Some,
    ensures
        least_ratio(reqs, books, n)->0 is None <==> exists|i: int|
            0 <= i < n && #[trigger] is_missing(reqs[i], books),
    decreases n,
{
    if n > 0 {
        let m = (n - 1) as nat;
        lemma_missing(reqs, books, m);
        if exists|i: int| 0 <= i < m && #[trigger] is_missing(reqs[i], books) {
            let i = choose|i: int| 0 <= i < m && #[trigger] is_missing(reqs[i], books);
            assert(0 <= i < n && is_missing(reqs[i], books));
        }
        if is_missing(reqs[n - 1], books) {
            assert(0 <= n - 1 < n && is_missing(reqs[n - 1], books));
        }
    }
}

proof fn lemma_largest_share(reqs: Seq<LiquidityRequirement>, books: BookSet, n: nat, k: nat)
    requires
        k <= 28,
        n <= reqs.len(),
        least_ratio(reqs, books, n) matches Some(Some(_)),
        forall|i: int|
            0 <= i < reqs.len() ==> {
                let req = #[trigger] reqs[i];
                &&& req.size@ > 0
                &&& books.book(req.token_id) is Some ==> {
                    let depth = depth_of(books.book(req.token_id)->0, req.side, req.limit_price@);
                    depth is Some && 0 <= depth->0 <= 7 * pow10(k) * req.size@
                }
            },
    ensures
        is_largest_share(least_ratio(reqs, books, n)->0->0, reqs.take(n as int), books, k),
    decreases n,
{
    let share = least_ratio(reqs, books, n)->0->0;
    let now = reqs.take(n as int);
    if n > 0 {
        let m = (n - 1) as nat;
        lemma_largest_share(reqs, books, m, k);
        let before = least_ratio(reqs, books, m)->0->0;
        let earlier = reqs.take(m as int);
        let req = reqs[n - 1];
        let depth = depth_of(books.book(req.token_id)->0, req.side, req.limit_price@)->0;
        lemma_quotient_close(depth, req.size@, k);
        assert forall|i: int| 0 <= i < n implies share * (#[trigger] now[i]).size@ <= depth_of(
            books.book(now[i].token_id)->0,
            now[i].side,
            now[i].limit_price@,
        )->0 * unit() + pow10(k) * now[i].size@ by {
            assert(reqs[i].size@ > 0);
            let of = if i == n - 1 {
                quotient(depth, req.size@)->0
            } else {
                assert(earlier[i] == now[i]);
                before
            };
            let size = now[i].size@;
            assert(share * size <= of * size) by (nonlinear_arith)
                requires
                    share <= of,
                    size > 0,
            ;
        }
        if share != unit() {
            if share == before {
                let i = choose|i: int|
                    0 <= i < m && close(
                        before,
                        depth_of(
                            books.book((#[trigger] earlier[i]).token_id)->0,
                            earlier[i].side,
                            earlier[i].limit_price@,
                        )->0 * unit(),
                        earlier[i].size@,
                        pow10(k),
                    );
                assert(now[i] == earlier[i]);
            } else {
                assert(now[n - 1] == req);
            }
        }
    }
}

proof fn lemma_enough(reqs: Seq<LiquidityRequirement>, books: BookSet, n: nat)
    requires
        n <= reqs.len(),
        least_ratio(reqs, books, n) matches Some(Some(_)),
        forall|i: int|
            0 <= i < reqs.len() ==> (#[trigger] reqs[i]).size@ > 0 && depth_of(
                books.book(reqs[i].token_id)->0,
                reqs[i].side,
                reqs[i].limit_price@,
            )->0 >= reqs[i].size@,
    ensures
        least_ratio(reqs, books, n)->0->0 == unit(),
    decreases n,
{
    lemma_ratio_at_most_one(reqs, books, n);
    if n > 0 {
        lemma_enough(reqs, books, (n - 1) as nat);
        let req = reqs[n - 1];
        let depth = depth_of(books.book(req.token_id)->0, req.side, req.limit_price@)->0;
        lemma_whole_representable(1);
        assert(depth * unit() >= unit() * req.size@) by (nonlinear_arith)
            requires
                depth >= req.size@,
                unit() > 0,
        ;
        law_arithmetic_keeps_order(depth, req.size@, unit());
    }
}

/// The markets that stay are those that end within so many days of twenty-four hours, or have ended, or
/// have no end, in the order in which they came.
pub proof fn law_markets_that_end_in_time_stay(
    markets: Seq<MarketInfo>,
    max_days: u64,
    now_utc: i128,
    n: nat,
)
    requires
        n <= markets.len(),
    ensures
        ending_by(markets, now_utc + max_days * DAY, n) == market_views(
            markets.take(n as int).filter(
                |m: MarketInfo|
                    m.end_date is None || m.end_date->0 - now_utc <= max_days * (24 * 60 * 60
                        * 1_000_000_000),
            ),
        ),
    decreases n,
{
    reveal(Seq::filter);
    let kept = |m: MarketInfo|
        m.end_date is None || m.end_date->0 - now_utc <= max_days * (24 * 60 * 60 * 1_000_000_000);
    let now = markets.take(n as int);
    if n == 0 {
        assert(now.filter(kept) =~= Seq::empty());
        assert(market_views(now.filter(kept)) =~= Seq::empty());
    } else {
        law_markets_that_end_in_time_stay(markets, max_days, now_utc, (n - 1) as nat);
        assert(now.drop_last() =~= markets.take(n - 1));
        let before = now.drop_last().filter(kept);
        assert(market_views(before.push(now.last())) =~= market_views(before).push(now.last()@));
    }
}

} // verus!
