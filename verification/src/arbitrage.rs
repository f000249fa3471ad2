//! Trades across the sides of a market, the outcomes of an event, or two markets.
use crate::decimal::Decimal;
use crate::types::{DirectionalBuy, Outcome, Stamp, StrategyType, TradeSide, B256, U256};
use vstd::prelude::*;

verus! {

use crate::rounding::{
    law_digits_are_dropped_to_the_nearest, lemma_product_close, lemma_product_shrinks,
    lemma_round_dp_below, pow10, product, representable, round_dp_of, times, unit,
};
use crate::types::OrderRecord;

/// How two markets move together.
#[derive(Clone, Copy, Debug, PartialEq, Eq, Structural)]
pub enum CrossMarketCorrelation {
    /// The YES prices of both add up to the expected sum.
    ComplementaryYes,
    /// The YES price of the first and the NO price of the second do.
    InverseYesNo,
}

/// What is done in one of two markets.
#[derive(Clone, Copy, Debug, PartialEq, Eq, Structural)]
pub enum CrossMarketOp {
    BuyAndMerge,
    SplitAndSell,
}

/// One of the two markets of a trade.
#[derive(Clone, Copy, Debug)]
pub struct CrossMarketLeg {
    pub condition_id: B256,
    pub yes_token_id: U256,
    pub no_token_id: U256,
    pub operation: CrossMarketOp,
    pub yes_price: Decimal,
    pub no_price: Decimal,
    pub size: Decimal,
}

/// One of the outcomes of a trade.
#[derive(Clone, Copy, Debug)]
pub struct NegRiskLeg {
    pub token_id: U256,
    pub condition_id: B256,
    pub outcome: Outcome,
    pub side: TradeSide,
    pub price: Decimal,
    pub size: Decimal,
}

/// The two sides of a market and their prices.
#[derive(Clone, Copy, Debug)]
pub struct MarketSides {
    pub condition_id: B256,
    pub yes_token_id: U256,
    pub no_token_id: U256,
    pub yes_price: Decimal,
    pub no_price: Decimal,
}

/// How a trade is carried out.
#[derive(Debug)]
pub enum ExecutionPlan {
    /// Buys both sides of a market and merges them.
    BuyAndMerge { sides: MarketSides, merge_amount: Decimal },
    /// Splits collateral into both sides of a market and sells them.
    SplitAndSell { sides: MarketSides, split_amount: Decimal },
    /// Buys every outcome of an event.
    NegRiskArbitrage { neg_risk_market_id: B256, legs: Vec<NegRiskLeg>, amount: Decimal },
    CrossMarket {
        pair_id: B256,
        leg_a: CrossMarketLeg,
        leg_b: CrossMarketLeg,
        amount: Decimal,
    },
    DirectionalBuy(DirectionalBuy),
}

/// A trade that was found.
#[derive(Debug)]
pub struct ArbitrageOpportunity {
    pub stamp: Stamp,
    pub strategy_type: StrategyType,
    pub condition_id: B256,
    pub question: String,
    pub spread: Decimal,
    pub estimated_profit: Decimal,
    pub size: Decimal,
    pub execution_plan: ExecutionPlan,
}

/// What a leg in one of two markets says.
pub struct CrossLegRecord {
    pub condition_id: Seq<u8>,
    pub yes_token_id: U256,
    pub no_token_id: U256,
    pub operation: CrossMarketOp,
    pub yes_price: int,
    pub no_price: int,
    pub size: int,
}

/// What a leg on an outcome says.
pub struct LegRecord {
    pub token_id: U256,
    pub condition_id: Seq<u8>,
    pub outcome: Outcome,
    pub side: TradeSide,
    pub price: int,
    pub size: int,
}

/// What a plan says.
pub enum PlanRecord {
    BuyAndMerge { sides: MarketSides, merge_amount: int },
    SplitAndSell { sides: MarketSides, split_amount: int },
    NegRiskArbitrage { neg_risk_market_id: Seq<u8>, legs: Seq<LegRecord>, amount: int },
    CrossMarket { pair_id: Seq<u8>, leg_a: CrossLegRecord, leg_b: CrossLegRecord, amount: int },
    DirectionalBuy(OrderRecord),
}

/// What a found trade says.
pub struct ArbitrageRecord {
    pub stamp: Stamp,
    pub strategy_type: StrategyType,
    pub condition_id: Seq<u8>,
    pub question: Seq<char>,
    pub spread: int,
    pub estimated_profit: int,
    pub size: int,
    pub execution_plan: PlanRecord,
}

impl View for CrossMarketLeg {
    type V = CrossLegRecord;

    open spec fn view(&self) -> CrossLegRecord {
        CrossLegRecord {
            condition_id: self.condition_id@,
            yes_token_id: self.yes_token_id,
            no_token_id: self.no_token_id,
            operation: self.operation,
            yes_price: self.yes_price@,
            no_price: self.no_price@,
            size: self.size@,
        }
    }
}

impl View for NegRiskLeg {
    type V = LegRecord;

    open spec fn view(&self) -> LegRecord {
        LegRecord {
            token_id: self.token_id,
            condition_id: self.condition_id@,
            outcome: self.outcome,
            side: self.side,
            price: self.price@,
            size: self.size@,
        }
    }
}

pub open spec fn leg_views(legs: Seq<NegRiskLeg>) -> Seq<LegRecord> {
    legs.map_values(|l: NegRiskLeg| l@)
}

impl View for ExecutionPlan {
    type V = PlanRecord;

    open spec fn view(&self) -> PlanRecord {
        match *self {
            ExecutionPlan::BuyAndMerge { sides, merge_amount } => PlanRecord::BuyAndMerge {
                sides,
                merge_amount: merge_amount@,
            },
            ExecutionPlan::SplitAndSell { sides, split_amount } => PlanRecord::SplitAndSell {
                sides,
                split_amount: split_amount@,
            },
            ExecutionPlan::NegRiskArbitrage { neg_risk_market_id, legs, amount } => {
                PlanRecord::NegRiskArbitrage {
                    neg_risk_market_id: neg_risk_market_id@,
                    legs: leg_views(legs@),
                    amount: amount@,
                }
            },
            ExecutionPlan::CrossMarket { pair_id, leg_a, leg_b, amount } => {
                PlanRecord::CrossMarket {
                    pair_id: pair_id@,
                    leg_a: leg_a@,
                    leg_b: leg_b@,
                    amount: amount@,
                }
            },
            ExecutionPlan::DirectionalBuy(order) => PlanRecord::DirectionalBuy(order@),
        }
    }
}

impl View for ArbitrageOpportunity {
    type V = ArbitrageRecord;

    open spec fn view(&self) -> ArbitrageRecord {
        ArbitrageRecord {
            stamp: self.stamp,
            strategy_type: self.strategy_type,
            condition_id: self.condition_id@,
            question: self.question@,
            spread: self.spread@,
            estimated_profit: self.estimated_profit@,
            size: self.size@,
            execution_plan: self.execution_plan@,
        }
    }
}

/// The plan sells what is held.
pub open spec fn sells_held(plan: PlanRecord) -> bool {
    match plan {
        PlanRecord::DirectionalBuy(order) => order.side is Sell,
        _ => false,
    }
}

/// `v` times a multiplier, to so many digits.
pub open spec fn scaled_to(v: int, multiplier: int, digits: nat) -> Option<int> {
    match times(Some(v), Some(multiplier)) {
        Some(p) => Some(round_dp_of(p, digits)),
        None => None,
    }
}

pub open spec fn scaled_leg(leg: LegRecord, multiplier: int) -> Option<LegRecord> {
    match scaled_to(leg.size, multiplier, 2) {
        Some(size) => Some(LegRecord { size, ..leg }),
        None => None,
    }
}

/// The first `n` legs, each with its size scaled.
pub open spec fn scaled_legs(legs: Seq<LegRecord>, multiplier: int, n: nat) -> Option<
    Seq<LegRecord>,
>
    decreases n,
{
    if n == 0 {
        Some(Seq::empty())
    } else {
        match (
            scaled_legs(legs, multiplier, (n - 1) as nat),
            scaled_leg(legs[n - 1], multiplier),
        ) {
            (Some(before), Some(leg)) => Some(before.push(leg)),
            _ => None,
        }
    }
}

/// The plan with all its sizes scaled.
pub open spec fn scaled_plan(plan: PlanRecord, multiplier: int) -> Option<PlanRecord> {
    match plan {
        PlanRecord::BuyAndMerge { sides, merge_amount } => match scaled_to(
            merge_amount,
            multiplier,
            2,
        ) {
            Some(a) => Some(PlanRecord::BuyAndMerge { sides, merge_amount: a }),
            None => None,
        },
        PlanRecord::SplitAndSell { sides, split_amount } => match scaled_to(
            split_amount,
            multiplier,
            2,
        ) {
            Some(a) => Some(PlanRecord::SplitAndSell { sides, split_amount: a }),
            None => None,
        },
        PlanRecord::NegRiskArbitrage { neg_risk_market_id, legs, amount } => match (
            scaled_to(amount, multiplier, 2),
            scaled_legs(legs, multiplier, legs.len()),
        ) {
            (Some(a), Some(l)) => Some(
                PlanRecord::NegRiskArbitrage { neg_risk_market_id, legs: l, amount: a },
            ),
            _ => None,
        },
        PlanRecord::CrossMarket { pair_id, leg_a, leg_b, amount } => match (
            scaled_to(amount, multiplier, 2),
            scaled_to(leg_a.size, multiplier, 2),
            scaled_to(leg_b.size, multiplier, 2),
        ) {
            (Some(amount), Some(a), Some(b)) => Some(
                PlanRecord::CrossMarket {
                    pair_id,
                    leg_a: CrossLegRecord { size: a, ..leg_a },
                    leg_b: CrossLegRecord { size: b, ..leg_b },
                    amount,
                },
            ),
            _ => None,
        },
        PlanRecord::DirectionalBuy(order) => match scaled_to(order.size, multiplier, 2) {
            Some(size) => Some(PlanRecord::DirectionalBuy(OrderRecord { size, ..order })),
            None => None,
        },
    }
}

/// The trade with its size, its profit and its plan scaled.
pub open spec fn scaled_trade(trade: ArbitrageRecord, multiplier: int) -> Option<ArbitrageRecord> {
    match (
        scaled_to(trade.size, multiplier, 2),
        scaled_to(trade.estimated_profit, multiplier, 4),
        scaled_plan(trade.execution_plan, multiplier),
    ) {
        (Some(size), Some(estimated_profit), Some(execution_plan)) => Some(
            ArbitrageRecord { size, estimated_profit, execution_plan, ..trade },
        ),
        _ => None,
    }
}

fn scale(v: Decimal, multiplier: Decimal, digits: u32) -> (r: Decimal)
    requires
        scaled_to(v@, multiplier@, digits as nat) is Some,
    ensures
        scaled_to(v@, multiplier@, digits as nat) == Some(r@),
{
    (v * multiplier).round_dp(digits)
}

proof fn lemma_legs_prefix(legs: Seq<LegRecord>, multiplier: int, k: nat, n: nat)
    requires
        k <= n,
        scaled_legs(legs, multiplier, n) is Some,
    ensures
        scaled_legs(legs, multiplier, k) is Some,
    decreases n,
{
    if k < n {
        lemma_legs_prefix(legs, multiplier, k, (n - 1) as nat);
    }
}

fn scale_legs(legs: &Vec<NegRiskLeg>, multiplier: Decimal) -> (r: Vec<NegRiskLeg>)
    requires
        scaled_legs(leg_views(legs@), multiplier@, legs@.len()) is Some,
    ensures
        scaled_legs(leg_views(legs@), multiplier@, legs@.len()) == Some(leg_views(r@)),
{
    let mut r: Vec<NegRiskLeg> = Vec::new();
    let mut i: usize = 0;
    proof {
        assert(leg_views(r@) =~= Seq::empty());
    }
    while i < legs.len()
        invariant
            i <= legs@.len(),
            scaled_legs(leg_views(legs@), multiplier@, legs@.len()) is Some,
            scaled_legs(leg_views(legs@), multiplier@, i as nat) == Some(leg_views(r@)),
        decreases legs@.len() - i,
    {
        proof {
            lemma_legs_prefix(leg_views(legs@), multiplier@, (i + 1) as nat, legs@.len());
            assert(leg_views(legs@)[i as int] == legs@[i as int]@);
        }
        let leg = legs[i];
        let scaled = NegRiskLeg {
            token_id: leg.token_id,
            condition_id: leg.condition_id,
            outcome: leg.outcome,
            side: leg.side,
            price: leg.price,
            size: scale(leg.size, multiplier, 2),
        };
        let ghost before = r@;
        r.push(scaled);
        proof {
            assert(leg_views(r@) =~= leg_views(before).push(scaled@));
        }
        i = i + 1;
    }
    r
}

fn scale_cross_leg(leg: CrossMarketLeg, multiplier: Decimal) -> (r: CrossMarketLeg)
    requires
        scaled_to(leg.size@, multiplier@, 2) is Some,
    ensures
        r@ == (CrossLegRecord {
            size: scaled_to(leg.size@, multiplier@, 2)->0,
            ..leg@
        }),
{
    CrossMarketLeg {
        condition_id: leg.condition_id,
        yes_token_id: leg.yes_token_id,
        no_token_id: leg.no_token_id,
        operation: leg.operation,
        yes_price: leg.yes_price,
        no_price: leg.no_price,
        size: scale(leg.size, multiplier, 2),
    }
}

/// The plan with all its sizes scaled.
pub fn scale_execution_plan_size(plan: ExecutionPlan, multiplier: Decimal) -> (r: ExecutionPlan)
    requires
        scaled_plan(plan@, multiplier@) is Some,
    ensures
        scaled_plan(plan@, multiplier@) == Some(r@),
{
    match plan {
        ExecutionPlan::BuyAndMerge { sides, merge_amount } => ExecutionPlan::BuyAndMerge {
            sides,
            merge_amount: scale(merge_amount, multiplier, 2),
        },
        ExecutionPlan::SplitAndSell { sides, split_amount } => ExecutionPlan::SplitAndSell {
            sides,
            split_amount: scale(split_amount, multiplier, 2),
        },
        ExecutionPlan::NegRiskArbitrage { neg_risk_market_id, legs, amount } => {
            let amount = scale(amount, multiplier, 2);
            proof {
                assert(leg_views(legs@).len() == legs@.len());
            }
            let legs = scale_legs(&legs, multiplier);
            ExecutionPlan::NegRiskArbitrage { neg_risk_market_id, legs, amount }
        },
        ExecutionPlan::CrossMarket { pair_id, leg_a, leg_b, amount } => {
            ExecutionPlan::CrossMarket {
                pair_id,
                leg_a: scale_cross_leg(leg_a, multiplier),
                leg_b: scale_cross_leg(leg_b, multiplier),
                amount: scale(amount, multiplier, 2),
            }
        },
        ExecutionPlan::DirectionalBuy(order) => ExecutionPlan::DirectionalBuy(
            DirectionalBuy {
                token_id: order.token_id,
                side: order.side,
                price: order.price,
                size: scale(order.size, multiplier, 2),
                condition_id: order.condition_id,
            },
        ),
    }
}

impl ExecutionPlan {
    /// Whether the plan sells what is held.
    pub fn is_exit(&self) -> (r: bool)
        ensures
            r == sells_held(self@),
    {
        match self {
            ExecutionPlan::DirectionalBuy(order) => match order.side {
                TradeSide::Sell => true,
                TradeSide::Buy => false,
            },
            _ => false,
        }
    }
}

impl ArbitrageOpportunity {
    /// The trade with its size, its profit and its plan scaled.
    pub fn scaled(self, multiplier: Decimal) -> (r: ArbitrageOpportunity)
        requires
            scaled_trade(self@, multiplier@) is Some,
        ensures
            scaled_trade(self@, multiplier@) == Some(r@),
    {
        ArbitrageOpportunity {
            stamp: self.stamp,
            strategy_type: self.strategy_type,
            condition_id: self.condition_id,
            question: self.question,
            spread: self.spread,
            estimated_profit: scale(self.estimated_profit, multiplier, 4),
            size: scale(self.size, multiplier, 2),
            execution_plan: scale_execution_plan_size(self.execution_plan, multiplier),
        }
    }
}

/// A multiplier between zero and one never enlarges a size that has two digits after the point, and
/// never makes it negative.
pub proof fn law_scaling_never_enlarges(size: int, multiplier: int, cents: int)
    requires
        representable(size),
        0 <= size,
        size == cents * pow10(26),
        0 <= multiplier <= unit(),
    ensures
        scaled_to(size, multiplier, 2) is Some,
        0 <= scaled_to(size, multiplier, 2)->0 <= size,
{
    lemma_product_shrinks(size, multiplier);
    lemma_round_dp_below(times(Some(size), Some(multiplier))->0, 2, cents);
}

/// `v` is the given share of a number to so many digits, up to the rounding of the last digits that
/// arithmetic keeps.
pub open spec fn is_share(v: int, of: int, share: int, digits: nat, k: nat) -> bool {
    let step = pow10((28 - digits) as nat);
    &&& v % step == 0
    &&& 2 * (v * unit() - of * share) <= (step + pow10(k)) * unit()
    &&& 2 * (of * share - v * unit()) <= (step + pow10(k)) * unit()
}

/// A number whose product with a share of up to one is kept to all but `k` digits.
pub open spec fn is_moderate(v: int, k: nat) -> bool {
    -7 * pow10(k) * unit() <= v <= 7 * pow10(k) * unit()
}

/// Scaling takes the same share of the size, of the profit and of every amount of the plan, sizes to
/// two digits and the profit to four, and changes nothing else.
pub proof fn law_every_amount_is_scaled_alike(trade: ArbitrageRecord, share: int, k: nat)
    requires
        k <= 28,
        0 <= share <= unit(),
        scaled_trade(trade, share) is Some,
        is_moderate(trade.size, k),
        is_moderate(trade.estimated_profit, k),
        match trade.execution_plan {
            PlanRecord::BuyAndMerge { merge_amount, .. } => is_moderate(merge_amount, k),
            PlanRecord::SplitAndSell { split_amount, .. } => is_moderate(split_amount, k),
            PlanRecord::NegRiskArbitrage { legs, amount, .. } => is_moderate(amount, k) && forall|
                i: int,
            |
                0 <= i < legs.len() ==> is_moderate((#[trigger] legs[i]).size, k),
            PlanRecord::CrossMarket { leg_a, leg_b, amount, .. } => is_moderate(amount, k)
                && is_moderate(leg_a.size, k) && is_moderate(leg_b.size, k),
            PlanRecord::DirectionalBuy(order) => is_moderate(order.size, k),
        },
    ensures
        ({
            let scaled = scaled_trade(trade, share)->0;
            &&& is_share(scaled.size, trade.size, share, 2, k)
            &&& is_share(scaled.estimated_profit, trade.estimated_profit, share, 4, k)
            &&& scaled == (ArbitrageRecord {
                size: scaled.size,
                estimated_profit: scaled.estimated_profit,
                execution_plan: scaled.execution_plan,
                ..trade
            })
            &&& match trade.execution_plan {
                PlanRecord::BuyAndMerge { sides, merge_amount } => {
                    &&& scaled.execution_plan matches PlanRecord::BuyAndMerge {
                        sides: same,
                        merge_amount: part,
                    } && same == sides && is_share(part, merge_amount, share, 2, k)
                },
                PlanRecord::SplitAndSell { sides, split_amount } => {
                    &&& scaled.execution_plan matches PlanRecord::SplitAndSell {
                        sides: same,
                        split_amount: part,
                    } && same == sides && is_share(part, split_amount, share, 2, k)
                },
                PlanRecord::NegRiskArbitrage { neg_risk_market_id, legs, amount } => {
                    &&& scaled.execution_plan matches PlanRecord::NegRiskArbitrage {
                        neg_risk_market_id: same,
                        legs: parts,
                        amount: part,
                    } && same == neg_risk_market_id && is_share(part, amount, share, 2, k)
                        && parts.len() == legs.len() && forall|i: int|
                        0 <= i < legs.len() ==> (#[trigger] parts[i]) == (LegRecord {
                            size: parts[i].size,
                            ..legs[i]
                        }) && is_share(parts[i].size, legs[i].size, share, 2, k)
                },
                PlanRecord::CrossMarket { pair_id, leg_a, leg_b, amount } => {
                    &&& scaled.execution_plan matches PlanRecord::CrossMarket {
                        pair_id: same,
                        leg_a: a,
                        leg_b: b,
                        amount: part,
                    } && same == pair_id && is_share(part, amount, share, 2, k) && is_share(
                        a.size,
                        leg_a.size,
                        share,
                        2,
                        k,
                    ) && is_share(b.size, leg_b.size, share, 2, k) && a == (CrossLegRecord {
                        size: a.size,
                        ..leg_a
                    }) && b == (CrossLegRecord { size: b.size, ..leg_b })
                },
                PlanRecord::DirectionalBuy(order) => {
                    &&& scaled.execution_plan matches PlanRecord::DirectionalBuy(part) && part == (
                    OrderRecord { size: part.size, ..order }) && is_share(
                        part.size,
                        order.size,
                        share,
                        2,
                        k,
                    )
                },
            }
        }),
{
    lemma_share(trade.size, share, 2, k);
    lemma_share(trade.estimated_profit, share, 4, k);
    match trade.execution_plan {
        PlanRecord::BuyAndMerge { merge_amount, .. } => {
            lemma_share(merge_amount, share, 2, k);
        },
        PlanRecord::SplitAndSell { split_amount, .. } => {
            lemma_share(split_amount, share, 2, k);
        },
        PlanRecord::NegRiskArbitrage { legs, amount, .. } => {
            lemma_share(amount, share, 2, k);
            lemma_shares(legs, share, legs.len(), k);
        },
        PlanRecord::CrossMarket { leg_a, leg_b, amount, .. } => {
            lemma_share(amount, share, 2, k);
            lemma_share(leg_a.size, share, 2, k);
            lemma_share(leg_b.size, share, 2, k);
        },
        PlanRecord::DirectionalBuy(order) => {
            lemma_share(order.size, share, 2, k);
        },
    }
}

pub proof fn lemma_share(v: int, share: int, digits: nat, k: nat)
    requires
        k <= 28,
        digits <= 28,
        0 <= share <= unit(),
        is_moderate(v, k),
        scaled_to(v, share, digits) is Some,
    ensures
        is_share(scaled_to(v, share, digits)->0, v, share, digits, k),
{
    let u = unit();
    let p = pow10(k);
    let step = pow10((28 - digits) as nat);
    assert(-(7 * p * (u * u)) <= v * share <= 7 * p * (u * u)) by (nonlinear_arith)
        requires
            0 <= share <= u,
            -7 * p * u <= v <= 7 * p * u,
            p >= 0,
            u > 0,
    {
        let m = 7 * p * u;
        assert(-m <= v <= m);
        assert(v * share <= m * share && v * share >= (-m) * share);
        assert(m * share <= m * u && (-m) * share >= (-m) * u);
        assert(m * u == 7 * p * (u * u));
        assert((-m) * u == -(m * u));
    }
    lemma_product_close(v, share, k);
    let x = product(v, share)->0;
    law_digits_are_dropped_to_the_nearest(x, digits);
    let y = round_dp_of(x, digits);
    assert(2 * (y * u - x * u) <= step * u && 2 * (x * u - y * u) <= step * u) by (nonlinear_arith)
        requires
            2 * (y - x) <= step,
            2 * (x - y) <= step,
            u > 0,
    ;
    assert((step + p) * u == step * u + p * u) by (nonlinear_arith);
}

proof fn lemma_shares(legs: Seq<LegRecord>, share: int, n: nat, k: nat)
    requires
        k <= 28,
        0 <= share <= unit(),
        n <= legs.len(),
        scaled_legs(legs, share, n) is Some,
        forall|i: int| 0 <= i < legs.len() ==> is_moderate((#[trigger] legs[i]).size, k),
    ensures
        scaled_legs(legs, share, n)->0.len() == n,
        forall|i: int|
            0 <= i < n ==> (#[trigger] scaled_legs(legs, share, n)->0[i]) == (LegRecord {
                size: scaled_legs(legs, share, n)->0[i].size,
                ..legs[i]
            }) && is_share(scaled_legs(legs, share, n)->0[i].size, legs[i].size, share, 2, k),
    decreases n,
{
    if n > 0 {
        lemma_shares(legs, share, (n - 1) as nat, k);
        assert(is_moderate(legs[n - 1].size, k));
        lemma_share(legs[n - 1].size, share, 2, k);
    }
}

} // verus!
