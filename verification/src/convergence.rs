//! Buying outcomes that are all but certain, shortly before their markets resolve.
use crate::arbitrage::{ArbitrageOpportunity, ExecutionPlan};
use crate::crypto_alpha::entry::{find_position, TokenPosition};
use crate::crypto_alpha::exits::HeldPosition;
use crate::decimal::Decimal;
use crate::profitability::{bps_as_fraction, ProfitCalculator};
use crate::types::{
    find_market, BookSet, DirectionalBuy, MarketInfo, Stamp, StrategyType, TradeSide, B256, U256,
};
use vstd::prelude::*;

verus! {

use crate::arbitrage::{ArbitrageRecord, PlanRecord};
use crate::cross_market::trade_views;
use crate::crypto_alpha::entry::shares_held;
use crate::engine::trade_at;
use crate::profitability::{
    bps_fraction, buy_figures, fee_of, law_basis_points_are_ten_thousandths,
    law_purchase_earns_its_edge, law_sale_earns_what_the_price_gained, sell_figures,
};
use crate::rounding::{
    at_least, at_most, ceil_of, cents, close, difference, lemma_bounded_product, lemma_close_times,
    lemma_pow10_below_unit, lemma_product_close, lemma_quotient_close, lemma_scaled,
    lemma_share_up_to_two, lemma_sum_close, minus, over, pow10, product, quotient, times, unit, whole,
};
use crate::types::{figure, market_with, zero_id, MarketRecord, OrderRecord};

/// Nanoseconds in an hour.
pub const HOUR: i128 = 3_600_000_000_000;

/// The fee that is taken where a token's market is not known.
pub const UNKNOWN_FEE_BPS: u32 = 200;

#[derive(Clone, Copy, Debug)]
pub struct ConvergenceConfig {
    /// The lowest ask that an entry is made at.
    pub min_price_threshold: Decimal,
    pub max_days_to_resolution: u32,
    /// The largest position, as a share of the balance.
    pub max_position_pct: Decimal,
    /// The share of the Kelly size that is taken.
    pub kelly_fraction: Decimal,
    pub exit_buffer_bps: u32,
    /// The bid from which on a position is sold in any case.
    pub capital_efficiency_threshold: Decimal,
}

/// What an entry is paid from and weighed against.
#[derive(Debug)]
pub struct ConvergenceFunds {
    pub balance: Decimal,
    pub available: Decimal,
    pub positions: Vec<TokenPosition>,
}

/// Buys tokens priced near one in markets that are about to resolve.
#[derive(Clone, Copy, Debug)]
pub struct ResolutionConvergenceStrategy {
    pub config: ConvergenceConfig,
    pub profit_calc: ProfitCalculator,
}

/// The whole hours until a market resolves, for one that has yet to. Both moments are in nanoseconds
/// since 1970.
pub open spec fn hours_until(end_date: Option<i128>, now: i128) -> Option<int> {
    match end_date {
        Some(end) => if end <= now {
            None
        } else {
            Some((end - now) / HOUR as int)
        },
        None => None,
    }
}

/// The whole hours until a market resolves, for one that has yet to. The model reckons its
/// probability from them.
pub fn hours_left(end_date: Option<i128>, now: i128) -> (r: Option<i128>)
    requires
        end_date matches Some(end) ==> end - now <= i128::MAX,
    ensures
        hours_until(end_date, now) == (match r {
            Some(h) => Some(h as int),
            None => None,
        }),
        r matches Some(h) ==> h >= 0,
{
    match end_date {
        Some(end) => {
            if end <= now {
                None
            } else {
                Some((end - now) / HOUR)
            }
        },
        None => None,
    }
}

/// The clock and the end of a market can be compared.
pub open spec fn clock_reaches(end_date: Option<i128>, now: i128) -> bool {
    end_date matches Some(end) ==> end - now <= i128::MAX
}

/// The market is one that an entry can be made in: two tokens, active, no part of a larger event,
/// and resolving within the horizon.
pub open spec fn near_resolution(market: MarketRecord, now: i128, max_days: u32) -> bool {
    match hours_until(market.end_date, now) {
        Some(hours) => hours <= 24 * max_days && !market.neg_risk && market.tokens.len() == 2
            && market.active,
        None => false,
    }
}

/// The token to buy: of the asks at or above the threshold the higher one.
pub struct Conviction {
    pub token_id: U256,
    pub ask: int,
}

pub open spec fn asked(books: BookSet, token_id: U256) -> Option<int> {
    match books.book(token_id) {
        Some(book) => if book.asks@.len() > 0 {
            Some(book.asks@[0].price@)
        } else {
            None
        },
        None => None,
    }
}

pub open spec fn conviction(market: MarketRecord, books: BookSet, threshold: int) -> Option<
    Conviction,
> {
    let yes = market.tokens[0].token_id;
    let no = market.tokens[1].token_id;
    match (asked(books, yes), asked(books, no)) {
        (Some(yes_ask), Some(no_ask)) => if yes_ask >= threshold && (no_ask < threshold || yes_ask
            >= no_ask) {
            Some(Conviction { token_id: yes, ask: yes_ask })
        } else if no_ask >= threshold {
            Some(Conviction { token_id: no, ask: no_ask })
        } else {
            None
        },
        _ => None,
    }
}

impl ResolutionConvergenceStrategy {
    /// The largest position that the balance allows.
    pub open spec fn largest_position(&self, balance: int) -> Option<int> {
        times(Some(balance), Some(self.config.max_position_pct@))
    }

    /// How much an entry may be: the Kelly size, within what the position and the capital leave.
    pub open spec fn entry_size(
        &self,
        edge: Option<int>,
        ask: int,
        balance: int,
        available: int,
        held: int,
    ) -> Option<int> {
        let largest = self.largest_position(balance);
        let kelly = if 0 < ask && ask < cents(99) {
            at_most(over(edge, minus(Some(unit()), Some(ask))), Some(whole(2)))
        } else {
            Some(0)
        };
        let wanted = times(times(kelly, Some(self.config.kelly_fraction@)), largest);
        let remaining = at_least(minus(largest, Some(held)), Some(0));
        at_most(at_most(wanted, remaining), Some(available))
    }

    /// The entry that the model's probability suggests: `Some(None)` where it suggests none.
    pub open spec fn entry_trade(
        &self,
        market: MarketRecord,
        pick: Conviction,
        prob: int,
        funds: ConvergenceFunds,
        stamp: Stamp,
    ) -> Option<Option<ArbitrageRecord>> {
        if prob <= pick.ask {
            Some(None)
        } else {
            let edge = minus(Some(prob), Some(pick.ask));
            let size = self.entry_size(
                edge,
                pick.ask,
                funds.balance@,
                funds.available@,
                shares_held(funds.positions@, pick.token_id),
            );
            match (edge, size) {
                (Some(spread), Some(size)) => if size <= 0 {
                    Some(None)
                } else {
                    match self.affordable(pick.ask, size) {
                        None => None,
                        Some(false) => Some(None),
                        Some(true) => match buy_figures(
                            pick.ask,
                            prob,
                            size,
                            market.fee_rate_bps as int,
                        ) {
                            None => None,
                            Some(figures) => if figures.net_profit <= 0 {
                                Some(None)
                            } else {
                                Some(
                                    Some(
                                        ArbitrageRecord {
                                            stamp,
                                            strategy_type: StrategyType::ResolutionConvergence,
                                            condition_id: market.condition_id,
                                            question: market.question,
                                            spread,
                                            estimated_profit: figures.net_profit,
                                            size,
                                            execution_plan: PlanRecord::DirectionalBuy(
                                                OrderRecord {
                                                    token_id: pick.token_id,
                                                    side: TradeSide::Buy,
                                                    price: pick.ask,
                                                    size,
                                                    condition_id: market.condition_id,
                                                },
                                            ),
                                        },
                                    ),
                                )
                            },
                        },
                    }
                },
                _ => None,
            }
        }
    }

    /// The size costs at least the least order, which is worth one.
    pub open spec fn affordable(&self, ask: int, size: int) -> Option<bool> {
        if ask > 0 {
            match over(Some(unit()), Some(ask)) {
                Some(shares) => Some(size >= ceil_of(shares)),
                None => None,
            }
        } else {
            Some(true)
        }
    }

    /// What comes of a market. The model may fail to give a probability.
    pub open spec fn entry_result(
        &self,
        market: MarketRecord,
        books: BookSet,
        funds: ConvergenceFunds,
        model_prob: Option<int>,
        now: i128,
        stamp: Stamp,
    ) -> Option<Option<ArbitrageRecord>> {
        if !near_resolution(market, now, self.config.max_days_to_resolution) {
            Some(None)
        } else {
            match (
                conviction(market, books, self.config.min_price_threshold@),
                model_prob,
            ) {
                (Some(pick), Some(prob)) => self.entry_trade(market, pick, prob, funds, stamp),
                _ => Some(None),
            }
        }
    }
}

fn best_ask_price(books: &BookSet, token_id: U256) -> (r: Option<Decimal>)
    ensures
        asked(*books, token_id) == figure(r),
{
    match books.get(token_id) {
        Some(book) => match book.best_ask() {
            Some(level) => Some(level.price),
            None => None,
        },
        None => None,
    }
}

impl ResolutionConvergenceStrategy {
    pub fn new(config: ConvergenceConfig, gas_cost_usd: Decimal) -> (r: ResolutionConvergenceStrategy)
        ensures
            r.config == config,
            r.profit_calc.gas_cost_usd == gas_cost_usd,
    {
        ResolutionConvergenceStrategy { config, profit_calc: ProfitCalculator::new(gas_cost_usd) }
    }

    fn pick_side(&self, market: &MarketInfo, books: &BookSet) -> (r: Option<(U256, Decimal)>)
        requires
            market.tokens@.len() == 2,
        ensures
            conviction(market@, *books, self.config.min_price_threshold@) == (match r {
                Some((token_id, ask)) => Some(Conviction { token_id, ask: ask@ }),
                None => None,
            }),
    {
        let yes = market.tokens[0].token_id;
        let no = market.tokens[1].token_id;
        let yes_ask = match best_ask_price(books, yes) {
            Some(p) => p,
            None => return None,
        };
        let no_ask = match best_ask_price(books, no) {
            Some(p) => p,
            None => return None,
        };
        let threshold = self.config.min_price_threshold;
        let yes_qualifies = yes_ask >= threshold;
        let no_qualifies = no_ask >= threshold;
        if yes_qualifies && (!no_qualifies || yes_ask >= no_ask) {
            Some((yes, yes_ask))
        } else if no_qualifies {
            Some((no, no_ask))
        } else {
            None
        }
    }

    fn size_entry(&self, edge: Decimal, ask: Decimal, funds: &ConvergenceFunds, held: Decimal) -> (r:
        Decimal)
        requires
            self.entry_size(
                Some(edge@),
                ask@,
                funds.balance@,
                funds.available@,
                held@,
            ) is Some,
        ensures
            self.entry_size(
                Some(edge@),
                ask@,
                funds.balance@,
                funds.available@,
                held@,
            ) == Some(r@),
    {
        let largest = funds.balance * self.config.max_position_pct;
        let kelly = if ask > Decimal::zero() && ask < Decimal::new(99, 2) {
            (edge / (Decimal::one() - ask)).min(Decimal::two())
        } else {
            Decimal::zero()
        };
        let wanted = kelly * self.config.kelly_fraction * largest;
        let remaining = (largest - held).max(Decimal::zero());
        wanted.min(remaining).min(funds.available)
    }

    /// Looks at a market. The model's probability that the token pays out is given with it, none
    /// where the model cannot tell.
    pub fn detect_convergence(
        &self,
        market: &MarketInfo,
        books: &BookSet,
        funds: &ConvergenceFunds,
        model_prob: Option<Decimal>,
        now: i128,
        stamp: Stamp,
    ) -> (r: Option<ArbitrageOpportunity>)
        requires
            clock_reaches(market.end_date, now),
            self.entry_result(
                market@,
                *books,
                *funds,
                figure(model_prob),
                now,
                stamp,
            ) is Some,
        ensures
            self.entry_result(
                market@,
                *books,
                *funds,
                figure(model_prob),
                now,
                stamp,
            ) == Some(trade_at(r)),
    {
        let hours: i128 = match hours_left(market.end_date, now) {
            Some(h) => h,
            None => return None,
        };
        if hours > self.config.max_days_to_resolution as i128 * 24 {
            return None;
        }
        if market.neg_risk || market.tokens.len() != 2 || !market.active {
            return None;
        }
        let (token_id, ask_price) = match self.pick_side(market, books) {
            Some(pick) => pick,
            None => return None,
        };
        let prob = match model_prob {
            Some(p) => p,
            None => return None,
        };
        if prob <= ask_price {
            return None;
        }
        let edge = prob - ask_price;
        let size = self.size_entry(edge, ask_price, funds, find_position(&funds.positions, token_id));
        if size <= Decimal::zero() {
            return None;
        }
        if ask_price > Decimal::zero() && size < (Decimal::one() / ask_price).ceil() {
            return None;
        }
        let estimate = self.profit_calc.directional_buy_profit(
            ask_price,
            prob,
            size,
            market.fee_rate_bps,
        );
        if estimate.net_profit <= Decimal::zero() {
            return None;
        }
        Some(
            ArbitrageOpportunity {
                stamp,
                strategy_type: StrategyType::ResolutionConvergence,
                condition_id: market.condition_id,
                question: market.question.clone(),
                spread: edge,
                estimated_profit: estimate.net_profit,
                size,
                execution_plan: ExecutionPlan::DirectionalBuy(
                    DirectionalBuy {
                        token_id,
                        side: TradeSide::Buy,
                        price: ask_price,
                        size,
                        condition_id: market.condition_id,
                    },
                ),
            },
        )
    }
}

/// The sale of a position at the best bid. The condition, the question and the fee are those of the
/// token's market.
pub open spec fn exit_trade(
    condition_id: Seq<u8>,
    question: Seq<char>,
    fee_rate_bps: u32,
    held: HeldPosition,
    bid: int,
    stamp: Stamp,
) -> Option<ArbitrageRecord> {
    match (
        sell_figures(bid, held.avg_cost@, held.size@, fee_rate_bps as int),
        minus(Some(bid), Some(held.avg_cost@)),
    ) {
        (Some(figures), Some(spread)) => Some(
            ArbitrageRecord {
                stamp,
                strategy_type: StrategyType::ResolutionConvergence,
                condition_id,
                question: "[EXIT] "@ + question,
                spread,
                estimated_profit: figures.net_profit,
                size: held.size@,
                execution_plan: PlanRecord::DirectionalBuy(
                    OrderRecord {
                        token_id: held.token_id,
                        side: TradeSide::Sell,
                        price: bid,
                        size: held.size@,
                        condition_id,
                    },
                ),
            },
        ),
        _ => None,
    }
}

/// The sale of a position whose market may not be known.
pub open spec fn exit_from(
    market: Option<MarketRecord>,
    held: HeldPosition,
    bid: int,
    stamp: Stamp,
) -> Option<ArbitrageRecord> {
    match market {
        Some(m) => exit_trade(m.condition_id, m.question, m.fee_rate_bps, held, bid, stamp),
        None => exit_trade(zero_id(), ""@, UNKNOWN_FEE_BPS, held, bid, stamp),
    }
}

pub open spec fn market_at(markets: Seq<MarketInfo>, token_id: U256) -> Option<MarketRecord> {
    match market_with(markets, token_id) {
        Some(i) => Some(markets[i]@),
        None => None,
    }
}

pub open spec fn bid_for(books: BookSet, token_id: U256) -> Option<int> {
    match books.book(token_id) {
        Some(book) => if book.bids@.len() > 0 {
            Some(book.bids@[0].price@)
        } else {
            None
        },
        None => None,
    }
}

impl ResolutionConvergenceStrategy {
    /// The model no longer backs the bid: it is more than the buffer below it.
    pub open spec fn reversed(&self, prob: int, bid: int) -> Option<bool> {
        match minus(Some(bid), bps_fraction(self.config.exit_buffer_bps as int)) {
            Some(limit) => Some(prob < limit),
            None => None,
        }
    }

    /// What is done about a position: sold where the bid has come close to one or the model no longer
    /// backs it.
    pub open spec fn exit_result(
        &self,
        markets: Seq<MarketInfo>,
        books: BookSet,
        held: HeldPosition,
        model_prob: Option<int>,
        now: i128,
        stamp: Stamp,
    ) -> Option<Option<ArbitrageRecord>> {
        match bid_for(books, held.token_id) {
            None => Some(None),
            Some(bid) => {
                let market = market_at(markets, held.token_id);
                let sale = match exit_from(market, held, bid, stamp) {
                    Some(trade) => Some(Some(trade)),
                    None => None,
                };
                if bid >= self.config.capital_efficiency_threshold@ {
                    sale
                } else {
                    match (market, model_prob) {
                        (Some(m), Some(prob)) => if hours_until(m.end_date, now) is Some {
                            match self.reversed(prob, bid) {
                                None => None,
                                Some(true) => sale,
                                Some(false) => Some(None),
                            }
                        } else {
                            Some(None)
                        },
                        _ => Some(None),
                    }
                }
            },
        }
    }

    /// The sale of a position at the best bid.
    fn build_exit_opportunity(
        &self,
        held: HeldPosition,
        best_bid: Decimal,
        market: Option<&MarketInfo>,
        stamp: Stamp,
    ) -> (r: ArbitrageOpportunity)
        requires
            exit_from(
                (match market {
                    Some(m) => Some(m@),
                    None => None,
                }),
                held,
                best_bid@,
                stamp,
            ) is Some,
        ensures
            exit_from(
                (match market {
                    Some(m) => Some(m@),
                    None => None,
                }),
                held,
                best_bid@,
                stamp,
            ) == Some(r@),
    {
        let condition_id = match market {
            Some(m) => m.condition_id,
            None => B256::zero(),
        };
        let question = match market {
            Some(m) => m.question.as_str(),
            None => "",
        };
        let fee_rate_bps: u32 = match market {
            Some(m) => m.fee_rate_bps,
            None => UNKNOWN_FEE_BPS,
        };
        let estimate = self.profit_calc.directional_sell_profit(
            best_bid,
            held.avg_cost,
            held.size,
            fee_rate_bps,
        );
        ArbitrageOpportunity {
            stamp,
            strategy_type: StrategyType::ResolutionConvergence,
            condition_id,
            question: "[EXIT] ".to_owned().concat(question),
            spread: best_bid - held.avg_cost,
            estimated_profit: estimate.net_profit,
            size: held.size,
            execution_plan: ExecutionPlan::DirectionalBuy(
                DirectionalBuy {
                    token_id: held.token_id,
                    side: TradeSide::Sell,
                    price: best_bid,
                    size: held.size,
                    condition_id,
                },
            ),
        }
    }

    /// Looks at a position. What the model says of its market now is given with it.
    pub fn judge_position(
        &self,
        markets: &Vec<MarketInfo>,
        books: &BookSet,
        held: HeldPosition,
        model_prob: Option<Decimal>,
        now: i128,
        stamp: Stamp,
    ) -> (r: Option<ArbitrageOpportunity>)
        requires
            clocks_reach(markets@, now),
            self.exit_result(markets@, *books, held, figure(model_prob), now, stamp) is Some,
        ensures
            self.exit_result(markets@, *books, held, figure(model_prob), now, stamp) == Some(
                trade_at(r),
            ),
    {
        let best_bid = match books.get(held.token_id) {
            Some(book) => match book.best_bid() {
                Some(level) => level.price,
                None => return None,
            },
            None => return None,
        };
        let place = find_market(markets, held.token_id);
        let market: Option<&MarketInfo> = match place {
            Some(i) => Some(&markets[i]),
            None => None,
        };
        if best_bid >= self.config.capital_efficiency_threshold {
            return Some(self.build_exit_opportunity(held, best_bid, market, stamp));
        }
        let m = match market {
            Some(m) => m,
            None => return None,
        };
        if hours_left(m.end_date, now).is_none() {
            return None;
        }
        let prob = match model_prob {
            Some(p) => p,
            None => return None,
        };
        if prob < best_bid - bps_as_fraction(self.config.exit_buffer_bps) {
            Some(self.build_exit_opportunity(held, best_bid, market, stamp))
        } else {
            None
        }
    }
}

/// The clock and the ends of the markets can be compared.
pub open spec fn clocks_reach(markets: Seq<MarketInfo>, now: i128) -> bool {
    forall|i: int| 0 <= i < markets.len() ==> clock_reaches((#[trigger] markets[i]).end_date, now)
}

/// What the model says of a market or a position, and the mark of a trade on it.
#[derive(Clone, Copy, Debug)]
pub struct ConvergenceReading {
    pub model_prob: Option<Decimal>,
    pub stamp: Stamp,
}

/// One more trade, where there is one.
pub open spec fn extended(
    before: Option<Seq<ArbitrageRecord>>,
    next: Option<Option<ArbitrageRecord>>,
) -> Option<Seq<ArbitrageRecord>> {
    match (before, next) {
        (Some(trades), Some(Some(trade))) => Some(trades.push(trade)),
        (Some(trades), Some(None)) => Some(trades),
        _ => None,
    }
}

impl ResolutionConvergenceStrategy {
    /// The sales of the first `n` positions.
    pub open spec fn exits(
        &self,
        markets: Seq<MarketInfo>,
        books: BookSet,
        held: Seq<HeldPosition>,
        readings: Seq<ConvergenceReading>,
        now: i128,
        n: nat,
    ) -> Option<Seq<ArbitrageRecord>>
        decreases n,
    {
        if n == 0 {
            Some(Seq::empty())
        } else {
            extended(
                self.exits(markets, books, held, readings, now, (n - 1) as nat),
                self.exit_result(
                    markets,
                    books,
                    held[n - 1],
                    figure(readings[n - 1].model_prob),
                    now,
                    readings[n - 1].stamp,
                ),
            )
        }
    }

    /// The entries into the first `n` markets.
    pub open spec fn entries(
        &self,
        markets: Seq<MarketInfo>,
        books: BookSet,
        funds: ConvergenceFunds,
        readings: Seq<ConvergenceReading>,
        now: i128,
        n: nat,
    ) -> Option<Seq<ArbitrageRecord>>
        decreases n,
    {
        if n == 0 {
            Some(Seq::empty())
        } else {
            extended(
                self.entries(markets, books, funds, readings, now, (n - 1) as nat),
                self.entry_result(
                    markets[n - 1]@,
                    books,
                    funds,
                    figure(readings[n - 1].model_prob),
                    now,
                    readings[n - 1].stamp,
                ),
            )
        }
    }

    proof fn lemma_exits_prefix(
        &self,
        markets: Seq<MarketInfo>,
        books: BookSet,
        held: Seq<HeldPosition>,
        readings: Seq<ConvergenceReading>,
        now: i128,
        k: nat,
        n: nat,
    )
        requires
            k <= n,
            self.exits(markets, books, held, readings, now, n) is Some,
        ensures
            self.exits(markets, books, held, readings, now, k) is Some,
        decreases n,
    {
        if k < n {
            self.lemma_exits_prefix(markets, books, held, readings, now, k, (n - 1) as nat);
        }
    }

    proof fn lemma_entries_prefix(
        &self,
        markets: Seq<MarketInfo>,
        books: BookSet,
        funds: ConvergenceFunds,
        readings: Seq<ConvergenceReading>,
        now: i128,
        k: nat,
        n: nat,
    )
        requires
            k <= n,
            self.entries(markets, books, funds, readings, now, n) is Some,
        ensures
            self.entries(markets, books, funds, readings, now, k) is Some,
        decreases n,
    {
        if k < n {
            self.lemma_entries_prefix(markets, books, funds, readings, now, k, (n - 1) as nat);
        }
    }

    /// Looks at every position for a reason to sell it.
    pub fn scan_exits(
        &self,
        markets: &Vec<MarketInfo>,
        books: &BookSet,
        held: &Vec<HeldPosition>,
        readings: &Vec<ConvergenceReading>,
        now: i128,
    ) -> (r: Vec<ArbitrageOpportunity>)
        requires
            readings@.len() == held@.len(),
            clocks_reach(markets@, now),
            self.exits(markets@, *books, held@, readings@, now, held@.len()) is Some,
        ensures
            self.exits(markets@, *books, held@, readings@, now, held@.len()) == Some(
                trade_views(r@),
            ),
    {
        let mut found: Vec<ArbitrageOpportunity> = Vec::new();
        let mut i: usize = 0;
        proof {
            assert(trade_views(found@) =~= Seq::empty());
        }
        while i < held.len()
            invariant
                i <= held@.len(),
                readings@.len() == held@.len(),
                clocks_reach(markets@, now),
                self.exits(markets@, *books, held@, readings@, now, held@.len()) is Some,
                self.exits(markets@, *books, held@, readings@, now, i as nat) == Some(
                    trade_views(found@),
                ),
            decreases held@.len() - i,
        {
            proof {
                self.lemma_exits_prefix(
                    markets@,
                    *books,
                    held@,
                    readings@,
                    now,
                    (i + 1) as nat,
                    held@.len(),
                );
            }
            let reading = readings[i];
            if let Some(trade) = self.judge_position(
                markets,
                books,
                held[i],
                reading.model_prob,
                now,
                reading.stamp,
            ) {
                let ghost before = found@;
                found.push(trade);
                proof {
                    assert(trade_views(found@) =~= trade_views(before).push(trade@));
                }
            }
            i = i + 1;
        }
        found
    }

    /// Looks at every market for an entry, and at every position for a reason to sell it.
    pub fn scan(
        &self,
        markets: &Vec<MarketInfo>,
        books: &BookSet,
        funds: &ConvergenceFunds,
        readings: &Vec<ConvergenceReading>,
        held: &Vec<HeldPosition>,
        held_readings: &Vec<ConvergenceReading>,
        now: i128,
    ) -> (r: Vec<ArbitrageOpportunity>)
        requires
            readings@.len() == markets@.len(),
            held_readings@.len() == held@.len(),
            clocks_reach(markets@, now),
            self.entries(markets@, *books, *funds, readings@, now, markets@.len()) is Some,
            self.exits(markets@, *books, held@, held_readings@, now, held@.len()) is Some,
        ensures
            trade_views(r@) == self.entries(
                markets@,
                *books,
                *funds,
                readings@,
                now,
                markets@.len(),
            )->0 + self.exits(markets@, *books, held@, held_readings@, now, held@.len())->0,
    {
        let mut found: Vec<ArbitrageOpportunity> = Vec::new();
        let mut i: usize = 0;
        proof {
            assert(trade_views(found@) =~= Seq::empty());
        }
        while i < markets.len()
            invariant
                i <= markets@.len(),
                readings@.len() == markets@.len(),
                clocks_reach(markets@, now),
                self.entries(markets@, *books, *funds, readings@, now, markets@.len()) is Some,
                self.entries(markets@, *books, *funds, readings@, now, i as nat) == Some(
                    trade_views(found@),
                ),
            decreases markets@.len() - i,
        {
            proof {
                self.lemma_entries_prefix(
                    markets@,
                    *books,
                    *funds,
                    readings@,
                    now,
                    (i + 1) as nat,
                    markets@.len(),
                );
            }
            let reading = readings[i];
            if let Some(trade) = self.detect_convergence(
                &markets[i],
                books,
                funds,
                reading.model_prob,
                now,
                reading.stamp,
            ) {
                let ghost before = found@;
                found.push(trade);
                proof {
                    assert(trade_views(found@) =~= trade_views(before).push(trade@));
                }
            }
            i = i + 1;
        }
        let mut sales = self.scan_exits(markets, books, held, held_readings, now);
        let ghost entered = found@;
        let ghost sold = sales@;
        found.append(&mut sales);
        proof {
            assert(trade_views(found@) =~= trade_views(entered) + trade_views(sold));
        }
        found
    }
}

/// An entry buys below what the model says and at or above the price threshold, in an active market
/// of two tokens that has yet to resolve and does so within the horizon. It is no larger than what is
/// available, nor than what the largest position leaves, and is expected to earn something.
pub proof fn law_convergence_entry_is_within_limits(
    strategy: ResolutionConvergenceStrategy,
    market: MarketRecord,
    books: BookSet,
    funds: ConvergenceFunds,
    model_prob: Option<int>,
    now: i128,
    stamp: Stamp,
)
    requires
        strategy.entry_result(market, books, funds, model_prob, now, stamp) matches Some(Some(_)),
    ensures
        ({
            let trade = strategy.entry_result(
                market,
                books,
                funds,
                model_prob,
                now,
                stamp,
            )->0->0;
            let order = trade.execution_plan->DirectionalBuy_0;
            let left = minus(
                strategy.largest_position(funds.balance@),
                Some(shares_held(funds.positions@, order.token_id)),
            );
            &&& trade.execution_plan is DirectionalBuy
            &&& order.side == TradeSide::Buy
            &&& asked(books, order.token_id) == Some(order.price)
            &&& strategy.config.min_price_threshold@ <= order.price < model_prob->0
            &&& 0 < order.size <= funds.available@
            &&& left is Some && order.size <= left->0
            &&& order.size == trade.size
            &&& trade.estimated_profit > 0
            &&& market.active && !market.neg_risk && market.tokens.len() == 2
            &&& hours_until(market.end_date, now)->0 <= 24 * strategy.config.max_days_to_resolution
        }),
{
}

/// A position is sold whole, at the best bid for it.
pub proof fn law_convergence_exit_sells_what_is_held(
    strategy: ResolutionConvergenceStrategy,
    markets: Seq<MarketInfo>,
    books: BookSet,
    held: HeldPosition,
    model_prob: Option<int>,
    now: i128,
    stamp: Stamp,
)
    requires
        strategy.exit_result(markets, books, held, model_prob, now, stamp) matches Some(Some(_)),
    ensures
        ({
            let trade = strategy.exit_result(
                markets,
                books,
                held,
                model_prob,
                now,
                stamp,
            )->0->0;
            let order = trade.execution_plan->DirectionalBuy_0;
            &&& trade.execution_plan is DirectionalBuy
            &&& order.token_id == held.token_id
            &&& order.side == TradeSide::Sell
            &&& bid_for(books, held.token_id) == Some(order.price)
            &&& order.size == held.size@
        }),
{
}

/// A position is sold in two cases only: where the bid has reached the capital-efficiency threshold,
/// and where the market is known and has yet to resolve and the model, even with the buffer added, is
/// below the bid. In every other case it is kept.
pub proof fn law_convergence_exit_has_its_reason(
    strategy: ResolutionConvergenceStrategy,
    markets: Seq<MarketInfo>,
    books: BookSet,
    held: HeldPosition,
    model_prob: Option<int>,
    now: i128,
    stamp: Stamp,
)
    requires
        strategy.exit_result(markets, books, held, model_prob, now, stamp) is Some,
        bid_for(books, held.token_id) matches Some(bid) ==> 0 <= bid <= unit(),
        strategy.config.exit_buffer_bps <= 10000,
    ensures
        strategy.exit_result(markets, books, held, model_prob, now, stamp)->0 is Some <==> {
            &&& books.book(held.token_id) is Some
            &&& books.book(held.token_id)->0.bids@.len() > 0
            &&& {
                let bid = books.book(held.token_id)->0.bids@[0].price@;
                ||| bid >= strategy.config.capital_efficiency_threshold@
                ||| {
                    &&& market_with(markets, held.token_id) is Some
                    &&& markets[market_with(markets, held.token_id)->0].end_date is Some
                    &&& markets[market_with(markets, held.token_id)->0].end_date->0 > now
                    &&& model_prob is Some
                    &&& model_prob->0 * 10000 + strategy.config.exit_buffer_bps * unit() < bid * 10000
                }
            }
        },
{
    if let Some(bid) = bid_for(books, held.token_id) {
        law_basis_points_are_ten_thousandths(strategy.config.exit_buffer_bps);
        let buffer = bps_fraction(strategy.config.exit_buffer_bps as int)->0;
        assert(pow10(24) == 1_000_000_000_000_000_000_000_000) by {
            reveal_with_fuel(pow10, 25);
        }
        assert(pow10(0) == 1);
        lemma_sum_close(bid, buffer, 0);
    }
}

/// What a sale of a position says: the token is sold at the best bid, the spread is what the bid gained
/// on the cost, and the profit is that on every share, less the fee. It holds up to the rounding of
/// the last digits.
pub proof fn law_convergence_exit_earns_what_the_bid_gained(
    strategy: ResolutionConvergenceStrategy,
    markets: Seq<MarketInfo>,
    books: BookSet,
    held: HeldPosition,
    model_prob: Option<int>,
    now: i128,
    stamp: Stamp,
    k: nat,
)
    requires
        k <= 20,
        strategy.exit_result(markets, books, held, model_prob, now, stamp) matches Some(Some(_)),
        0 <= bid_for(books, held.token_id)->0 <= unit(),
        0 <= held.avg_cost@ <= unit(),
        0 <= held.size@ <= pow10(k) * unit(),
        market_with(markets, held.token_id) matches Some(i) ==> markets[i].fee_rate_bps <= 10000,
    ensures
        ({
            let trade = strategy.exit_result(
                markets,
                books,
                held,
                model_prob,
                now,
                stamp,
            )->0->0;
            let bid = bid_for(books, held.token_id)->0;
            let fee_rate: u32 = match market_with(markets, held.token_id) {
                Some(i) => markets[i].fee_rate_bps,
                None => 200,
            };
            let gained = bid - held.avg_cost@;
            let fee = fee_of(bid, fee_rate as int)->0;
            &&& trade.strategy_type == StrategyType::ResolutionConvergence
            &&& trade.spread == gained
            &&& trade.size == held.size@
            &&& close(trade.estimated_profit, (gained - fee) * held.size@, unit(), 4 * pow10(k))
        }),
{
    let bid = bid_for(books, held.token_id)->0;
    let fee_rate: u32 = match market_with(markets, held.token_id) {
        Some(i) => markets[i].fee_rate_bps,
        None => 200,
    };
    assert(pow10(0) == 1);
    lemma_sum_close(bid, held.avg_cost@, 0);
    law_sale_earns_what_the_price_gained(bid, held.avg_cost@, held.size@, fee_rate, k);
}

/// An entry is the Kelly bet: the edge over what can be lost, at most two, times the configured
/// fraction and the largest position, which is a share of the balance. It is never larger than that,
/// and where neither what the largest position leaves nor the capital binds, it is never smaller. Both
/// hold up to the rounding of the last digits.
pub proof fn law_convergence_entry_is_the_kelly_bet(
    strategy: ResolutionConvergenceStrategy,
    market: MarketRecord,
    books: BookSet,
    funds: ConvergenceFunds,
    model_prob: Option<int>,
    now: i128,
    stamp: Stamp,
    k: nat,
)
    requires
        k <= 20,
        strategy.entry_result(market, books, funds, model_prob, now, stamp) matches Some(Some(_)),
        0 < strategy.config.min_price_threshold@,
        ({
            let order = strategy.entry_result(
                market,
                books,
                funds,
                model_prob,
                now,
                stamp,
            )->0->0.execution_plan->DirectionalBuy_0;
            order.price < cents(99) && 0 <= shares_held(funds.positions@, order.token_id)
        }),
        model_prob->0 <= unit(),
        0 <= strategy.config.kelly_fraction@ <= unit(),
        0 <= strategy.config.max_position_pct@ <= unit(),
        0 <= funds.balance@ <= pow10(k) * unit(),
    ensures
        ({
            let trade = strategy.entry_result(
                market,
                books,
                funds,
                model_prob,
                now,
                stamp,
            )->0->0;
            let u = unit();
            let ask = trade.execution_plan->DirectionalBuy_0.price;
            let token_id = trade.execution_plan->DirectionalBuy_0.token_id;
            let largest = strategy.largest_position(funds.balance@)->0;
            let edge = model_prob->0 - ask;
            let bet = edge * u * strategy.config.kelly_fraction@ * largest;
            let whole_bet = (u - ask) * u * u;
            let tolerance = 3 * pow10(k);
            let left = largest - shares_held(funds.positions@, token_id);
            &&& close(largest, funds.balance@ * strategy.config.max_position_pct@, u, pow10(k))
            &&& trade.spread == edge
            &&& trade.size * whole_bet - bet <= tolerance * whole_bet
            &&& trade.size < left - pow10(k) && trade.size < funds.available@ ==> bet - trade.size
                * whole_bet <= tolerance * whole_bet
        }),
{
    let trade = strategy.entry_result(market, books, funds, model_prob, now, stamp)->0->0;
    let u = unit();
    let p = pow10(k);
    let ask = trade.execution_plan->DirectionalBuy_0.price;
    let token_id = trade.execution_plan->DirectionalBuy_0.token_id;
    let prob = model_prob->0;
    let held = shares_held(funds.positions@, token_id);
    let kf = strategy.config.kelly_fraction@;
    lemma_pow10_below_unit(k);
    assert(pow10(0) == 1);
    assert(cents(100) == u) by {
        reveal_with_fuel(pow10, 27);
    }
    let left = u - ask;
    let edge = prob - ask;
    lemma_sum_close(prob, ask, 0);
    lemma_sum_close(u, ask, 0);
    lemma_bounded_product(funds.balance@, p, strategy.config.max_position_pct@, 1);
    assert((p * 1) * (u * u) <= 7 * p * (u * u) && (2 * p) * (u * u) <= 7 * p * (u * u))
        by (nonlinear_arith)
        requires
            p > 0,
            u > 0,
    ;
    lemma_product_close(funds.balance@, strategy.config.max_position_pct@, k);
    let largest = strategy.largest_position(funds.balance@)->0;
    assert(p * u >= 0) by (nonlinear_arith)
        requires
            p > 0,
            u > 0,
    ;
    lemma_share_up_to_two(edge, left);
    let s0 = at_most(quotient(edge, left), Some(whole(2)))->0;
    lemma_bounded_product(s0, 2, kf, 1);
    lemma_close_times(s0, edge * u, left, 1, kf, 1, 0);
    let s1 = product(s0, kf)->0;
    lemma_scaled(left);
    lemma_bounded_product(s1, 2, largest, p);
    lemma_close_times(s1, edge * u * kf, left * u, 2, largest, p, k);
    let s2 = product(s1, largest)->0;
    lemma_scaled(left * u);
    let whole_bet = left * u * u;
    let size = trade.size;
    assert(size <= s2);
    assert(size * whole_bet <= s2 * whole_bet) by (nonlinear_arith)
        requires
            size <= s2,
            whole_bet > 0,
    ;
    assert(2 * p + p == 3 * p);
    let rest = difference(largest, held);
    if size < largest - held - p && size < funds.available@ {
        assert(p * u <= 7 * p * u) by (nonlinear_arith)
            requires
                p > 0,
                u > 0,
        ;
        lemma_sum_close(largest, held, k);
        assert(size < rest->0);
        assert(size == s2);
    }
}

/// A market is entered exactly where it is active, has two tokens, is no part of a larger event and
/// resolves later than now and less than an hour after the horizon; one of its sides is asked at the
/// price threshold or above, and of two such sides the dearer one, YES where they are asked alike; the
/// model says more than that ask; and an order of the Kelly size is worth one or more and earns something.
/// The entry buys that side at the ask, and its profit is what the model says it is worth, less what it
/// costs and the fee. It holds up to the rounding of the last digits.
pub proof fn law_market_is_entered_near_its_end(
    strategy: ResolutionConvergenceStrategy,
    market: MarketRecord,
    books: BookSet,
    funds: ConvergenceFunds,
    model_prob: Option<int>,
    now: i128,
    stamp: Stamp,
    k: nat,
)
    requires
        k <= 20,
        strategy.entry_result(market, books, funds, model_prob, now, stamp) is Some,
        0 < strategy.config.min_price_threshold@,
        market.fee_rate_bps <= 10000,
        model_prob matches Some(prob) ==> 0 <= prob <= unit(),
        forall|t: U256|
            (#[trigger] asked(books, t)) matches Some(ask) ==> unit() <= 100 * ask && ask <= unit(),
    ensures
        ({
            let u = unit();
            let c = strategy.config;
            let found = strategy.entry_result(market, books, funds, model_prob, now, stamp)->0;
            let end = market.end_date->0;
            let soon = market.end_date is Some && end > now && end - now < (24
                * c.max_days_to_resolution + 1) * 3_600_000_000_000 && market.active
                && !market.neg_risk && market.tokens.len() == 2;
            let yes = asked(books, market.tokens[0].token_id);
            let no = asked(books, market.tokens[1].token_id);
            let takes_yes = yes->0 >= c.min_price_threshold@ && yes->0 >= no->0;
            let takes_no = no->0 >= c.min_price_threshold@ && no->0 > yes->0;
            let ask = if takes_yes {
                yes->0
            } else {
                no->0
            };
            let token_id = if takes_yes {
                market.tokens[0].token_id
            } else {
                market.tokens[1].token_id
            };
            let backed = soon && yes is Some && no is Some && (takes_yes || takes_no) && model_prob
                is Some && model_prob->0 > ask;
            let edge = model_prob->0 - ask;
            let size = strategy.entry_size(
                Some(edge),
                ask,
                funds.balance@,
                funds.available@,
                shares_held(funds.positions@, token_id),
            );
            let figures = buy_figures(ask, model_prob->0, size->0, market.fee_rate_bps as int);
            let worth_it = backed && size is Some && size->0 > 0;
            &&& found is Some ==> worth_it && figures is Some && figures->0.net_profit > 0 && size->0
                * ask > u * u - 100 * u
            &&& worth_it && (size->0 - 2 * u) * ask >= u * u && figures is Some && figures->0.net_profit
                > 0 ==> found is Some
            &&& found matches Some(trade) ==> {
                &&& trade.spread == edge
                &&& trade.size == size->0
                &&& trade.condition_id == market.condition_id
                &&& trade.execution_plan == PlanRecord::DirectionalBuy(
                    OrderRecord {
                        token_id,
                        side: TradeSide::Buy,
                        price: ask,
                        size: trade.size,
                        condition_id: market.condition_id,
                    },
                )
                &&& trade.size <= pow10(k) * u ==> close(
                    trade.estimated_profit,
                    (edge - fee_of(ask, market.fee_rate_bps as int)->0) * trade.size,
                    u,
                    2 * pow10(k),
                )
            }
        }),
{
    let u = unit();
    let c = strategy.config;
    let end = market.end_date->0;
    let limit = c.max_days_to_resolution as int;
    let away = end - now;
    let hour: int = 3_600_000_000_000;
    assert(away / hour <= 24 * limit <==> away < (24 * limit + 1) * hour) by (nonlinear_arith)
        requires
            hour > 0,
    ;
    let pick = conviction(market, books, c.min_price_threshold@);
    assert(pow10(0) == 1);
    if market.tokens.len() == 2 && pick is Some && model_prob is Some && model_prob->0 > pick->0.ask {
        let ask = pick->0.ask;
        let prob = model_prob->0;
        lemma_sum_close(prob, ask, 0);
        let size = strategy.entry_size(
            Some(prob - ask),
            ask,
            funds.balance@,
            funds.available@,
            shares_held(funds.positions@, pick->0.token_id),
        );
        lemma_least_shares(ask);
        if size is Some && size->0 > 0 {
            let n = size->0;
            let shares = quotient(u, ask)->0;
            reveal(ceil_of);
            let up = ceil_of(shares);
            assert(shares <= up < shares + u) by {
                let q = (-shares) / u;
                vstd::arithmetic::div_mod::lemma_fundamental_div_mod(-shares, u);
                assert(up == -(q * u)) by (nonlinear_arith)
                    requires
                        up == -q * u,
                ;
                assert(-shares == q * u + (-shares) % u) by (nonlinear_arith)
                    requires
                        -shares == u * q + (-shares) % u,
                ;
            }
            assert(n >= up ==> n * ask > u * u - 100 * u) by (nonlinear_arith)
                requires
                    up >= shares,
                    2 * (u * u - shares * ask) <= 100 * ask,
                    0 < ask <= u,
                    u > 100,
            {
                if n >= up {
                    assert(n * ask >= shares * ask);
                    assert(50 * ask <= 50 * u);
                    assert(shares * ask >= u * u - 50 * ask);
                }
            }
            assert((n - 2 * u) * ask >= u * u ==> n >= up) by (nonlinear_arith)
                requires
                    up < shares + u,
                    2 * (shares * ask - u * u) <= 100 * ask,
                    0 < ask <= u,
                    u > 100,
            {
                if (n - 2 * u) * ask >= u * u && n < up {
                    assert(n - 2 * u <= shares - u);
                    assert((n - 2 * u) * ask <= (shares - u) * ask);
                    assert((shares - u) * ask == shares * ask - u * ask);
                    assert(u * ask > 50 * ask);
                }
            }
            if buy_figures(ask, prob, n, market.fee_rate_bps as int) is Some && n <= pow10(k) * u {
                law_purchase_earns_its_edge(ask, prob, n, market.fee_rate_bps, k);
            }
        }
    }
}

/// How many shares an order worth one has, to within some of the last digits.
proof fn lemma_least_shares(ask: int)
    requires
        unit() <= 100 * ask,
        ask <= unit(),
    ensures
        quotient(unit(), ask) is Some,
        2 * (quotient(unit(), ask)->0 * ask - unit() * unit()) <= 100 * ask,
        2 * (unit() * unit() - quotient(unit(), ask)->0 * ask) <= 100 * ask,
{
    assert(pow10(2) == 100) by {
        reveal_with_fuel(pow10, 3);
    }
    assert(7 * 100 * ask == 700 * ask) by (nonlinear_arith);
    lemma_quotient_close(unit(), ask, 2);
}

} // verus!
