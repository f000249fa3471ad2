//! Looking for an entry in one market.
use crate::crypto_alpha::context::{decision_event_context, market_text};
use crate::crypto_alpha::decisions::CryptoCandidateDecision;
use crate::crypto_alpha::entry::{to_bps, Account, EntryOutcome, EntryPick, EntrySetting};
use crate::crypto_alpha::labels::{
    binary_direction_bucket, CalendarEvent, CryptoDirectionBucket, CryptoMarketType, PriceDirection,
};
use crate::crypto_alpha::outcomes::reject_market;
use crate::crypto_alpha::question::parse_crypto_question;
use crate::crypto_alpha::quotes::{ask_price, bid_price, relative_spread};
use crate::crypto_alpha::strategy::CryptoAlphaStrategy;
use crate::decimal::Decimal;
use crate::types::{BookSet, MarketInfo, Stamp};
use vstd::prelude::*;

verus! {

use crate::crypto_alpha::assets::AssetEntry;
use crate::crypto_alpha::context::{event_notes, titled};
use crate::crypto_alpha::decisions::{records, DecisionRecord};
use crate::crypto_alpha::entry::{no_entry, EntryResult, PickRecord, SettingRecord};
use crate::crypto_alpha::labels::binary_bucket;
use crate::crypto_alpha::outcomes::market_rejection;
use crate::crypto_alpha::probability::calibrated;
use crate::crypto_alpha::question::question_of;
use crate::crypto_alpha::quotes::{asked, bid, pick_at, side_pick, spread_bps, spread_of};
use crate::crypto_alpha::thresholds::{event_at, max_spread_allowed, min_edge_needed};
use crate::rounding::{
    at_least, law_arithmetic_keeps_order, lemma_in_ten_thousandths, lemma_product_monotone,
    lemma_quotient_close, lemma_sum_close, lemma_whole_representable, lemma_zero_representable, minus,
    pow10, product, unit, whole,
};
use crate::types::MarketRecord;

/// What the price model says of a market.
#[derive(Clone, Copy, Debug)]
pub enum ModelReading {
    /// There are no prices to reckon with.
    NoData,
    /// What comes out is not a number.
    Unusable,
    Probability(Decimal),
}

/// The days until a market's day, if it is still to come.
pub open spec fn days_ahead(target_day: Option<i32>, today: i32) -> Option<u32> {
    match target_day {
        Some(day) => if day > today {
            Some((day - today) as u32)
        } else {
            None
        },
        None => None,
    }
}

pub fn days_until(target_day: Option<i32>, today: i32) -> (r: Option<u32>)
    ensures
        r == days_ahead(target_day, today),
{
    match target_day {
        Some(day) => if day > today {
            Some((day as i64 - today as i64) as u32)
        } else {
            None
        },
        None => None,
    }
}

/// The side of a market with the larger edge, if that is above zero.
pub open spec fn binary_pick(
    market: MarketRecord,
    direction: PriceDirection,
    prob: int,
    yes_ask: int,
    no_ask: int,
) -> Option<Option<PickRecord>> {
    let no_prob = minus(Some(unit()), Some(prob));
    match (no_prob, minus(Some(prob), Some(yes_ask)), minus(no_prob, Some(no_ask))) {
        (Some(no_prob), Some(yes_edge), Some(no_edge)) => if yes_edge > no_edge && yes_edge > 0 {
            Some(
                Some(
                    side_pick(
                        market,
                        0,
                        market.fee_rate_bps,
                        yes_ask,
                        prob,
                        yes_edge,
                        binary_bucket(direction, true),
                    ),
                ),
            )
        } else if no_edge > 0 {
            Some(
                Some(
                    side_pick(
                        market,
                        1,
                        market.fee_rate_bps,
                        no_ask,
                        no_prob,
                        no_edge,
                        binary_bucket(direction, false),
                    ),
                ),
            )
        } else {
            Some(None)
        },
        _ => None,
    }
}

fn pick_side(
    market: &MarketInfo,
    direction: PriceDirection,
    prob: Decimal,
    yes_ask: Decimal,
    no_ask: Decimal,
) -> (r: Option<EntryPick>)
    requires
        market.tokens@.len() == 2,
        binary_pick(market@, direction, prob@, yes_ask@, no_ask@) is Some,
    ensures
        binary_pick(market@, direction, prob@, yes_ask@, no_ask@) == Some(pick_at(r)),
{
    let no_prob = Decimal::one() - prob;
    let yes_edge = prob - yes_ask;
    let no_edge = no_prob - no_ask;
    let yes_id = market.tokens[0].token_id;
    let no_id = market.tokens[1].token_id;
    if yes_edge > no_edge && yes_edge > Decimal::zero() {
        Some(
            EntryPick {
                token_id: yes_id,
                condition_id: market.condition_id,
                fee_rate_bps: market.fee_rate_bps,
                ask_price: yes_ask,
                prob,
                edge: yes_edge,
                direction: binary_direction_bucket(direction, true),
                is_yes: true,
            },
        )
    } else if no_edge > Decimal::zero() {
        Some(
            EntryPick {
                token_id: no_id,
                condition_id: market.condition_id,
                fee_rate_bps: market.fee_rate_bps,
                ask_price: no_ask,
                prob: no_prob,
                edge: no_edge,
                direction: binary_direction_bucket(direction, false),
                is_yes: no_id == yes_id,
            },
        )
    } else {
        None
    }
}

/// The larger spread of the two sides in basis points; a side without a bid counts as bid at zero.
pub open spec fn widest_spread(yes: OrderBookQuote, no: OrderBookQuote) -> Option<int> {
    spread_bps(at_least(spread_of(yes.ask, yes.bid), spread_of(no.ask, no.bid)))
}

/// The best prices of a side.
pub struct OrderBookQuote {
    pub ask: int,
    pub bid: int,
}

pub open spec fn quote_of(books: BookSet, market: MarketRecord, side: int) -> Option<
    OrderBookQuote,
> {
    let book = books.book(market.tokens[side].token_id);
    match asked(book) {
        Some(ask) => Some(
            OrderBookQuote {
                ask,
                bid: match bid(book) {
                    Some(b) => b,
                    None => 0,
                },
            },
        ),
        None => None,
    }
}

fn side_quote(books: &BookSet, market: &MarketInfo, side: usize) -> (r: Option<(Decimal, Decimal)>)
    requires
        side < market.tokens@.len(),
    ensures
        quote_of(*books, market@, side as int) == (match r {
            Some((ask, bid)) => Some(OrderBookQuote { ask: ask@, bid: bid@ }),
            None => None,
        }),
{
    let book = books.get(market.tokens[side].token_id);
    match ask_price(book) {
        Some(ask) => Some(
            (
                ask,
                match bid_price(book) {
                    Some(b) => b,
                    None => Decimal::zero(),
                },
            ),
        ),
        None => None,
    }
}

impl CryptoAlphaStrategy {
    /// What comes of a market that is near enough and has prices for both sides.
    pub open spec fn quoted_entry(
        &self,
        recent: Seq<DecisionRecord>,
        books: BookSet,
        account: Account,
        asset: AssetEntry,
        direction: PriceDirection,
        market: MarketRecord,
        days: u32,
        event: Option<CalendarEvent>,
        model: ModelReading,
        stamp: Stamp,
        min_edge_bps: int,
        max_spread_bps: int,
        yes: OrderBookQuote,
        no: OrderBookQuote,
    ) -> Option<EntryResult> {
        let notes = event_notes(titled(market.event_title, market.question), event);
        match widest_spread(yes, no) {
            None => None,
            Some(spread) => if spread > max_spread_bps {
                Some(
                    EntryResult {
                        rejections: seq!["spread_too_wide"@],
                        decisions: seq![
                            market_rejection(
                                asset.name,
                                CryptoMarketType::Binary,
                                market.question,
                                days,
                                0,
                                false,
                                market.condition_id,
                                notes,
                                "spread_too_wide"@,
                            ),
                        ],
                        ..no_entry()
                    },
                )
            } else {
                match model {
                    ModelReading::Probability(raw) => match calibrated(
                        self.config,
                        asset,
                        days,
                        CryptoMarketType::Binary,
                        raw@,
                    ) {
                        None => None,
                        Some(prob) => match binary_pick(
                            market,
                            direction,
                            prob,
                            yes.ask,
                            no.ask,
                        ) {
                            None => None,
                            Some(None) => Some(no_entry()),
                            Some(Some(pick)) => self.entry_result(
                                recent,
                                books,
                                account,
                                asset,
                                SettingRecord {
                                    market_type: CryptoMarketType::Binary,
                                    days,
                                    min_edge_bps,
                                    record_question: market.question,
                                    trade_question: market.question,
                                    short_event: notes,
                                    event: notes,
                                },
                                pick,
                                event,
                                stamp,
                            ),
                        },
                    },
                    _ => Some(no_entry()),
                }
            },
        }
    }

    /// What comes of looking at one market.
    pub open spec fn market_entry(
        &self,
        recent: Seq<DecisionRecord>,
        books: BookSet,
        account: Account,
        market: MarketRecord,
        target_day: Option<i32>,
        today: i32,
        event: Option<CalendarEvent>,
        model: ModelReading,
        stamp: Stamp,
    ) -> Option<EntryResult> {
        let notes = event_notes(titled(market.event_title, market.question), event);
        match (question_of(market.question, target_day), days_ahead(target_day, today)) {
            (Some(q), Some(days)) => if days > self.config.max_entry_days {
                Some(
                    EntryResult {
                        decisions: seq![
                            market_rejection(
                                q.asset.name,
                                CryptoMarketType::Binary,
                                market.question,
                                days,
                                0,
                                false,
                                market.condition_id,
                                notes,
                                "beyond_entry_horizon"@,
                            ),
                        ],
                        ..no_entry()
                    },
                )
            } else {
                match (
                    min_edge_needed(self.config, q.asset, CryptoMarketType::Binary, days, event),
                    max_spread_allowed(self.config, q.asset, CryptoMarketType::Binary, days, event),
                ) {
                    (Some(min_edge_bps), Some(max_spread_bps)) => if model is NoData
                        || market.tokens.len() != 2 {
                        Some(no_entry())
                    } else {
                        match (quote_of(books, market, 0), quote_of(books, market, 1)) {
                            (Some(yes), Some(no)) => self.quoted_entry(
                                recent,
                                books,
                                account,
                                q.asset,
                                q.direction,
                                market,
                                days,
                                event,
                                model,
                                stamp,
                                min_edge_bps,
                                max_spread_bps,
                                yes,
                                no,
                            ),
                            _ => Some(no_entry()),
                        }
                    },
                    _ => None,
                }
            },
            _ => Some(no_entry()),
        }
    }

    /// Looks for an entry in one market. The day that the market asks about, the calendar's entry
    /// that matches it and what the model says of it are known.
    pub fn detect_crypto_opportunity(
        &self,
        recent: &Vec<CryptoCandidateDecision>,
        books: &BookSet,
        account: &Account,
        market: &MarketInfo,
        target_day: Option<i32>,
        today: i32,
        event: Option<&CalendarEvent>,
        model: ModelReading,
        stamp: Stamp,
    ) -> (r: EntryOutcome)
        requires
            self.market_entry(
                records(recent@),
                *books,
                *account,
                market@,
                target_day,
                today,
                event_at(event),
                model,
                stamp,
            ) is Some,
        ensures
            self.market_entry(
                records(recent@),
                *books,
                *account,
                market@,
                target_day,
                today,
                event_at(event),
                model,
                stamp,
            ) == Some(r@),
    {
        let mut outcome = EntryOutcome::nothing();
        let question = match parse_crypto_question(market.question.as_str(), target_day) {
            Some(q) => q,
            None => return outcome,
        };
        let days = match days_until(target_day, today) {
            Some(d) => d,
            None => return outcome,
        };
        let asset = &question.asset;
        let text = market_text(&market.event_title, market.question.as_str());
        let context = decision_event_context(text.as_str(), event);
        if !self.within_entry_horizon(days) {
            outcome.record(
                reject_market(
                    asset,
                    CryptoMarketType::Binary,
                    market.question.as_str(),
                    days,
                    Decimal::zero(),
                    false,
                    market.condition_id,
                    context,
                    "beyond_entry_horizon",
                ),
            );
            proof {
                assert(outcome@.decisions =~= self.market_entry(
                    records(recent@),
                    *books,
                    *account,
                    market@,
                    target_day,
                    today,
                    event_at(event),
                    model,
                    stamp,
                )->0.decisions);
            }
            return outcome;
        }
        let (min_edge_bps, max_spread_bps) = self.effective_entry_thresholds_for_context(
            asset,
            CryptoMarketType::Binary,
            days,
            event,
        );
        if let ModelReading::NoData = model {
            return outcome;
        }
        if market.tokens.len() != 2 {
            return outcome;
        }
        let (yes_ask, yes_bid) = match side_quote(books, market, 0) {
            Some(q) => q,
            None => return outcome,
        };
        let (no_ask, no_bid) = match side_quote(books, market, 1) {
            Some(q) => q,
            None => return outcome,
        };
        let yes_spread = relative_spread(yes_ask, yes_bid);
        let no_spread = relative_spread(no_ask, no_bid);
        if to_bps(yes_spread.max(no_spread), u32::MAX) > max_spread_bps {
            outcome.reject("spread_too_wide");
            outcome.record(
                reject_market(
                    asset,
                    CryptoMarketType::Binary,
                    market.question.as_str(),
                    days,
                    Decimal::zero(),
                    false,
                    market.condition_id,
                    context,
                    "spread_too_wide",
                ),
            );
            proof {
                assert(outcome@.rejections =~= seq!["spread_too_wide"@]);
                assert(outcome@.decisions =~= self.market_entry(
                    records(recent@),
                    *books,
                    *account,
                    market@,
                    target_day,
                    today,
                    event_at(event),
                    model,
                    stamp,
                )->0.decisions);
            }
            return outcome;
        }
        let raw = match model {
            ModelReading::Probability(p) => p,
            _ => return outcome,
        };
        let prob = self.calibrate_probability(asset, days, CryptoMarketType::Binary, raw);
        let pick = match pick_side(market, question.direction, prob, yes_ask, no_ask) {
            Some(p) => p,
            None => return outcome,
        };
        let setting = EntrySetting {
            market_type: CryptoMarketType::Binary,
            days,
            min_edge_bps,
            record_question: market.question.clone(),
            trade_question: market.question.clone(),
            short_event: context.clone(),
            event: context,
        };
        self.propose_entry(recent, books, account, asset, setting, pick, event, stamp)
    }
}

/// Of a market's two sides the one with the larger edge is picked, if that is above zero, and NO where
/// both are the same. The edge of YES is its probability less what is asked for it, that of NO what the
/// probability lacks of one less what is asked for it.
pub proof fn law_side_with_the_larger_edge_is_picked(
    market: MarketRecord,
    direction: PriceDirection,
    prob: int,
    yes_ask: int,
    no_ask: int,
)
    requires
        0 <= prob <= unit(),
        0 <= yes_ask <= unit(),
        0 <= no_ask <= unit(),
        market.tokens.len() == 2,
    ensures
        ({
            let found = binary_pick(market, direction, prob, yes_ask, no_ask);
            let yes_edge = prob - yes_ask;
            let no_edge = unit() - prob - no_ask;
            let up = direction == PriceDirection::Above;
            &&& found is Some
            &&& yes_edge <= 0 && no_edge <= 0 <==> found->0 is None
            &&& found->0 matches Some(pick) ==> {
                &&& pick.condition_id == market.condition_id
                &&& pick.fee_rate_bps == market.fee_rate_bps
                &&& pick.edge == pick.prob - pick.ask_price
                &&& pick.edge > 0 && pick.edge >= yes_edge && pick.edge >= no_edge
                &&& yes_edge > no_edge ==> pick.token_id == market.tokens[0].token_id
                    && pick.ask_price == yes_ask && pick.prob == prob && pick.is_yes
                    && pick.direction == (if up {
                    CryptoDirectionBucket::Up
                } else {
                    CryptoDirectionBucket::Down
                })
                &&& yes_edge <= no_edge ==> pick.token_id == market.tokens[1].token_id
                    && pick.ask_price == no_ask && pick.prob == unit() - prob && pick.direction
                    == (if up {
                    CryptoDirectionBucket::Down
                } else {
                    CryptoDirectionBucket::Up
                })
            }
        }),
{
    assert(pow10(0) == 1);
    lemma_sum_close(unit(), prob, 0);
    lemma_sum_close(prob, yes_ask, 0);
    lemma_sum_close(unit() - prob, no_ask, 0);
}

/// A market is entered only on a day that is still to come and within the horizon, where it has two
/// tokens with an ask each, and where neither side has too wide a spread: what the bid lacks of the
/// ask, set against the ask, where a missing bid counts as zero. It holds up to the rounding of the
/// last digits.
pub proof fn law_market_is_entered_within_its_limits(
    strategy: CryptoAlphaStrategy,
    recent: Seq<DecisionRecord>,
    books: BookSet,
    account: Account,
    market: MarketRecord,
    target_day: Option<i32>,
    today: i32,
    event: Option<CalendarEvent>,
    model: ModelReading,
    stamp: Stamp,
)
    requires
        strategy.market_entry(
            recent,
            books,
            account,
            market,
            target_day,
            today,
            event,
            model,
            stamp,
        ) is Some,
        strategy.market_entry(
            recent,
            books,
            account,
            market,
            target_day,
            today,
            event,
            model,
            stamp,
        )->0.candidate is Some,
        forall|side: int|
            0 <= side <= 1 && (#[trigger] quote_of(books, market, side)) is Some ==> 0 < quote_of(
                books,
                market,
                side,
            )->0.ask <= unit() && 0 <= quote_of(books, market, side)->0.bid <= unit(),
    ensures
        ({
            let q = question_of(market.question, target_day);
            let days = (target_day->0 - today) as u32;
            let limit = max_spread_allowed(
                strategy.config,
                q->0.asset,
                CryptoMarketType::Binary,
                days,
                event,
            )->0;
            &&& q is Some
            &&& target_day is Some
            &&& today < target_day->0 <= today + strategy.config.max_entry_days
            &&& market.tokens.len() == 2
            &&& model is Probability
            &&& forall|side: int|
                0 <= side <= 1 ==> {
                    let quote = #[trigger] quote_of(books, market, side);
                    let book = books.book(market.tokens[side].token_id);
                    &&& quote is Some
                    &&& book is Some
                    &&& book->0.asks@.len() > 0
                    &&& quote->0.ask == book->0.asks@[0].price@
                    &&& quote->0.bid == (if book->0.bids@.len() > 0 {
                        book->0.bids@[0].price@
                    } else {
                        0
                    })
                    &&& (quote->0.ask - quote->0.bid) * 10000 * unit() < ((limit + 1) * unit()
                        + 10000) * quote->0.ask
                }
        }),
{
    let q = question_of(market.question, target_day);
    let days = (target_day->0 - today) as u32;
    let limit = max_spread_allowed(
        strategy.config,
        q->0.asset,
        CryptoMarketType::Binary,
        days,
        event,
    )->0;
    let yes = quote_of(books, market, 0)->0;
    let no = quote_of(books, market, 1)->0;
    assert(quote_of(books, market, 0) is Some && quote_of(books, market, 1) is Some);
    lemma_spread(yes, no, limit);
    assert forall|side: int| 0 <= side <= 1 implies {
        let quote = #[trigger] quote_of(books, market, side);
        (quote->0.ask - quote->0.bid) * 10000 * unit() < ((limit + 1) * unit() + 10000)
            * quote->0.ask
    } by {}
}

proof fn lemma_spread(yes: OrderBookQuote, no: OrderBookQuote, limit: int)
    requires
        0 < yes.ask <= unit(),
        0 <= yes.bid <= unit(),
        0 < no.ask <= unit(),
        0 <= no.bid <= unit(),
        widest_spread(yes, no) is Some,
        widest_spread(yes, no)->0 <= limit,
        limit <= u32::MAX,
    ensures
        (yes.ask - yes.bid) * 10000 * unit() < ((limit + 1) * unit() + 10000) * yes.ask,
        (no.ask - no.bid) * 10000 * unit() < ((limit + 1) * unit() + 10000) * no.ask,
{
    let wide = at_least(spread_of(yes.ask, yes.bid), spread_of(no.ask, no.bid))->0;
    lemma_share_bound(yes, wide, limit);
    lemma_share_bound(no, wide, limit);
}

proof fn lemma_share_bound(quote: OrderBookQuote, wide: int, limit: int)
    requires
        0 < quote.ask <= unit(),
        0 <= quote.bid <= unit(),
        spread_of(quote.ask, quote.bid) is Some,
        spread_of(quote.ask, quote.bid)->0 <= wide,
        limit <= u32::MAX,
        spread_bps(Some(wide)) is Some,
        spread_bps(Some(wide))->0 <= limit,
    ensures
        (quote.ask - quote.bid) * 10000 * unit() < ((limit + 1) * unit() + 10000) * quote.ask,
{
    let u = unit();
    let (ask, bid) = (quote.ask, quote.bid);
    assert(pow10(0) == 1);
    lemma_sum_close(ask, bid, 0);
    let off = ask - bid;
    let share = spread_of(ask, bid)->0;
    if off <= 0 {
        assert(off * 10000 * u <= 0) by (nonlinear_arith)
            requires
                off <= 0,
                u > 0,
        ;
        lemma_in_bps_not_negative(wide);
        assert(((limit + 1) * u + 10000) * ask > 0) by (nonlinear_arith)
            requires
                limit >= 0,
                ask > 0,
                u > 0,
        ;
    } else {
        assert(7 * 1 * ask == 7 * ask) by (nonlinear_arith);
        lemma_quotient_close(off, ask, 0);
        lemma_zero_representable();
        lemma_whole_representable(1);
        law_arithmetic_keeps_order(off, ask, 0);
        law_arithmetic_keeps_order(off, ask, u);
        assert(off * u >= 0 && off * u <= u * ask) by (nonlinear_arith)
            requires
                0 <= off <= ask,
                u > 0,
        ;
        lemma_bps_bound(share, wide, limit);
        assert(off * 10000 * u < ((limit + 1) * u + 10000) * ask) by (nonlinear_arith)
            requires
                2 * (off * u - share * ask) <= 1 * ask,
                share * 10000 < (limit + 1) * u,
                ask > 0,
        {
            assert((share * 10000) * ask < ((limit + 1) * u) * ask);
            assert(off * 10000 * u <= (share * 10000) * ask + 5000 * ask);
        }
    }
}

proof fn lemma_in_bps_not_negative(wide: int)
    requires
        spread_bps(Some(wide)) is Some,
    ensures
        spread_bps(Some(wide))->0 >= 0,
{
    reveal(crate::rounding::product);
}

/// A share of at most one that is not above another one has no more whole basis points.
proof fn lemma_bps_bound(share: int, wide: int, limit: int)
    requires
        0 <= share <= unit(),
        share <= wide,
        spread_bps(Some(wide)) is Some,
        spread_bps(Some(wide))->0 <= limit <= u32::MAX,
    ensures
        share * 10000 < (limit + 1) * unit(),
{
    let u = unit();
    lemma_in_ten_thousandths(share);
    assert((share * 10000) / u < limit + 1 <==> share * 10000 < (limit + 1) * u);
    lemma_product_monotone(share, wide, whole(10000));
    let (x, y) = (share * 10000, product(wide, whole(10000))->0);
    assert(x / u <= y / u) by (nonlinear_arith)
        requires
            x <= y,
            u > 0,
    ;
    assert(x / u <= u32::MAX) by (nonlinear_arith)
        requires
            x <= 10000 * u,
            u > 0,
    ;
}

/// A market is put on record as beyond the horizon just where it resolves later than the last day for an
/// entry, and as too wide just where the wider of its spreads is above what is allowed. A market right at
/// either limit is not turned down for it.
pub proof fn law_limits_themselves_are_allowed(
    strategy: CryptoAlphaStrategy,
    recent: Seq<DecisionRecord>,
    books: BookSet,
    account: Account,
    market: MarketRecord,
    target_day: i32,
    today: i32,
    event: Option<CalendarEvent>,
    model: ModelReading,
    stamp: Stamp,
)
    requires
        question_of(market.question, Some(target_day)) is Some,
        target_day - today <= i32::MAX,
        strategy.market_entry(
            recent,
            books,
            account,
            market,
            Some(target_day),
            today,
            event,
            model,
            stamp,
        ) is Some,
    ensures
        ({
            let found = strategy.market_entry(
                recent,
                books,
                account,
                market,
                Some(target_day),
                today,
                event,
                model,
                stamp,
            )->0;
            let days = target_day - today;
            let asset = question_of(market.question, Some(target_day))->0.asset;
            let limit = max_spread_allowed(
                strategy.config,
                asset,
                CryptoMarketType::Binary,
                days as u32,
                event,
            )->0;
            let quoted = market.tokens.len() == 2 && quote_of(books, market, 0) is Some && quote_of(
                books,
                market,
                1,
            ) is Some;
            let spread = widest_spread(
                quote_of(books, market, 0)->0,
                quote_of(books, market, 1)->0,
            );
            &&& days <= 0 ==> found == no_entry()
            &&& days > 0 && days > strategy.config.max_entry_days ==> {
                &&& found.candidate is None
                &&& found.decisions.len() == 1
                &&& found.decisions[0].reason == "beyond_entry_horizon"@
            }
            &&& 0 < days <= strategy.config.max_entry_days && model is NoData ==> found
                == no_entry()
            &&& 0 < days <= strategy.config.max_entry_days && quoted && model is Unusable ==> {
                &&& spread is Some
                &&& spread->0 <= limit ==> found == no_entry()
                &&& spread->0 > limit ==> found.candidate is None && found.rejections == seq![
                    "spread_too_wide"@,
                ] && found.decisions.len() == 1 && found.decisions[0].reason
                    == "spread_too_wide"@
            }
        }),
{
}

} // verus!
