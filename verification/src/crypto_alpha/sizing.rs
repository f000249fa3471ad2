//! How large an entry is.
use crate::crypto_alpha::assets::CryptoAsset;
use crate::crypto_alpha::config::CryptoAlphaConfig;
use crate::crypto_alpha::decisions::{
    gate_reject_decision, gate_scale_decision, CryptoCandidateDecision, GateRejectContext,
};
use crate::crypto_alpha::labels::{
    parse_event_subtype_label, CryptoDirectionBucket, CryptoEventSubtype,
};
use crate::crypto_alpha::strategy::CryptoAlphaStrategy;
use crate::decimal::Decimal;
use crate::types::{OrderBook, TradeSide};
use vstd::prelude::*;

verus! {

use crate::crypto_alpha::assets::AssetEntry;
use crate::crypto_alpha::decisions::{
    gate_record, kept_share, record_of, records, DecisionRecord, GateNotes,
};
use crate::crypto_alpha::labels::subtype_of_label;
use crate::crypto_alpha::thresholds::horizon_size;
use crate::rounding::{
    at_least, at_most, ceil_of, cents, close, difference, greater, law_arithmetic_keeps_order,
    law_digits_are_dropped_to_the_nearest, lemma_bounded_product, lemma_close_times,
    lemma_pow10_below_unit, lemma_pow10_unit, lemma_product_close, lemma_product_of_zero,
    lemma_product_swap, lemma_quotient_close, lemma_representable_bound,
    lemma_representable_quotient, lemma_scaled, lemma_sum_close,
    lemma_whole_representable, lemma_zero_representable, lesser, minus, over, pow10, product,
    quotient, round_dp_of, times, unit, whole, MAX_MANTISSA,
};
use crate::types::depth_of;

/// What the account has to trade with, and what it already holds.
#[derive(Clone, Copy, Debug)]
pub struct EntryFunds {
    /// The wallet's balance.
    pub balance: Decimal,
    /// The part of it that is not tied up.
    pub available: Decimal,
    /// How many shares of the token are held already.
    pub position: Decimal,
    /// What is tied up in the asset.
    pub asset_exposure: Decimal,
    /// What is tied up in the asset in the same direction.
    pub direction_exposure: Decimal,
}

/// What is asked of an entry.
#[derive(Clone, Copy, Debug)]
pub struct EntryTerms {
    pub ask_price: Decimal,
    pub edge: Decimal,
    pub days_to_resolution: u32,
    pub event_size_multiplier: Decimal,
    pub min_size_retention_ratio: Decimal,
    pub min_depth_ratio: Decimal,
}

/// The figures of an account's means.
pub struct FundsFigures {
    pub balance: int,
    pub available: int,
    pub position: int,
    pub asset_exposure: int,
    pub direction_exposure: int,
}

impl View for EntryFunds {
    type V = FundsFigures;

    open spec fn view(&self) -> FundsFigures {
        FundsFigures {
            balance: self.balance@,
            available: self.available@,
            position: self.position@,
            asset_exposure: self.asset_exposure@,
            direction_exposure: self.direction_exposure@,
        }
    }
}

/// The figures of what is asked of an entry.
pub struct TermsFigures {
    pub ask_price: int,
    pub edge: int,
    pub days_to_resolution: u32,
    pub event_size_multiplier: int,
    pub min_size_retention_ratio: int,
    pub min_depth_ratio: int,
}

impl View for EntryTerms {
    type V = TermsFigures;

    open spec fn view(&self) -> TermsFigures {
        TermsFigures {
            ask_price: self.ask_price@,
            edge: self.edge@,
            days_to_resolution: self.days_to_resolution,
            event_size_multiplier: self.event_size_multiplier@,
            min_size_retention_ratio: self.min_size_retention_ratio@,
            min_depth_ratio: self.min_depth_ratio@,
        }
    }
}

/// What came of sizing an entry: its size or the reason for which there is none, and the records
/// that the gates left.
#[derive(Debug)]
pub struct SizedEntry {
    pub size: Option<Decimal>,
    pub rejection: Option<&'static str>,
    pub scale_decision: Option<CryptoCandidateDecision>,
    pub reject_decision: Option<CryptoCandidateDecision>,
}

/// The price from which no bet is made: 0.99.
pub open spec fn top_price() -> int {
    9_900_000_000_000_000_000_000_000_000
}

/// The Kelly share from which an entry is raised to the smallest order: 0.04.
pub open spec fn worthwhile_share() -> int {
    400_000_000_000_000_000_000_000_000
}

/// What a cap on a share of the balance leaves beside what is tied up, not below zero.
pub open spec fn room_under(balance: int, share: int, used: Option<int>) -> Option<int> {
    at_least(minus(times(Some(balance), Some(share)), used), Some(0))
}

/// The room for an entry: the smallest that the caps on the market, the asset and the asset's
/// direction leave.
pub open spec fn entry_room(
    config: CryptoAlphaConfig,
    funds: FundsFigures,
    ask: int,
) -> Option<int> {
    at_most(
        at_most(
            room_under(
                funds.balance,
                config.max_position_pct@,
                times(Some(funds.position), Some(ask)),
            ),
            room_under(
                funds.balance,
                config.max_exposure_per_asset_pct@,
                Some(funds.asset_exposure),
            ),
        ),
        room_under(
            funds.balance,
            config.max_exposure_per_asset_direction_pct@,
            Some(funds.direction_exposure),
        ),
    )
}

/// The share of the room that the edge is worth, no more than two.
pub open spec fn kelly_share(ask: int, edge: int) -> Option<int> {
    if 0 < ask < top_price() {
        at_most(over(Some(edge), minus(Some(unit()), Some(ask))), Some(whole(2)))
    } else {
        Some(0)
    }
}

/// An order that is too small to place.
pub open spec fn too_small(size: int, ask: int) -> Option<bool> {
    if size <= 0 {
        Some(true)
    } else if ask > 0 {
        match times(Some(size), Some(ask)) {
            Some(cost) => Some(cost < unit()),
            None => None,
        }
    } else {
        Some(false)
    }
}

/// The size that the edge is worth within the room and the free funds, raised to the smallest order
/// where the edge is worth it.
pub open spec fn wanted_size(
    config: CryptoAlphaConfig,
    funds: FundsFigures,
    terms: TermsFigures,
    room: int,
    feedback: Option<int>,
) -> Option<int> {
    let ask = terms.ask_price;
    let share = kelly_share(ask, terms.edge);
    let kelly = times(
        times(
            times(
                times(share, Some(config.kelly_fraction@)),
                Some(terms.event_size_multiplier),
            ),
            Some(horizon_size(config, terms.days_to_resolution)),
        ),
        Some(room),
    );
    match at_most(at_most(times(kelly, feedback), Some(room)), Some(funds.available)) {
        None => None,
        Some(first) => {
            let raised = if first > 0 && ask > 0 && share->0 >= worthwhile_share() {
                match over(Some(unit()), Some(ask)) {
                    Some(least) => at_least(Some(first), Some(ceil_of(least))),
                    None => None,
                }
            } else {
                Some(first)
            };
            at_most(at_most(raised, Some(room)), Some(funds.available))
        },
    }
}

/// The largest size that leaves the book the asked multiple of it, or `size` where none is asked.
pub open spec fn size_within_depth(depth: int, ratio: int, size: int) -> Option<int> {
    if ratio > 0 {
        match over(Some(depth), Some(ratio)) {
            Some(v) => Some(round_dp_of(v, 2)),
            None => None,
        }
    } else {
        Some(size)
    }
}

/// Why the book cut an entry down, if one of its limits is what is left.
pub open spec fn scale_reason(size: int, by_retention: int, by_depth: int) -> Option<Seq<char>> {
    if size == by_retention && by_retention <= by_depth {
        Some("scaled_for_size_retention"@)
    } else if size == by_depth && by_depth < by_retention {
        Some("scaled_for_depth_buffer"@)
    } else {
        None
    }
}

/// How an entry is sized.
pub struct SizingResult {
    pub size: Option<int>,
    pub rejection: Option<Seq<char>>,
    /// The reason for which the book cut the entry down, with the size after and before.
    pub scale: Option<(Seq<char>, int, int)>,
    /// Whether a record says that a gate held the entry back.
    pub reject_recorded: bool,
}

pub open spec fn rejected(
    reason: Seq<char>,
    scale: Option<(Seq<char>, int, int)>,
    reject_recorded: bool,
) -> SizingResult {
    SizingResult { size: None, rejection: Some(reason), scale, reject_recorded }
}

/// The entry once its size before the book is known. A record of a cut is kept where there is a
/// context to record it in.
pub open spec fn sized_in_book(
    terms: TermsFigures,
    wanted: int,
    book: Option<OrderBook>,
    recorded: bool,
) -> Option<SizingResult> {
    let ask = terms.ask_price;
    match book {
        None => Some(
            SizingResult { size: None, rejection: None, scale: None, reject_recorded: false },
        ),
        Some(b) => match depth_of(b, TradeSide::Buy, ask) {
            None => None,
            Some(depth) => match (
                size_within_depth(depth, terms.min_size_retention_ratio, wanted),
                size_within_depth(depth, terms.min_depth_ratio, wanted),
            ) {
                (Some(by_retention), Some(by_depth)) => {
                    let size = lesser(lesser(wanted, by_retention), by_depth);
                    let scale = if size < wanted {
                        match scale_reason(size, by_retention, by_depth) {
                            Some(reason) => Some((reason, size, wanted)),
                            None => None,
                        }
                    } else {
                        None
                    };
                    let unrecordable = recorded && scale is Some && kept_share(size, wanted) is None;
                    match too_small(size, ask) {
                        Some(small) => if unrecordable {
                            None
                        } else if small {
                            Some(rejected("min_order_or_budget"@, scale, true))
                        } else {
                            match over(Some(depth), Some(size)) {
                                None => None,
                                Some(ratio) => if ratio < terms.min_size_retention_ratio {
                                    Some(rejected("insufficient_size_retention"@, scale, false))
                                } else if ratio < terms.min_depth_ratio {
                                    Some(rejected("insufficient_depth_buffer"@, scale, false))
                                } else {
                                    Some(
                                        SizingResult {
                                            size: Some(size),
                                            rejection: None,
                                            scale,
                                            reject_recorded: false,
                                        },
                                    )
                                },
                            }
                        },
                        None => None,
                    }
                },
                _ => None,
            },
        },
    }
}

fn is_too_small(size: Decimal, ask: Decimal) -> (r: bool)
    requires
        too_small(size@, ask@) is Some,
    ensures
        too_small(size@, ask@) == Some(r),
{
    size <= Decimal::zero() || (ask > Decimal::zero() && size * ask < Decimal::one())
}

fn room(balance: Decimal, share: Decimal, used: Decimal) -> (r: Decimal)
    requires
        room_under(balance@, share@, Some(used@)) is Some,
    ensures
        room_under(balance@, share@, Some(used@)) == Some(r@),
{
    (balance * share - used).max(Decimal::zero())
}

fn within_depth(depth: Decimal, ratio: Decimal, size: Decimal) -> (r: Decimal)
    requires
        size_within_depth(depth@, ratio@, size@) is Some,
    ensures
        size_within_depth(depth@, ratio@, size@) == Some(r@),
{
    if ratio > Decimal::zero() {
        (depth / ratio).round_dp(2)
    } else {
        size
    }
}

fn small_constants() -> (r: (Decimal, Decimal))
    ensures
        r.0@ == top_price(),
        r.1@ == worthwhile_share(),
{
    proof {
        assert(pow10(26) == 100_000_000_000_000_000_000_000_000) by {
            reveal_with_fuel(pow10, 27);
        }
    }
    (Decimal::new(99, 2), Decimal::new(4, 2))
}

/// The subtype that a gate's context names.
pub open spec fn gate_subtype(context: Option<GateNotes>) -> Option<CryptoEventSubtype> {
    match context {
        Some(c) => subtype_of_label(c.event.subtype),
        None => None,
    }
}

/// What a context behind a reference says.
pub open spec fn notes_at(context: Option<&GateRejectContext>) -> Option<GateNotes> {
    match context {
        Some(c) => Some(c@),
        None => None,
    }
}

/// The records that a sizing leaves, which only a gate's context makes possible.
pub open spec fn records_agree(
    entry: SizedEntry,
    result: SizingResult,
    asset: AssetEntry,
    direction: CryptoDirectionBucket,
    context: Option<GateNotes>,
) -> bool {
    &&& record_of(entry.scale_decision) == (match (context, result.scale) {
        (Some(c), Some((reason, after, before))) => Some(
            gate_record(
                "gate_scale"@,
                asset.name,
                Some(direction),
                c,
                reason,
                kept_share(after, before)->0,
            ),
        ),
        _ => None,
    })
    &&& record_of(entry.reject_decision) == (match (context, result.reject_recorded) {
        (Some(c), true) => Some(
            gate_record(
                "gate_reject"@,
                asset.name,
                Some(direction),
                c,
                result.rejection->0,
                0,
            ),
        ),
        _ => None,
    })
}

pub open spec fn sized_figure(entry: SizedEntry) -> Option<int> {
    match entry.size {
        Some(s) => Some(s@),
        None => None,
    }
}

pub open spec fn rejection_text(entry: SizedEntry) -> Option<Seq<char>> {
    match entry.rejection {
        Some(t) => Some(t@),
        None => None,
    }
}

impl CryptoAlphaStrategy {
    /// The smaller of what the two kinds of cut leave.
    pub open spec fn entry_feedback(
        &self,
        recent: Seq<DecisionRecord>,
        asset: AssetEntry,
        subtype: Option<CryptoEventSubtype>,
    ) -> Option<int> {
        at_most(
            self.feedback(recent, asset, subtype, Some("scaled_for_depth_buffer"@)),
            self.feedback(recent, asset, subtype, Some("scaled_for_size_retention"@)),
        )
    }

    /// How an entry is sized.
    pub open spec fn sizing(
        &self,
        recent: Seq<DecisionRecord>,
        asset: AssetEntry,
        subtype: Option<CryptoEventSubtype>,
        funds: FundsFigures,
        terms: TermsFigures,
        book: Option<OrderBook>,
        recorded: bool,
    ) -> Option<SizingResult> {
        let ask = terms.ask_price;
        match entry_room(self.config, funds, ask) {
            None => None,
            Some(room) => if room <= 0 {
                Some(rejected("asset_exposure_cap"@, None, true))
            } else {
                match wanted_size(
                    self.config,
                    funds,
                    terms,
                    room,
                    self.entry_feedback(recent, asset, subtype),
                ) {
                    None => None,
                    Some(wanted) => match too_small(wanted, ask) {
                        None => None,
                        Some(small) => if small {
                            Some(rejected("min_order_or_budget"@, None, true))
                        } else {
                            sized_in_book(terms, wanted, book, recorded)
                        },
                    },
                }
            },
        }
    }

    /// Sizes an entry: what the edge is worth within the caps and the free funds, cut down to what
    /// the book can take.
    pub fn size_entry(
        &self,
        recent: &Vec<CryptoCandidateDecision>,
        asset: &CryptoAsset,
        direction: CryptoDirectionBucket,
        gate_context: Option<&GateRejectContext>,
        funds: EntryFunds,
        terms: EntryTerms,
        book: Option<&OrderBook>,
    ) -> (r: SizedEntry)
        requires
            self.sizing(
                records(recent@),
                asset@,
                gate_subtype(notes_at(gate_context)),
                funds@,
                terms@,
                book_at(book),
                gate_context is Some,
            ) is Some,
        ensures
            ({
                let result = self.sizing(
                    records(recent@),
                    asset@,
                    gate_subtype(notes_at(gate_context)),
                    funds@,
                    terms@,
                    book_at(book),
                    gate_context is Some,
                )->0;
                &&& sized_figure(r) == result.size
                &&& rejection_text(r) == result.rejection
                &&& records_agree(r, result, asset@, direction, notes_at(gate_context))
            }),
    {
        let ask = terms.ask_price;
        let remaining_market = room(
            funds.balance,
            self.config.max_position_pct,
            funds.position * ask,
        );
        let remaining_asset = room(
            funds.balance,
            self.config.max_exposure_per_asset_pct,
            funds.asset_exposure,
        );
        let remaining_direction = room(
            funds.balance,
            self.config.max_exposure_per_asset_direction_pct,
            funds.direction_exposure,
        );
        let effective_max = remaining_market.min(remaining_asset).min(remaining_direction);
        if effective_max <= Decimal::zero() {
            return Self::refuse(asset, direction, gate_context, "asset_exposure_cap");
        }
        let subtype = match gate_context {
            Some(c) => match &c.event.subtype {
                Some(l) => parse_event_subtype_label(Some(l.as_str())),
                None => parse_event_subtype_label(None),
            },
            None => None,
        };
        let wanted = self.wanted(recent, asset, subtype, funds, terms, effective_max);
        if is_too_small(wanted, ask) {
            return Self::refuse(asset, direction, gate_context, "min_order_or_budget");
        }
        let book = match book {
            Some(b) => b,
            None => {
                return SizedEntry {
                    size: None,
                    rejection: None,
                    scale_decision: None,
                    reject_decision: None,
                };
            },
        };
        let depth = book.available_depth(TradeSide::Buy, ask);
        let by_retention = within_depth(depth, terms.min_size_retention_ratio, wanted);
        let by_depth = within_depth(depth, terms.min_depth_ratio, wanted);
        let size = wanted.min(by_retention).min(by_depth);
        let scale_decision = if size < wanted {
            let reason: Option<&'static str> = if size == by_retention && by_retention <= by_depth {
                Some("scaled_for_size_retention")
            } else if size == by_depth && by_depth < by_retention {
                Some("scaled_for_depth_buffer")
            } else {
                None
            };
            match (gate_context, reason) {
                (Some(c), Some(t)) => Some(
                    gate_scale_decision(asset, Some(direction), c, t, size, wanted),
                ),
                _ => None,
            }
        } else {
            None
        };
        if is_too_small(size, ask) {
            let refused = Self::refuse(asset, direction, gate_context, "min_order_or_budget");
            return SizedEntry {
                size: None,
                rejection: refused.rejection,
                scale_decision,
                reject_decision: refused.reject_decision,
            };
        }
        let ratio = depth / size;
        let rejection: Option<&'static str> = if ratio < terms.min_size_retention_ratio {
            Some("insufficient_size_retention")
        } else if ratio < terms.min_depth_ratio {
            Some("insufficient_depth_buffer")
        } else {
            None
        };
        SizedEntry {
            size: if rejection.is_none() {
                Some(size)
            } else {
                None
            },
            rejection,
            scale_decision,
            reject_decision: None,
        }
    }

    fn refuse(
        asset: &CryptoAsset,
        direction: CryptoDirectionBucket,
        gate_context: Option<&GateRejectContext>,
        reason: &'static str,
    ) -> (r: SizedEntry)
        ensures
            sized_figure(r) is None,
            rejection_text(r) == Some(reason@),
            records_agree(
                r,
                rejected(reason@, None, true),
                asset@,
                direction,
                notes_at(gate_context),
            ),
    {
        SizedEntry {
            size: None,
            rejection: Some(reason),
            scale_decision: None,
            reject_decision: match gate_context {
                Some(c) => Some(gate_reject_decision(asset, Some(direction), c, reason)),
                None => None,
            },
        }
    }

    fn wanted(
        &self,
        recent: &Vec<CryptoCandidateDecision>,
        asset: &CryptoAsset,
        subtype: Option<CryptoEventSubtype>,
        funds: EntryFunds,
        terms: EntryTerms,
        room: Decimal,
    ) -> (r: Decimal)
        requires
            wanted_size(
                self.config,
                funds@,
                terms@,
                room@,
                self.entry_feedback(records(recent@), asset@, subtype),
            ) is Some,
        ensures
            wanted_size(
                self.config,
                funds@,
                terms@,
                room@,
                self.entry_feedback(records(recent@), asset@, subtype),
            ) == Some(r@),
    {
        let ask = terms.ask_price;
        let (top, worthwhile) = small_constants();
        let share = if ask > Decimal::zero() && ask < top {
            (terms.edge / (Decimal::one() - ask)).min(Decimal::two())
        } else {
            Decimal::zero()
        };
        let horizon_multiplier = self.effective_horizon_size_multiplier(terms.days_to_resolution);
        let kelly = share * self.config.kelly_fraction * terms.event_size_multiplier
            * horizon_multiplier * room;
        let feedback = self.adaptive_gate_scale_size_multiplier(
            recent,
            asset,
            subtype,
            Some("scaled_for_depth_buffer"),
        ).min(
            self.adaptive_gate_scale_size_multiplier(
                recent,
                asset,
                subtype,
                Some("scaled_for_size_retention"),
            ),
        );
        let first = (kelly * feedback).min(room).min(funds.available);
        let raised = if first > Decimal::zero() && ask > Decimal::zero() && share >= worthwhile {
            first.max((Decimal::one() / ask).ceil())
        } else {
            first
        };
        raised.min(room).min(funds.available)
    }
}

/// An entry that is sized stays within the room that the caps leave and within the free funds, is
/// no smaller than the smallest order, and leaves the book the multiples of it that are asked.
pub proof fn law_entry_stays_within_limits(
    strategy: CryptoAlphaStrategy,
    recent: Seq<DecisionRecord>,
    asset: AssetEntry,
    subtype: Option<CryptoEventSubtype>,
    funds: FundsFigures,
    terms: TermsFigures,
    book: Option<OrderBook>,
    recorded: bool,
)
    requires
        strategy.sizing(recent, asset, subtype, funds, terms, book, recorded) is Some,
        strategy.sizing(recent, asset, subtype, funds, terms, book, recorded)->0.size is Some,
    ensures
        ({
            let size = strategy.sizing(
                recent,
                asset,
                subtype,
                funds,
                terms,
                book,
                recorded,
            )->0.size->0;
            let ask = terms.ask_price;
            let depth = depth_of(book->0, TradeSide::Buy, ask);
            &&& 0 < size
            &&& size <= entry_room(strategy.config, funds, ask)->0
            &&& size <= funds.available
            &&& ask > 0 ==> times(Some(size), Some(ask))->0 >= unit()
            &&& book is Some
            &&& over(depth, Some(size))->0 >= terms.min_size_retention_ratio
            &&& over(depth, Some(size))->0 >= terms.min_depth_ratio
        }),
{
}

/// The Kelly bet that an entry makes is the edge over what can be lost, at most two, times the configured
/// fraction, the multipliers of the event and of the horizon, what feedback leaves, and the room. The
/// entry is never larger than that, but for the smallest order; and where neither the room, the free
/// funds nor the book binds, it is never smaller. Both hold up to the rounding of the last digits.
pub proof fn law_entry_is_the_kelly_bet(
    strategy: CryptoAlphaStrategy,
    recent: Seq<DecisionRecord>,
    asset: AssetEntry,
    subtype: Option<CryptoEventSubtype>,
    funds: FundsFigures,
    terms: TermsFigures,
    book: Option<OrderBook>,
    recorded: bool,
    k: nat,
)
    requires
        strategy.sizing(recent, asset, subtype, funds, terms, book, recorded) is Some,
        strategy.sizing(recent, asset, subtype, funds, terms, book, recorded)->0.size is Some,
        k <= 20,
        cents(0) < terms.ask_price < cents(99),
        0 <= terms.edge,
        0 <= strategy.config.kelly_fraction@ <= unit(),
        0 <= terms.event_size_multiplier <= 2 * unit(),
        0 <= horizon_size(strategy.config, terms.days_to_resolution) <= unit(),
        0 <= strategy.entry_feedback(recent, asset, subtype)->0 <= unit(),
        entry_room(strategy.config, funds, terms.ask_price)->0 <= pow10(k) * unit(),
    ensures
        ({
            let size = strategy.sizing(
                recent,
                asset,
                subtype,
                funds,
                terms,
                book,
                recorded,
            )->0.size->0;
            let u = unit();
            let ask = terms.ask_price;
            let room = entry_room(strategy.config, funds, ask)->0;
            let worth = if terms.edge < 2 * (u - ask) {
                terms.edge
            } else {
                2 * (u - ask)
            };
            let bet = worth * u * strategy.config.kelly_fraction@ * terms.event_size_multiplier
                * horizon_size(strategy.config, terms.days_to_resolution) * room
                * strategy.entry_feedback(recent, asset, subtype)->0;
            let whole_bet = (u - ask) * u * u * u * u * u;
            let tolerance = 8 * pow10(k);
            let book_binds = terms.min_size_retention_ratio > 0 || terms.min_depth_ratio > 0;
            &&& (size - u) * ask >= u * u ==> size * whole_bet - bet <= tolerance * whole_bet
            &&& size < room && size < funds.available && !book_binds ==> bet - size * whole_bet
                <= tolerance * whole_bet
        }),
{
    let u = unit();
    let ask = terms.ask_price;
    let edge = terms.edge;
    let left = u - ask;
    let kf = strategy.config.kelly_fraction@;
    let em = terms.event_size_multiplier;
    let hm = horizon_size(strategy.config, terms.days_to_resolution);
    let room = entry_room(strategy.config, funds, ask)->0;
    let fb = strategy.entry_feedback(recent, asset, subtype)->0;
    let size = strategy.sizing(recent, asset, subtype, funds, terms, book, recorded)->0.size->0;
    let p = pow10(k);
    lemma_pow10_below_unit(k);
    assert(cents(99) == top_price() && cents(0) == 0 && cents(100) == u) by {
        reveal_with_fuel(pow10, 27);
    }
    lemma_sum_close(u, ask, 0);
    assert(difference(u, ask) == Some(left));
    let worth = if edge < 2 * left {
        edge
    } else {
        2 * left
    };
    assert(7 * 1 * left == 7 * left) by (nonlinear_arith);
    lemma_quotient_close(worth, left, 0);
    let s0 = quotient(worth, left)->0;
    assert(0 <= s0 <= 2 * u && kelly_share(ask, edge) == Some(s0)) by {
        lemma_zero_representable();
        lemma_whole_representable(2);
        law_arithmetic_keeps_order(worth, left, 0);
        law_arithmetic_keeps_order(worth, left, 2 * u);
        assert(worth * u <= (2 * u) * left && worth * u >= 0) by (nonlinear_arith)
            requires
                0 <= worth <= 2 * left,
                u > 0,
        ;
        if edge >= 2 * left {
            law_arithmetic_keeps_order(edge, left, 2 * u);
            assert(edge * u >= (2 * u) * left && worth * u == (2 * u) * left)
                by (nonlinear_arith)
                requires
                    edge >= 2 * left,
                    worth == 2 * left,
                    u > 0,
            ;
        }
    }
    let d0 = left;
    let n0 = worth * u;
    lemma_bounded_product(s0, 2, kf, 1);
    lemma_close_times(s0, n0, d0, 1, kf, 1, 0);
    let s1 = product(s0, kf)->0;
    let (n1, d1) = (n0 * kf, d0 * u);
    lemma_scaled(d0);
    lemma_bounded_product(s1, 2, em, 2);
    lemma_close_times(s1, n1, d1, 2, em, 2, 0);
    let s2 = product(s1, em)->0;
    let (n2, d2) = (n1 * em, d1 * u);
    lemma_scaled(d1);
    lemma_bounded_product(s2, 4, hm, 1);
    lemma_close_times(s2, n2, d2, 5, hm, 1, 0);
    let s3 = product(s2, hm)->0;
    let (n3, d3) = (n2 * hm, d2 * u);
    lemma_scaled(d2);
    lemma_bounded_product(s3, 4, room, p);
    lemma_close_times(s3, n3, d3, 6, room, p, k);
    let s4 = product(s3, room)->0;
    let (n4, d4) = (n3 * room, d3 * u);
    lemma_scaled(d3);
    lemma_bounded_product(s4, 4 * p, fb, 1);
    assert(6 * p + p == 7 * p);
    lemma_close_times(s4, n4, d4, 7 * p, fb, 1, k);
    let s5 = product(s4, fb)->0;
    let (n5, d5) = (n4 * fb, d4 * u);
    lemma_scaled(d4);
    assert(close(s5, n5, d5, 8 * p));
    lemma_least_order(ask);
    let least = ceil_of(quotient(u, ask)->0);
    let wanted = wanted_size(strategy.config, funds, terms, room, Some(fb))->0;
    assert(size <= wanted);
    if (size - u) * ask >= u * u {
        assert(least <= size) by (nonlinear_arith)
            requires
                (least - u) * ask < u * u,
                (size - u) * ask >= u * u,
                ask > 0,
        ;
        if size > s5 {
            assert(size == least);
            assert(false);
        }
        assert(size * d5 <= s5 * d5) by (nonlinear_arith)
            requires
                size <= s5,
                d5 > 0,
        ;
    }
    if size < room && size < funds.available && terms.min_size_retention_ratio <= 0
        && terms.min_depth_ratio <= 0 {
        assert(size == wanted);
        assert(s5 <= size);
        assert(s5 * d5 <= size * d5) by (nonlinear_arith)
            requires
                s5 <= size,
                d5 > 0,
        ;
    }
}

/// The room is what the tightest of the three caps leaves: each cap is a share of the balance, less
/// what is tied up under it already, and no room is below zero. It holds up to the rounding of the
/// last digits.
pub proof fn law_room_is_what_the_caps_leave(
    config: CryptoAlphaConfig,
    funds: FundsFigures,
    ask: int,
    k: nat,
)
    requires
        k <= 20,
        entry_room(config, funds, ask) is Some,
        0 <= funds.balance <= pow10(k) * unit(),
        0 <= funds.position <= pow10(k) * unit(),
        0 <= ask <= unit(),
        0 <= funds.asset_exposure <= pow10(k) * unit(),
        0 <= funds.direction_exposure <= pow10(k) * unit(),
        0 <= config.max_position_pct@ <= unit(),
        0 <= config.max_exposure_per_asset_pct@ <= unit(),
        0 <= config.max_exposure_per_asset_direction_pct@ <= unit(),
    ensures
        ({
            let u = unit();
            let room = entry_room(config, funds, ask)->0 * u;
            let by_market = funds.balance * config.max_position_pct@ - funds.position * ask;
            let by_asset = funds.balance * config.max_exposure_per_asset_pct@
                - funds.asset_exposure * u;
            let by_direction = funds.balance * config.max_exposure_per_asset_direction_pct@
                - funds.direction_exposure * u;
            let tolerance = 2 * pow10(k) * u;
            &&& room >= 0
            &&& room <= greater(by_market, 0) + tolerance
            &&& room <= greater(by_asset, 0) + tolerance
            &&& room <= greater(by_direction, 0) + tolerance
            &&& room >= by_market - tolerance || room >= by_asset - tolerance || room
                >= by_direction - tolerance
        }),
{
    let u = unit();
    let p = pow10(k);
    lemma_pow10_below_unit(k);
    lemma_bounded_product(funds.position, p, ask, 1);
    assert((p * 1) * (u * u) <= 7 * p * (u * u)) by (nonlinear_arith)
        requires
            p > 0,
            u > 0,
    ;
    lemma_product_close(funds.position, ask, k);
    let spent = product(funds.position, ask)->0;
    lemma_room(funds.balance, config.max_position_pct@, spent, k);
    lemma_room(funds.balance, config.max_exposure_per_asset_pct@, funds.asset_exposure, k);
    lemma_room(
        funds.balance,
        config.max_exposure_per_asset_direction_pct@,
        funds.direction_exposure,
        k,
    );
    let room = entry_room(config, funds, ask)->0;
    assert(room * u >= 0) by (nonlinear_arith)
        requires
            room >= 0,
            u > 0,
    ;
    assert(forall|x: int, y: int| x <= y ==> #[trigger] (x * u) <= #[trigger] (y * u))
        by (nonlinear_arith)
        requires
            u > 0,
    ;
}

proof fn lemma_room(balance: int, share: int, used: int, k: nat)
    requires
        k <= 20,
        0 <= balance <= pow10(k) * unit(),
        0 <= share <= unit(),
        0 <= used <= pow10(k) * unit(),
    ensures
        ({
            let u = unit();
            let room = room_under(balance, share, Some(used));
            let left = balance * share - used * u;
            &&& room is Some
            &&& room->0 >= 0
            &&& 2 * (room->0 * u) <= 2 * greater(left, 0) + 3 * pow10(k) * u
            &&& 2 * (room->0 * u) >= 2 * left - 3 * pow10(k) * u
        }),
{
    let u = unit();
    let p = pow10(k);
    lemma_pow10_below_unit(k);
    lemma_bounded_product(balance, p, share, 1);
    lemma_product_close(balance, share, k);
    let cap = product(balance, share)->0;
    lemma_sum_close(cap, used, k);
    let left = difference(cap, used)->0;
    let exact = balance * share - used * u;
    let room = room_under(balance, share, Some(used))->0;
    assert(2 * (left * u) - 2 * exact <= 3 * p * u && 2 * exact - 2 * (left * u) <= 3 * p * u)
        by (nonlinear_arith)
        requires
            2 * (left - (cap - used)) <= p,
            2 * ((cap - used) - left) <= p,
            2 * (cap * u - balance * share) <= p * u,
            2 * (balance * share - cap * u) <= p * u,
            exact == balance * share - used * u,
            u > 0,
            p > 0,
    {
        assert(2 * (left - (cap - used)) * u <= p * u);
        assert(2 * ((cap - used) - left) * u <= p * u);
    }
    assert(room * u == greater(left * u, 0)) by (nonlinear_arith)
        requires
            room == greater(left, 0),
            u > 0,
    ;
}

/// The least number of whole shares that cost one at a price is less than one share above what costs
/// one exactly.
proof fn lemma_least_order(ask: int)
    requires
        0 < ask <= unit(),
    ensures
        quotient(unit(), ask) is Some,
        (ceil_of(quotient(unit(), ask)->0) - unit()) * ask < unit() * unit(),
{
    let u = unit();
    lemma_pow10_unit();
    assert(u <= 7 * u * ask) by (nonlinear_arith)
        requires
            ask >= 1,
            u > 0,
    ;
    lemma_quotient_close(u, ask, 28);
    let q = quotient(u, ask)->0;
    let c = ceil_of(q);
    reveal(ceil_of);
    let w = (-q) / u;
    vstd::arithmetic::div_mod::lemma_fundamental_div_mod(-q, u);
    assert(c == -w * u);
    assert(-w * u - u < q) by (nonlinear_arith)
        requires
            -q == u * w + (-q) % u,
            0 <= (-q) % u < u,
    ;
    let below = c - u;
    if below * ask >= u * u {
        lemma_representable_quotient(u, ask);
        lemma_representable_bound(q);
        let n = -w - 1;
        assert(below == n * u) by (nonlinear_arith)
            requires
                below == -w * u - u,
                n == -w - 1,
        ;
        assert(n <= MAX_MANTISSA) by (nonlinear_arith)
            requires
                n * u < q,
                q <= MAX_MANTISSA * u,
                u > 0,
        ;
        assert(n >= 0) by (nonlinear_arith)
            requires
                (n * u) * ask >= u * u,
                u > 0,
                ask > 0,
        ;
        lemma_whole_representable(n);
        law_arithmetic_keeps_order(u, ask, n * u);
        assert(false);
    }
}

/// The book behind a reference.
pub open spec fn book_at(book: Option<&OrderBook>) -> Option<OrderBook> {
    match book {
        Some(b) => Some(*b),
        None => None,
    }
}

/// Of what the two kinds of cut leave of an entry, the smaller counts.
pub proof fn law_harder_cut_counts(
    strategy: CryptoAlphaStrategy,
    recent: Seq<DecisionRecord>,
    asset: AssetEntry,
    subtype: Option<CryptoEventSubtype>,
)
    requires
        strategy.entry_feedback(recent, asset, subtype) is Some,
    ensures
        ({
            let left = strategy.entry_feedback(recent, asset, subtype)->0;
            let by_depth = strategy.feedback(
                recent,
                asset,
                subtype,
                Some("scaled_for_depth_buffer"@),
            );
            let by_size = strategy.feedback(
                recent,
                asset,
                subtype,
                Some("scaled_for_size_retention"@),
            );
            &&& by_depth is Some && by_size is Some
            &&& left <= by_depth->0 && left <= by_size->0
            &&& left == by_depth->0 || left == by_size->0
        }),
{
}

/// Where nothing is left of an entry by the feedback, the room or the free funds, it is not raised to the
/// least order.
pub proof fn law_nothing_is_not_raised(
    config: CryptoAlphaConfig,
    funds: FundsFigures,
    terms: TermsFigures,
    room: int,
    feedback: int,
)
    requires
        wanted_size(config, funds, terms, room, Some(feedback)) is Some,
        feedback == 0 || room <= 0 || funds.available <= 0,
    ensures
        wanted_size(config, funds, terms, room, Some(feedback))->0 <= 0,
{
    let kelly = times(
        times(
            times(
                times(
                    kelly_share(terms.ask_price, terms.edge),
                    Some(config.kelly_fraction@),
                ),
                Some(terms.event_size_multiplier),
            ),
            Some(horizon_size(config, terms.days_to_resolution)),
        ),
        Some(room),
    );
    if kelly is Some && feedback == 0 {
        lemma_product_swap(kelly->0, 0);
        lemma_product_of_zero(kelly->0);
    }
}

/// The size that leaves the book the asked multiple of it is the depth over that multiple, to the nearest
/// hundredth, up to the rounding of the last digits. Where none is asked, any size does.
pub proof fn law_depth_is_shared_by_the_ratio(depth: int, ratio: int, size: int, k: nat)
    requires
        k <= 20,
        0 <= depth,
        ratio > 0 ==> depth <= 7 * pow10(k) * ratio,
    ensures
        size_within_depth(depth, ratio, size) is Some,
        ratio <= 0 ==> size_within_depth(depth, ratio, size) == Some(size),
        ratio > 0 ==> {
            let v = size_within_depth(depth, ratio, size)->0;
            &&& v % pow10(26) == 0
            &&& 2 * (v * ratio - depth * unit()) <= (pow10(26) + pow10(k)) * ratio
            &&& 2 * (depth * unit() - v * ratio) <= (pow10(26) + pow10(k)) * ratio
        },
{
    if ratio > 0 {
        let u = unit();
        let p = pow10(k);
        let cent = pow10(26);
        lemma_quotient_close(depth, ratio, k);
        let x = quotient(depth, ratio)->0;
        law_digits_are_dropped_to_the_nearest(x, 2);
        let v = round_dp_of(x, 2);
        assert(2 * (v * ratio - x * ratio) <= cent * ratio && 2 * (x * ratio - v * ratio) <= cent
            * ratio) by (nonlinear_arith)
            requires
                2 * (v - x) <= cent,
                2 * (x - v) <= cent,
                ratio > 0,
        ;
        assert((cent + p) * ratio == cent * ratio + p * ratio) by (nonlinear_arith);
    }
}

/// An entry is the least of what is wanted and what the book leaves by either multiple. It is turned down
/// where it is worth less than one, or where the book holds less than one of the multiples of it; and it
/// is given otherwise. Without a book there is none. It holds up to the rounding of the last digits.
pub proof fn law_book_decides_the_entry(
    terms: TermsFigures,
    wanted: int,
    book: OrderBook,
    recorded: bool,
    k: nat,
)
    requires
        k <= 20,
        sized_in_book(terms, wanted, Some(book), recorded) is Some,
        0 < terms.ask_price <= unit(),
        wanted <= 3 * pow10(k) * unit(),
    ensures
        ({
            let u = unit();
            let found = sized_in_book(terms, wanted, Some(book), recorded)->0;
            let depth = depth_of(book, TradeSide::Buy, terms.ask_price)->0;
            let by_retention = size_within_depth(depth, terms.min_size_retention_ratio, wanted)->0;
            let by_depth = size_within_depth(depth, terms.min_depth_ratio, wanted)->0;
            let least = if by_retention < wanted && by_retention <= by_depth {
                by_retention
            } else if by_depth < wanted {
                by_depth
            } else {
                wanted
            };
            let ratio = quotient(depth, least);
            &&& found.size is Some ==> found.size == Some(least) && least > 0 && least
                * terms.ask_price > u * u - pow10(k) * u && found.rejection is None
            &&& least <= 0 || least * terms.ask_price < u * u - pow10(k) * u ==> found.size is None
                && found.rejection == Some("min_order_or_budget"@) && found.reject_recorded
            &&& least > 0 && least * terms.ask_price >= u * u ==> {
                &&& ratio is Some
                &&& !found.reject_recorded
                &&& found.size is Some <==> ratio->0 >= terms.min_size_retention_ratio && ratio->0
                    >= terms.min_depth_ratio
                &&& ratio->0 < terms.min_size_retention_ratio ==> found.rejection == Some(
                    "insufficient_size_retention"@,
                )
                &&& ratio->0 >= terms.min_size_retention_ratio && ratio->0 < terms.min_depth_ratio
                    ==> found.rejection == Some("insufficient_depth_buffer"@)
            }
            &&& least >= wanted ==> found.scale is None
            &&& least < wanted && least == by_retention && by_retention <= by_depth ==> found.scale
                == Some(("scaled_for_size_retention"@, least, wanted))
            &&& least < wanted && least == by_depth && by_depth < by_retention ==> found.scale
                == Some(("scaled_for_depth_buffer"@, least, wanted))
        }),
        sized_in_book(terms, wanted, None, recorded) == Some(
            SizingResult { size: None, rejection: None, scale: None, reject_recorded: false },
        ),
{
    let u = unit();
    let p = pow10(k);
    let ask = terms.ask_price;
    let depth = depth_of(book, TradeSide::Buy, ask)->0;
    let by_retention = size_within_depth(depth, terms.min_size_retention_ratio, wanted)->0;
    let by_depth = size_within_depth(depth, terms.min_depth_ratio, wanted)->0;
    let size = lesser(lesser(wanted, by_retention), by_depth);
    lemma_pow10_below_unit(k);
    if size > 0 {
        assert(0 <= size * ask <= 7 * p * (u * u)) by (nonlinear_arith)
            requires
                0 < size <= 3 * p * u,
                0 < ask <= u,
                p > 0,
                u > 0,
        {
            assert(size * ask <= (3 * p * u) * u);
            assert((3 * p * u) * u == 3 * (p * (u * u)));
            assert(7 * p * (u * u) == 7 * (p * (u * u)));
            assert(p * (u * u) > 0);
        }
        lemma_product_close(size, ask, k);
        lemma_whole_representable(1);
        law_arithmetic_keeps_order(size, ask, u);
        let cost = product(size, ask)->0;
        assert(size * ask < u * u - p * u ==> cost < u) by (nonlinear_arith)
            requires
                2 * (cost * u - size * ask) <= p * u,
                u > 0,
                p > 0,
        {
            if size * ask < u * u - p * u && cost >= u {
                assert(cost * u >= u * u);
                assert(p * u > 0);
            }
        }
        assert(cost >= u ==> size * ask > u * u - p * u) by (nonlinear_arith)
            requires
                2 * (cost * u - size * ask) <= p * u,
                u > 0,
                p > 0,
        {
            if cost >= u {
                assert(cost * u >= u * u);
                assert(p * u > 0);
            }
        }
    }
}

} // verus!
