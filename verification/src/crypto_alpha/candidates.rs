//! The best entry for each asset and direction.
use crate::crypto_alpha::assets::CryptoAsset;
use crate::crypto_alpha::decisions::{
    direction_text, CryptoCandidateDecision, DecisionSide, EventContext,
};
use crate::crypto_alpha::execution::{
    entry_depth_buffer, entry_executable_profit_efficiency, entry_executable_profit_retention,
    entry_executable_size_retention, entry_executable_slippage_bps, profit_efficiency,
};
use crate::crypto_alpha::labels::{CryptoDirectionBucket, CryptoMarketType};
use crate::crypto_alpha::strategy::CryptoAlphaStrategy;
use crate::decimal::Decimal;
use crate::text;
use crate::types::{BookSet, OrderBook, TradingOpportunity};
use vstd::prelude::*;

verus! {

use crate::crypto_alpha::assets::AssetEntry;
use crate::crypto_alpha::decisions::{direction_name, record_of, DecisionRecord, SideRecord};
use crate::crypto_alpha::execution::{
    depth_multiple, estimated_efficiency, fill_efficiency, profit_kept, size_kept, slippage_of,
};
use crate::crypto_alpha::labels::market_type_label;
use crate::crypto_alpha::sizing::book_at;

/// A proposed entry with what is known of its market.
#[derive(Debug)]
pub struct CryptoEntryCandidate {
    pub opportunity: TradingOpportunity,
    pub market_type: CryptoMarketType,
    pub modeled_prob: Decimal,
    pub days_to_resolution: u32,
    pub is_yes: bool,
    pub event: EventContext,
}

/// The entry that is kept for an asset and a direction.
#[derive(Debug)]
pub struct EntrySlot {
    pub symbol: &'static str,
    pub direction: CryptoDirectionBucket,
    pub candidate: CryptoEntryCandidate,
}

/// What an entry is judged by.
#[derive(Clone, Copy, Debug)]
pub struct EntryScores {
    pub quality: Decimal,
    pub profit_retention: Decimal,
    pub size_retention: Decimal,
    pub slippage_bps: Decimal,
    pub depth_buffer: Decimal,
    pub executable_efficiency: Decimal,
    pub estimated_profit: Decimal,
    pub efficiency: Decimal,
    pub cost: Decimal,
    pub spread: Decimal,
    pub size: Decimal,
}

impl EntryScores {
    /// The scores in the order in which they count, each so that more is better.
    pub open spec fn ranking(&self) -> Seq<int> {
        seq![
            self.quality@,
            self.profit_retention@,
            self.size_retention@,
            -self.slippage_bps@,
            self.depth_buffer@,
            self.executable_efficiency@,
            self.estimated_profit@,
            self.efficiency@,
            -self.cost@,
            self.spread@,
            self.size@,
        ]
    }
}

/// The names of the scores, in the order in which they count.
pub open spec fn score_names() -> Seq<Seq<char>> {
    seq![
        "execution_quality"@,
        "profit_retention"@,
        "size_retention"@,
        "slippage"@,
        "depth_buffer"@,
        "executable_efficiency"@,
        "estimated_profit"@,
        "static_efficiency"@,
        "cost"@,
        "spread"@,
        "size"@,
    ]
}

/// The first place from `i` on where the rankings differ, if `a` is ahead there.
pub open spec fn ahead_at(a: Seq<int>, b: Seq<int>, i: int) -> Option<int>
    decreases a.len() - i,
{
    if i < 0 || i >= a.len() || i >= b.len() {
        None
    } else if a[i] > b[i] {
        Some(i)
    } else if a[i] < b[i] {
        None
    } else {
        ahead_at(a, b, i + 1)
    }
}

/// Why the first of two rankings is better, if it is: the name of the first score in which they
/// differ.
pub open spec fn better_because(a: Seq<int>, b: Seq<int>) -> Option<Seq<char>> {
    match ahead_at(a, b, 0) {
        Some(i) => Some(score_names()[i]),
        None => None,
    }
}

proof fn lemma_ahead(a: Seq<int>, b: Seq<int>, i: int)
    requires
        a.len() == b.len(),
        0 <= i <= a.len(),
    ensures
        ahead_at(a, b, i) is Some ==> ahead_at(b, a, i) is None,
        ahead_at(a, b, i) is None && ahead_at(b, a, i) is None ==> forall|k: int|
            i <= k < a.len() ==> #[trigger] a[k] == b[k],
        ahead_at(a, b, i) matches Some(k) ==> i <= k < a.len() && a[k] > b[k] && forall|j: int|
            i <= j < k ==> #[trigger] a[j] == b[j],
    decreases a.len() - i,
{
    if i < a.len() {
        lemma_ahead(a, b, i + 1);
    }
}

proof fn lemma_ahead_from(a: Seq<int>, b: Seq<int>, i: int, k: int)
    requires
        a.len() == b.len(),
        0 <= i <= k < a.len(),
        a[k] > b[k],
        forall|j: int| i <= j < k ==> #[trigger] a[j] == b[j],
    ensures
        ahead_at(a, b, i) == Some(k),
    decreases k - i,
{
    if i < k {
        lemma_ahead_from(a, b, i + 1, k);
    }
}

/// Of two entries at most one is better than the other; where neither is, they are equal in every
/// score; and what is better than a better one is better.
pub proof fn law_better_is_a_strict_order(a: Seq<int>, b: Seq<int>, c: Seq<int>)
    requires
        a.len() == b.len() == c.len() == score_names().len(),
    ensures
        !(better_because(a, b) is Some && better_because(b, a) is Some),
        better_because(a, b) is None && better_because(b, a) is None ==> a == b,
        better_because(a, b) is Some && better_because(b, c) is Some ==> better_because(
            a,
            c,
        ) is Some,
{
    lemma_ahead(a, b, 0);
    lemma_ahead(b, a, 0);
    lemma_ahead(b, c, 0);
    if better_because(a, b) is None && better_because(b, a) is None {
        assert(a =~= b);
    }
    if better_because(a, b) is Some && better_because(b, c) is Some {
        let i = ahead_at(a, b, 0)->0;
        let j = ahead_at(b, c, 0)->0;
        let k = if i < j {
            i
        } else {
            j
        };
        lemma_ahead_from(a, c, 0, k);
    }
}

/// The figures that a record holds of an entry.
pub open spec fn side_record(
    candidate: CryptoEntryCandidate,
    book: Option<OrderBook>,
    quality: int,
) -> Option<SideRecord> {
    let opp = candidate.opportunity;
    match (
        estimated_efficiency(opp),
        profit_kept(opp, book),
        size_kept(opp, book),
        fill_efficiency(opp, book),
        depth_multiple(opp, book),
    ) {
        (
            Some(efficiency),
            Some(executable_profit_retention),
            Some(executable_size_retention),
            Some(executable_efficiency),
            Some(depth_buffer),
        ) => Some(
            SideRecord {
                question: opp.question@,
                condition_id: opp.condition_id@,
                market_type: market_type_label(candidate.market_type),
                modeled_prob: candidate.modeled_prob@,
                is_yes: candidate.is_yes,
                days_to_resolution: candidate.days_to_resolution,
                estimated_profit: opp.estimated_profit@,
                efficiency,
                executable_profit_retention,
                executable_size_retention,
                executable_quality_score: quality,
                executable_efficiency,
                depth_buffer,
            },
        ),
        _ => None,
    }
}

/// The ranking of an entry.
pub open spec fn ranking_of(
    candidate: CryptoEntryCandidate,
    book: Option<OrderBook>,
    quality: int,
) -> Option<Seq<int>> {
    let opp = candidate.opportunity;
    match (side_record(candidate, book, quality), slippage_of(opp, book), opp.execution_plan.cost()) {
        (Some(side), Some(slippage), Some(cost)) => Some(
            seq![
                quality,
                side.executable_profit_retention,
                side.executable_size_retention,
                -slippage,
                side.depth_buffer,
                side.executable_efficiency,
                opp.estimated_profit@,
                side.efficiency,
                -cost,
                opp.spread@,
                opp.size@,
            ],
        ),
        _ => None,
    }
}

/// The record of a comparison.
pub open spec fn comparison_record(
    asset: AssetEntry,
    direction: CryptoDirectionBucket,
    action: Seq<char>,
    reason: Seq<char>,
    kept: CryptoEntryCandidate,
    selected: SideRecord,
    replaced: Option<SideRecord>,
) -> DecisionRecord {
    DecisionRecord {
        asset: asset.name,
        direction: direction_name(Some(direction)),
        action,
        reason,
        event: kept.event@,
        selected,
        replaced,
    }
}

/// The place of the first slot for the asset and the direction.
pub open spec fn slot_for(
    slots: Seq<EntrySlot>,
    symbol: Seq<char>,
    direction: CryptoDirectionBucket,
) -> Option<int>
    decreases slots.len(),
{
    if slots.len() == 0 {
        None
    } else {
        let last = slots.len() - 1;
        match slot_for(slots.drop_last(), symbol, direction) {
            Some(i) => Some(i),
            None => if slots[last].symbol@ == symbol && slots[last].direction == direction {
                Some(last)
            } else {
                None
            },
        }
    }
}

/// Why the first of two entries is better, if it is.
fn better_reason(a: &EntryScores, b: &EntryScores) -> (r: Option<&'static str>)
    ensures
        better_because(a.ranking(), b.ranking()) == (match r {
            Some(t) => Some(t@),
            None => None,
        }),
{
    proof {
        reveal_with_fuel(ahead_at, 12);
    }
    if a.quality != b.quality {
        return if a.quality > b.quality {
            Some("execution_quality")
        } else {
            None
        };
    }
    if a.profit_retention != b.profit_retention {
        return if a.profit_retention > b.profit_retention {
            Some("profit_retention")
        } else {
            None
        };
    }
    if a.size_retention != b.size_retention {
        return if a.size_retention > b.size_retention {
            Some("size_retention")
        } else {
            None
        };
    }
    if a.slippage_bps != b.slippage_bps {
        return if a.slippage_bps < b.slippage_bps {
            Some("slippage")
        } else {
            None
        };
    }
    if a.depth_buffer != b.depth_buffer {
        return if a.depth_buffer > b.depth_buffer {
            Some("depth_buffer")
        } else {
            None
        };
    }
    if a.executable_efficiency != b.executable_efficiency {
        return if a.executable_efficiency > b.executable_efficiency {
            Some("executable_efficiency")
        } else {
            None
        };
    }
    if a.estimated_profit != b.estimated_profit {
        return if a.estimated_profit > b.estimated_profit {
            Some("estimated_profit")
        } else {
            None
        };
    }
    if a.efficiency != b.efficiency {
        return if a.efficiency > b.efficiency {
            Some("static_efficiency")
        } else {
            None
        };
    }
    if a.cost != b.cost {
        return if a.cost < b.cost {
            Some("cost")
        } else {
            None
        };
    }
    if a.spread != b.spread {
        return if a.spread > b.spread {
            Some("spread")
        } else {
            None
        };
    }
    if a.size > b.size {
        Some("size")
    } else {
        None
    }
}

fn side(candidate: &CryptoEntryCandidate, book: Option<&OrderBook>, quality: Decimal) -> (r:
    DecisionSide)
    requires
        side_record(*candidate, book_at(book), quality@) is Some,
    ensures
        side_record(*candidate, book_at(book), quality@) == Some(r@),
{
    let opp = &candidate.opportunity;
    DecisionSide {
        question: opp.question.clone(),
        condition_id: opp.condition_id,
        market_type: candidate.market_type.as_str().to_owned(),
        modeled_prob: candidate.modeled_prob,
        is_yes: candidate.is_yes,
        days_to_resolution: candidate.days_to_resolution,
        estimated_profit: opp.estimated_profit,
        efficiency: profit_efficiency(opp),
        executable_profit_retention: entry_executable_profit_retention(opp, book),
        executable_size_retention: entry_executable_size_retention(opp, book),
        executable_quality_score: quality,
        executable_efficiency: entry_executable_profit_efficiency(opp, book),
        depth_buffer: entry_depth_buffer(opp, book),
    }
}

fn scores(
    candidate: &CryptoEntryCandidate,
    side: &DecisionSide,
    book: Option<&OrderBook>,
    quality: Decimal,
) -> (r: EntryScores)
    requires
        side_record(*candidate, book_at(book), quality@) == Some(side@),
        ranking_of(*candidate, book_at(book), quality@) is Some,
    ensures
        ranking_of(*candidate, book_at(book), quality@) == Some(r.ranking()),
{
    let opp = &candidate.opportunity;
    EntryScores {
        quality,
        profit_retention: side.executable_profit_retention,
        size_retention: side.executable_size_retention,
        slippage_bps: entry_executable_slippage_bps(opp, book),
        depth_buffer: side.depth_buffer,
        executable_efficiency: side.executable_efficiency,
        estimated_profit: opp.estimated_profit,
        efficiency: side.efficiency,
        cost: opp.execution_plan.estimated_cost(),
        spread: opp.spread,
        size: opp.size,
    }
}

fn comparison(
    asset: &CryptoAsset,
    direction: CryptoDirectionBucket,
    action: &'static str,
    reason: &'static str,
    event: EventContext,
    selected: DecisionSide,
    replaced: Option<DecisionSide>,
) -> (r: CryptoCandidateDecision)
    ensures
        r@ == (DecisionRecord {
            asset: asset@.name,
            direction: direction_name(Some(direction)),
            action: action@,
            reason: reason@,
            event: event@,
            selected: selected@,
            replaced: match replaced {
                Some(s) => Some(s@),
                None => None,
            },
        }),
{
    CryptoCandidateDecision {
        asset: asset.name.to_owned(),
        direction: direction_text(Some(direction)),
        action: action.to_owned(),
        reason: reason.to_owned(),
        event,
        selected,
        replaced,
    }
}

/// The place of the entry for an asset and a direction.
pub fn find_slot(slots: &Vec<EntrySlot>, symbol: &str, direction: CryptoDirectionBucket) -> (r: Option<
    usize,
>)
    ensures
        slot_for(slots@, symbol@, direction) == (match r {
            Some(i) => Some(i as int),
            None => None,
        }),
        r is Some ==> r->0 < slots@.len(),
{
    let mut i: usize = 0;
    proof {
        assert(slots@.take(0) =~= Seq::empty());
    }
    while i < slots.len()
        invariant
            i <= slots@.len(),
            slot_for(slots@.take(i as int), symbol@, direction) is None,
        decreases slots@.len() - i,
    {
        proof {
            assert(slots@.take(i + 1).drop_last() =~= slots@.take(i as int));
            assert(slots@.take(i + 1)[i as int] == slots@[i as int]);
        }
        if text::same_text(slots[i].symbol, symbol) && slots[i].direction == direction {
            proof {
                lemma_slot_prefix(slots@, symbol@, direction, (i + 1) as nat);
            }
            return Some(i);
        }
        i = i + 1;
    }
    proof {
        assert(slots@.take(i as int) =~= slots@);
    }
    None
}

proof fn lemma_slot_prefix(
    slots: Seq<EntrySlot>,
    symbol: Seq<char>,
    direction: CryptoDirectionBucket,
    k: nat,
)
    requires
        k <= slots.len(),
        slot_for(slots.take(k as int), symbol, direction) is Some,
    ensures
        slot_for(slots, symbol, direction) == slot_for(slots.take(k as int), symbol, direction),
    decreases slots.len(),
{
    if k < slots.len() {
        assert(slots.drop_last().take(k as int) =~= slots.take(k as int));
        lemma_slot_prefix(slots.drop_last(), symbol, direction, k);
    } else {
        assert(slots.take(k as int) =~= slots);
    }
}

/// What comes of a candidate: the slots afterwards, and the record that is left.
pub struct KeepResult {
    pub slots: Seq<EntrySlot>,
    pub record: Option<DecisionRecord>,
}

/// Keeps the better of a candidate and the entry that its asset and direction have, the one that
/// is there where neither is better. The first candidate for an asset and a direction is kept.
pub open spec fn kept_entries(
    slots: Seq<EntrySlot>,
    books: BookSet,
    asset: CryptoAsset,
    direction: CryptoDirectionBucket,
    candidate: CryptoEntryCandidate,
    candidate_quality: int,
    existing_quality: int,
) -> Option<KeepResult> {
    let slot = EntrySlot { symbol: asset.binance_symbol, direction, candidate };
    let book = books.book(candidate.opportunity.execution_plan.token_id);
    match slot_for(slots, asset@.binance_symbol, direction) {
        None => match side_record(candidate, book, candidate_quality) {
            None => None,
            Some(side) => Some(
                KeepResult {
                    slots: slots.push(slot),
                    record: Some(
                        comparison_record(
                            asset@,
                            direction,
                            "seed"@,
                            "seed"@,
                            candidate,
                            side,
                            None,
                        ),
                    ),
                },
            ),
        },
        Some(i) => {
            let existing = slots[i].candidate;
            let existing_book = books.book(existing.opportunity.execution_plan.token_id);
            match (
                ranking_of(candidate, book, candidate_quality),
                ranking_of(existing, existing_book, existing_quality),
            ) {
                (Some(new), Some(old)) => {
                    let new_side = side_record(candidate, book, candidate_quality)->0;
                    let old_side = side_record(existing, existing_book, existing_quality)->0;
                    match (better_because(new, old), better_because(old, new)) {
                        (Some(reason), _) => Some(
                            KeepResult {
                                slots: slots.update(i, EntrySlot { candidate, ..slots[i] }),
                                record: Some(
                                    comparison_record(
                                        asset@,
                                        direction,
                                        "replace"@,
                                        reason,
                                        candidate,
                                        new_side,
                                        Some(old_side),
                                    ),
                                ),
                            },
                        ),
                        (None, Some(reason)) => Some(
                            KeepResult {
                                slots,
                                record: Some(
                                    comparison_record(
                                        asset@,
                                        direction,
                                        "reject"@,
                                        reason,
                                        existing,
                                        old_side,
                                        Some(new_side),
                                    ),
                                ),
                            },
                        ),
                        (None, None) => Some(KeepResult { slots, record: None }),
                    }
                },
                _ => None,
            }
        },
    }
}

impl CryptoAlphaStrategy {
    /// Keeps the better of a candidate and the entry that its asset and direction have. The quality
    /// scores are those of the candidate and of the entry that is there.
    pub fn keep_better_entry(
        &self,
        slots: &mut Vec<EntrySlot>,
        books: &BookSet,
        asset: &CryptoAsset,
        direction: CryptoDirectionBucket,
        candidate: CryptoEntryCandidate,
        candidate_quality: Decimal,
        existing_quality: Decimal,
    ) -> (r: Option<CryptoCandidateDecision>)
        requires
            kept_entries(
                old(slots)@,
                *books,
                *asset,
                direction,
                candidate,
                candidate_quality@,
                existing_quality@,
            ) is Some,
        ensures
            ({
                let result = kept_entries(
                    old(slots)@,
                    *books,
                    *asset,
                    direction,
                    candidate,
                    candidate_quality@,
                    existing_quality@,
                )->0;
                &&& final(slots)@ == result.slots
                &&& record_of(r) == result.record
            }),
    {
        let book = books.get(candidate.opportunity.execution_plan.token_id);
        let place = match find_slot(slots, asset.binance_symbol, direction) {
            Some(i) => i,
            None => {
                let selected = side(&candidate, book, candidate_quality);
                let record = comparison(
                    asset,
                    direction,
                    "seed",
                    "seed",
                    candidate.event.clone(),
                    selected,
                    None,
                );
                slots.push(EntrySlot { symbol: asset.binance_symbol, direction, candidate });
                return Some(record);
            },
        };
        let existing = &slots[place].candidate;
        let existing_book = books.get(existing.opportunity.execution_plan.token_id);
        let new_side = side(&candidate, book, candidate_quality);
        let old_side = side(existing, existing_book, existing_quality);
        let new_scores = scores(&candidate, &new_side, book, candidate_quality);
        let old_scores = scores(existing, &old_side, existing_book, existing_quality);
        match better_reason(&new_scores, &old_scores) {
            Some(reason) => {
                let record = comparison(
                    asset,
                    direction,
                    "replace",
                    reason,
                    candidate.event.clone(),
                    new_side,
                    Some(old_side),
                );
                let symbol = slots[place].symbol;
                let kept_direction = slots[place].direction;
                slots.set(place, EntrySlot { symbol, direction: kept_direction, candidate });
                Some(record)
            },
            None => match better_reason(&old_scores, &new_scores) {
                Some(reason) => Some(
                    comparison(
                        asset,
                        direction,
                        "reject",
                        reason,
                        existing.event.clone(),
                        old_side,
                        Some(new_side),
                    ),
                ),
                None => None,
            },
        }
    }
}

/// No two slots are for the same asset and direction.
pub open spec fn slots_distinct(slots: Seq<EntrySlot>) -> bool {
    forall|i: int, j: int|
        0 <= i < j < slots.len() ==> !(#[trigger] slots[i].symbol@ == #[trigger] slots[j].symbol@
            && slots[i].direction == slots[j].direction)
}

proof fn lemma_slot_for(
    slots: Seq<EntrySlot>,
    symbol: Seq<char>,
    direction: CryptoDirectionBucket,
)
    ensures
        match slot_for(slots, symbol, direction) {
            Some(i) => 0 <= i < slots.len() && slots[i].symbol@ == symbol && slots[i].direction
                == direction,
            None => forall|i: int|
                0 <= i < slots.len() ==> !(#[trigger] slots[i].symbol@ == symbol
                    && slots[i].direction == direction),
        },
    decreases slots.len(),
{
    if slots.len() > 0 {
        let rest = slots.drop_last();
        lemma_slot_for(rest, symbol, direction);
        assert forall|i: int| 0 <= i < rest.len() implies rest[i] == slots[i] by {}
        if slot_for(slots, symbol, direction) is None {
            assert forall|i: int| 0 <= i < slots.len() implies !(#[trigger] slots[i].symbol@
                == symbol && slots[i].direction == direction) by {
                if i < rest.len() {
                    assert(rest[i] == slots[i]);
                    assert(!(rest[i].symbol@ == symbol && rest[i].direction == direction));
                }
            }
        }
    }
}

/// Each asset and direction has at most one entry, and keeps having at most one.
pub proof fn law_one_entry_per_asset_and_direction(
    slots: Seq<EntrySlot>,
    books: BookSet,
    asset: CryptoAsset,
    direction: CryptoDirectionBucket,
    candidate: CryptoEntryCandidate,
    candidate_quality: int,
    existing_quality: int,
)
    requires
        slots_distinct(slots),
        kept_entries(
            slots,
            books,
            asset,
            direction,
            candidate,
            candidate_quality,
            existing_quality,
        ) is Some,
    ensures
        slots_distinct(
            kept_entries(
                slots,
                books,
                asset,
                direction,
                candidate,
                candidate_quality,
                existing_quality,
            )->0.slots,
        ),
{
    lemma_slot_for(slots, asset@.binance_symbol, direction);
    let after = kept_entries(
        slots,
        books,
        asset,
        direction,
        candidate,
        candidate_quality,
        existing_quality,
    )->0.slots;
    assert forall|i: int, j: int| 0 <= i < j < after.len() implies !(#[trigger] after[i].symbol@
        == #[trigger] after[j].symbol@ && after[i].direction == after[j].direction) by {
        if j < slots.len() {
            assert(!(slots[i].symbol@ == slots[j].symbol@ && slots[i].direction
                == slots[j].direction));
        } else {
            assert(!(slots[i].symbol@ == asset@.binance_symbol && slots[i].direction
                == direction));
        }
    }
}

/// Neither the candidate nor the entry that was there is better than the one that is kept, and the
/// entries for other assets and directions stay as they were.
pub proof fn law_kept_entry_is_never_worse(
    slots: Seq<EntrySlot>,
    books: BookSet,
    asset: CryptoAsset,
    direction: CryptoDirectionBucket,
    candidate: CryptoEntryCandidate,
    candidate_quality: int,
    existing_quality: int,
    i: int,
)
    requires
        kept_entries(
            slots,
            books,
            asset,
            direction,
            candidate,
            candidate_quality,
            existing_quality,
        ) is Some,
        slot_for(slots, asset@.binance_symbol, direction) == Some(i),
    ensures
        ({
            let after = kept_entries(
                slots,
                books,
                asset,
                direction,
                candidate,
                candidate_quality,
                existing_quality,
            )->0.slots;
            let book = books.book(candidate.opportunity.execution_plan.token_id);
            let old_book = books.book(slots[i].candidate.opportunity.execution_plan.token_id);
            let new = ranking_of(candidate, book, candidate_quality)->0;
            let old = ranking_of(slots[i].candidate, old_book, existing_quality)->0;
            &&& after.len() == slots.len()
            &&& after[i].candidate == candidate || after[i].candidate == slots[i].candidate
            &&& better_because(new, old) is Some ==> after[i].candidate == candidate
            &&& better_because(new, old) is None ==> after[i].candidate == slots[i].candidate
            &&& !(better_because(new, old) is Some && better_because(old, new) is Some)
            &&& forall|j: int|
                0 <= j < slots.len() && j != i ==> #[trigger] after[j] == slots[j]
        }),
{
    lemma_slot_for(slots, asset@.binance_symbol, direction);
    let book = books.book(candidate.opportunity.execution_plan.token_id);
    let old_book = books.book(slots[i].candidate.opportunity.execution_plan.token_id);
    let new = ranking_of(candidate, book, candidate_quality)->0;
    let old = ranking_of(slots[i].candidate, old_book, existing_quality)->0;
    law_better_is_a_strict_order(new, old, new);
}

/// Of two entries the one with the higher quality is better. Between equals it is the one that keeps more
/// of its profit, that keeps more of its size, that slips less, that finds more depth, that earns more for
/// what it fills, that is estimated to earn more, that is estimated to earn more for its cost, that costs
/// less, that has the wider spread and that is larger, in this order; and that is the reason given.
pub proof fn law_first_difference_decides(
    a: CryptoEntryCandidate,
    b: CryptoEntryCandidate,
    a_book: Option<OrderBook>,
    b_book: Option<OrderBook>,
    a_quality: int,
    b_quality: int,
)
    requires
        ranking_of(a, a_book, a_quality) is Some,
        ranking_of(b, b_book, b_quality) is Some,
    ensures
        ({
            let reason = better_because(
                ranking_of(a, a_book, a_quality)->0,
                ranking_of(b, b_book, b_quality)->0,
            );
            let (x, y) = (a.opportunity, b.opportunity);
            let profit = profit_kept(x, a_book)->0 - profit_kept(y, b_book)->0;
            let size = size_kept(x, a_book)->0 - size_kept(y, b_book)->0;
            let slippage = slippage_of(x, a_book)->0 - slippage_of(y, b_book)->0;
            let depth = depth_multiple(x, a_book)->0 - depth_multiple(y, b_book)->0;
            let rate = fill_efficiency(x, a_book)->0 - fill_efficiency(y, b_book)->0;
            let estimate = x.estimated_profit@ - y.estimated_profit@;
            let static_rate = estimated_efficiency(x)->0 - estimated_efficiency(y)->0;
            let cost = x.execution_plan.cost()->0 - y.execution_plan.cost()->0;
            let spread = x.spread@ - y.spread@;
            let amount = x.size@ - y.size@;
            reason == if a_quality != b_quality {
                if a_quality > b_quality {
                    Some("execution_quality"@)
                } else {
                    None
                }
            } else if profit != 0 {
                if profit > 0 {
                    Some("profit_retention"@)
                } else {
                    None
                }
            } else if size != 0 {
                if size > 0 {
                    Some("size_retention"@)
                } else {
                    None
                }
            } else if slippage != 0 {
                if slippage < 0 {
                    Some("slippage"@)
                } else {
                    None
                }
            } else if depth != 0 {
                if depth > 0 {
                    Some("depth_buffer"@)
                } else {
                    None
                }
            } else if rate != 0 {
                if rate > 0 {
                    Some("executable_efficiency"@)
                } else {
                    None
                }
            } else if estimate != 0 {
                if estimate > 0 {
                    Some("estimated_profit"@)
                } else {
                    None
                }
            } else if static_rate != 0 {
                if static_rate > 0 {
                    Some("static_efficiency"@)
                } else {
                    None
                }
            } else if cost != 0 {
                if cost < 0 {
                    Some("cost"@)
                } else {
                    None
                }
            } else if spread != 0 {
                if spread > 0 {
                    Some("spread"@)
                } else {
                    None
                }
            } else if amount > 0 {
                Some("size"@)
            } else {
                None
            }
        }),
{
    reveal_with_fuel(ahead_at, 13);
}

} // verus!
