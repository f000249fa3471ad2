//! Comparing the outcomes of an event.
use crate::crypto_alpha::assets::CryptoAsset;
use crate::crypto_alpha::decisions::{
    gate_reject_decision, CryptoCandidateDecision, EventContext, GateRejectContext,
};
use crate::crypto_alpha::entry::{EntryOutcome, EntryPick};
use crate::crypto_alpha::labels::{CryptoDirectionBucket, CryptoMarketType};
use crate::crypto_alpha::quotes::{spread_is_too_wide, try_market, SideChances};
use crate::decimal::Decimal;
use crate::types::{BookSet, MarketInfo, B256};
use vstd::prelude::*;

verus! {

use crate::crypto_alpha::decisions::{gate_record, records, DecisionRecord, EventNotes, GateNotes};
use crate::crypto_alpha::entry::{preceded_by, texts, EntryResult, PickRecord};
use crate::crypto_alpha::quotes::{
    asked, best_edge, lemma_best_side, pick_at, side_pick, too_wide, with_market,
};
use crate::rounding::{difference, lemma_rounded_order, lemma_zero_representable, minus, unit};
use crate::types::MarketRecord;

/// The record of a market that was turned down before a side was picked.
pub open spec fn market_rejection(
    asset_name: Seq<char>,
    market_type: CryptoMarketType,
    question: Seq<char>,
    days: u32,
    prob: int,
    is_yes: bool,
    condition_id: Seq<u8>,
    event: EventNotes,
    reason: Seq<char>,
) -> DecisionRecord {
    gate_record(
        "gate_reject"@,
        asset_name,
        None,
        GateNotes {
            market_type,
            question,
            days_to_resolution: days,
            modeled_prob: prob,
            is_yes,
            condition_id,
            event,
        },
        reason,
        0,
    )
}

pub fn reject_market(
    asset: &CryptoAsset,
    market_type: CryptoMarketType,
    question: &str,
    days: u32,
    prob: Decimal,
    is_yes: bool,
    condition_id: B256,
    event: EventContext,
    reason: &'static str,
) -> (r: CryptoCandidateDecision)
    ensures
        r@ == market_rejection(
            asset@.name,
            market_type,
            question@,
            days,
            prob@,
            is_yes,
            condition_id@,
            event@,
            reason@,
        ),
{
    let context = GateRejectContext {
        market_type,
        question: question.to_owned(),
        days_to_resolution: days,
        modeled_prob: prob,
        is_yes,
        condition_id,
        event,
    };
    gate_reject_decision(asset, None, &context, reason)
}

/// What is known after some of the outcomes of an event were looked at.
#[verifier::ext_equal]
pub struct ScanState {
    /// The best side so far, and the place of its market.
    pub best: Option<(int, PickRecord)>,
    pub rejections: Seq<Seq<char>>,
    pub decisions: Seq<DecisionRecord>,
    /// The model gave no number for an outcome, so nothing comes of the event.
    pub aborted: bool,
}

pub open spec fn scan_start() -> ScanState {
    ScanState { best: None, rejections: Seq::empty(), decisions: Seq::empty(), aborted: false }
}

/// One outcome of an event, as it is looked at.
pub struct OutcomeView {
    pub place: int,
    pub market: MarketRecord,
    pub asset_name: Seq<char>,
    pub market_type: CryptoMarketType,
    pub question: Seq<char>,
    pub days: u32,
    pub prob: int,
    pub yes_direction: CryptoDirectionBucket,
    pub no_direction: CryptoDirectionBucket,
    pub fee_rate_bps: u32,
    pub max_spread_bps: int,
    pub event: EventNotes,
}

/// The record that a side's spread is too wide.
pub open spec fn wide_record(view: OutcomeView, is_yes: bool) -> DecisionRecord {
    market_rejection(
        view.asset_name,
        view.market_type,
        view.question,
        view.days,
        view.prob,
        is_yes,
        view.market.condition_id,
        view.event,
        "spread_too_wide"@,
    )
}

pub open spec fn best_pick(best: Option<(int, PickRecord)>) -> Option<PickRecord> {
    match best {
        Some((_, p)) => Some(p),
        None => None,
    }
}

/// The best side with its place, where another market was looked at.
pub open spec fn placed(
    before: Option<(int, PickRecord)>,
    after: Option<PickRecord>,
    place: int,
) -> Option<(int, PickRecord)> {
    match after {
        Some(p) => if best_pick(before) == Some(p) {
            before
        } else {
            Some((place, p))
        },
        None => None,
    }
}

/// What is known once an outcome is looked at: sides with too wide a spread are put on record, and
/// an outcome with such a side is passed over.
pub open spec fn outcome_seen(state: ScanState, books: BookSet, view: OutcomeView) -> Option<
    ScanState,
> {
    let yes = books.book(view.market.tokens[0].token_id);
    let no = books.book(view.market.tokens[1].token_id);
    match (too_wide(yes, view.max_spread_bps), too_wide(no, view.max_spread_bps)) {
        (Some(yes_wide), Some(no_wide)) => {
            let reasons = (if yes_wide {
                seq!["spread_too_wide"@]
            } else {
                Seq::empty()
            }) + (if no_wide {
                seq!["spread_too_wide"@]
            } else {
                Seq::empty()
            });
            let notes = (if yes_wide {
                seq![wide_record(view, true)]
            } else {
                Seq::empty()
            }) + (if no_wide {
                seq![wide_record(view, false)]
            } else {
                Seq::empty()
            });
            if yes_wide || no_wide {
                Some(
                    ScanState {
                        rejections: state.rejections + reasons,
                        decisions: state.decisions + notes,
                        ..state
                    },
                )
            } else {
                match with_market(
                    best_pick(state.best),
                    books,
                    view.market,
                    view.fee_rate_bps,
                    view.prob,
                    view.yes_direction,
                    view.no_direction,
                ) {
                    Some(after) => Some(
                        ScanState { best: placed(state.best, after, view.place), ..state },
                    ),
                    None => None,
                }
            }
        },
        _ => None,
    }
}

/// The side of an outcome as an entry: what the books ask for it, how likely it is, and its edge.
/// There is none where nothing is asked, or where a side of the outcome has too wide a spread.
pub open spec fn offer(books: BookSet, view: OutcomeView, side: int) -> Option<PickRecord> {
    let yes = books.book(view.market.tokens[0].token_id);
    let no = books.book(view.market.tokens[1].token_id);
    let (prob, direction) = if side == 0 {
        (Some(view.prob), view.yes_direction)
    } else {
        (minus(Some(unit()), Some(view.prob)), view.no_direction)
    };
    let ask = asked(books.book(view.market.tokens[side].token_id));
    match (prob, ask, minus(prob, ask)) {
        (Some(p), Some(a), Some(edge)) => if too_wide(yes, view.max_spread_bps) == Some(false)
            && too_wide(no, view.max_spread_bps) == Some(false) {
            Some(side_pick(view.market, side, view.fee_rate_bps, a, p, edge, direction))
        } else {
            None
        },
        _ => None,
    }
}

/// No side of an outcome offers a larger edge than the best one.
pub open spec fn none_better(books: BookSet, view: OutcomeView, best: Option<(int, PickRecord)>) -> bool {
    forall|side: int|
        0 <= side <= 1 && (#[trigger] offer(books, view, side)) is Some ==> offer(
            books,
            view,
            side,
        )->0.edge <= best_edge(best_pick(best))
}

/// The entry is one of the two sides of an outcome, with an edge above zero.
pub open spec fn is_offered(books: BookSet, view: OutcomeView, pick: PickRecord) -> bool {
    pick.edge > 0 && (offer(books, view, 0) == Some(pick) || offer(books, view, 1) == Some(pick))
}

/// Once an outcome is looked at no side of it is better than the best one, which is either still the
/// one of before or a side of this outcome with a larger edge.
pub proof fn lemma_outcome_is_weighed(state: ScanState, books: BookSet, view: OutcomeView)
    requires
        outcome_seen(state, books, view) is Some,
        best_edge(best_pick(state.best)) >= 0,
    ensures
        ({
            let after = outcome_seen(state, books, view)->0;
            &&& none_better(books, view, after.best)
            &&& after.best == state.best || {
                &&& after.best is Some
                &&& (after.best->0).0 == view.place
                &&& is_offered(books, view, (after.best->0).1)
                &&& best_edge(best_pick(after.best)) > best_edge(best_pick(state.best))
            }
            &&& after.aborted == state.aborted
        }),
{
    let after = outcome_seen(state, books, view)->0;
    assert forall|side: int|
        0 <= side <= 1 && (#[trigger] offer(books, view, side)) is Some implies offer(
        books,
        view,
        side,
    )->0.edge <= best_edge(best_pick(after.best)) by {
        let pick = offer(books, view, side)->0;
        if pick.prob <= pick.ask_price {
            reveal(difference);
            lemma_zero_representable();
            lemma_rounded_order(pick.prob - pick.ask_price, unit(), 0);
            assert((pick.prob - pick.ask_price) * unit() <= 0) by (nonlinear_arith)
                requires
                    pick.prob <= pick.ask_price,
                    unit() > 0,
            ;
        }
    }
}

/// A look at the outcomes of an event, under way.
pub struct OutcomeScan {
    pub best: Option<(usize, EntryPick)>,
    pub outcome: EntryOutcome,
    pub aborted: bool,
}

impl View for OutcomeScan {
    type V = ScanState;

    open spec fn view(&self) -> ScanState {
        ScanState {
            best: match self.best {
                Some((i, p)) => Some((i as int, p@)),
                None => None,
            },
            rejections: texts(self.outcome.rejections@),
            decisions: records(self.outcome.decisions@),
            aborted: self.aborted,
        }
    }
}

/// One outcome of an event, with what is known of it.
pub struct OutcomeFacts<'a> {
    pub place: usize,
    pub market: &'a MarketInfo,
    pub asset: &'a CryptoAsset,
    pub market_type: CryptoMarketType,
    pub question: &'a str,
    pub days: u32,
    pub chances: SideChances,
    pub fee_rate_bps: u32,
    pub max_spread_bps: u32,
    pub event: &'a EventContext,
}

impl<'a> View for OutcomeFacts<'a> {
    type V = OutcomeView;

    open spec fn view(&self) -> OutcomeView {
        OutcomeView {
            place: self.place as int,
            market: self.market@,
            asset_name: self.asset@.name,
            market_type: self.market_type,
            question: self.question@,
            days: self.days,
            prob: self.chances.prob@,
            yes_direction: self.chances.yes_direction,
            no_direction: self.chances.no_direction,
            fee_rate_bps: self.fee_rate_bps,
            max_spread_bps: self.max_spread_bps as int,
            event: self.event@,
        }
    }
}

impl OutcomeScan {
    pub fn start() -> (r: OutcomeScan)
        ensures
            r@ == scan_start(),
            r.outcome.candidate is None,
            r.outcome.near_miss_edge_bps is None,
    {
        let r = OutcomeScan { best: None, outcome: EntryOutcome::nothing(), aborted: false };
        proof {
            assert(r@ =~= scan_start());
        }
        r
    }

    fn note_wide(&mut self, facts: &OutcomeFacts, is_yes: bool)
        ensures
            final(self)@ == (ScanState {
                rejections: old(self)@.rejections.push("spread_too_wide"@),
                decisions: old(self)@.decisions.push(wide_record(facts@, is_yes)),
                ..old(self)@
            }),
            final(self).outcome.candidate == old(self).outcome.candidate,
            final(self).outcome.near_miss_edge_bps == old(self).outcome.near_miss_edge_bps,
    {
        let decision = reject_market(
            facts.asset,
            facts.market_type,
            facts.question,
            facts.days,
            facts.chances.prob,
            is_yes,
            facts.market.condition_id,
            facts.event.clone(),
            "spread_too_wide",
        );
        self.outcome.rejections.push("spread_too_wide");
        self.outcome.decisions.push(decision);
        proof {
            assert(self@.rejections =~= old(self)@.rejections.push("spread_too_wide"@));
            assert(self@.decisions =~= old(self)@.decisions.push(wide_record(facts@, is_yes)));
        }
    }

    /// Looks at one more outcome.
    pub fn see(&mut self, books: &BookSet, facts: &OutcomeFacts)
        requires
            facts@.market.tokens.len() >= 2,
            outcome_seen(old(self)@, *books, facts@) is Some,
        ensures
            outcome_seen(old(self)@, *books, facts@) == Some(final(self)@),
            final(self).outcome.candidate == old(self).outcome.candidate,
            final(self).outcome.near_miss_edge_bps == old(self).outcome.near_miss_edge_bps,
    {
        let market = facts.market;
        let yes_wide = spread_is_too_wide(
            books.get(market.tokens[0].token_id),
            facts.max_spread_bps,
        );
        let no_wide = spread_is_too_wide(books.get(market.tokens[1].token_id), facts.max_spread_bps);
        if yes_wide {
            self.note_wide(facts, true);
        }
        if no_wide {
            self.note_wide(facts, false);
        }
        if yes_wide || no_wide {
            proof {
                assert(outcome_seen(old(self)@, *books, facts@)->0 =~= self@);
            }
            return;
        }
        let before = match self.best {
            Some((_, p)) => Some(p),
            None => None,
        };
        let after = try_market(before, books, market, facts.fee_rate_bps, facts.chances);
        proof {
            assert(pick_at(before) == best_pick(self@.best));
        }
        match (before, after) {
            (_, None) => {
                self.best = None;
            },
            (None, Some(p)) => {
                self.best = Some((facts.place, p));
            },
            (Some(b), Some(p)) => {
                if p.edge > b.edge {
                    self.best = Some((facts.place, p));
                }
            },
        }
        proof {
            lemma_best_side(
                best_pick(old(self)@.best),
                *books,
                market@,
                facts.fee_rate_bps,
                facts.chances.prob@,
                facts.chances.yes_direction,
                facts.chances.no_direction,
            );
            assert(outcome_seen(old(self)@, *books, facts@)->0 =~= self@);
        }
    }
}

/// The result of a scan that found no entry.
pub open spec fn scan_only(state: ScanState) -> EntryResult {
    EntryResult {
        candidate: None,
        rejections: state.rejections,
        decisions: state.decisions,
        near_miss_edge_bps: None,
    }
}

/// The result of a scan with what came of its best side.
pub open spec fn after_scan(state: ScanState, result: Option<EntryResult>) -> Option<EntryResult> {
    match result {
        Some(r) => Some(preceded_by(r, state.rejections, state.decisions)),
        None => None,
    }
}

} // verus!
