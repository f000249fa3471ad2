//! What a scan has found so far.
use crate::crypto_alpha::assets::CryptoAsset;
use crate::crypto_alpha::candidates::{find_slot, CryptoEntryCandidate, EntrySlot};
use crate::crypto_alpha::decisions::{with_newer, CryptoCandidateDecision};
use crate::crypto_alpha::entry::EntryOutcome;
use crate::crypto_alpha::labels::CryptoDirectionBucket;
use crate::crypto_alpha::plan::entry_direction;
use crate::crypto_alpha::strategy::CryptoAlphaStrategy;
use crate::decimal::Decimal;
use crate::keyed::Keyed;
use crate::types::{BookSet, U256};
use vstd::prelude::*;

verus! {

use crate::crypto_alpha::candidates::{
    kept_entries, law_one_entry_per_asset_and_direction, slot_for, slots_distinct,
};
use crate::crypto_alpha::decisions::{recent_after, records, DecisionRecord};
use crate::crypto_alpha::entry::seq_of;
use crate::crypto_alpha::plan::direction_for;

/// The entries that are kept, and the decisions that were taken, newest first. The decisions stay
/// from one scan to the next.
#[derive(Debug)]
pub struct EntryScan {
    pub slots: Vec<EntrySlot>,
    pub recent: Vec<CryptoCandidateDecision>,
}

/// What a scan says.
#[verifier::ext_equal]
pub struct ScanRecord {
    pub slots: Seq<EntrySlot>,
    pub recent: Seq<DecisionRecord>,
}

impl View for EntryScan {
    type V = ScanRecord;

    open spec fn view(&self) -> ScanRecord {
        ScanRecord { slots: self.slots@, recent: records(self.recent@) }
    }
}

/// The scan once a look at a group, a market or an event has ended: the decisions of the look are
/// remembered, its candidate is held against the entry for the same asset and direction, and the
/// decision on that is remembered after them.
pub open spec fn taken(
    scan: ScanRecord,
    books: BookSet,
    directions: Map<U256, CryptoDirectionBucket>,
    asset: CryptoAsset,
    candidate: Option<CryptoEntryCandidate>,
    decisions: Seq<DecisionRecord>,
    candidate_quality: int,
    existing_quality: int,
) -> Option<ScanRecord> {
    let recent = recent_after(scan.recent, decisions);
    match candidate {
        None => Some(ScanRecord { recent, ..scan }),
        Some(c) => match kept_entries(
            scan.slots,
            books,
            asset,
            direction_for(directions, c.opportunity.execution_plan.token_id),
            c,
            candidate_quality,
            existing_quality,
        ) {
            None => None,
            Some(kept) => Some(
                ScanRecord {
                    slots: kept.slots,
                    recent: recent_after(recent, seq_of(kept.record)),
                },
            ),
        },
    }
}

impl EntryScan {
    pub fn start(recent: Vec<CryptoCandidateDecision>) -> (r: EntryScan)
        ensures
            r@ == (ScanRecord { slots: Seq::empty(), recent: records(recent@) }),
    {
        EntryScan { slots: Vec::new(), recent }
    }

    /// Notes a decision.
    pub fn remember(&mut self, decision: CryptoCandidateDecision)
        ensures
            final(self)@ == (ScanRecord {
                recent: recent_after(old(self)@.recent, seq![decision@]),
                ..old(self)@
            }),
    {
        let mut all: Vec<CryptoCandidateDecision> = Vec::new();
        all.push(decision);
        proof {
            assert(records(all@) =~= seq![decision@]);
        }
        self.recent = with_newer(&self.recent, &all);
    }

    /// The place of the entry that a candidate is held against.
    pub fn rival(
        &self,
        directions: &Keyed<U256, CryptoDirectionBucket>,
        asset: &CryptoAsset,
        candidate: &CryptoEntryCandidate,
    ) -> (r: Option<usize>)
        ensures
            slot_for(
                self@.slots,
                asset@.binance_symbol,
                direction_for(directions@, candidate.opportunity.execution_plan.token_id),
            ) == (match r {
                Some(i) => Some(i as int),
                None => None,
            }),
            r is Some ==> r->0 < self.slots@.len(),
    {
        let direction = entry_direction(directions, candidate.opportunity.execution_plan.token_id);
        find_slot(&self.slots, asset.binance_symbol, direction)
    }
}

impl CryptoAlphaStrategy {
    /// Takes what came of a look into the scan. The quality scores are those of its candidate and of
    /// the entry that this is held against.
    pub fn take_outcome(
        &self,
        scan: &mut EntryScan,
        books: &BookSet,
        directions: &Keyed<U256, CryptoDirectionBucket>,
        asset: &CryptoAsset,
        outcome: EntryOutcome,
        candidate_quality: Decimal,
        existing_quality: Decimal,
    )
        requires
            taken(
                old(scan)@,
                *books,
                directions@,
                *asset,
                outcome.candidate,
                outcome@.decisions,
                candidate_quality@,
                existing_quality@,
            ) is Some,
        ensures
            taken(
                old(scan)@,
                *books,
                directions@,
                *asset,
                outcome.candidate,
                outcome@.decisions,
                candidate_quality@,
                existing_quality@,
            ) == Some(final(scan)@),
    {
        scan.recent = with_newer(&scan.recent, &outcome.decisions);
        if let Some(candidate) = outcome.candidate {
            let direction = entry_direction(
                directions,
                candidate.opportunity.execution_plan.token_id,
            );
            let decision = self.keep_better_entry(
                &mut scan.slots,
                books,
                asset,
                direction,
                candidate,
                candidate_quality,
                existing_quality,
            );
            match decision {
                Some(d) => scan.remember(d),
                None => {
                    proof {
                        let before = scan@.recent;
                        assert(recent_after(before, Seq::empty()) =~= before);
                    }
                },
            }
        }
    }
}

/// Whatever looks a scan takes in, each asset and direction keeps at most one entry.
pub proof fn law_scan_keeps_one_entry_each(
    scan: ScanRecord,
    books: BookSet,
    directions: Map<U256, CryptoDirectionBucket>,
    asset: CryptoAsset,
    candidate: Option<CryptoEntryCandidate>,
    decisions: Seq<DecisionRecord>,
    candidate_quality: int,
    existing_quality: int,
)
    requires
        slots_distinct(scan.slots),
        taken(
            scan,
            books,
            directions,
            asset,
            candidate,
            decisions,
            candidate_quality,
            existing_quality,
        ) is Some,
    ensures
        slots_distinct(
            taken(
                scan,
                books,
                directions,
                asset,
                candidate,
                decisions,
                candidate_quality,
                existing_quality,
            )->0.slots,
        ),
{
    if let Some(c) = candidate {
        law_one_entry_per_asset_and_direction(
            scan.slots,
            books,
            asset,
            direction_for(directions, c.opportunity.execution_plan.token_id),
            c,
            candidate_quality,
            existing_quality,
        );
    }
}

} // verus!
