//! Records of what was decided on the candidates for an entry, and why.
use crate::crypto_alpha::assets::CryptoAsset;
use crate::crypto_alpha::labels::{CryptoDirectionBucket, CryptoMarketType};
use crate::decimal::Decimal;
use crate::types::{copy_text, B256};
use vstd::prelude::*;

verus! {

use crate::crypto_alpha::labels::market_type_label;
use crate::crypto_alpha::thresholds::{is_held, lemma_held};
use crate::rounding::{lemma_quotient_close, over, pow10, quotient, unit};
use crate::types::text_of;

/// Where the event around a market is known from, and what is known of it.
#[derive(Debug)]
pub struct EventContext {
    pub source: Option<String>,
    pub title: Option<String>,
    pub category: Option<String>,
    pub subtype: Option<String>,
}

/// What an event context says.
pub struct EventNotes {
    pub source: Option<Seq<char>>,
    pub title: Option<Seq<char>>,
    pub category: Option<Seq<char>>,
    pub subtype: Option<Seq<char>>,
}

impl View for EventContext {
    type V = EventNotes;

    open spec fn view(&self) -> EventNotes {
        EventNotes {
            source: text_of(self.source),
            title: text_of(self.title),
            category: text_of(self.category),
            subtype: text_of(self.subtype),
        }
    }
}

impl Clone for EventContext {
    fn clone(&self) -> (r: EventContext)
        ensures
            r@ == self@,
    {
        EventContext {
            source: copy_text(&self.source),
            title: copy_text(&self.title),
            category: copy_text(&self.category),
            subtype: copy_text(&self.subtype),
        }
    }
}

/// One of the candidates that a decision was about.
#[derive(Debug)]
pub struct DecisionSide {
    pub question: String,
    pub condition_id: B256,
    pub market_type: String,
    pub modeled_prob: Decimal,
    pub is_yes: bool,
    pub days_to_resolution: u32,
    pub estimated_profit: Decimal,
    pub efficiency: Decimal,
    pub executable_profit_retention: Decimal,
    pub executable_size_retention: Decimal,
    pub executable_quality_score: Decimal,
    pub executable_efficiency: Decimal,
    pub depth_buffer: Decimal,
}

/// What the record of a candidate says.
pub struct SideRecord {
    pub question: Seq<char>,
    pub condition_id: Seq<u8>,
    pub market_type: Seq<char>,
    pub modeled_prob: int,
    pub is_yes: bool,
    pub days_to_resolution: u32,
    pub estimated_profit: int,
    pub efficiency: int,
    pub executable_profit_retention: int,
    pub executable_size_retention: int,
    pub executable_quality_score: int,
    pub executable_efficiency: int,
    pub depth_buffer: int,
}

impl View for DecisionSide {
    type V = SideRecord;

    open spec fn view(&self) -> SideRecord {
        SideRecord {
            question: self.question@,
            condition_id: self.condition_id@,
            market_type: self.market_type@,
            modeled_prob: self.modeled_prob@,
            is_yes: self.is_yes,
            days_to_resolution: self.days_to_resolution,
            estimated_profit: self.estimated_profit@,
            efficiency: self.efficiency@,
            executable_profit_retention: self.executable_profit_retention@,
            executable_size_retention: self.executable_size_retention@,
            executable_quality_score: self.executable_quality_score@,
            executable_efficiency: self.executable_efficiency@,
            depth_buffer: self.depth_buffer@,
        }
    }
}

impl Clone for DecisionSide {
    fn clone(&self) -> (r: DecisionSide)
        ensures
            r@ == self@,
    {
        DecisionSide {
            question: self.question.clone(),
            condition_id: self.condition_id,
            market_type: self.market_type.clone(),
            modeled_prob: self.modeled_prob,
            is_yes: self.is_yes,
            days_to_resolution: self.days_to_resolution,
            estimated_profit: self.estimated_profit,
            efficiency: self.efficiency,
            executable_profit_retention: self.executable_profit_retention,
            executable_size_retention: self.executable_size_retention,
            executable_quality_score: self.executable_quality_score,
            executable_efficiency: self.executable_efficiency,
            depth_buffer: self.depth_buffer,
        }
    }
}

/// The record of a decision.
#[derive(Debug)]
pub struct CryptoCandidateDecision {
    pub asset: String,
    pub direction: String,
    pub action: String,
    pub reason: String,
    pub event: EventContext,
    pub selected: DecisionSide,
    pub replaced: Option<DecisionSide>,
}

/// What the record of a decision says.
pub struct DecisionRecord {
    pub asset: Seq<char>,
    pub direction: Seq<char>,
    pub action: Seq<char>,
    pub reason: Seq<char>,
    pub event: EventNotes,
    pub selected: SideRecord,
    pub replaced: Option<SideRecord>,
}

impl View for CryptoCandidateDecision {
    type V = DecisionRecord;

    open spec fn view(&self) -> DecisionRecord {
        DecisionRecord {
            asset: self.asset@,
            direction: self.direction@,
            action: self.action@,
            reason: self.reason@,
            event: self.event@,
            selected: self.selected@,
            replaced: match self.replaced {
                Some(s) => Some(s@),
                None => None,
            },
        }
    }
}

impl Clone for CryptoCandidateDecision {
    fn clone(&self) -> (r: CryptoCandidateDecision)
        ensures
            r@ == self@,
    {
        CryptoCandidateDecision {
            asset: self.asset.clone(),
            direction: self.direction.clone(),
            action: self.action.clone(),
            reason: self.reason.clone(),
            event: self.event.clone(),
            selected: self.selected.clone(),
            replaced: match &self.replaced {
                Some(side) => Some(side.clone()),
                None => None,
            },
        }
    }
}

/// What a list of records says.
pub open spec fn records(v: Seq<CryptoCandidateDecision>) -> Seq<DecisionRecord> {
    v.map_values(|d: CryptoCandidateDecision| d@)
}

/// The recent decisions, newest first, once others have been taken in their order.
pub open spec fn recent_after(recent: Seq<DecisionRecord>, taken: Seq<DecisionRecord>) -> Seq<
    DecisionRecord,
> {
    taken.reverse() + recent
}

pub fn with_newer(
    recent: &Vec<CryptoCandidateDecision>,
    taken: &Vec<CryptoCandidateDecision>,
) -> (r: Vec<CryptoCandidateDecision>)
    ensures
        records(r@) == recent_after(records(recent@), records(taken@)),
{
    let mut all: Vec<CryptoCandidateDecision> = Vec::new();
    let ghost newer = records(taken@).reverse();
    let mut left: usize = taken.len();
    proof {
        assert(records(all@) =~= newer.take(0));
    }
    while left > 0
        invariant
            left <= taken@.len(),
            newer == records(taken@).reverse(),
            records(all@) == newer.take(taken@.len() - left),
        decreases left,
    {
        let ghost before = all@;
        all.push(taken[left - 1].clone());
        left = left - 1;
        proof {
            assert(records(all@) =~= records(before).push(taken@[left as int]@));
            assert(newer.take(taken@.len() - left) =~= newer.take(
                taken@.len() - left - 1,
            ).push(taken@[left as int]@));
        }
    }
    let mut i: usize = 0;
    proof {
        assert(newer.take(taken@.len() as int) =~= newer);
        assert(records(all@) =~= newer + records(recent@).take(0));
    }
    while i < recent.len()
        invariant
            i <= recent@.len(),
            records(all@) == newer + records(recent@).take(i as int),
        decreases recent@.len() - i,
    {
        let ghost before = all@;
        all.push(recent[i].clone());
        i = i + 1;
        proof {
            assert(records(all@) =~= records(before).push(recent@[i - 1]@));
            assert(newer + records(recent@).take(i as int) =~= (newer + records(recent@).take(
                i - 1,
            )).push(recent@[i - 1]@));
        }
    }
    proof {
        assert(records(recent@).take(i as int) =~= records(recent@));
    }
    all
}

pub open spec fn record_of(decision: Option<CryptoCandidateDecision>) -> Option<DecisionRecord> {
    match decision {
        Some(d) => Some(d@),
        None => None,
    }
}

/// How a record names a direction.
pub open spec fn direction_name(direction: Option<CryptoDirectionBucket>) -> Seq<char> {
    match direction {
        Some(CryptoDirectionBucket::Up) => "Up"@,
        Some(CryptoDirectionBucket::Down) => "Down"@,
        Some(CryptoDirectionBucket::InsideRange) => "InsideRange"@,
        Some(CryptoDirectionBucket::OutsideRange) => "OutsideRange"@,
        None => "Unknown"@,
    }
}

pub fn direction_text(direction: Option<CryptoDirectionBucket>) -> (r: String)
    ensures
        r@ == direction_name(direction),
{
    let name: &'static str = match direction {
        Some(CryptoDirectionBucket::Up) => "Up",
        Some(CryptoDirectionBucket::Down) => "Down",
        Some(CryptoDirectionBucket::InsideRange) => "InsideRange",
        Some(CryptoDirectionBucket::OutsideRange) => "OutsideRange",
        None => "Unknown",
    };
    name.to_owned()
}

/// The market that an entry was held back from, or cut down for.
#[derive(Debug)]
pub struct GateRejectContext {
    pub market_type: CryptoMarketType,
    pub question: String,
    pub days_to_resolution: u32,
    pub modeled_prob: Decimal,
    pub is_yes: bool,
    pub condition_id: B256,
    pub event: EventContext,
}

/// What a gate's context says.
pub struct GateNotes {
    pub market_type: CryptoMarketType,
    pub question: Seq<char>,
    pub days_to_resolution: u32,
    pub modeled_prob: int,
    pub is_yes: bool,
    pub condition_id: Seq<u8>,
    pub event: EventNotes,
}

impl View for GateRejectContext {
    type V = GateNotes;

    open spec fn view(&self) -> GateNotes {
        GateNotes {
            market_type: self.market_type,
            question: self.question@,
            days_to_resolution: self.days_to_resolution,
            modeled_prob: self.modeled_prob@,
            is_yes: self.is_yes,
            condition_id: self.condition_id@,
            event: self.event@,
        }
    }
}

/// The share of the wanted size that was kept, held between zero and one; zero where none was
/// wanted.
pub open spec fn kept_share(scaled: int, unconstrained: int) -> Option<int> {
    if unconstrained > 0 {
        crate::crypto_alpha::calibration::fraction(over(Some(scaled), Some(unconstrained)))
    } else {
        Some(0)
    }
}

/// The record of a gate that held an entry back (`gate_reject`) or cut it down (`gate_scale`).
pub open spec fn gate_record(
    action: Seq<char>,
    asset_name: Seq<char>,
    direction: Option<CryptoDirectionBucket>,
    context: GateNotes,
    reason: Seq<char>,
    kept: int,
) -> DecisionRecord {
    DecisionRecord {
        asset: asset_name,
        direction: direction_name(direction),
        action,
        reason,
        event: context.event,
        selected: SideRecord {
            question: context.question,
            condition_id: context.condition_id,
            market_type: market_type_label(context.market_type),
            modeled_prob: context.modeled_prob,
            is_yes: context.is_yes,
            days_to_resolution: context.days_to_resolution,
            estimated_profit: 0,
            efficiency: 0,
            executable_profit_retention: 0,
            executable_size_retention: kept,
            executable_quality_score: 0,
            executable_efficiency: 0,
            depth_buffer: 0,
        },
        replaced: None,
    }
}

fn gate_decision(
    action: &'static str,
    asset: &CryptoAsset,
    direction: Option<CryptoDirectionBucket>,
    context: &GateRejectContext,
    reason: &'static str,
    kept: Decimal,
) -> (r: CryptoCandidateDecision)
    ensures
        r@ == gate_record(action@, asset@.name, direction, context@, reason@, kept@),
{
    let zero = Decimal::zero();
    CryptoCandidateDecision {
        asset: asset.name.to_owned(),
        direction: direction_text(direction),
        action: action.to_owned(),
        reason: reason.to_owned(),
        event: context.event.clone(),
        selected: DecisionSide {
            question: context.question.clone(),
            condition_id: context.condition_id,
            market_type: context.market_type.as_str().to_owned(),
            modeled_prob: context.modeled_prob,
            is_yes: context.is_yes,
            days_to_resolution: context.days_to_resolution,
            estimated_profit: zero,
            efficiency: zero,
            executable_profit_retention: zero,
            executable_size_retention: kept,
            executable_quality_score: zero,
            executable_efficiency: zero,
            depth_buffer: zero,
        },
        replaced: None,
    }
}

/// The record of an entry that a gate held back.
pub fn gate_reject_decision(
    asset: &CryptoAsset,
    direction: Option<CryptoDirectionBucket>,
    context: &GateRejectContext,
    reason: &'static str,
) -> (r: CryptoCandidateDecision)
    ensures
        r@ == gate_record("gate_reject"@, asset@.name, direction, context@, reason@, 0),
{
    gate_decision("gate_reject", asset, direction, context, reason, Decimal::zero())
}

/// The record of an entry that a gate cut down.
pub fn gate_scale_decision(
    asset: &CryptoAsset,
    direction: Option<CryptoDirectionBucket>,
    context: &GateRejectContext,
    reason: &'static str,
    scaled_size: Decimal,
    unconstrained_size: Decimal,
) -> (r: CryptoCandidateDecision)
    requires
        kept_share(scaled_size@, unconstrained_size@) is Some,
    ensures
        r@ == gate_record(
            "gate_scale"@,
            asset@.name,
            direction,
            context@,
            reason@,
            kept_share(scaled_size@, unconstrained_size@)->0,
        ),
{
    let kept = if unconstrained_size > Decimal::zero() {
        (scaled_size / unconstrained_size).min(Decimal::one()).max(Decimal::zero())
    } else {
        Decimal::zero()
    };
    gate_decision("gate_scale", asset, direction, context, reason, kept)
}

/// What is kept of a size is what it was cut to over what was wanted, held between zero and one, up to the
/// rounding of the last digits.
pub proof fn law_kept_share_is_a_ratio(cut: int, wanted: int, k: nat)
    requires
        k <= 28,
        0 <= cut,
        wanted > 0 ==> cut <= 7 * pow10(k) * wanted,
    ensures
        wanted <= 0 ==> kept_share(cut, wanted) == Some(0int),
        wanted > 0 ==> kept_share(cut, wanted) is Some && is_held(
            kept_share(cut, wanted)->0,
            cut * unit(),
            wanted,
            pow10(k),
        ),
{
    if wanted > 0 {
        lemma_quotient_close(cut, wanted, k);
        lemma_held(quotient(cut, wanted)->0, cut * unit(), wanted, pow10(k));
    }
}

} // verus!
