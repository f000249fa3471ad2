//! Smaller entries where recent ones had to be cut down.
use crate::crypto_alpha::assets::{crypto_assets, CryptoAsset};
use crate::crypto_alpha::decisions::CryptoCandidateDecision;
use crate::crypto_alpha::labels::{
    asset_class_selector, event_subtype_selector, parse_event_subtype_label, CryptoEventSubtype,
};
use crate::crypto_alpha::strategy::CryptoAlphaStrategy;
use crate::decimal::Decimal;
use crate::text;
use vstd::prelude::*;

verus! {

use crate::crypto_alpha::assets::{asset_table, AssetEntry};
use crate::crypto_alpha::calibration::fraction;
use crate::crypto_alpha::decisions::{records, DecisionRecord};
use crate::crypto_alpha::labels::{asset_class, subtype_of_label, subtype_selector};
use crate::rounding::{
    at_least, close, greater, law_arithmetic_keeps_order, lemma_product_close, lemma_sum_close,
    lemma_whole_representable, lesser, minus, plus, pow10, product, times, unit, whole,
};

/// What the weight of a decision loses with each later one: it keeps 0.85 of itself.
pub open spec fn recency_decay() -> int {
    8_500_000_000_000_000_000_000_000_000
}

/// The first asset of the table from place `i` on with the name, whatever its case.
pub open spec fn asset_named(name: Seq<char>, i: int) -> Option<AssetEntry>
    decreases asset_table().len() - i,
{
    if i < 0 || i >= asset_table().len() {
        None
    } else if text::same_ignoring_case(asset_table()[i].name, name) {
        Some(asset_table()[i])
    } else {
        asset_named(name, i + 1)
    }
}

/// The decision cut an entry down, for the reason if one is asked for, and on the asset (or one of
/// its class) around an event of the subtype.
pub open spec fn speaks_for(
    decision: DecisionRecord,
    asset: AssetEntry,
    subtype: Option<CryptoEventSubtype>,
    reason: Option<Seq<char>>,
    exact_asset: bool,
) -> bool {
    &&& decision.action == "gate_scale"@
    &&& reason is Some ==> decision.reason == reason->0
    &&& match asset_named(decision.asset, 0) {
        None => false,
        Some(a) => if exact_asset {
            a.binance_symbol == asset.binance_symbol
        } else {
            asset_class(a) == asset_class(asset)
        },
    }
    &&& subtype_selector(subtype_of_label(decision.event.subtype)) == subtype_selector(
        subtype,
    )
}

/// How hard the decision cut: from one for an entry left whole to two for one cut to nothing.
pub open spec fn severity(decision: DecisionRecord) -> Option<int> {
    let retention = decision.selected.executable_size_retention;
    let kept = if retention > 0 {
        fraction(Some(retention))
    } else {
        Some(unit())
    };
    plus(Some(unit()), at_least(minus(Some(unit()), kept), Some(0)))
}

/// What is gathered from the decisions so far, and the weight of the next one.
pub struct Gathered {
    pub signal: int,
    pub weight: int,
}

pub open spec fn gathered(
    decisions: Seq<DecisionRecord>,
    asset: AssetEntry,
    subtype: Option<CryptoEventSubtype>,
    reason: Option<Seq<char>>,
    exact_asset: bool,
    n: nat,
) -> Option<Gathered>
    decreases n,
{
    if n == 0 {
        Some(Gathered { signal: 0, weight: unit() })
    } else {
        match gathered(decisions, asset, subtype, reason, exact_asset, (n - 1) as nat) {
            None => None,
            Some(g) => {
                let decision = decisions[n - 1];
                let signal = if speaks_for(decision, asset, subtype, reason, exact_asset) {
                    plus(Some(g.signal), times(Some(g.weight), severity(decision)))
                } else {
                    Some(g.signal)
                };
                let weight = times(Some(g.weight), Some(recency_decay()));
                match (signal, weight) {
                    (Some(signal), Some(weight)) => Some(Gathered { signal, weight }),
                    _ => None,
                }
            },
        }
    }
}

/// How many times `trigger` can be taken from `remaining`, up to `limit` times.
pub open spec fn steps_in(remaining: int, trigger: int, limit: nat) -> Option<nat>
    decreases limit,
{
    if limit == 0 || remaining < trigger {
        Some(0)
    } else {
        match minus(Some(remaining), Some(trigger)) {
            None => None,
            Some(rest) => match steps_in(rest, trigger, (limit - 1) as nat) {
                None => None,
                Some(n) => Some(n + 1),
            },
        }
    }
}

/// `factor` multiplied with itself, `n` times.
pub open spec fn repeated(factor: int, n: nat) -> Option<int>
    decreases n,
{
    if n == 0 {
        Some(unit())
    } else {
        times(repeated(factor, (n - 1) as nat), Some(factor))
    }
}

fn decay_factor() -> (r: Decimal)
    ensures
        r@ == recency_decay(),
{
    proof {
        assert(pow10(26) == 100_000_000_000_000_000_000_000_000) by {
            reveal_with_fuel(pow10, 27);
        }
    }
    Decimal::new(85, 2)
}

fn find_named(name: &str) -> (r: Option<CryptoAsset>)
    ensures
        asset_named(name@, 0) == (match r {
            Some(a) => Some(a@),
            None => None,
        }),
{
    let assets = crypto_assets();
    let mut i: usize = 0;
    while i < assets.len()
        invariant
            i <= assets@.len(),
            assets@.map_values(|a: CryptoAsset| a@) == asset_table(),
            asset_named(name@, 0) == asset_named(name@, i as int),
        decreases assets@.len() - i,
    {
        proof {
            assert(asset_table()[i as int] == assets@[i as int]@);
        }
        if text::eq_ignore_case(assets[i].name, name) {
            return Some(assets[i]);
        }
        i = i + 1;
    }
    None
}

fn counts_for(
    decision: &CryptoCandidateDecision,
    asset: &CryptoAsset,
    subtype: Option<CryptoEventSubtype>,
    reason: Option<&str>,
    exact_asset: bool,
) -> (r: bool)
    ensures
        r == speaks_for(
            decision@,
            asset@,
            subtype,
            match reason {
                Some(t) => Some(t@),
                None => None,
            },
            exact_asset,
        ),
{
    if !text::same_text(decision.action.as_str(), "gate_scale") {
        return false;
    }
    if let Some(t) = reason {
        if !text::same_text(decision.reason.as_str(), t) {
            return false;
        }
    }
    let named = match find_named(decision.asset.as_str()) {
        Some(a) => a,
        None => return false,
    };
    let same_asset = if exact_asset {
        text::same_text(named.binance_symbol, asset.binance_symbol)
    } else {
        text::same_text(asset_class_selector(&named), asset_class_selector(asset))
    };
    if !same_asset {
        return false;
    }
    let label = match &decision.event.subtype {
        Some(l) => parse_event_subtype_label(Some(l.as_str())),
        None => parse_event_subtype_label(None),
    };
    text::same_text(event_subtype_selector(label), event_subtype_selector(subtype))
}

proof fn lemma_gathered_prefix(
    decisions: Seq<DecisionRecord>,
    asset: AssetEntry,
    subtype: Option<CryptoEventSubtype>,
    reason: Option<Seq<char>>,
    exact_asset: bool,
    k: nat,
    n: nat,
)
    requires
        k <= n,
        gathered(decisions, asset, subtype, reason, exact_asset, n) is Some,
    ensures
        gathered(decisions, asset, subtype, reason, exact_asset, k) is Some,
    decreases n,
{
    if k < n {
        lemma_gathered_prefix(
            decisions,
            asset,
            subtype,
            reason,
            exact_asset,
            k,
            (n - 1) as nat,
        );
    }
}

pub open spec fn reason_text(reason: Option<&str>) -> Option<Seq<char>> {
    match reason {
        Some(t) => Some(t@),
        None => None,
    }
}

impl CryptoAlphaStrategy {
    /// How strongly the recent decisions, newest first, speak for smaller entries.
    pub open spec fn signal(
        &self,
        recent: Seq<DecisionRecord>,
        asset: AssetEntry,
        subtype: Option<CryptoEventSubtype>,
        reason: Option<Seq<char>>,
        exact_asset: bool,
    ) -> Option<int> {
        let n = lesser(self.config.gate_scale_feedback_lookback as int, recent.len() as int);
        match gathered(recent, asset, subtype, reason, exact_asset, n as nat) {
            Some(g) => Some(greater(g.signal, 0)),
            None => None,
        }
    }

    pub fn adaptive_gate_scale_signal(
        &self,
        recent: &Vec<CryptoCandidateDecision>,
        asset: &CryptoAsset,
        event_subtype: Option<CryptoEventSubtype>,
        preferred_reason: Option<&str>,
        exact_asset: bool,
    ) -> (r: Decimal)
        requires
            self.signal(
                records(recent@),
                asset@,
                event_subtype,
                reason_text(preferred_reason),
                exact_asset,
            ) is Some,
        ensures
            self.signal(
                records(recent@),
                asset@,
                event_subtype,
                reason_text(preferred_reason),
                exact_asset,
            ) == Some(r@),
    {
        let ghost reason = reason_text(preferred_reason);
        let lookback = self.config.gate_scale_feedback_lookback;
        let n: usize = if recent.len() < lookback {
            recent.len()
        } else {
            lookback
        };
        let decay = decay_factor();
        let mut signal = Decimal::zero();
        let mut weight = Decimal::one();
        let mut i: usize = 0;
        while i < n
            invariant
                i <= n <= recent@.len(),
                reason == reason_text(preferred_reason),
                decay@ == recency_decay(),
                gathered(
                    records(recent@),
                    asset@,
                    event_subtype,
                    reason,
                    exact_asset,
                    n as nat,
                ) is Some,
                gathered(records(recent@), asset@, event_subtype, reason, exact_asset, i as nat) == Some(
                    (Gathered { signal: signal@, weight: weight@ }),
                ),
            decreases n - i,
        {
            proof {
                lemma_gathered_prefix(
                    records(recent@),
                    asset@,
                    event_subtype,
                    reason,
                    exact_asset,
                    (i + 1) as nat,
                    n as nat,
                );
            }
            let decision = &recent[i];
            if counts_for(decision, asset, event_subtype, preferred_reason, exact_asset) {
                let retention = decision.selected.executable_size_retention;
                let kept = if retention > Decimal::zero() {
                    retention.min(Decimal::one()).max(Decimal::zero())
                } else {
                    Decimal::one()
                };
                let severity = Decimal::one() + (Decimal::one() - kept).max(Decimal::zero());
                signal = signal + weight * severity;
            }
            weight = weight * decay;
            i = i + 1;
        }
        signal.max(Decimal::zero())
    }

    /// The signal that counts: the first of those for the asset and the reason, the asset, and the
    /// class and the reason that reaches the trigger, else that for the class.
    pub open spec fn found_signal(
        &self,
        recent: Seq<DecisionRecord>,
        asset: AssetEntry,
        subtype: Option<CryptoEventSubtype>,
        reason: Option<Seq<char>>,
    ) -> int {
        let trigger = whole(self.config.gate_scale_feedback_trigger_count as int);
        let asset_reason = self.signal(recent, asset, subtype, reason, true)->0;
        let asset_any = self.signal(recent, asset, subtype, None, true)->0;
        let class_reason = self.signal(recent, asset, subtype, reason, false)->0;
        if asset_reason >= trigger {
            asset_reason
        } else if asset_any >= trigger {
            asset_any
        } else if class_reason >= trigger {
            class_reason
        } else {
            self.signal(recent, asset, subtype, None, false)->0
        }
    }

    /// What the recent decisions leave of an entry: nothing is taken while they stay below the
    /// trigger, and one step for each time that they reach it.
    pub open spec fn feedback(
        &self,
        recent: Seq<DecisionRecord>,
        asset: AssetEntry,
        subtype: Option<CryptoEventSubtype>,
        reason: Option<Seq<char>>,
    ) -> Option<int> {
        let step = fraction(Some(self.config.gate_scale_feedback_step_multiplier@))->0;
        if self.config.gate_scale_feedback_trigger_count == 0
            || self.config.gate_scale_feedback_max_steps == 0 || step >= unit() {
            Some(unit())
        } else {
            let trigger = whole(self.config.gate_scale_feedback_trigger_count as int);
            match (
                self.signal(recent, asset, subtype, reason, true),
                self.signal(recent, asset, subtype, None, true),
                self.signal(recent, asset, subtype, reason, false),
                self.signal(recent, asset, subtype, None, false),
            ) {
                (Some(_), Some(_), Some(_), Some(_)) => {
                    let found = self.found_signal(recent, asset, subtype, reason);
                    if found < trigger {
                        Some(unit())
                    } else {
                        match steps_in(
                            found,
                            trigger,
                            self.config.gate_scale_feedback_max_steps as nat,
                        ) {
                            None => None,
                            Some(n) => repeated(step, n),
                        }
                    }
                },
                _ => None,
            }
        }
    }

    pub fn adaptive_gate_scale_size_multiplier(
        &self,
        recent: &Vec<CryptoCandidateDecision>,
        asset: &CryptoAsset,
        event_subtype: Option<CryptoEventSubtype>,
        preferred_reason: Option<&str>,
    ) -> (r: Decimal)
        requires
            self.feedback(records(recent@), asset@, event_subtype, reason_text(preferred_reason)) is Some,
        ensures
            self.feedback(records(recent@), asset@, event_subtype, reason_text(preferred_reason)) == Some(
                r@,
            ),
    {
        let trigger_count = self.config.gate_scale_feedback_trigger_count;
        let max_steps = self.config.gate_scale_feedback_max_steps;
        let step = self.config.gate_scale_feedback_step_multiplier.min(Decimal::one()).max(
            Decimal::zero(),
        );
        if trigger_count == 0 || max_steps == 0 || step >= Decimal::one() {
            return Decimal::one();
        }
        let trigger = Decimal::from_u32(trigger_count);
        let asset_reason = self.adaptive_gate_scale_signal(
            recent,
            asset,
            event_subtype,
            preferred_reason,
            true,
        );
        let asset_any = self.adaptive_gate_scale_signal(recent, asset, event_subtype, None, true);
        let class_reason = self.adaptive_gate_scale_signal(
            recent,
            asset,
            event_subtype,
            preferred_reason,
            false,
        );
        let class_any = self.adaptive_gate_scale_signal(recent, asset, event_subtype, None, false);
        let found = if asset_reason >= trigger {
            asset_reason
        } else if asset_any >= trigger {
            asset_any
        } else if class_reason >= trigger {
            class_reason
        } else {
            class_any
        };
        if found < trigger {
            return Decimal::one();
        }
        let ghost total = steps_in(found@, trigger@, max_steps as nat)->0;
        let mut steps: u32 = 0;
        let mut remaining = found;
        while steps < max_steps && remaining >= trigger
            invariant
                steps <= max_steps,
                steps_in(remaining@, trigger@, (max_steps - steps) as nat) is Some,
                total == steps + steps_in(remaining@, trigger@, (max_steps - steps) as nat)->0,
            decreases max_steps - steps,
        {
            remaining = remaining - trigger;
            steps = steps + 1;
        }
        let mut multiplier = Decimal::one();
        let mut i: u32 = 0;
        while i < steps
            invariant
                i <= steps,
                total == steps,
                repeated(step@, total) is Some,
                repeated(step@, i as nat) == Some(multiplier@),
            decreases steps - i,
        {
            proof {
                lemma_repeated_prefix(step@, (i + 1) as nat, total);
            }
            multiplier = multiplier * step;
            i = i + 1;
        }
        multiplier
    }
}

proof fn lemma_repeated_prefix(factor: int, k: nat, n: nat)
    requires
        k <= n,
        repeated(factor, n) is Some,
    ensures
        repeated(factor, k) is Some,
    decreases n,
{
    if k < n {
        lemma_repeated_prefix(factor, k, (n - 1) as nat);
    }
}

/// Multiplying with a factor between zero and one never enlarges.
proof fn lemma_repeated_shrinks(factor: int, n: nat)
    requires
        0 <= factor <= unit(),
    ensures
        repeated(factor, n) is Some,
        0 <= repeated(factor, n)->0 <= unit(),
        crate::rounding::representable(repeated(factor, n)->0),
        n > 0 ==> repeated(factor, n)->0 <= repeated(factor, (n - 1) as nat)->0,
    decreases n,
{
    if n == 0 {
        crate::rounding::lemma_pow10_unit();
        assert(crate::rounding::written_as(unit(), 1, 0));
    } else {
        lemma_repeated_shrinks(factor, (n - 1) as nat);
        let before = repeated(factor, (n - 1) as nat)->0;
        crate::rounding::lemma_product_shrinks(before, factor);
        reveal(product);
        crate::rounding::lemma_rounded_representable(before * factor, unit() * unit());
    }
}

/// The recent decisions never enlarge an entry, and each step leaves no more than the one before.
pub proof fn law_feedback_never_enlarges(
    strategy: CryptoAlphaStrategy,
    recent: Seq<DecisionRecord>,
    asset: AssetEntry,
    subtype: Option<CryptoEventSubtype>,
    reason: Option<Seq<char>>,
    steps: nat,
)
    requires
        strategy.feedback(recent, asset, subtype, reason) is Some,
    ensures
        0 <= strategy.feedback(recent, asset, subtype, reason)->0 <= unit(),
        ({
            let step = fraction(Some(strategy.config.gate_scale_feedback_step_multiplier@))->0;
            repeated(step, steps + 1)->0 <= repeated(step, steps)->0
        }),
{
    let step = fraction(Some(strategy.config.gate_scale_feedback_step_multiplier@))->0;
    lemma_repeated_shrinks(step, steps + 1);
    let trigger = whole(strategy.config.gate_scale_feedback_trigger_count as int);
    let limit = strategy.config.gate_scale_feedback_max_steps as nat;
    let found = strategy.found_signal(recent, asset, subtype, reason);
    if steps_in(found, trigger, limit) is Some {
        lemma_repeated_shrinks(step, steps_in(found, trigger, limit)->0);
    }
}

/// A decision counts once, and once more by the share that it cut off an entry. What it cut is not known
/// where it kept nothing.
pub proof fn law_decision_counts_by_what_it_cut(decision: DecisionRecord)
    ensures
        severity(decision) == Some(
            if 0 < decision.selected.executable_size_retention <= unit() {
                2 * unit() - decision.selected.executable_size_retention
            } else {
                unit()
            },
        ),
{
    let kept = decision.selected.executable_size_retention;
    assert(pow10(0) == 1);
    if 0 < kept <= unit() {
        lemma_sum_close(unit(), kept, 0);
        lemma_sum_close(unit(), unit() - kept, 0);
    } else {
        lemma_sum_close(unit(), unit(), 0);
        lemma_sum_close(unit(), 0, 0);
    }
}

/// Of two decisions the earlier one weighs 0.85 of the later, the newest weighs one, and one that says
/// nothing of the asset adds nothing: one more decision adds its own count times its weight, up to the
/// rounding of the last digits.
pub proof fn law_older_decisions_weigh_less(
    decisions: Seq<DecisionRecord>,
    asset: AssetEntry,
    subtype: Option<CryptoEventSubtype>,
    reason: Option<Seq<char>>,
    exact_asset: bool,
    n: nat,
)
    requires
        gathered(decisions, asset, subtype, reason, exact_asset, n + 1) is Some,
        0 <= gathered(decisions, asset, subtype, reason, exact_asset, n)->0.signal <= 50 * unit(),
    ensures
        gathered(decisions, asset, subtype, reason, exact_asset, 0) == Some(
            Gathered { signal: 0, weight: unit() },
        ),
        gathered(decisions, asset, subtype, reason, exact_asset, n) is Some,
        ({
            let before = gathered(decisions, asset, subtype, reason, exact_asset, n)->0;
            let after = gathered(decisions, asset, subtype, reason, exact_asset, n + 1)->0;
            let kept = decisions[n as int].selected.executable_size_retention;
            let count = if 0 < kept <= unit() {
                2 * unit() - kept
            } else {
                unit()
            };
            &&& 0 <= before.weight <= unit()
            &&& -10 <= 20 * after.weight - 17 * before.weight <= 10
            &&& speaks_for(decisions[n as int], asset, subtype, reason, exact_asset) ==> close(
                after.signal - before.signal,
                before.weight * count,
                unit(),
                10,
            )
            &&& !speaks_for(decisions[n as int], asset, subtype, reason, exact_asset)
                ==> after.signal == before.signal
        }),
    decreases n,
{
    let u = unit();
    let before = gathered(decisions, asset, subtype, reason, exact_asset, n)->0;
    lemma_weight(decisions, asset, subtype, reason, exact_asset, n);
    let w = before.weight;
    let r = recency_decay();
    assert(20 * r == 17 * u);
    assert(pow10(0) == 1);
    assert(0 <= w * r <= 7 * 1 * (u * u)) by (nonlinear_arith)
        requires
            0 <= w <= u,
            0 <= r <= u,
    ;
    lemma_product_close(w, r, 0);
    let next = product(w, r)->0;
    assert(-10 <= 20 * next - 17 * w <= 10) by (nonlinear_arith)
        requires
            2 * (next * u - w * r) <= 1 * u,
            2 * (w * r - next * u) <= 1 * u,
            20 * r == 17 * u,
            u > 0,
    {
        assert(20 * (w * r) == (17 * w) * u);
        assert((20 * next - 17 * w) * u <= 10 * u);
        assert((20 * next - 17 * w) * u >= (-10) * u);
    }
    law_decision_counts_by_what_it_cut(decisions[n as int]);
    let count = severity(decisions[n as int])->0;
    assert(0 <= w * count <= 7 * 1 * (u * u)) by (nonlinear_arith)
        requires
            0 <= w <= u,
            0 <= count <= 2 * u,
    ;
    lemma_product_close(w, count, 0);
    let due = product(w, count)->0;
    assert(-1 <= due <= 2 * u + 1) by (nonlinear_arith)
        requires
            2 * (due * u - w * count) <= 1 * u,
            2 * (w * count - due * u) <= 1 * u,
            0 <= w <= u,
            0 <= count <= 2 * u,
            u > 0,
    {
        assert(0 <= w * count <= (2 * u) * u);
    }
    assert(pow10(1) == 10) by {
        reveal_with_fuel(pow10, 2);
    }
    lemma_sum_close(before.signal, due, 1);
    if speaks_for(decisions[n as int], asset, subtype, reason, exact_asset) {
        let after = gathered(decisions, asset, subtype, reason, exact_asset, n + 1)->0;
        let gained = after.signal - before.signal;
        assert(close(gained, w * count, u, 10)) by (nonlinear_arith)
            requires
                -10 <= 2 * (gained - due) <= 10,
                2 * (due * u - w * count) <= 1 * u,
                2 * (w * count - due * u) <= 1 * u,
                u > 0,
        {
            assert((gained - due) * u <= 5 * u);
            assert((gained - due) * u >= (-5) * u);
        }
    }
}

proof fn lemma_weight(
    decisions: Seq<DecisionRecord>,
    asset: AssetEntry,
    subtype: Option<CryptoEventSubtype>,
    reason: Option<Seq<char>>,
    exact_asset: bool,
    n: nat,
)
    requires
        gathered(decisions, asset, subtype, reason, exact_asset, n) is Some,
    ensures
        0 <= gathered(decisions, asset, subtype, reason, exact_asset, n)->0.weight <= unit(),
    decreases n,
{
    if n > 0 {
        lemma_weight(decisions, asset, subtype, reason, exact_asset, (n - 1) as nat);
        let u = unit();
        let w = gathered(decisions, asset, subtype, reason, exact_asset, (n - 1) as nat)->0.weight;
        let r = recency_decay();
        lemma_whole_representable(0);
        lemma_whole_representable(1);
        assert(0 <= w * r <= u * u) by (nonlinear_arith)
            requires
                0 <= w <= u,
                0 <= r <= u,
        ;
        law_arithmetic_keeps_order(w, r, 0);
        law_arithmetic_keeps_order(w, r, u);
    }
}

/// As many steps are taken as the trigger fits into the signal, but no more than are allowed. It holds
/// for signals up to seven, whose digits are all kept.
pub proof fn law_steps_are_whole_triggers(found: int, trigger: int, limit: nat)
    requires
        trigger > 0,
        0 <= found <= 7 * unit(),
    ensures
        steps_in(found, trigger, limit) is Some,
        steps_in(found, trigger, limit)->0 <= limit,
        steps_in(found, trigger, limit)->0 * trigger <= found,
        steps_in(found, trigger, limit)->0 == limit || (steps_in(found, trigger, limit)->0 + 1)
            * trigger > found,
    decreases limit,
{
    if limit > 0 && found >= trigger {
        assert(pow10(0) == 1);
        lemma_sum_close(found, trigger, 0);
        let rest = found - trigger;
        law_steps_are_whole_triggers(rest, trigger, (limit - 1) as nat);
        let n = steps_in(rest, trigger, (limit - 1) as nat)->0;
        assert((n + 1) * trigger == n * trigger + trigger && (n + 2) * trigger == (n + 1) * trigger
            + trigger) by (nonlinear_arith);
    } else {
        assert(0 * trigger == 0 && (0 + 1) * trigger == trigger) by (nonlinear_arith);
    }
}

/// The recent decisions take nothing of an entry while no signal reaches the trigger, or while there is
/// none; once one does, each step leaves the configured share of what the steps before it left, to within
/// the last digit.
pub proof fn law_entry_is_cut_step_by_step(
    strategy: CryptoAlphaStrategy,
    recent: Seq<DecisionRecord>,
    asset: AssetEntry,
    subtype: Option<CryptoEventSubtype>,
    reason: Option<Seq<char>>,
    steps: nat,
)
    requires
        strategy.feedback(recent, asset, subtype, reason) is Some,
        0 <= strategy.config.gate_scale_feedback_step_multiplier@ < unit(),
    ensures
        ({
            let c = strategy.config;
            let step = c.gate_scale_feedback_step_multiplier@;
            let trigger = c.gate_scale_feedback_trigger_count * unit();
            let own_reason = strategy.signal(recent, asset, subtype, reason, true)->0;
            let own = strategy.signal(recent, asset, subtype, None, true)->0;
            let class_reason = strategy.signal(recent, asset, subtype, reason, false)->0;
            let class = strategy.signal(recent, asset, subtype, None, false)->0;
            let left = strategy.feedback(recent, asset, subtype, reason);
            let off = c.gate_scale_feedback_trigger_count == 0 || c.gate_scale_feedback_max_steps
                == 0;
            let limit = c.gate_scale_feedback_max_steps as nat;
            &&& off ==> left == Some(unit())
            &&& own_reason < trigger && own < trigger && class_reason < trigger && class < trigger
                ==> left == Some(unit())
            &&& !off && own_reason >= trigger ==> left == repeated(
                step,
                steps_in(own_reason, trigger, limit)->0,
            )
            &&& !off && own_reason < trigger && own >= trigger ==> left == repeated(
                step,
                steps_in(own, trigger, limit)->0,
            )
            &&& !off && own_reason < trigger && own < trigger && class_reason >= trigger ==> left
                == repeated(step, steps_in(class_reason, trigger, limit)->0)
            &&& !off && own_reason < trigger && own < trigger && class_reason < trigger && class
                >= trigger ==> left == repeated(step, steps_in(class, trigger, limit)->0)
            &&& repeated(step, 0) == Some(unit())
            &&& repeated(step, steps) is Some && repeated(step, steps + 1) is Some
            &&& close(repeated(step, steps + 1)->0, repeated(step, steps)->0 * step, unit(), 1)
        }),
{
    let u = unit();
    let step = strategy.config.gate_scale_feedback_step_multiplier@;
    lemma_repeated_shrinks(step, steps);
    lemma_repeated_shrinks(step, steps + 1);
    let before = repeated(step, steps)->0;
    assert(pow10(0) == 1);
    assert(0 <= before * step <= 7 * 1 * (u * u)) by (nonlinear_arith)
        requires
            0 <= before <= u,
            0 <= step <= u,
    ;
    lemma_product_close(before, step, 0);
}

} // verus!
