//! Leaving a position step by step as its edge decays.
use crate::crypto_alpha::assets::CryptoAsset;
use crate::crypto_alpha::config::{CryptoAlphaConfig, Horizon, OverrideField};
use crate::crypto_alpha::labels::{CryptoEventSubtype, CryptoMarketType};
use crate::crypto_alpha::strategy::CryptoAlphaStrategy;
use crate::decimal::Decimal;
use crate::keyed::Keyed;
use crate::profitability::bps_as_fraction;
use crate::types::U256;
use vstd::prelude::*;

verus! {

use crate::arbitrage::{is_share, lemma_share};
use crate::crypto_alpha::assets::AssetEntry;
use crate::crypto_alpha::calibration::{entry_of, fraction, guarded, scaled};
use crate::crypto_alpha::thresholds::{
    by_horizon, is_held, is_mild, lemma_div_multiples, lemma_held, lemma_mild_product, set_for,
};
use crate::keyed::kept;
use crate::profitability::{bps_fraction, law_basis_points_are_ten_thousandths};
use crate::rounding::{
    at_least, ceil_count_of, ceil_of, close, count_of, count_or, greater, law_arithmetic_is_exact,
    law_arithmetic_keeps_order, law_digits_are_dropped_to_the_nearest, lemma_close_times,
    lemma_pow10_below_unit, lemma_pow10_unit, lemma_product_close, lemma_product_monotone,
    lemma_product_swap, lemma_rounded_monotone, lemma_rounded_representable, lemma_steps_monotone,
    lemma_sum_close, lemma_whole_representable, lesser, representable, plus, pow10, product, round_dp_of, times, unit, whole,
};

/// Nanoseconds in a second.
pub const NANOS: u128 = 1_000_000_000;

/// How many entries the records of a strategy may hold before the old ones are dropped.
pub const RECORD_LIMIT: usize = 512;

/// How often the decay of a position's edge was seen, and when last.
#[derive(Clone, Copy, Debug)]
pub struct EdgeDecayConfirmationState {
    pub count: u32,
    /// In nanoseconds on a clock that never runs backwards.
    pub last_seen: u128,
}

/// What the strategy remembers of the positions that it is leaving.
pub struct EdgeDecayRecords {
    /// Until when a token is left alone.
    pub cooldowns: Keyed<U256, u128>,
    pub confirmations: Keyed<U256, EdgeDecayConfirmationState>,
}

/// What the records say.
#[verifier::ext_equal]
pub struct DecayState {
    pub cooldowns: Map<U256, u128>,
    pub confirmations: Map<U256, EdgeDecayConfirmationState>,
}

impl View for EdgeDecayRecords {
    type V = DecayState;

    open spec fn view(&self) -> DecayState {
        DecayState { cooldowns: self.cooldowns@, confirmations: self.confirmations@ }
    }
}

/// Time from one moment to another, none of it where the first is later.
pub open spec fn elapsed(from: u128, now: u128) -> int {
    greater(now - from, 0)
}

fn time_since(from: u128, now: u128) -> (r: u128)
    ensures
        r == elapsed(from, now),
{
    if now < from {
        0
    } else {
        now - from
    }
}

/// The multiplier for how far the edge has fallen short.
pub open spec fn by_severity(
    config: CryptoAlphaConfig,
    shortfall: int,
    moderate: Decimal,
    severe: Decimal,
) -> int {
    if shortfall >= bps_fraction(config.edge_decay_severe_gap_bps as int)->0 {
        severe@
    } else if shortfall >= bps_fraction(config.edge_decay_moderate_gap_bps as int)->0 {
        moderate@
    } else {
        unit()
    }
}

/// A number of seconds from a product: rounded to a whole number, the default where there is none,
/// and at least one.
pub open spec fn seconds_from(v: Option<int>, default: int) -> Option<int> {
    match v {
        Some(x) => Some(
            greater(count_or(count_of(round_dp_of(x, 0), u64::MAX as int), default), 1),
        ),
        None => None,
    }
}

/// The largest window multiplier of the first `n` rows of the table.
pub open spec fn largest_window_override(config: CryptoAlphaConfig, n: nat) -> Option<Option<int>>
    decreases n,
{
    if n == 0 {
        Some(None)
    } else {
        match (
            largest_window_override(config, (n - 1) as nat),
            config.calibration_overrides@[n - 1].edge_decay_confirmation_window_multiplier,
        ) {
            (None, _) => None,
            (Some(before), None) => Some(before),
            (Some(before), Some(v)) => match (before, at_least(guarded(config, v@), Some(0))) {
                (_, None) => None,
                (None, Some(m)) => Some(Some(m)),
                (Some(b), Some(m)) => Some(Some(greater(b, m))),
            },
        }
    }
}

/// Whether the token is left alone at `now`.
pub open spec fn cooling(decay: DecayState, token_id: U256, now: u128) -> bool {
    decay.cooldowns.contains_key(token_id) && decay.cooldowns[token_id] > now
}

/// The records once a token is left alone until a moment. Where there are too many, those that have
/// passed are dropped.
pub open spec fn cooled_until(decay: DecayState, token_id: U256, now: u128, until: u128) -> DecayState {
    let all = decay.cooldowns.insert(token_id, until);
    DecayState {
        cooldowns: if all.dom().len() > RECORD_LIMIT {
            kept(all, |u: u128| u > now)
        } else {
            all
        },
        ..decay
    }
}

/// The confirmation after one more sight of the decay at `now`.
pub open spec fn confirmed_again(
    before: Map<U256, EdgeDecayConfirmationState>,
    token_id: U256,
    now: u128,
    window: int,
) -> EdgeDecayConfirmationState {
    let seen = if before.contains_key(token_id) {
        before[token_id]
    } else {
        EdgeDecayConfirmationState { count: 0, last_seen: now }
    };
    EdgeDecayConfirmationState {
        count: if elapsed(seen.last_seen, now) <= window * NANOS {
            lesser(seen.count + 1, u32::MAX as int) as u32
        } else {
            1
        },
        last_seen: now,
    }
}

/// A first sight of the decay counts one, and so does one after the window has passed.
pub proof fn law_first_sight_counts_one(
    before: Map<U256, EdgeDecayConfirmationState>,
    token_id: U256,
    now: u128,
    window: int,
)
    requires
        window >= 0,
        before.contains_key(token_id) ==> elapsed(before[token_id].last_seen, now) > window * NANOS,
    ensures
        confirmed_again(before, token_id, now, window).count == 1,
        confirmed_again(before, token_id, now, window).last_seen == now,
{
}

/// A sight within the window adds one to those before it, up to the largest count.
pub proof fn law_sights_within_window_add_up(
    before: Map<U256, EdgeDecayConfirmationState>,
    token_id: U256,
    now: u128,
    window: int,
)
    requires
        before.contains_key(token_id),
        elapsed(before[token_id].last_seen, now) <= window * NANOS,
    ensures
        confirmed_again(before, token_id, now, window).count == lesser(
            before[token_id].count + 1,
            u32::MAX as int,
        ),
{
}

impl EdgeDecayRecords {
    pub fn new() -> (r: EdgeDecayRecords)
        ensures
            r@ == (DecayState { cooldowns: Map::empty(), confirmations: Map::empty() }),
    {
        EdgeDecayRecords { cooldowns: Keyed::new(), confirmations: Keyed::new() }
    }

    pub fn edge_decay_cooldown_active(&self, token_id: U256, now: u128) -> (r: bool)
        ensures
            r == cooling(self@, token_id, now),
    {
        match self.cooldowns.get(token_id) {
            Some(until) => until > now,
            None => false,
        }
    }

    pub fn reset_edge_decay_confirmation(&mut self, token_id: U256)
        ensures
            final(self)@ == (DecayState {
                confirmations: old(self)@.confirmations.remove(token_id),
                ..old(self)@
            }),
    {
        self.confirmations.remove(token_id);
    }
}

impl CryptoAlphaStrategy {
    pub open spec fn exit_fraction(
        &self,
        days: u32,
        asset: Option<AssetEntry>,
        market_type: CryptoMarketType,
        subtype: Option<CryptoEventSubtype>,
    ) -> Option<int> {
        fraction(
            times(
                Some(self.config.edge_decay_exit_fraction@),
                scaled(
                    Some(
                        by_horizon(
                            self.config,
                            days,
                            self.config.short_horizon_edge_decay_exit_multiplier,
                            self.config.medium_horizon_edge_decay_exit_multiplier,
                        ),
                    ),
                    self.multiplier(asset, days, market_type, subtype, OverrideField::EdgeDecayExit),
                ),
            ),
        )
    }

    /// The share of a position to leave at one step.
    pub fn effective_edge_decay_exit_fraction_for_context(
        &self,
        days_to_resolution: u32,
        asset: Option<&CryptoAsset>,
        market_type: CryptoMarketType,
        event_subtype: Option<CryptoEventSubtype>,
    ) -> (r: Decimal)
        requires
            self.exit_fraction(
                days_to_resolution,
                entry_of(asset),
                market_type,
                event_subtype,
            ) is Some,
        ensures
            self.exit_fraction(
                days_to_resolution,
                entry_of(asset),
                market_type,
                event_subtype,
            ) == Some(r@),
            0 <= r@ <= unit(),
    {
        let mut multiplier = self.pick_by_horizon(
            days_to_resolution,
            self.config.short_horizon_edge_decay_exit_multiplier,
            self.config.medium_horizon_edge_decay_exit_multiplier,
        );
        if let Some(m) = self.override_multiplier(
            asset,
            days_to_resolution,
            market_type,
            event_subtype,
            OverrideField::EdgeDecayExit,
        ) {
            multiplier = multiplier * m;
        }
        (self.config.edge_decay_exit_fraction * multiplier).min(Decimal::one()).max(
            Decimal::zero(),
        )
    }

    pub fn edge_decay_severity_multiplier(
        &self,
        edge_shortfall: Decimal,
        moderate_multiplier: Decimal,
        severe_multiplier: Decimal,
    ) -> (r: Decimal)
        ensures
            r@ == by_severity(
                self.config,
                edge_shortfall@,
                moderate_multiplier,
                severe_multiplier,
            ),
    {
        if edge_shortfall >= bps_as_fraction(self.config.edge_decay_severe_gap_bps) {
            severe_multiplier
        } else if edge_shortfall >= bps_as_fraction(self.config.edge_decay_moderate_gap_bps) {
            moderate_multiplier
        } else {
            Decimal::one()
        }
    }

    pub open spec fn scans_needed(
        &self,
        days: u32,
        shortfall: int,
        asset: Option<AssetEntry>,
        market_type: CryptoMarketType,
        subtype: Option<CryptoEventSubtype>,
    ) -> Option<int> {
        let base = match self.config.spec_horizon(days) {
            Horizon::Short => self.config.short_horizon_edge_decay_confirmation_scans,
            Horizon::Medium => self.config.medium_horizon_edge_decay_confirmation_scans,
            Horizon::Long => self.config.edge_decay_confirmation_scans,
        } as int;
        match times(
            Some(whole(base)),
            scaled(
                Some(
                    by_severity(
                        self.config,
                        shortfall,
                        self.config.edge_decay_moderate_confirmation_scan_multiplier,
                        self.config.edge_decay_severe_confirmation_scan_multiplier,
                    ),
                ),
                self.multiplier(
                    asset,
                    days,
                    market_type,
                    subtype,
                    OverrideField::EdgeDecayConfirmationScan,
                ),
            ),
        ) {
            Some(v) => Some(greater(count_or(ceil_count_of(v, u32::MAX as int), base), 1)),
            None => None,
        }
    }

    /// How many scans must see the decay before a position is left.
    pub fn effective_edge_decay_confirmation_scans_for_context(
        &self,
        days_to_resolution: u32,
        edge_shortfall: Decimal,
        asset: Option<&CryptoAsset>,
        market_type: CryptoMarketType,
        event_subtype: Option<CryptoEventSubtype>,
    ) -> (r: u32)
        requires
            self.scans_needed(
                days_to_resolution,
                edge_shortfall@,
                entry_of(asset),
                market_type,
                event_subtype,
            ) is Some,
        ensures
            self.scans_needed(
                days_to_resolution,
                edge_shortfall@,
                entry_of(asset),
                market_type,
                event_subtype,
            ) == Some(r as int),
            r >= 1,
    {
        let base: u32 = match self.config.horizon(days_to_resolution) {
            Horizon::Short => self.config.short_horizon_edge_decay_confirmation_scans,
            Horizon::Medium => self.config.medium_horizon_edge_decay_confirmation_scans,
            Horizon::Long => self.config.edge_decay_confirmation_scans,
        };
        let mut severity_multiplier = self.edge_decay_severity_multiplier(
            edge_shortfall,
            self.config.edge_decay_moderate_confirmation_scan_multiplier,
            self.config.edge_decay_severe_confirmation_scan_multiplier,
        );
        if let Some(m) = self.override_multiplier(
            asset,
            days_to_resolution,
            market_type,
            event_subtype,
            OverrideField::EdgeDecayConfirmationScan,
        ) {
            severity_multiplier = severity_multiplier * m;
        }
        let scans: u32 = match (Decimal::from_u32(base) * severity_multiplier).ceil_to_u32() {
            Some(n) => n,
            None => base,
        };
        if scans < 1 {
            1
        } else {
            scans
        }
    }

    pub open spec fn window_secs(
        &self,
        days: u32,
        shortfall: int,
        asset: Option<AssetEntry>,
        market_type: CryptoMarketType,
        subtype: Option<CryptoEventSubtype>,
    ) -> Option<int> {
        let base = self.config.edge_decay_confirmation_window_secs as int;
        seconds_from(
            times(
                times(
                    Some(whole(base)),
                    Some(
                        by_horizon(
                            self.config,
                            days,
                            self.config.short_horizon_edge_decay_confirmation_window_multiplier,
                            self.config.medium_horizon_edge_decay_confirmation_window_multiplier,
                        ),
                    ),
                ),
                scaled(
                    Some(
                        by_severity(
                            self.config,
                            shortfall,
                            self.config.edge_decay_moderate_confirmation_window_multiplier,
                            self.config.edge_decay_severe_confirmation_window_multiplier,
                        ),
                    ),
                    self.multiplier(
                        asset,
                        days,
                        market_type,
                        subtype,
                        OverrideField::EdgeDecayConfirmationWindow,
                    ),
                ),
            ),
            base,
        )
    }

    pub open spec fn cooldown_secs(
        &self,
        days: u32,
        shortfall: int,
        asset: Option<AssetEntry>,
        market_type: CryptoMarketType,
        subtype: Option<CryptoEventSubtype>,
    ) -> Option<int> {
        let base = self.config.edge_decay_cooldown_secs as int;
        seconds_from(
            times(
                times(
                    Some(whole(base)),
                    Some(
                        by_horizon(
                            self.config,
                            days,
                            self.config.short_horizon_edge_decay_cooldown_multiplier,
                            self.config.medium_horizon_edge_decay_cooldown_multiplier,
                        ),
                    ),
                ),
                scaled(
                    Some(
                        by_severity(
                            self.config,
                            shortfall,
                            self.config.edge_decay_moderate_cooldown_multiplier,
                            self.config.edge_decay_severe_cooldown_multiplier,
                        ),
                    ),
                    self.multiplier(
                        asset,
                        days,
                        market_type,
                        subtype,
                        OverrideField::EdgeDecayCooldown,
                    ),
                ),
            ),
            base,
        )
    }

    fn seconds(&self, v: Decimal, default: u64) -> (r: u64)
        ensures
            seconds_from(Some(v@), default as int) == Some(r as int),
            r >= 1,
    {
        let secs: u64 = match v.round_dp(0).to_u64() {
            Some(n) => n,
            None => default,
        };
        if secs < 1 {
            1
        } else {
            secs
        }
    }

    /// For how long sights of the decay count together.
    pub fn effective_edge_decay_confirmation_window_secs_for_context(
        &self,
        days_to_resolution: u32,
        edge_shortfall: Decimal,
        asset: Option<&CryptoAsset>,
        market_type: CryptoMarketType,
        event_subtype: Option<CryptoEventSubtype>,
    ) -> (r: u64)
        requires
            self.window_secs(
                days_to_resolution,
                edge_shortfall@,
                entry_of(asset),
                market_type,
                event_subtype,
            ) is Some,
        ensures
            self.window_secs(
                days_to_resolution,
                edge_shortfall@,
                entry_of(asset),
                market_type,
                event_subtype,
            ) == Some(r as int),
    {
        let horizon_multiplier = self.pick_by_horizon(
            days_to_resolution,
            self.config.short_horizon_edge_decay_confirmation_window_multiplier,
            self.config.medium_horizon_edge_decay_confirmation_window_multiplier,
        );
        let mut severity_multiplier = self.edge_decay_severity_multiplier(
            edge_shortfall,
            self.config.edge_decay_moderate_confirmation_window_multiplier,
            self.config.edge_decay_severe_confirmation_window_multiplier,
        );
        if let Some(m) = self.override_multiplier(
            asset,
            days_to_resolution,
            market_type,
            event_subtype,
            OverrideField::EdgeDecayConfirmationWindow,
        ) {
            severity_multiplier = severity_multiplier * m;
        }
        let base = self.config.edge_decay_confirmation_window_secs;
        self.seconds(Decimal::from_u64(base) * horizon_multiplier * severity_multiplier, base)
    }

    /// For how long a position is left alone after a step.
    pub fn effective_edge_decay_cooldown_secs_for_context(
        &self,
        days_to_resolution: u32,
        edge_shortfall: Decimal,
        asset: Option<&CryptoAsset>,
        market_type: CryptoMarketType,
        event_subtype: Option<CryptoEventSubtype>,
    ) -> (r: u64)
        requires
            self.cooldown_secs(
                days_to_resolution,
                edge_shortfall@,
                entry_of(asset),
                market_type,
                event_subtype,
            ) is Some,
        ensures
            self.cooldown_secs(
                days_to_resolution,
                edge_shortfall@,
                entry_of(asset),
                market_type,
                event_subtype,
            ) == Some(r as int),
    {
        let horizon_multiplier = self.pick_by_horizon(
            days_to_resolution,
            self.config.short_horizon_edge_decay_cooldown_multiplier,
            self.config.medium_horizon_edge_decay_cooldown_multiplier,
        );
        let mut severity_multiplier = self.edge_decay_severity_multiplier(
            edge_shortfall,
            self.config.edge_decay_moderate_cooldown_multiplier,
            self.config.edge_decay_severe_cooldown_multiplier,
        );
        if let Some(m) = self.override_multiplier(
            asset,
            days_to_resolution,
            market_type,
            event_subtype,
            OverrideField::EdgeDecayCooldown,
        ) {
            severity_multiplier = severity_multiplier * m;
        }
        let base = self.config.edge_decay_cooldown_secs;
        self.seconds(Decimal::from_u64(base) * horizon_multiplier * severity_multiplier, base)
    }

    pub fn max_calibration_override_edge_decay_confirmation_window_multiplier(&self) -> (r: Decimal)
        requires
            largest_window_override(
                self.config,
                self.config.calibration_overrides@.len(),
            ) is Some,
        ensures
            r@ == (match largest_window_override(
                self.config,
                self.config.calibration_overrides@.len(),
            )->0 {
                Some(m) => m,
                None => unit(),
            }),
    {
        let rows = &self.config.calibration_overrides;
        let mut largest: Option<Decimal> = None;
        let mut i: usize = 0;
        while i < rows.len()
            invariant
                i <= rows@.len(),
                rows@ == self.config.calibration_overrides@,
                largest_window_override(self.config, rows@.len()) is Some,
                largest_window_override(self.config, i as nat) == Some(
                    crate::types::figure(largest),
                ),
            decreases rows@.len() - i,
        {
            proof {
                lemma_largest_prefix(self.config, (i + 1) as nat, rows@.len());
            }
            if let Some(v) = rows[i].edge_decay_confirmation_window_multiplier {
                let m = self.guard_multiplier_override(v).max(Decimal::zero());
                largest = match largest {
                    Some(l) => Some(l.max(m)),
                    None => Some(m),
                };
            }
            i = i + 1;
        }
        match largest {
            Some(m) => m,
            None => Decimal::one(),
        }
    }

    pub open spec fn longest_window(&self) -> Option<int> {
        let base = self.config.edge_decay_confirmation_window_secs as int;
        let horizon = greater(
            greater(
                unit(),
                self.config.medium_horizon_edge_decay_confirmation_window_multiplier@,
            ),
            self.config.short_horizon_edge_decay_confirmation_window_multiplier@,
        );
        let severity = greater(
            greater(unit(), self.config.edge_decay_moderate_confirmation_window_multiplier@),
            self.config.edge_decay_severe_confirmation_window_multiplier@,
        );
        match largest_window_override(self.config, self.config.calibration_overrides@.len()) {
            None => None,
            Some(given) => seconds_from(
                times(
                    times(times(Some(whole(base)), Some(horizon)), Some(severity)),
                    Some(
                        match given {
                            Some(m) => m,
                            None => unit(),
                        },
                    ),
                ),
                base,
            ),
        }
    }

    /// The longest window that the settings allow.
    pub fn max_edge_decay_confirmation_window_secs(&self) -> (r: u64)
        requires
            self.longest_window() is Some,
        ensures
            self.longest_window() == Some(r as int),
    {
        let max_horizon_multiplier = Decimal::one().max(
            self.config.medium_horizon_edge_decay_confirmation_window_multiplier,
        ).max(self.config.short_horizon_edge_decay_confirmation_window_multiplier);
        let max_severity_multiplier = Decimal::one().max(
            self.config.edge_decay_moderate_confirmation_window_multiplier,
        ).max(self.config.edge_decay_severe_confirmation_window_multiplier);
        let max_override_multiplier =
            self.max_calibration_override_edge_decay_confirmation_window_multiplier();
        let base = self.config.edge_decay_confirmation_window_secs;
        self.seconds(
            Decimal::from_u64(base) * max_horizon_multiplier * max_severity_multiplier
                * max_override_multiplier,
            base,
        )
    }

    /// How much of a position to leave after so many confirmations: a share that grows with each
    /// one beyond those that were needed, and the whole position where the share would be too small
    /// an order.
    pub open spec fn exit_size(
        &self,
        position: int,
        best_bid: int,
        asset: Option<AssetEntry>,
        market_type: CryptoMarketType,
        days: u32,
        subtype: Option<CryptoEventSubtype>,
        confirmations: u32,
        shortfall: int,
    ) -> Option<int> {
        match self.scans_needed(days, shortfall, asset, market_type, subtype) {
            None => None,
            Some(needed) => {
                let extra = greater(confirmations - needed, 0);
                let share = fraction(
                    times(
                        plus(
                            self.exit_fraction(days, asset, market_type, subtype),
                            times(
                                Some(self.config.edge_decay_exit_fraction_step@),
                                Some(whole(extra)),
                            ),
                        ),
                        Some(
                            by_severity(
                                self.config,
                                shortfall,
                                self.config.edge_decay_moderate_exit_multiplier,
                                self.config.edge_decay_severe_exit_multiplier,
                            ),
                        ),
                    ),
                );
                match times(Some(position), share) {
                    None => None,
                    Some(p) => {
                        let partial = round_dp_of(p, 2);
                        if partial <= 0 {
                            Some(position)
                        } else if best_bid > 0 {
                            match times(Some(partial), Some(best_bid)) {
                                None => None,
                                Some(value) => if value < unit() {
                                    Some(position)
                                } else {
                                    Some(lesser(partial, position))
                                },
                            }
                        } else {
                            Some(lesser(partial, position))
                        }
                    },
                }
            },
        }
    }

    pub fn planned_edge_decay_exit_size(
        &self,
        position_size: Decimal,
        best_bid: Decimal,
        asset: Option<&CryptoAsset>,
        market_type: CryptoMarketType,
        days_to_resolution: u32,
        event_subtype: Option<CryptoEventSubtype>,
        confirmations: u32,
        edge_shortfall: Decimal,
    ) -> (r: Decimal)
        requires
            self.exit_size(
                position_size@,
                best_bid@,
                entry_of(asset),
                market_type,
                days_to_resolution,
                event_subtype,
                confirmations,
                edge_shortfall@,
            ) is Some,
        ensures
            self.exit_size(
                position_size@,
                best_bid@,
                entry_of(asset),
                market_type,
                days_to_resolution,
                event_subtype,
                confirmations,
                edge_shortfall@,
            ) == Some(r@),
            r@ <= position_size@,
    {
        let required = self.effective_edge_decay_confirmation_scans_for_context(
            days_to_resolution,
            edge_shortfall,
            asset,
            market_type,
            event_subtype,
        );
        let extra: u32 = if confirmations < required {
            0
        } else {
            confirmations - required
        };
        let severity_multiplier = self.edge_decay_severity_multiplier(
            edge_shortfall,
            self.config.edge_decay_moderate_exit_multiplier,
            self.config.edge_decay_severe_exit_multiplier,
        );
        let share = ((self.effective_edge_decay_exit_fraction_for_context(
            days_to_resolution,
            asset,
            market_type,
            event_subtype,
        ) + (self.config.edge_decay_exit_fraction_step * Decimal::from_u32(extra)))
            * severity_multiplier).min(Decimal::one()).max(Decimal::zero());
        let partial = (position_size * share).round_dp(2);
        if partial <= Decimal::zero() || (best_bid > Decimal::zero() && partial * best_bid
            < Decimal::one()) {
            position_size
        } else {
            partial.min(position_size)
        }
    }

    /// Leaves the token alone for as long as its context asks.
    pub fn set_edge_decay_cooldown(
        &self,
        records: &mut EdgeDecayRecords,
        now: u128,
        token_id: U256,
        days_to_resolution: u32,
        edge_shortfall: Decimal,
        asset: Option<&CryptoAsset>,
        market_type: CryptoMarketType,
        event_subtype: Option<CryptoEventSubtype>,
    )
        requires
            self.cooldown_secs(
                days_to_resolution,
                edge_shortfall@,
                entry_of(asset),
                market_type,
                event_subtype,
            ) is Some,
            now + self.cooldown_secs(
                days_to_resolution,
                edge_shortfall@,
                entry_of(asset),
                market_type,
                event_subtype,
            )->0 * NANOS <= u128::MAX,
        ensures
            final(records)@ == cooled_until(
                old(records)@,
                token_id,
                now,
                (now + self.cooldown_secs(
                    days_to_resolution,
                    edge_shortfall@,
                    entry_of(asset),
                    market_type,
                    event_subtype,
                )->0 * NANOS) as u128,
            ),
            cooling(final(records)@, token_id, now),
    {
        let secs = self.effective_edge_decay_cooldown_secs_for_context(
            days_to_resolution,
            edge_shortfall,
            asset,
            market_type,
            event_subtype,
        );
        let until: u128 = now + (secs as u128) * NANOS;
        records.cooldowns.insert(token_id, until);
        if records.cooldowns.len() > RECORD_LIMIT {
            let later = |u: u128| -> (b: bool)
                ensures
                    b == (u > now),
                { u > now };
            records.cooldowns.retain(later, Ghost(|u: u128| u > now));
        }
    }

    /// The records after one more sight of the decay. Where there are too many, those older than the
    /// longest window are dropped.
    pub open spec fn seen_again(
        &self,
        decay: DecayState,
        token_id: U256,
        now: u128,
        window: int,
    ) -> Option<DecayState> {
        let state = confirmed_again(decay.confirmations, token_id, now, window);
        let all = decay.confirmations.insert(token_id, state);
        if all.dom().len() > RECORD_LIMIT {
            match self.longest_window() {
                Some(longest) => Some(
                    DecayState {
                        confirmations: kept(
                            all,
                            |s: EdgeDecayConfirmationState|
                                elapsed(s.last_seen, now) <= longest * NANOS,
                        ),
                        ..decay
                    },
                ),
                None => None,
            }
        } else {
            Some(DecayState { confirmations: all, ..decay })
        }
    }

    /// Counts one more sight of the decay: sights within the window add up, and one after it starts
    /// anew.
    pub fn note_edge_decay_confirmation(
        &self,
        records: &mut EdgeDecayRecords,
        now: u128,
        token_id: U256,
        days_to_resolution: u32,
        edge_shortfall: Decimal,
        asset: Option<&CryptoAsset>,
        market_type: CryptoMarketType,
        event_subtype: Option<CryptoEventSubtype>,
    ) -> (r: u32)
        requires
            self.window_secs(
                days_to_resolution,
                edge_shortfall@,
                entry_of(asset),
                market_type,
                event_subtype,
            ) is Some,
            self.seen_again(
                old(records)@,
                token_id,
                now,
                self.window_secs(
                    days_to_resolution,
                    edge_shortfall@,
                    entry_of(asset),
                    market_type,
                    event_subtype,
                )->0,
            ) is Some,
        ensures
            ({
                let window = self.window_secs(
                    days_to_resolution,
                    edge_shortfall@,
                    entry_of(asset),
                    market_type,
                    event_subtype,
                )->0;
                &&& self.seen_again(old(records)@, token_id, now, window) == Some(final(records)@)
                &&& r == confirmed_again(old(records)@.confirmations, token_id, now, window).count
            }),
    {
        let window = self.effective_edge_decay_confirmation_window_secs_for_context(
            days_to_resolution,
            edge_shortfall,
            asset,
            market_type,
            event_subtype,
        );
        let seen = match records.confirmations.get(token_id) {
            Some(s) => s,
            None => EdgeDecayConfirmationState { count: 0, last_seen: now },
        };
        let count: u32 = if time_since(seen.last_seen, now) <= (window as u128) * NANOS {
            if seen.count == u32::MAX {
                u32::MAX
            } else {
                seen.count + 1
            }
        } else {
            1
        };
        records.confirmations.insert(
            token_id,
            EdgeDecayConfirmationState { count, last_seen: now },
        );
        if records.confirmations.len() > RECORD_LIMIT {
            let longest = self.max_edge_decay_confirmation_window_secs();
            let limit: u128 = (longest as u128) * NANOS;
            let recent = |s: EdgeDecayConfirmationState| -> (b: bool)
                ensures
                    b == (elapsed(s.last_seen, now) <= limit),
                { time_since(s.last_seen, now) <= limit };
            records.confirmations.retain(
                recent,
                Ghost(
                    |s: EdgeDecayConfirmationState| elapsed(s.last_seen, now) <= longest * NANOS,
                ),
            );
        }
        count
    }
}

proof fn lemma_largest_prefix(config: CryptoAlphaConfig, k: nat, n: nat)
    requires
        k <= n,
        largest_window_override(config, n) is Some,
    ensures
        largest_window_override(config, k) is Some,
    decreases n,
{
    if k < n {
        lemma_largest_prefix(config, k, (n - 1) as nat);
    }
}

/// What is set for how far the edge has fallen short, in basis points of one.
pub open spec fn set_for_gap(config: CryptoAlphaConfig, shortfall: int, moderate: int, severe: int) -> int {
    if shortfall * 10000 >= config.edge_decay_severe_gap_bps * unit() {
        severe
    } else if shortfall * 10000 >= config.edge_decay_moderate_gap_bps * unit() {
        moderate
    } else {
        unit()
    }
}

/// The table's multiplier, or one where it gives none.
pub open spec fn given_or_one(given: Option<Option<int>>) -> int {
    match given {
        Some(Some(m)) => m,
        _ => unit(),
    }
}

/// The whole number of seconds nearest to `base` times two multipliers, at least one of them, up to the
/// rounding of the last digits.
pub open spec fn is_seconds(r: int, base: int, a: int, b: int, k: nat) -> bool {
    let n = (base * a) * b;
    let d = unit() * unit();
    &&& r >= 1
    &&& 2 * (n - r * d) <= d + 2 * pow10(k + 3) * unit()
    &&& r == 1 || 2 * (r * d - n) <= d + 2 * pow10(k + 3) * unit()
}

proof fn lemma_gap(config: CryptoAlphaConfig, shortfall: int, moderate: Decimal, severe: Decimal)
    ensures
        by_severity(config, shortfall, moderate, severe) == set_for_gap(
            config,
            shortfall,
            moderate@,
            severe@,
        ),
{
    law_basis_points_are_ten_thousandths(config.edge_decay_severe_gap_bps);
    law_basis_points_are_ten_thousandths(config.edge_decay_moderate_gap_bps);
}

proof fn lemma_scaled_mild(v: int, given: Option<Option<int>>)
    requires
        is_mild(v),
        given is Some,
        is_mild(given_or_one(given)),
    ensures
        scaled(Some(v), given) is Some,
        0 <= scaled(Some(v), given)->0 <= 49 * unit(),
        close(scaled(Some(v), given)->0, v * given_or_one(given), unit(), 10),
{
    match given->0 {
        Some(m) => {
            lemma_mild_product(v, m);
        },
        None => {},
    }
}

/// A decaying position is left by the configured share, times what is set for its horizon and what the
/// table gives, held between zero and one.
pub proof fn law_exit_share_follows_the_horizon(
    strategy: CryptoAlphaStrategy,
    days: u32,
    asset: Option<AssetEntry>,
    market_type: CryptoMarketType,
    subtype: Option<CryptoEventSubtype>,
)
    requires
        0 <= strategy.config.edge_decay_exit_fraction@ <= unit(),
        is_mild(strategy.config.short_horizon_edge_decay_exit_multiplier@),
        is_mild(strategy.config.medium_horizon_edge_decay_exit_multiplier@),
        strategy.multiplier(asset, days, market_type, subtype, OverrideField::EdgeDecayExit) is Some,
        is_mild(
            given_or_one(
                strategy.multiplier(asset, days, market_type, subtype, OverrideField::EdgeDecayExit),
            ),
        ),
    ensures
        strategy.exit_fraction(days, asset, market_type, subtype) is Some,
        is_held(
            strategy.exit_fraction(days, asset, market_type, subtype)->0,
            (set_for(
                strategy.config,
                days,
                strategy.config.short_horizon_edge_decay_exit_multiplier@,
                strategy.config.medium_horizon_edge_decay_exit_multiplier@,
                unit(),
            ) * given_or_one(
                strategy.multiplier(asset, days, market_type, subtype, OverrideField::EdgeDecayExit),
            )) * strategy.config.edge_decay_exit_fraction@,
            unit() * unit(),
            20,
        ),
{
    let u = unit();
    let f = strategy.config.edge_decay_exit_fraction@;
    let h = by_horizon(
        strategy.config,
        days,
        strategy.config.short_horizon_edge_decay_exit_multiplier,
        strategy.config.medium_horizon_edge_decay_exit_multiplier,
    );
    let given = strategy.multiplier(asset, days, market_type, subtype, OverrideField::EdgeDecayExit);
    lemma_scaled_mild(h, given);
    let y = scaled(Some(h), given)->0;
    assert(pow10(1) == 10) by {
        reveal_with_fuel(pow10, 2);
    }
    assert(0 <= y * f <= 7 * 10 * (u * u)) by (nonlinear_arith)
        requires
            0 <= y <= 49 * u,
            0 <= f <= u,
            u > 0,
    ;
    lemma_close_times(y, h * given_or_one(given), u, 10, f, 1, 1);
    lemma_product_swap(y, f);
    assert(u * u > 0) by (nonlinear_arith)
        requires
            u > 0,
    ;
    lemma_held(product(f, y)->0, (h * given_or_one(given)) * f, u * u, 20);
}

/// The decay must be seen as often as is set for the horizon, times what is set for how far the edge has
/// fallen short and what the table gives, rounded up and at least once.
pub proof fn law_scans_follow_the_shortfall(
    strategy: CryptoAlphaStrategy,
    days: u32,
    shortfall: int,
    asset: Option<AssetEntry>,
    market_type: CryptoMarketType,
    subtype: Option<CryptoEventSubtype>,
    k: nat,
)
    requires
        k <= 6,
        strategy.config.short_horizon_edge_decay_confirmation_scans <= pow10(k),
        strategy.config.medium_horizon_edge_decay_confirmation_scans <= pow10(k),
        strategy.config.edge_decay_confirmation_scans <= pow10(k),
        is_mild(strategy.config.edge_decay_moderate_confirmation_scan_multiplier@),
        is_mild(strategy.config.edge_decay_severe_confirmation_scan_multiplier@),
        strategy.multiplier(
            asset,
            days,
            market_type,
            subtype,
            OverrideField::EdgeDecayConfirmationScan,
        ) is Some,
        is_mild(
            given_or_one(
                strategy.multiplier(
                    asset,
                    days,
                    market_type,
                    subtype,
                    OverrideField::EdgeDecayConfirmationScan,
                ),
            ),
        ),
    ensures
        ({
            let c = strategy.config;
            let base = set_for(
                c,
                days,
                c.short_horizon_edge_decay_confirmation_scans as int,
                c.medium_horizon_edge_decay_confirmation_scans as int,
                c.edge_decay_confirmation_scans as int,
            );
            let found = strategy.scans_needed(days, shortfall, asset, market_type, subtype);
            let factor = set_for_gap(
                c,
                shortfall,
                c.edge_decay_moderate_confirmation_scan_multiplier@,
                c.edge_decay_severe_confirmation_scan_multiplier@,
            ) * given_or_one(
                strategy.multiplier(
                    asset,
                    days,
                    market_type,
                    subtype,
                    OverrideField::EdgeDecayConfirmationScan,
                ),
            );
            &&& found is Some && found->0 >= 1
            &&& exists|m: int|
                {
                    &&& #[trigger] close(m, factor, unit(), 10)
                    &&& found->0 * unit() >= base * m - pow10(k + 1)
                    &&& found->0 == 1 || (found->0 - 1) * unit() < base * m + pow10(k + 1)
                }
        }),
{
    let u = unit();
    let c = strategy.config;
    let base = set_for(
        c,
        days,
        c.short_horizon_edge_decay_confirmation_scans as int,
        c.medium_horizon_edge_decay_confirmation_scans as int,
        c.edge_decay_confirmation_scans as int,
    );
    let s = by_severity(
        c,
        shortfall,
        c.edge_decay_moderate_confirmation_scan_multiplier,
        c.edge_decay_severe_confirmation_scan_multiplier,
    );
    lemma_gap(
        c,
        shortfall,
        c.edge_decay_moderate_confirmation_scan_multiplier,
        c.edge_decay_severe_confirmation_scan_multiplier,
    );
    let given = strategy.multiplier(
        asset,
        days,
        market_type,
        subtype,
        OverrideField::EdgeDecayConfirmationScan,
    );
    lemma_scaled_mild(s, given);
    let m = scaled(Some(s), given)->0;
    assert(close(m, s * given_or_one(given), u, 10));
    lemma_count_times(base, m, k);
    let v = product(whole(base), m)->0;
    reveal(ceil_of);
    let up = -((-v) / u);
    assert((up - 1) * u < v <= up * u) by (nonlinear_arith)
        requires
            up == -((-v) / u),
            u > 0,
    ;
    assert(up >= 0 && up <= u32::MAX) by (nonlinear_arith)
        requires
            (up - 1) * u < v <= up * u,
            0 <= v <= 70_000_000 * u + 10_000_000,
            u > 10_000_000,
    ;
    lemma_div_multiples(up, u);
}

/// A count times a multiplier below fifty.
proof fn lemma_count_times(base: int, m: int, k: nat)
    requires
        k <= 6,
        0 <= base <= pow10(k),
        0 <= m <= 49 * unit(),
    ensures
        product(whole(base), m) is Some,
        -pow10(k + 1) <= 2 * (product(whole(base), m)->0 - base * m) <= pow10(k + 1),
        0 <= product(whole(base), m)->0 <= 70_000_000 * unit() + 10_000_000,
        0 <= product(whole(base), m)->0 <= 7 * pow10(k + 1) * unit(),
        0 <= base * m <= 49 * pow10(k) * unit(),
        pow10(k + 1) == 10 * pow10(k),
        0 < pow10(k) <= 1_000_000,
{
    let u = unit();
    let p = pow10(k + 1);
    assert(p == 10 * pow10(k));
    assert(pow10(k) <= 1_000_000) by {
        reveal_with_fuel(pow10, 7);
    }
    lemma_pow10_below_unit(k);
    assert(0 <= base * m <= 49 * pow10(k) * u && 49 * pow10(k) * u <= 7 * p * u) by (nonlinear_arith)
        requires
            0 <= base <= pow10(k),
            0 <= m <= 49 * u,
            u > 0,
            p == 10 * pow10(k),
            pow10(k) > 0,
    {
        assert(base * m <= pow10(k) * (49 * u));
        assert(pow10(k) * (49 * u) == 49 * pow10(k) * u);
        assert(7 * p * u == 70 * (pow10(k) * u));
        assert(49 * pow10(k) * u == 49 * (pow10(k) * u));
        assert(pow10(k) * u > 0);
    }
    assert(whole(base) * m == (base * m) * u) by (nonlinear_arith)
        requires
            whole(base) == base * u,
    ;
    assert(0 <= (base * m) * u <= 7 * p * (u * u)) by (nonlinear_arith)
        requires
            0 <= base * m <= 7 * p * u,
            u > 0,
    ;
    lemma_product_close(whole(base), m, k + 1);
    let v = product(whole(base), m)->0;
    assert(-p <= 2 * (v - base * m) <= p) by (nonlinear_arith)
        requires
            2 * (v * u - (base * m) * u) <= p * u,
            2 * ((base * m) * u - v * u) <= p * u,
            u > 0,
    {
        assert((2 * (v - base * m)) * u <= p * u);
        assert((2 * (v - base * m)) * u >= (-p) * u);
    }
    lemma_whole_representable(0);
    law_arithmetic_keeps_order(whole(base), m, 0);
    lemma_whole_representable(7 * p);
    assert((base * m) * u <= (7 * p * u) * u) by (nonlinear_arith)
        requires
            base * m <= 7 * p * u,
            u > 0,
    ;
    law_arithmetic_keeps_order(whole(base), m, 7 * p * u);
    assert(7 * p * u <= 70_000_000 * u) by (nonlinear_arith)
        requires
            p <= 10_000_000,
            u > 0,
    ;
}

/// The seconds that a base and two multipliers come to.
proof fn lemma_seconds(base: int, a: int, b: int, k: nat)
    requires
        k <= 6,
        0 <= base <= pow10(k),
        is_mild(a),
        0 <= b <= 49 * unit(),
    ensures
        seconds_from(times(times(Some(whole(base)), Some(a)), Some(b)), base) is Some,
        is_seconds(
            seconds_from(times(times(Some(whole(base)), Some(a)), Some(b)), base)->0,
            base,
            a,
            b,
            k,
        ),
{
    let u = unit();
    lemma_count_times(base, a, k);
    let q = pow10(k);
    let first = product(whole(base), a)->0;
    let p = pow10(k + 3);
    assert(p == 100 * pow10(k + 1)) by {
        reveal_with_fuel(pow10, 3);
        assert(k + 3 == (k + 2) + 1 && k + 2 == (k + 1) + 1);
    }
    assert(p == 1000 * q);
    assert(0 <= first * b <= 7 * p * (u * u)) by (nonlinear_arith)
        requires
            0 <= first <= 7 * (10 * q) * u,
            0 <= b <= 49 * u,
            p == 1000 * q,
            q > 0,
            u > 0,
    {
        let w = q * (u * u);
        assert(w > 0);
        assert(first * b <= (7 * (10 * q) * u) * (49 * u));
        assert((7 * (10 * q) * u) * (49 * u) == 3430 * w);
        assert(7 * p * (u * u) == 7000 * w);
    }
    assert(k + 3 <= 28);
    lemma_product_close(first, b, k + 3);
    let v = product(first, b)->0;
    law_digits_are_dropped_to_the_nearest(v, 0);
    lemma_pow10_unit();
    let r = round_dp_of(v, 0);
    let t = r / u;
    vstd::arithmetic::div_mod::lemma_fundamental_div_mod(r, u);
    assert(r == t * u) by (nonlinear_arith)
        requires
            r == u * t,
    ;
    lemma_whole_representable(0);
    law_arithmetic_keeps_order(first, b, 0);
    assert(t >= 0) by (nonlinear_arith)
        requires
            r == t * u,
            v >= 0,
            2 * (v - r) <= u,
            u > 0,
    ;
    lemma_whole_representable(7 * p);
    assert(first * b <= (7 * p * u) * u) by (nonlinear_arith)
        requires
            first * b <= 7 * p * (u * u),
    ;
    law_arithmetic_keeps_order(first, b, 7 * p * u);
    assert(t <= u64::MAX) by (nonlinear_arith)
        requires
            r == t * u,
            2 * (r - v) <= u,
            v <= 7 * p * u,
            p <= 1_000_000_000,
            u > 0,
    {
        assert(7 * p * u <= 7_000_000_000 * u);
        if t > 7_000_000_001 {
            assert(t * u >= 7_000_000_002 * u);
        }
    }
    let n = (base * a) * b;
    let d = u * u;
    assert(2 * (n - v * u) <= p * u + 490 * (q * u) && 2 * (v * u - n) <= p * u + 490 * (q * u))
        by (nonlinear_arith)
        requires
            n == (base * a) * b,
            2 * (v * u - first * b) <= p * u,
            2 * (first * b - v * u) <= p * u,
            -(10 * q) <= 2 * (first - base * a) <= 10 * q,
            0 <= b <= 49 * u,
            q > 0,
            u > 0,
    {
        let e = 2 * (first - base * a);
        assert(e * b <= (10 * q) * b && e * b >= (-(10 * q)) * b);
        assert((10 * q) * b <= (10 * q) * (49 * u));
        assert((10 * q) * (49 * u) == 490 * (q * u));
        assert(e * b == 2 * (first * b) - 2 * n);
        assert((-(10 * q)) * b == -((10 * q) * b));
    }
    assert(p * u + 490 * (q * u) <= 2 * p * u) by (nonlinear_arith)
        requires
            p == 1000 * q,
            q > 0,
            u > 0,
    {
        assert(p * u == 1000 * (q * u));
        assert(2 * p * u == 2000 * (q * u));
        assert(q * u > 0);
    }
    assert(2 * (r * u - v * u) <= d && 2 * (v * u - r * u) <= d) by (nonlinear_arith)
        requires
            2 * (r - v) <= u,
            2 * (v - r) <= u,
            d == u * u,
            u > 0,
    ;
    assert(t * d == r * u) by (nonlinear_arith)
        requires
            r == t * u,
            d == u * u,
    ;
}

/// Sights of the decay count together within the configured seconds, times what is set for the horizon and
/// for how far the edge has fallen short, and what the table gives: the nearest whole number, at least one.
pub proof fn law_window_follows_horizon_and_shortfall(
    strategy: CryptoAlphaStrategy,
    days: u32,
    shortfall: int,
    asset: Option<AssetEntry>,
    market_type: CryptoMarketType,
    subtype: Option<CryptoEventSubtype>,
    k: nat,
)
    requires
        k <= 6,
        strategy.config.edge_decay_confirmation_window_secs <= pow10(k),
        is_mild(strategy.config.short_horizon_edge_decay_confirmation_window_multiplier@),
        is_mild(strategy.config.medium_horizon_edge_decay_confirmation_window_multiplier@),
        is_mild(strategy.config.edge_decay_moderate_confirmation_window_multiplier@),
        is_mild(strategy.config.edge_decay_severe_confirmation_window_multiplier@),
        strategy.multiplier(asset, days, market_type, subtype, OverrideField::EdgeDecayConfirmationWindow) is Some,
        is_mild(
            given_or_one(
                strategy.multiplier(asset, days, market_type, subtype, OverrideField::EdgeDecayConfirmationWindow),
            ),
        ),
    ensures
        ({
            let c = strategy.config;
            let found = strategy.window_secs(days, shortfall, asset, market_type, subtype);
            let factor = set_for_gap(c, shortfall, c.edge_decay_moderate_confirmation_window_multiplier@, c.edge_decay_severe_confirmation_window_multiplier@) * given_or_one(
                strategy.multiplier(asset, days, market_type, subtype, OverrideField::EdgeDecayConfirmationWindow),
            );
            &&& found is Some
            &&& exists|m: int|
                #[trigger] close(m, factor, unit(), 10) && is_seconds(
                    found->0,
                    c.edge_decay_confirmation_window_secs as int,
                    set_for(c, days, c.short_horizon_edge_decay_confirmation_window_multiplier@, c.medium_horizon_edge_decay_confirmation_window_multiplier@, unit()),
                    m,
                    k,
                )
        }),
{
    let c = strategy.config;
    let h = set_for(c, days, c.short_horizon_edge_decay_confirmation_window_multiplier@, c.medium_horizon_edge_decay_confirmation_window_multiplier@, unit());
    let s = by_severity(c, shortfall, c.edge_decay_moderate_confirmation_window_multiplier, c.edge_decay_severe_confirmation_window_multiplier);
    lemma_gap(c, shortfall, c.edge_decay_moderate_confirmation_window_multiplier, c.edge_decay_severe_confirmation_window_multiplier);
    let given = strategy.multiplier(asset, days, market_type, subtype, OverrideField::EdgeDecayConfirmationWindow);
    lemma_scaled_mild(s, given);
    let m = scaled(Some(s), given)->0;
    assert(close(m, s * given_or_one(given), unit(), 10));
    lemma_seconds(c.edge_decay_confirmation_window_secs as int, h, m, k);
}

/// After a partial exit a token is left alone for the configured seconds, times what is set for the horizon
/// and for how far the edge has fallen short, and what the table gives: the nearest whole number, at least
/// one.
pub proof fn law_pause_follows_horizon_and_shortfall(
    strategy: CryptoAlphaStrategy,
    days: u32,
    shortfall: int,
    asset: Option<AssetEntry>,
    market_type: CryptoMarketType,
    subtype: Option<CryptoEventSubtype>,
    k: nat,
)
    requires
        k <= 6,
        strategy.config.edge_decay_cooldown_secs <= pow10(k),
        is_mild(strategy.config.short_horizon_edge_decay_cooldown_multiplier@),
        is_mild(strategy.config.medium_horizon_edge_decay_cooldown_multiplier@),
        is_mild(strategy.config.edge_decay_moderate_cooldown_multiplier@),
        is_mild(strategy.config.edge_decay_severe_cooldown_multiplier@),
        strategy.multiplier(asset, days, market_type, subtype, OverrideField::EdgeDecayCooldown) is Some,
        is_mild(
            given_or_one(
                strategy.multiplier(asset, days, market_type, subtype, OverrideField::EdgeDecayCooldown),
            ),
        ),
    ensures
        ({
            let c = strategy.config;
            let found = strategy.cooldown_secs(days, shortfall, asset, market_type, subtype);
            let factor = set_for_gap(c, shortfall, c.edge_decay_moderate_cooldown_multiplier@, c.edge_decay_severe_cooldown_multiplier@) * given_or_one(
                strategy.multiplier(asset, days, market_type, subtype, OverrideField::EdgeDecayCooldown),
            );
            &&& found is Some
            &&& exists|m: int|
                #[trigger] close(m, factor, unit(), 10) && is_seconds(
                    found->0,
                    c.edge_decay_cooldown_secs as int,
                    set_for(c, days, c.short_horizon_edge_decay_cooldown_multiplier@, c.medium_horizon_edge_decay_cooldown_multiplier@, unit()),
                    m,
                    k,
                )
        }),
{
    let c = strategy.config;
    let h = set_for(c, days, c.short_horizon_edge_decay_cooldown_multiplier@, c.medium_horizon_edge_decay_cooldown_multiplier@, unit());
    let s = by_severity(c, shortfall, c.edge_decay_moderate_cooldown_multiplier, c.edge_decay_severe_cooldown_multiplier);
    lemma_gap(c, shortfall, c.edge_decay_moderate_cooldown_multiplier, c.edge_decay_severe_cooldown_multiplier);
    let given = strategy.multiplier(asset, days, market_type, subtype, OverrideField::EdgeDecayCooldown);
    lemma_scaled_mild(s, given);
    let m = scaled(Some(s), given)->0;
    assert(close(m, s * given_or_one(given), unit(), 10));
    lemma_seconds(c.edge_decay_cooldown_secs as int, h, m, k);
}

/// Of a decaying position a share is sold: the share for its horizon and one step more for each sight
/// beyond those that were needed, times what is set for how far the edge has fallen short, held between
/// zero and one. It is rounded to the cent. All of the position is sold where that comes to nothing or to
/// an order worth less than one, and never more than all of it.
pub proof fn law_share_grows_with_each_sight(
    strategy: CryptoAlphaStrategy,
    position: int,
    bid: int,
    asset: Option<AssetEntry>,
    market_type: CryptoMarketType,
    days: u32,
    subtype: Option<CryptoEventSubtype>,
    confirmations: u32,
    shortfall: int,
    k: nat,
)
    requires
        k <= 20,
        strategy.exit_size(
            position,
            bid,
            asset,
            market_type,
            days,
            subtype,
            confirmations,
            shortfall,
        ) is Some,
        0 < position <= 3 * pow10(k) * unit(),
        bid <= unit(),
        is_mild(strategy.config.edge_decay_moderate_exit_multiplier@),
        is_mild(strategy.config.edge_decay_severe_exit_multiplier@),
        strategy.scans_needed(days, shortfall, asset, market_type, subtype) is Some,
        strategy.exit_fraction(days, asset, market_type, subtype) is Some,
        0 <= strategy.exit_fraction(days, asset, market_type, subtype)->0 <= unit(),
        0 <= strategy.config.edge_decay_exit_fraction_step@,
        strategy.config.edge_decay_exit_fraction_step@ * greater(
            confirmations - strategy.scans_needed(days, shortfall, asset, market_type, subtype)->0,
            0,
        ) <= 5 * unit(),
    ensures
        ({
            let u = unit();
            let c = strategy.config;
            let found = strategy.exit_size(
                position,
                bid,
                asset,
                market_type,
                days,
                subtype,
                confirmations,
                shortfall,
            )->0;
            let needed = strategy.scans_needed(days, shortfall, asset, market_type, subtype)->0;
            let extra = if confirmations > needed {
                confirmations - needed
            } else {
                0
            };
            let grown = strategy.exit_fraction(days, asset, market_type, subtype)->0
                + c.edge_decay_exit_fraction_step@ * extra;
            let factor = set_for_gap(
                c,
                shortfall,
                c.edge_decay_moderate_exit_multiplier@,
                c.edge_decay_severe_exit_multiplier@,
            );
            exists|share: int, part: int|
                {
                    &&& is_held(share, grown * factor, u, 10)
                    &&& #[trigger] is_share(part, position, share, 2, k)
                    &&& found == part || found == position
                    &&& found <= position
                    &&& part <= 0 ==> found == position
                    &&& part > 0 && (bid <= 0 || part * bid >= u * u) && part <= position
                        ==> found == part
                    &&& bid > 0 && part * bid < u * u - pow10(k) * u ==> found == position
                }
        }),
{
    let u = unit();
    let p = pow10(k);
    let c = strategy.config;
    let needed = strategy.scans_needed(days, shortfall, asset, market_type, subtype)->0;
    let extra = greater(confirmations - needed, 0);
    let step = c.edge_decay_exit_fraction_step@;
    let first = strategy.exit_fraction(days, asset, market_type, subtype)->0;
    let grown = first + step * extra;
    let factor = by_severity(
        c,
        shortfall,
        c.edge_decay_moderate_exit_multiplier,
        c.edge_decay_severe_exit_multiplier,
    );
    lemma_gap(
        c,
        shortfall,
        c.edge_decay_moderate_exit_multiplier,
        c.edge_decay_severe_exit_multiplier,
    );
    lemma_pow10_below_unit(k);
    lemma_steps_taken(step, extra);
    assert(step * extra >= 0) by (nonlinear_arith)
        requires
            step >= 0,
            extra >= 0,
    ;
    assert(pow10(0) == 1);
    lemma_sum_close(first, step * extra, 0);
    lemma_mild_product(grown, factor);
    let held = product(grown, factor)->0;
    lemma_held(held, grown * factor, u, 10);
    let share = fraction(Some(held))->0;
    let part = round_dp_of(product(position, share)->0, 2);
    assert(position <= 7 * p * u && position >= -7 * p * u) by (nonlinear_arith)
        requires
            0 < position <= 3 * p * u,
            p > 0,
            u > 0,
    {
        assert(3 * p * u == 3 * (p * u) && 7 * p * u == 7 * (p * u) && -7 * p * u == -7 * (p * u));
        assert(p * u > 0);
    }
    lemma_share(position, share, 2, k);
    if part > 0 && bid > 0 {
        assert(part <= 4 * p * u) by {
            lemma_round_within(position, share, part, k);
        }
        assert(0 <= part * bid <= 7 * p * (u * u)) by (nonlinear_arith)
            requires
                0 < part <= 4 * p * u,
                0 < bid <= u,
                p > 0,
                u > 0,
        {
            assert(part * bid <= (4 * p * u) * u);
            assert((4 * p * u) * u == 4 * (p * (u * u)));
            assert(7 * p * (u * u) == 7 * (p * (u * u)));
            assert(p * (u * u) > 0);
        }
        lemma_product_close(part, bid, k);
        lemma_whole_representable(1);
        law_arithmetic_keeps_order(part, bid, u);
        let value = product(part, bid)->0;
        assert(part * bid < u * u - p * u ==> value < u) by (nonlinear_arith)
            requires
                2 * (value * u - part * bid) <= p * u,
                u > 0,
                p > 0,
        {
            if part * bid < u * u - p * u && value >= u {
                assert(value * u >= u * u);
                assert(p * u > 0);
            }
        }
    }
}

proof fn lemma_steps_taken(step: int, extra: int)
    requires
        0 <= step,
        0 <= extra,
        step * extra <= 5 * unit(),
    ensures
        product(step, whole(extra)) == Some(step * extra),
{
    let u = unit();
    assert(pow10(0) == 1);
    let n = step * extra;
    assert(step * whole(extra) == n * u) by (nonlinear_arith)
        requires
            whole(extra) == extra * u,
            n == step * extra,
    ;
    assert(0 <= n * u <= 7 * 1 * (u * u)) by (nonlinear_arith)
        requires
            0 <= step,
            0 <= extra,
            n == step * extra,
            n <= 5 * u,
            u > 0,
    ;
    lemma_product_close(step, whole(extra), 0);
    let x = product(step, whole(extra))->0;
    assert(x == n) by (nonlinear_arith)
        requires
            2 * (x * u - n * u) <= 1 * u,
            2 * (n * u - x * u) <= 1 * u,
            u > 0,
    {
        if x > n {
            assert(x * u >= n * u + u);
        }
        if x < n {
            assert(n * u >= x * u + u);
        }
    }
}

/// A share of a size, rounded to the cent, is no more than one above it.
proof fn lemma_round_within(size: int, share: int, part: int, k: nat)
    requires
        k <= 20,
        0 < size <= 3 * pow10(k) * unit(),
        0 <= share <= unit(),
        is_share(part, size, share, 2, k),
    ensures
        part <= 4 * pow10(k) * unit(),
{
    let u = unit();
    let p = pow10(k);
    lemma_pow10_below_unit(k);
    lemma_pow10_below_unit(26);
    let cent = pow10(26);
    assert(100 * cent == u) by {
        lemma_pow10_unit();
        crate::rounding::lemma_pow10_sum(2, 26);
        assert(pow10(2) == 100) by {
            reveal_with_fuel(pow10, 3);
        }
    }
    assert(100_000_000 * p <= u) by {
        lemma_pow10_unit();
        crate::rounding::lemma_pow10_sum(8, 20);
        assert(pow10(8) == 100_000_000) by {
            reveal_with_fuel(pow10, 9);
        }
        crate::rounding::lemma_pow10_sum(k, (20 - k) as nat);
        lemma_pow10_below_unit((20 - k) as nat);
        let rest = pow10((20 - k) as nat);
        assert(p <= pow10(20)) by (nonlinear_arith)
            requires
                pow10(20) == p * rest,
                rest >= 1,
                p > 0,
        ;
    }
    assert(part <= 4 * p * u) by (nonlinear_arith)
        requires
            2 * (part * u - size * share) <= (cent + p) * u,
            0 < size <= 3 * p * u,
            0 <= share <= u,
            cent + p <= u,
            p >= 1,
            u > 0,
    {
        assert(size * share <= (3 * p * u) * u);
        assert((cent + p) * u <= u * u);
        assert(u * u <= p * u * u);
        assert((2 * part) * u <= (7 * p * u) * u);
        assert(2 * part <= 7 * p * u);
        assert(7 * p * u <= 8 * p * u);
    }
}

/// Where no row of the table changes the window, none is longer than the one that old sights are dropped
/// by.
pub proof fn law_no_window_is_longer_than_the_longest(
    strategy: CryptoAlphaStrategy,
    days: u32,
    shortfall: int,
    asset: Option<AssetEntry>,
    market_type: CryptoMarketType,
    subtype: Option<CryptoEventSubtype>,
)
    requires
        largest_window_override(
            strategy.config,
            strategy.config.calibration_overrides@.len(),
        ) == Some(None::<int>),
        strategy.multiplier(
            asset,
            days,
            market_type,
            subtype,
            OverrideField::EdgeDecayConfirmationWindow,
        ) == Some(None::<int>),
        is_mild(strategy.config.short_horizon_edge_decay_confirmation_window_multiplier@),
        is_mild(strategy.config.medium_horizon_edge_decay_confirmation_window_multiplier@),
        is_mild(strategy.config.edge_decay_moderate_confirmation_window_multiplier@),
        is_mild(strategy.config.edge_decay_severe_confirmation_window_multiplier@),
        strategy.config.edge_decay_confirmation_window_secs <= 1_000_000,
        strategy.window_secs(days, shortfall, asset, market_type, subtype) is Some,
        strategy.longest_window() is Some,
    ensures
        1 <= strategy.window_secs(days, shortfall, asset, market_type, subtype)->0
            <= strategy.longest_window()->0,
{
    let u = unit();
    let c = strategy.config;
    let base = c.edge_decay_confirmation_window_secs as int;
    let w = whole(base);
    let h = by_horizon(
        c,
        days,
        c.short_horizon_edge_decay_confirmation_window_multiplier,
        c.medium_horizon_edge_decay_confirmation_window_multiplier,
    );
    let s = by_severity(
        c,
        shortfall,
        c.edge_decay_moderate_confirmation_window_multiplier,
        c.edge_decay_severe_confirmation_window_multiplier,
    );
    let long_h = greater(
        greater(u, c.medium_horizon_edge_decay_confirmation_window_multiplier@),
        c.short_horizon_edge_decay_confirmation_window_multiplier@,
    );
    let long_s = greater(
        greater(u, c.edge_decay_moderate_confirmation_window_multiplier@),
        c.edge_decay_severe_confirmation_window_multiplier@,
    );
    assert(pow10(6) == 1_000_000) by {
        reveal_with_fuel(pow10, 7);
    }
    assert(pow10(7) == 10_000_000) by {
        reveal_with_fuel(pow10, 8);
    }
    lemma_count_times(base, h, 6);
    lemma_count_times(base, long_h, 6);
    let a = product(w, h)->0;
    let b = product(w, long_h)->0;
    lemma_product_swap(w, h);
    lemma_product_swap(w, long_h);
    lemma_product_monotone(h, long_h, w);
    assert(0 <= a * s <= b * long_s && b * long_s <= (490_000_000 * u) * u) by (nonlinear_arith)
        requires
            0 <= a <= b,
            b <= 70_000_000 * u,
            0 <= s <= long_s,
            long_s <= 7 * u,
            u > 0,
    {
        assert(a * s <= b * s);
        assert(b * s <= b * long_s);
        assert(b * long_s <= (70_000_000 * u) * (7 * u));
    }
    let x = product(a, s)->0;
    let y = product(b, long_s)->0;
    lemma_whole_representable(0);
    lemma_whole_representable(490_000_000);
    law_arithmetic_keeps_order(a, s, 0);
    law_arithmetic_keeps_order(b, long_s, 490_000_000 * u);
    assert(x <= y && product(y, u) == Some(y)) by {
        assert(representable(y)) by {
            reveal(product);
            lemma_rounded_representable(b * long_s, u * u);
        }
        law_arithmetic_is_exact(y, u, y);
        reveal(product);
        assert(u * u > 0) by (nonlinear_arith)
            requires
                u > 0,
        ;
        lemma_rounded_monotone(a * s, b * long_s, u * u);
    }
    lemma_steps_monotone(x, y, 0);
    lemma_steps_monotone(0, x, 0);
    lemma_steps_monotone(y, 490_000_000 * u, 0);
    assert(round_dp_of(0, 0) >= 0 && round_dp_of(490_000_000 * u, 0) <= 490_000_001 * u) by {
        lemma_pow10_unit();
        law_digits_are_dropped_to_the_nearest(0, 0);
        law_digits_are_dropped_to_the_nearest(490_000_000 * u, 0);
        let r = round_dp_of(0, 0);
        vstd::arithmetic::div_mod::lemma_fundamental_div_mod(r, u);
        assert(r >= 0) by (nonlinear_arith)
            requires
                r == u * (r / u),
                -u <= 2 * r,
                u > 0,
        ;
    }
    let (rx, ry) = (round_dp_of(x, 0), round_dp_of(y, 0));
    assert(0 <= rx / u <= ry / u <= 490_000_001) by (nonlinear_arith)
        requires
            0 <= rx <= ry <= 490_000_001 * u,
            u > 0,
    ;
}

} // verus!
