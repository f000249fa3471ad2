//! What a market must offer to be entered or kept, given its horizon and the events around it.
use crate::crypto_alpha::assets::CryptoAsset;
use crate::crypto_alpha::config::{CryptoAlphaConfig, Horizon, OverrideField};
use crate::crypto_alpha::labels::{
    classify_crypto_event_subtype, macro_event_applies_to_asset, CalendarEvent, CryptoEventSubtype,
    CryptoMarketType, EventCategory, EventImpact,
};
use crate::crypto_alpha::strategy::CryptoAlphaStrategy;
use crate::decimal::Decimal;
use crate::profitability::bps_as_fraction;
use vstd::prelude::*;

verus! {

use crate::crypto_alpha::assets::AssetEntry;
use crate::crypto_alpha::calibration::{entry_of, fraction, override_context, scaled, table_value};
use crate::crypto_alpha::labels::{is_major, subtype_of_title};
use crate::profitability::{bps_fraction, law_basis_points_are_ten_thousandths};
use crate::rounding::{
    at_least, ceil_count_of, ceil_of, close, count_of, count_or, floor_of,
    law_arithmetic_keeps_order, lemma_close_times, lemma_pow10_below_unit, lemma_product_close,
    lemma_product_swap, lemma_whole_representable, pow10, product, times, unit, whole,
};

/// The subtype of the event around a market, which only crypto events have.
pub open spec fn subtype_of_event(event: CalendarEvent) -> Option<CryptoEventSubtype> {
    if event.category == EventCategory::Crypto {
        Some(subtype_of_title(event.title@))
    } else {
        None
    }
}

pub open spec fn by_impact(impact: EventImpact, low: Decimal, medium: Decimal, high: Decimal) -> int {
    match impact {
        EventImpact::Low => low@,
        EventImpact::Medium => medium@,
        EventImpact::High => high@,
    }
}

pub open spec fn by_horizon(
    config: CryptoAlphaConfig,
    days: u32,
    short: Decimal,
    medium: Decimal,
) -> int {
    match config.spec_horizon(days) {
        Horizon::Short => short@,
        Horizon::Medium => medium@,
        Horizon::Long => unit(),
    }
}

/// Basis points times a multiplier, rounded up.
pub open spec fn raised(bps: Option<int>, multiplier: Option<int>) -> Option<int> {
    match bps {
        None => None,
        Some(b) => match times(Some(whole(b)), multiplier) {
            Some(v) => Some(count_or(ceil_count_of(v, u32::MAX as int), u32::MAX as int)),
            None => None,
        },
    }
}

/// Basis points times a multiplier, rounded down.
pub open spec fn lowered(bps: Option<int>, multiplier: Option<int>) -> Option<int> {
    match bps {
        None => None,
        Some(b) => match times(Some(whole(b)), multiplier) {
            Some(v) => Some(count_or(count_of(floor_of(v), u32::MAX as int), 0)),
            None => None,
        },
    }
}

/// What the table adds to an event's multiplier, not below zero.
pub open spec fn with_table_value(v: Option<int>, given: Option<Decimal>) -> Option<int> {
    match given {
        Some(m) => times(v, at_least(Some(m@), Some(0))),
        None => v,
    }
}

/// The edge that a market must offer, in basis points.
pub open spec fn min_edge_needed(
    config: CryptoAlphaConfig,
    asset: AssetEntry,
    market_type: CryptoMarketType,
    days: u32,
    event: Option<CalendarEvent>,
) -> Option<int> {
    let for_horizon = raised(
        Some(config.min_edge_bps as int),
        Some(
            by_horizon(
                config,
                days,
                config.short_horizon_min_edge_multiplier,
                config.medium_horizon_min_edge_multiplier,
            ),
        ),
    );
    match event {
        None => for_horizon,
        Some(e) => raised(
            for_horizon,
            with_table_value(
                Some(
                    by_impact(
                        e.impact,
                        config.low_event_min_edge_multiplier,
                        config.medium_event_min_edge_multiplier,
                        config.high_event_min_edge_multiplier,
                    ),
                ),
                table_value(
                    config,
                    override_context(config, asset, days, market_type, subtype_of_event(e)),
                    OverrideField::MinEdge,
                ),
            ),
        ),
    }
}

/// The spread that a market may have, in basis points.
pub open spec fn max_spread_allowed(
    config: CryptoAlphaConfig,
    asset: AssetEntry,
    market_type: CryptoMarketType,
    days: u32,
    event: Option<CalendarEvent>,
) -> Option<int> {
    let for_horizon = lowered(
        Some(config.max_spread_bps as int),
        Some(
            by_horizon(
                config,
                days,
                config.short_horizon_max_spread_multiplier,
                config.medium_horizon_max_spread_multiplier,
            ),
        ),
    );
    match event {
        None => for_horizon,
        Some(e) => lowered(
            for_horizon,
            with_table_value(
                Some(
                    by_impact(
                        e.impact,
                        config.low_event_max_spread_multiplier,
                        config.medium_event_max_spread_multiplier,
                        config.high_event_max_spread_multiplier,
                    ),
                ),
                table_value(
                    config,
                    override_context(config, asset, days, market_type, subtype_of_event(e)),
                    OverrideField::MaxSpread,
                ),
            ),
        ),
    }
}

/// The multiplier for the category of an event.
pub open spec fn category_multiplier(
    event: CalendarEvent,
    asset: AssetEntry,
    for_macro: Decimal,
    for_crypto: Decimal,
) -> int {
    match event.category {
        EventCategory::Macro => if is_major(asset) {
            for_macro@
        } else {
            unit()
        },
        EventCategory::Crypto => for_crypto@,
        _ => unit(),
    }
}

/// How much an event widens the modelled volatility, never narrowing it.
pub open spec fn event_sigma(
    config: CryptoAlphaConfig,
    asset: AssetEntry,
    event: Option<CalendarEvent>,
) -> Option<int> {
    match event {
        None => Some(unit()),
        Some(e) => at_least(
            times(
                Some(
                    by_impact(
                        e.impact,
                        config.low_event_sigma_multiplier,
                        config.medium_event_sigma_multiplier,
                        config.high_event_sigma_multiplier,
                    ),
                ),
                Some(
                    category_multiplier(
                        e,
                        asset,
                        config.macro_event_sigma_multiplier,
                        config.crypto_event_sigma_multiplier,
                    ),
                ),
            ),
            Some(unit()),
        ),
    }
}

/// How much an event shrinks a position, never enlarging it.
pub open spec fn event_size(
    config: CryptoAlphaConfig,
    asset: AssetEntry,
    event: Option<CalendarEvent>,
) -> Option<int> {
    match event {
        None => Some(unit()),
        Some(e) => fraction(
            times(
                Some(
                    by_impact(
                        e.impact,
                        config.low_event_size_multiplier,
                        config.medium_event_size_multiplier,
                        config.high_event_size_multiplier,
                    ),
                ),
                Some(
                    category_multiplier(
                        e,
                        asset,
                        config.macro_event_size_multiplier,
                        config.crypto_event_size_multiplier,
                    ),
                ),
            ),
        ),
    }
}

pub open spec fn event_subtype(event: Option<CalendarEvent>) -> Option<CryptoEventSubtype> {
    match event {
        Some(e) => subtype_of_event(e),
        None => None,
    }
}

/// How much a near resolution shrinks a position.
pub open spec fn horizon_size(config: CryptoAlphaConfig, days: u32) -> int {
    fraction(
        Some(
            by_horizon(
                config,
                days,
                config.short_horizon_size_multiplier,
                config.medium_horizon_size_multiplier,
            ),
        ),
    )->0
}

fn event_of(event: Option<&CalendarEvent>) -> (r: Option<CryptoEventSubtype>)
    ensures
        r == event_subtype(
            match event {
                Some(e) => Some(*e),
                None => None,
            },
        ),
{
    match event {
        Some(e) => match e.category {
            EventCategory::Crypto => Some(classify_crypto_event_subtype(e.title.as_str())),
            _ => None,
        },
        None => None,
    }
}

/// The event behind a reference.
pub open spec fn event_at(event: Option<&CalendarEvent>) -> Option<CalendarEvent> {
    match event {
        Some(e) => Some(*e),
        None => None,
    }
}

fn pick_by_impact(impact: EventImpact, low: Decimal, medium: Decimal, high: Decimal) -> (r: Decimal)
    ensures
        r@ == by_impact(impact, low, medium, high),
{
    match impact {
        EventImpact::Low => low,
        EventImpact::Medium => medium,
        EventImpact::High => high,
    }
}

fn pick_by_category(
    event: &CalendarEvent,
    asset: &CryptoAsset,
    for_macro: Decimal,
    for_crypto: Decimal,
) -> (r: Decimal)
    ensures
        r@ == category_multiplier(*event, asset@, for_macro, for_crypto),
{
    match event.category {
        EventCategory::Macro => if macro_event_applies_to_asset(asset) {
            for_macro
        } else {
            Decimal::one()
        },
        EventCategory::Crypto => for_crypto,
        _ => Decimal::one(),
    }
}

fn raise(bps: u32, multiplier: Decimal) -> (r: u32)
    requires
        raised(Some(bps as int), Some(multiplier@)) is Some,
    ensures
        raised(Some(bps as int), Some(multiplier@)) == Some(r as int),
{
    match (Decimal::from_u32(bps) * multiplier).ceil_to_u32() {
        Some(n) => n,
        None => u32::MAX,
    }
}

fn lower(bps: u32, multiplier: Decimal) -> (r: u32)
    requires
        lowered(Some(bps as int), Some(multiplier@)) is Some,
    ensures
        lowered(Some(bps as int), Some(multiplier@)) == Some(r as int),
{
    match (Decimal::from_u32(bps) * multiplier).floor().to_u32() {
        Some(n) => n,
        None => 0,
    }
}

impl CryptoAlphaStrategy {
    pub(crate) fn pick_by_horizon(&self, days: u32, short: Decimal, medium: Decimal) -> (r: Decimal)
        ensures
            r@ == by_horizon(self.config, days, short, medium),
    {
        match self.config.horizon(days) {
            Horizon::Short => short,
            Horizon::Medium => medium,
            Horizon::Long => Decimal::one(),
        }
    }

    /// The edge that a market must offer and the spread that it may have, in basis points. The
    /// event is the calendar's entry that matches the market.
    pub fn effective_entry_thresholds_for_context(
        &self,
        asset: &CryptoAsset,
        market_type: CryptoMarketType,
        days_to_resolution: u32,
        event: Option<&CalendarEvent>,
    ) -> (r: (u32, u32))
        requires
            min_edge_needed(
                self.config,
                asset@,
                market_type,
                days_to_resolution,
                event_at(event),
            ) is Some,
            max_spread_allowed(
                self.config,
                asset@,
                market_type,
                days_to_resolution,
                event_at(event),
            ) is Some,
        ensures
            min_edge_needed(
                self.config,
                asset@,
                market_type,
                days_to_resolution,
                event_at(event),
            ) == Some(r.0 as int),
            max_spread_allowed(
                self.config,
                asset@,
                market_type,
                days_to_resolution,
                event_at(event),
            ) == Some(r.1 as int),
    {
        let min_edge_bps = raise(
            self.config.min_edge_bps,
            self.pick_by_horizon(
                days_to_resolution,
                self.config.short_horizon_min_edge_multiplier,
                self.config.medium_horizon_min_edge_multiplier,
            ),
        );
        let max_spread_bps = lower(
            self.config.max_spread_bps,
            self.pick_by_horizon(
                days_to_resolution,
                self.config.short_horizon_max_spread_multiplier,
                self.config.medium_horizon_max_spread_multiplier,
            ),
        );
        let event = match event {
            Some(e) => e,
            None => return (min_edge_bps, max_spread_bps),
        };
        let subtype = event_of(Some(event));
        let mut edge_multiplier = pick_by_impact(
            event.impact,
            self.config.low_event_min_edge_multiplier,
            self.config.medium_event_min_edge_multiplier,
            self.config.high_event_min_edge_multiplier,
        );
        if let Some(m) = self.calibration_override_value(
            asset,
            days_to_resolution,
            market_type,
            subtype,
            OverrideField::MinEdge,
        ) {
            edge_multiplier = edge_multiplier * m.max(Decimal::zero());
        }
        let mut spread_multiplier = pick_by_impact(
            event.impact,
            self.config.low_event_max_spread_multiplier,
            self.config.medium_event_max_spread_multiplier,
            self.config.high_event_max_spread_multiplier,
        );
        if let Some(m) = self.calibration_override_value(
            asset,
            days_to_resolution,
            market_type,
            subtype,
            OverrideField::MaxSpread,
        ) {
            spread_multiplier = spread_multiplier * m.max(Decimal::zero());
        }
        (raise(min_edge_bps, edge_multiplier), lower(max_spread_bps, spread_multiplier))
    }

    pub fn effective_event_sigma_multiplier(
        &self,
        asset: &CryptoAsset,
        event: Option<&CalendarEvent>,
    ) -> (r: (Decimal, Option<CryptoEventSubtype>))
        requires
            event_sigma(self.config, asset@, event_at(event)) is Some,
        ensures
            event_sigma(self.config, asset@, event_at(event)) == Some(r.0@),
            r.1 == event_subtype(event_at(event)),
    {
        let subtype = event_of(event);
        match event {
            None => (Decimal::one(), subtype),
            Some(e) => {
                let impact = pick_by_impact(
                    e.impact,
                    self.config.low_event_sigma_multiplier,
                    self.config.medium_event_sigma_multiplier,
                    self.config.high_event_sigma_multiplier,
                );
                let category = pick_by_category(
                    e,
                    asset,
                    self.config.macro_event_sigma_multiplier,
                    self.config.crypto_event_sigma_multiplier,
                );
                ((impact * category).max(Decimal::one()), subtype)
            },
        }
    }

    pub fn effective_event_size_multiplier(
        &self,
        asset: &CryptoAsset,
        event: Option<&CalendarEvent>,
    ) -> (r: (Decimal, Option<CryptoEventSubtype>))
        requires
            event_size(self.config, asset@, event_at(event)) is Some,
        ensures
            event_size(self.config, asset@, event_at(event)) == Some(r.0@),
            r.1 == event_subtype(event_at(event)),
    {
        let subtype = event_of(event);
        match event {
            None => (Decimal::one(), subtype),
            Some(e) => {
                let impact = pick_by_impact(
                    e.impact,
                    self.config.low_event_size_multiplier,
                    self.config.medium_event_size_multiplier,
                    self.config.high_event_size_multiplier,
                );
                let category = pick_by_category(
                    e,
                    asset,
                    self.config.macro_event_size_multiplier,
                    self.config.crypto_event_size_multiplier,
                );
                ((impact * category).min(Decimal::one()).max(Decimal::zero()), subtype)
            },
        }
    }

    pub fn effective_horizon_size_multiplier(&self, days_to_resolution: u32) -> (r: Decimal)
        ensures
            r@ == horizon_size(self.config, days_to_resolution),
    {
        self.pick_by_horizon(
            days_to_resolution,
            self.config.short_horizon_size_multiplier,
            self.config.medium_horizon_size_multiplier,
        ).min(Decimal::one()).max(Decimal::zero())
    }

    /// What the event and the table together make of the modelled volatility.
    pub open spec fn sigma(
        &self,
        asset: AssetEntry,
        days: u32,
        market_type: CryptoMarketType,
        event: Option<CalendarEvent>,
    ) -> Option<int> {
        at_least(
            scaled(
                event_sigma(self.config, asset, event),
                self.multiplier(
                    Some(asset),
                    days,
                    market_type,
                    event_subtype(event),
                    OverrideField::Sigma,
                ),
            ),
            Some(0),
        )
    }

    /// What the event, the horizon and the table together leave of a position.
    pub open spec fn size_share(
        &self,
        asset: AssetEntry,
        days: u32,
        market_type: CryptoMarketType,
        event: Option<CalendarEvent>,
    ) -> Option<int> {
        match self.size_multiplier(asset, days, market_type, event_subtype(event)) {
            None => None,
            Some(given) => fraction(
                times(
                    times(
                        event_size(self.config, asset, event),
                        Some(horizon_size(self.config, days)),
                    ),
                    Some(
                        match given {
                            Some(m) => m,
                            None => unit(),
                        },
                    ),
                ),
            ),
        }
    }

    pub fn effective_sigma_multiplier(
        &self,
        asset: &CryptoAsset,
        days_to_resolution: u32,
        market_type: CryptoMarketType,
        event: Option<&CalendarEvent>,
    ) -> (r: Decimal)
        requires
            self.sigma(asset@, days_to_resolution, market_type, event_at(event)) is Some,
        ensures
            self.sigma(asset@, days_to_resolution, market_type, event_at(event)) == Some(r@),
    {
        let (event_multiplier, subtype) = self.effective_event_sigma_multiplier(asset, event);
        match self.calibration_override_sigma_multiplier(
            asset,
            days_to_resolution,
            market_type,
            subtype,
        ) {
            Some(m) => (event_multiplier * m).max(Decimal::zero()),
            None => event_multiplier.max(Decimal::zero()),
        }
    }

    pub fn effective_size_multiplier(
        &self,
        asset: &CryptoAsset,
        days_to_resolution: u32,
        market_type: CryptoMarketType,
        event: Option<&CalendarEvent>,
    ) -> (r: Decimal)
        requires
            self.size_share(asset@, days_to_resolution, market_type, event_at(event)) is Some,
        ensures
            self.size_share(asset@, days_to_resolution, market_type, event_at(event)) == Some(r@),
            0 <= r@ <= unit(),
    {
        let (event_multiplier, subtype) = self.effective_event_size_multiplier(asset, event);
        let horizon_multiplier = self.effective_horizon_size_multiplier(days_to_resolution);
        let override_multiplier = match self.calibration_override_size_multiplier(
            asset,
            days_to_resolution,
            market_type,
            subtype,
        ) {
            Some(m) => m,
            None => Decimal::one(),
        };
        (event_multiplier * horizon_multiplier * override_multiplier).min(Decimal::one()).max(
            Decimal::zero(),
        )
    }

    pub fn within_entry_horizon(&self, days_to_resolution: u32) -> (r: bool)
        ensures
            r == (days_to_resolution <= self.config.max_entry_days),
    {
        days_to_resolution <= self.config.max_entry_days
    }

    pub open spec fn capital_efficiency(
        &self,
        days: u32,
        asset: Option<AssetEntry>,
        market_type: CryptoMarketType,
        subtype: Option<CryptoEventSubtype>,
    ) -> Option<int> {
        let base = Some(
            match self.config.spec_horizon(days) {
                Horizon::Short => self.config.short_horizon_capital_efficiency_threshold@,
                Horizon::Medium => self.config.medium_horizon_capital_efficiency_threshold@,
                Horizon::Long => self.config.capital_efficiency_threshold@,
            },
        );
        match self.multiplier(asset, days, market_type, subtype, OverrideField::CapitalEfficiency) {
            None => None,
            Some(None) => base,
            Some(Some(m)) => fraction(times(base, Some(m))),
        }
    }

    pub open spec fn exit_buffer(
        &self,
        days: u32,
        asset: Option<AssetEntry>,
        market_type: CryptoMarketType,
        subtype: Option<CryptoEventSubtype>,
    ) -> Option<int> {
        let whole_buffer = bps_fraction(self.config.exit_buffer_bps as int);
        let base = match self.config.spec_horizon(days) {
            Horizon::Short => times(
                whole_buffer,
                Some(self.config.short_horizon_exit_buffer_multiplier@),
            ),
            Horizon::Medium => times(
                whole_buffer,
                Some(self.config.medium_horizon_exit_buffer_multiplier@),
            ),
            Horizon::Long => whole_buffer,
        };
        match self.multiplier(
            asset,
            days,
            market_type,
            subtype,
            OverrideField::ModelReversalBuffer,
        ) {
            None => None,
            Some(None) => base,
            Some(Some(m)) => fraction(times(base, Some(m))),
        }
    }

    /// The price from which a position no longer pays for its capital, and the margin by which the
    /// model must disagree before it is left.
    pub fn effective_exit_thresholds_for_context(
        &self,
        days_to_resolution: u32,
        asset: Option<&CryptoAsset>,
        market_type: CryptoMarketType,
        event_subtype: Option<CryptoEventSubtype>,
    ) -> (r: (Decimal, Decimal))
        requires
            self.capital_efficiency(
                days_to_resolution,
                entry_of(asset),
                market_type,
                event_subtype,
            ) is Some,
            self.exit_buffer(
                days_to_resolution,
                entry_of(asset),
                market_type,
                event_subtype,
            ) is Some,
        ensures
            self.capital_efficiency(
                days_to_resolution,
                entry_of(asset),
                market_type,
                event_subtype,
            ) == Some(r.0@),
            self.exit_buffer(
                days_to_resolution,
                entry_of(asset),
                market_type,
                event_subtype,
            ) == Some(r.1@),
    {
        let whole_buffer = bps_as_fraction(self.config.exit_buffer_bps);
        let (base_threshold, base_buffer) = match self.config.horizon(days_to_resolution) {
            Horizon::Short => (
                self.config.short_horizon_capital_efficiency_threshold,
                whole_buffer * self.config.short_horizon_exit_buffer_multiplier,
            ),
            Horizon::Medium => (
                self.config.medium_horizon_capital_efficiency_threshold,
                whole_buffer * self.config.medium_horizon_exit_buffer_multiplier,
            ),
            Horizon::Long => (self.config.capital_efficiency_threshold, whole_buffer),
        };
        let threshold = match self.override_multiplier(
            asset,
            days_to_resolution,
            market_type,
            event_subtype,
            OverrideField::CapitalEfficiency,
        ) {
            Some(m) => (base_threshold * m).min(Decimal::one()).max(Decimal::zero()),
            None => base_threshold,
        };
        let buffer = match self.override_multiplier(
            asset,
            days_to_resolution,
            market_type,
            event_subtype,
            OverrideField::ModelReversalBuffer,
        ) {
            Some(m) => (base_buffer * m).min(Decimal::one()).max(Decimal::zero()),
            None => base_buffer,
        };
        (threshold, buffer)
    }

    pub open spec fn hold_edge(
        &self,
        days: u32,
        asset: Option<AssetEntry>,
        market_type: CryptoMarketType,
        subtype: Option<CryptoEventSubtype>,
    ) -> Option<int> {
        times(
            bps_fraction(self.config.hold_min_edge_bps as int),
            scaled(
                Some(
                    by_horizon(
                        self.config,
                        days,
                        self.config.short_horizon_hold_edge_multiplier,
                        self.config.medium_horizon_hold_edge_multiplier,
                    ),
                ),
                self.multiplier(asset, days, market_type, subtype, OverrideField::HoldEdge),
            ),
        )
    }

    /// The edge below which a position is let go.
    pub fn effective_hold_edge_threshold_for_context(
        &self,
        days_to_resolution: u32,
        asset: Option<&CryptoAsset>,
        market_type: CryptoMarketType,
        event_subtype: Option<CryptoEventSubtype>,
    ) -> (r: Decimal)
        requires
            self.hold_edge(
                days_to_resolution,
                entry_of(asset),
                market_type,
                event_subtype,
            ) is Some,
        ensures
            self.hold_edge(
                days_to_resolution,
                entry_of(asset),
                market_type,
                event_subtype,
            ) == Some(r@),
    {
        let mut multiplier = self.pick_by_horizon(
            days_to_resolution,
            self.config.short_horizon_hold_edge_multiplier,
            self.config.medium_horizon_hold_edge_multiplier,
        );
        if let Some(m) = self.override_multiplier(
            asset,
            days_to_resolution,
            market_type,
            event_subtype,
            OverrideField::HoldEdge,
        ) {
            multiplier = multiplier * m;
        }
        bps_as_fraction(self.config.hold_min_edge_bps) * multiplier
    }
}

/// What is set for the horizon that so many days belong to.
pub open spec fn set_for(config: CryptoAlphaConfig, days: u32, short: int, medium: int, long: int) -> int {
    if days <= config.short_horizon_max_days {
        short
    } else if days <= config.medium_horizon_max_days {
        medium
    } else {
        long
    }
}

/// The whole number that the product of `bps` and `m` is rounded up to, up to the rounding of the last
/// digits.
pub open spec fn is_rounded_up(r: int, bps: int, m: int, k: nat) -> bool {
    r * unit() >= bps * m - pow10(k) && (r - 1) * unit() < bps * m + pow10(k)
}

/// The whole number that the product of `bps` and `m` is rounded down to, up to the rounding of the last
/// digits.
pub open spec fn is_rounded_down(r: int, bps: int, m: int, k: nat) -> bool {
    r * unit() <= bps * m + pow10(k) && (r + 1) * unit() > bps * m - pow10(k)
}

/// `r` is `n / d` held between zero and one, to within `e`.
pub open spec fn is_held(r: int, n: int, d: int, e: int) -> bool {
    &&& 0 <= r <= unit()
    &&& {
        ||| close(r, n, d, e)
        ||| r == 0 && n <= e * d
        ||| r == unit() && n >= (unit() - e) * d
    }
}

/// A multiplier between zero and seven.
pub open spec fn is_mild(m: int) -> bool {
    0 <= m <= 7 * unit()
}

/// Without an event, a market must offer the configured edge and may have the configured spread, each
/// times what is set for its horizon; the edge is rounded up and the spread down.
pub proof fn law_entry_thresholds_follow_the_horizon(
    config: CryptoAlphaConfig,
    asset: AssetEntry,
    market_type: CryptoMarketType,
    days: u32,
    k: nat,
)
    requires
        k <= 8,
        is_mild(config.short_horizon_min_edge_multiplier@),
        is_mild(config.medium_horizon_min_edge_multiplier@),
        is_mild(config.short_horizon_max_spread_multiplier@),
        is_mild(config.medium_horizon_max_spread_multiplier@),
        config.min_edge_bps <= pow10(k),
        config.max_spread_bps <= pow10(k),
    ensures
        min_edge_needed(config, asset, market_type, days, None) is Some,
        is_rounded_up(
            min_edge_needed(config, asset, market_type, days, None)->0,
            config.min_edge_bps as int,
            set_for(
                config,
                days,
                config.short_horizon_min_edge_multiplier@,
                config.medium_horizon_min_edge_multiplier@,
                unit(),
            ),
            k,
        ),
        max_spread_allowed(config, asset, market_type, days, None) is Some,
        is_rounded_down(
            max_spread_allowed(config, asset, market_type, days, None)->0,
            config.max_spread_bps as int,
            set_for(
                config,
                days,
                config.short_horizon_max_spread_multiplier@,
                config.medium_horizon_max_spread_multiplier@,
                unit(),
            ),
            k,
        ),
{
    lemma_bps_times(
        config.min_edge_bps as int,
        by_horizon(
            config,
            days,
            config.short_horizon_min_edge_multiplier,
            config.medium_horizon_min_edge_multiplier,
        ),
        k,
    );
    lemma_bps_times(
        config.max_spread_bps as int,
        by_horizon(
            config,
            days,
            config.short_horizon_max_spread_multiplier,
            config.medium_horizon_max_spread_multiplier,
        ),
        k,
    );
}

/// An event multiplies the edge that a market must offer without it, and the spread that the market may
/// have without it, by what is set for its impact, and by what the calibration table gives, if it does.
pub proof fn law_event_moves_entry_thresholds(
    config: CryptoAlphaConfig,
    asset: AssetEntry,
    market_type: CryptoMarketType,
    days: u32,
    event: CalendarEvent,
    k: nat,
)
    requires
        k <= 8,
        is_mild(config.low_event_min_edge_multiplier@),
        is_mild(config.medium_event_min_edge_multiplier@),
        is_mild(config.high_event_min_edge_multiplier@),
        is_mild(config.low_event_max_spread_multiplier@),
        is_mild(config.medium_event_max_spread_multiplier@),
        is_mild(config.high_event_max_spread_multiplier@),
        min_edge_needed(config, asset, market_type, days, None) is Some,
        max_spread_allowed(config, asset, market_type, days, None) is Some,
        0 <= min_edge_needed(config, asset, market_type, days, None)->0 <= pow10(k),
        0 <= max_spread_allowed(config, asset, market_type, days, None)->0 <= pow10(k),
    ensures
        ({
            let c = override_context(config, asset, days, market_type, subtype_of_event(event));
            let edge = min_edge_needed(config, asset, market_type, days, Some(event));
            let plain_edge = min_edge_needed(config, asset, market_type, days, None)->0;
            let spread = max_spread_allowed(config, asset, market_type, days, Some(event));
            let plain_spread = max_spread_allowed(config, asset, market_type, days, None)->0;
            let edge_multiplier = match event.impact {
                EventImpact::Low => config.low_event_min_edge_multiplier@,
                EventImpact::Medium => config.medium_event_min_edge_multiplier@,
                EventImpact::High => config.high_event_min_edge_multiplier@,
            };
            let spread_multiplier = match event.impact {
                EventImpact::Low => config.low_event_max_spread_multiplier@,
                EventImpact::Medium => config.medium_event_max_spread_multiplier@,
                EventImpact::High => config.high_event_max_spread_multiplier@,
            };
            &&& table_value(config, c, OverrideField::MinEdge) is None ==> edge is Some
                && is_rounded_up(edge->0, plain_edge, edge_multiplier, k)
            &&& table_value(config, c, OverrideField::MaxSpread) is None ==> spread is Some
                && is_rounded_down(spread->0, plain_spread, spread_multiplier, k)
            &&& table_value(config, c, OverrideField::MinEdge) matches Some(given) ==> (0 <= given@
                <= unit() ==> edge is Some && exists|m: int|
                close(m, edge_multiplier * given@, unit(), 1) && #[trigger] is_rounded_up(
                    edge->0,
                    plain_edge,
                    m,
                    k,
                ))
            &&& table_value(config, c, OverrideField::MaxSpread) matches Some(given) ==> (0
                <= given@ <= unit() ==> spread is Some && exists|m: int|
                close(m, spread_multiplier * given@, unit(), 1) && #[trigger] is_rounded_down(
                    spread->0,
                    plain_spread,
                    m,
                    k,
                ))
        }),
{
    let c = override_context(config, asset, days, market_type, subtype_of_event(event));
    let plain_edge = min_edge_needed(config, asset, market_type, days, None)->0;
    let plain_spread = max_spread_allowed(config, asset, market_type, days, None)->0;
    let edge_multiplier = by_impact(
        event.impact,
        config.low_event_min_edge_multiplier,
        config.medium_event_min_edge_multiplier,
        config.high_event_min_edge_multiplier,
    );
    let spread_multiplier = by_impact(
        event.impact,
        config.low_event_max_spread_multiplier,
        config.medium_event_max_spread_multiplier,
        config.high_event_max_spread_multiplier,
    );
    lemma_bps_times(plain_edge, edge_multiplier, k);
    lemma_bps_times(plain_spread, spread_multiplier, k);
    if table_value(config, c, OverrideField::MinEdge) is Some {
        let given = table_value(config, c, OverrideField::MinEdge)->0@;
        if 0 <= given <= unit() {
            lemma_mild_part(edge_multiplier, given);
            let m = product(edge_multiplier, given)->0;
            lemma_bps_times(plain_edge, m, k);
            assert(is_rounded_up(
                min_edge_needed(config, asset, market_type, days, Some(event))->0,
                plain_edge,
                m,
                k,
            ));
        }
    }
    if table_value(config, c, OverrideField::MaxSpread) is Some {
        let given = table_value(config, c, OverrideField::MaxSpread)->0@;
        if 0 <= given <= unit() {
            lemma_mild_part(spread_multiplier, given);
            let m = product(spread_multiplier, given)->0;
            lemma_bps_times(plain_spread, m, k);
            assert(is_rounded_down(
                max_spread_allowed(config, asset, market_type, days, Some(event))->0,
                plain_spread,
                m,
                k,
            ));
        }
    }
}

proof fn lemma_bps_times(bps: int, m: int, k: nat)
    requires
        k <= 8,
        0 <= bps <= pow10(k),
        is_mild(m),
    ensures
        raised(Some(bps), Some(m)) is Some,
        is_rounded_up(raised(Some(bps), Some(m))->0, bps, m, k),
        lowered(Some(bps), Some(m)) is Some,
        is_rounded_down(lowered(Some(bps), Some(m))->0, bps, m, k),
{
    let u = unit();
    let p = pow10(k);
    lemma_pow10_below_unit(k);
    assert(p <= 100_000_000) by {
        reveal_with_fuel(pow10, 9);
    }
    assert(0 <= bps * m <= 7 * p * u) by (nonlinear_arith)
        requires
            0 <= bps <= p,
            0 <= m <= 7 * u,
            u > 0,
    ;
    assert(whole(bps) * m == (bps * m) * u) by (nonlinear_arith)
        requires
            whole(bps) == bps * u,
    ;
    assert(0 <= (bps * m) * u <= 7 * p * (u * u)) by (nonlinear_arith)
        requires
            0 <= bps * m <= 7 * p * u,
            u > 0,
    ;
    lemma_product_close(whole(bps), m, k);
    let v = product(whole(bps), m)->0;
    assert(-p <= 2 * (v - bps * m) <= p) by (nonlinear_arith)
        requires
            2 * (v * u - (bps * m) * u) <= p * u,
            2 * ((bps * m) * u - v * u) <= p * u,
            u > 0,
    {
        assert((2 * (v - bps * m)) * u <= p * u);
        assert((2 * (v - bps * m)) * u >= (-p) * u);
    }
    lemma_whole_representable(0);
    law_arithmetic_keeps_order(whole(bps), m, 0);
    reveal(floor_of);
    reveal(ceil_of);
    let down = v / u;
    let up = -((-v) / u);
    assert(down * u <= v < (down + 1) * u && (up - 1) * u < v <= up * u) by (nonlinear_arith)
        requires
            down == v / u,
            up == -((-v) / u),
            u > 0,
    ;
    assert(down >= 0 && up >= 0 && down <= u32::MAX && up <= u32::MAX) by (nonlinear_arith)
        requires
            down * u <= v < (down + 1) * u,
            (up - 1) * u < v <= up * u,
            0 <= v <= 700_000_000 * u + 100_000_000,
            u > 100_000_000,
    ;
    assert(7 * p * u <= 700_000_000 * u) by (nonlinear_arith)
        requires
            p <= 100_000_000,
            u > 0,
    ;
    lemma_div_multiples(down, u);
    lemma_div_multiples(up, u);
}

pub proof fn lemma_div_multiples(n: int, u: int)
    requires
        u > 0,
    ensures
        (n * u) / u == n,
        n >= 0 ==> n * u >= 0,
{
    vstd::arithmetic::div_mod::lemma_div_multiples_vanish(n, u);
    assert(u * n == n * u) by (nonlinear_arith);
    assert(n >= 0 ==> n * u >= 0) by (nonlinear_arith)
        requires
            u > 0,
    ;
}

/// A part of a mild multiplier is mild too.
pub proof fn lemma_mild_part(m: int, part: int)
    requires
        is_mild(m),
        0 <= part <= unit(),
    ensures
        product(m, part) is Some,
        is_mild(product(m, part)->0),
        close(product(m, part)->0, m * part, unit(), 1),
{
    let u = unit();
    assert(pow10(0) == 1);
    assert(0 <= m * part <= (7 * u) * u && (7 * u) * u == 7 * 1 * (u * u)) by (nonlinear_arith)
        requires
            0 <= m <= 7 * u,
            0 <= part <= u,
    ;
    lemma_product_close(m, part, 0);
    lemma_whole_representable(0);
    lemma_whole_representable(7);
    law_arithmetic_keeps_order(m, part, 0);
    law_arithmetic_keeps_order(m, part, 7 * u);
}

/// The product of two mild multipliers is kept to within ten of the last digit.
pub proof fn lemma_mild_product(a: int, b: int)
    requires
        is_mild(a),
        is_mild(b),
    ensures
        product(a, b) is Some,
        0 <= product(a, b)->0 <= 49 * unit(),
        close(product(a, b)->0, a * b, unit(), 10),
{
    let u = unit();
    assert(pow10(1) == 10) by {
        reveal_with_fuel(pow10, 2);
    }
    assert(0 <= a * b <= (49 * u) * u && (49 * u) * u <= 7 * 10 * (u * u)) by (nonlinear_arith)
        requires
            0 <= a <= 7 * u,
            0 <= b <= 7 * u,
            u > 0,
    ;
    lemma_product_close(a, b, 1);
    lemma_whole_representable(0);
    lemma_whole_representable(49);
    law_arithmetic_keeps_order(a, b, 0);
    law_arithmetic_keeps_order(a, b, 49 * u);
}

/// An event widens the modelled volatility by what is set for its impact times what is set for its
/// category, but never narrows it; it leaves of a position the like product, but never more than all of
/// it. What is set for macro events counts for the majors only, and other categories count for nothing.
pub proof fn law_event_widens_and_shrinks(
    config: CryptoAlphaConfig,
    asset: AssetEntry,
    event: CalendarEvent,
)
    requires
        is_mild(config.low_event_sigma_multiplier@),
        is_mild(config.medium_event_sigma_multiplier@),
        is_mild(config.high_event_sigma_multiplier@),
        is_mild(config.macro_event_sigma_multiplier@),
        is_mild(config.crypto_event_sigma_multiplier@),
        is_mild(config.low_event_size_multiplier@),
        is_mild(config.medium_event_size_multiplier@),
        is_mild(config.high_event_size_multiplier@),
        is_mild(config.macro_event_size_multiplier@),
        is_mild(config.crypto_event_size_multiplier@),
    ensures
        event_sigma(config, asset, None) == Some(unit()),
        event_size(config, asset, None) == Some(unit()),
        ({
            let major = asset.binance_symbol == "BTCUSDT"@ || asset.binance_symbol == "ETHUSDT"@;
            let for_sigma = match event.impact {
                EventImpact::Low => config.low_event_sigma_multiplier@,
                EventImpact::Medium => config.medium_event_sigma_multiplier@,
                EventImpact::High => config.high_event_sigma_multiplier@,
            } * if event.category == EventCategory::Crypto {
                config.crypto_event_sigma_multiplier@
            } else if event.category == EventCategory::Macro && major {
                config.macro_event_sigma_multiplier@
            } else {
                unit()
            };
            let for_size = match event.impact {
                EventImpact::Low => config.low_event_size_multiplier@,
                EventImpact::Medium => config.medium_event_size_multiplier@,
                EventImpact::High => config.high_event_size_multiplier@,
            } * if event.category == EventCategory::Crypto {
                config.crypto_event_size_multiplier@
            } else if event.category == EventCategory::Macro && major {
                config.macro_event_size_multiplier@
            } else {
                unit()
            };
            let sigma = event_sigma(config, asset, Some(event));
            let size = event_size(config, asset, Some(event));
            &&& sigma is Some && sigma->0 >= unit()
            &&& close(sigma->0, for_sigma, unit(), 10) || (sigma->0 == unit() && for_sigma
                <= unit() * unit() + 10 * unit())
            &&& size is Some && is_held(size->0, for_size, unit(), 10)
        }),
{
    let u = unit();
    let a = by_impact(
        event.impact,
        config.low_event_sigma_multiplier,
        config.medium_event_sigma_multiplier,
        config.high_event_sigma_multiplier,
    );
    let b = category_multiplier(
        event,
        asset,
        config.macro_event_sigma_multiplier,
        config.crypto_event_sigma_multiplier,
    );
    lemma_mild_product(a, b);
    let widened = product(a, b)->0;
    assert(widened < u ==> a * b <= u * u + 10 * u) by (nonlinear_arith)
        requires
            a * b - widened * u <= 10 * u,
            u > 0,
    {
        if widened < u {
            assert(widened * u <= u * u);
        }
    }
    let c = by_impact(
        event.impact,
        config.low_event_size_multiplier,
        config.medium_event_size_multiplier,
        config.high_event_size_multiplier,
    );
    let d = category_multiplier(
        event,
        asset,
        config.macro_event_size_multiplier,
        config.crypto_event_size_multiplier,
    );
    lemma_mild_product(c, d);
    lemma_held(product(c, d)->0, c * d, u, 10);
}

/// Holding between zero and one what is close to a quotient.
pub proof fn lemma_held(v: int, n: int, d: int, e: int)
    requires
        close(v, n, d, e),
        d > 0,
    ensures
        fraction(Some(v)) is Some,
        is_held(fraction(Some(v))->0, n, d, e),
{
    let u = unit();
    assert(v < 0 ==> n <= e * d) by (nonlinear_arith)
        requires
            n - v * d <= e * d,
            d > 0,
    {
        if v < 0 {
            assert(v * d <= 0);
        }
    }
    assert(v > u ==> n >= (u - e) * d) by (nonlinear_arith)
        requires
            v * d - n <= e * d,
            d > 0,
    {
        if v > u {
            assert(v * d >= u * d);
            assert((u - e) * d == u * d - e * d);
        }
    }
}

/// What is left of a position is what the event leaves times what the horizon does, times what the table
/// gives, held between zero and one. The horizon itself leaves what is set for it, held likewise.
pub proof fn law_position_is_shrunk_by_all_three(
    strategy: CryptoAlphaStrategy,
    asset: AssetEntry,
    days: u32,
    market_type: CryptoMarketType,
    event: Option<CalendarEvent>,
)
    requires
        event_size(strategy.config, asset, event) is Some,
        0 <= event_size(strategy.config, asset, event)->0 <= unit(),
        strategy.size_multiplier(asset, days, market_type, event_subtype(event)) is Some,
        strategy.size_multiplier(asset, days, market_type, event_subtype(event))->0 matches Some(m)
            ==> is_mild(m),
    ensures
        ({
            let kept = event_size(strategy.config, asset, event)->0;
            let near = horizon_size(strategy.config, days);
            let left = strategy.size_share(asset, days, market_type, event);
            let given = strategy.size_multiplier(asset, days, market_type, event_subtype(event))->0;
            let set = set_for(
                strategy.config,
                days,
                strategy.config.short_horizon_size_multiplier@,
                strategy.config.medium_horizon_size_multiplier@,
                unit(),
            );
            &&& near == if set < 0 {
                0
            } else if set > unit() {
                unit()
            } else {
                set
            }
            &&& left is Some
            &&& given is None ==> is_held(left->0, kept * near, unit(), 2)
            &&& given is Some ==> is_held(
                left->0,
                (kept * near) * given->0,
                unit() * unit(),
                20,
            )
        }),
{
    let u = unit();
    let kept = event_size(strategy.config, asset, event)->0;
    let near = horizon_size(strategy.config, days);
    let given = strategy.size_multiplier(asset, days, market_type, event_subtype(event))->0;
    lemma_mild_part(kept, near);
    let both = product(kept, near)->0;
    lemma_whole_representable(1);
    assert(kept * near <= u * u) by (nonlinear_arith)
        requires
            0 <= kept <= u,
            0 <= near <= u,
    ;
    law_arithmetic_keeps_order(kept, near, u);
    assert(pow10(1) == 10) by {
        reveal_with_fuel(pow10, 2);
    }
    let m = match given {
        Some(m) => m,
        None => u,
    };
    assert(0 <= both * m <= 7 * 10 * (u * u)) by (nonlinear_arith)
        requires
            0 <= both <= u,
            0 <= m <= 7 * u,
            u > 0,
    ;
    lemma_close_times(both, kept * near, u, 1, m, 7, 1);
    let all = product(both, m)->0;
    let n = (kept * near) * m;
    let d = u * u;
    assert(d > 0) by (nonlinear_arith)
        requires
            d == u * u,
            u > 0,
    ;
    assert(close(all, n, d, 20)) by (nonlinear_arith)
        requires
            close(all, n, d, 17),
            d > 0,
    ;
    lemma_held(all, n, d, 20);
    if given is None {
        assert(pow10(0) == 1);
        assert(0 <= both * u <= 7 * 1 * (u * u)) by (nonlinear_arith)
            requires
                0 <= both <= u,
        ;
        lemma_product_close(both, u, 0);
        assert(all == both) by (nonlinear_arith)
            requires
                2 * (all * u - both * u) <= 1 * u,
                2 * (both * u - all * u) <= 1 * u,
                u > 0,
        {
            if all > both {
                assert(all * u >= both * u + u);
            }
            if all < both {
                assert(both * u >= all * u + u);
            }
        }
        assert(close(both, kept * near, u, 2)) by (nonlinear_arith)
            requires
                close(both, kept * near, u, 1),
                u > 0,
        ;
        lemma_held(both, kept * near, u, 2);
    }
}

/// A position no longer pays for its capital from the price that is set for its horizon on, times what
/// the table gives, held between zero and one. The model must disagree by the configured basis points
/// times what is set for the horizon, and a position is let go below the configured edge times what is
/// set for it; the table multiplies both.
pub proof fn law_exit_thresholds_follow_the_horizon(
    strategy: CryptoAlphaStrategy,
    days: u32,
    asset: Option<AssetEntry>,
    market_type: CryptoMarketType,
    subtype: Option<CryptoEventSubtype>,
)
    requires
        is_mild(strategy.config.short_horizon_capital_efficiency_threshold@),
        is_mild(strategy.config.medium_horizon_capital_efficiency_threshold@),
        is_mild(strategy.config.capital_efficiency_threshold@),
        is_mild(strategy.config.short_horizon_exit_buffer_multiplier@),
        is_mild(strategy.config.medium_horizon_exit_buffer_multiplier@),
        is_mild(strategy.config.short_horizon_hold_edge_multiplier@),
        is_mild(strategy.config.medium_horizon_hold_edge_multiplier@),
        strategy.config.exit_buffer_bps <= 10000,
        strategy.config.hold_min_edge_bps <= 10000,
    ensures
        ({
            let u = unit();
            let c = strategy.config;
            let price = set_for(
                c,
                days,
                c.short_horizon_capital_efficiency_threshold@,
                c.medium_horizon_capital_efficiency_threshold@,
                c.capital_efficiency_threshold@,
            );
            let given = strategy.multiplier(
                asset,
                days,
                market_type,
                subtype,
                OverrideField::CapitalEfficiency,
            );
            let found = strategy.capital_efficiency(days, asset, market_type, subtype);
            &&& given == Some(None::<int>) ==> found == Some(price)
            &&& given matches Some(Some(m)) ==> (is_mild(m) ==> found is Some && is_held(
                found->0,
                price * m,
                u,
                10,
            ))
        }),
        ({
            let u = unit();
            let c = strategy.config;
            let margin = c.exit_buffer_bps * set_for(
                c,
                days,
                c.short_horizon_exit_buffer_multiplier@,
                c.medium_horizon_exit_buffer_multiplier@,
                u,
            );
            let given = strategy.multiplier(
                asset,
                days,
                market_type,
                subtype,
                OverrideField::ModelReversalBuffer,
            );
            let found = strategy.exit_buffer(days, asset, market_type, subtype);
            &&& given == Some(None::<int>) ==> found is Some && close(found->0, margin, 10000, 2)
            &&& given matches Some(Some(m)) ==> (is_mild(m) ==> found is Some && is_held(
                found->0,
                margin * m,
                10000 * u,
                20,
            ))
        }),
        ({
            let u = unit();
            let c = strategy.config;
            let set = set_for(
                c,
                days,
                c.short_horizon_hold_edge_multiplier@,
                c.medium_horizon_hold_edge_multiplier@,
                u,
            );
            let given = strategy.multiplier(
                asset,
                days,
                market_type,
                subtype,
                OverrideField::HoldEdge,
            );
            let found = strategy.hold_edge(days, asset, market_type, subtype);
            &&& given == Some(None::<int>) ==> found is Some && close(
                found->0,
                c.hold_min_edge_bps * set,
                10000,
                2,
            )
            &&& given matches Some(Some(m)) ==> (is_mild(m) ==> found is Some && close(
                found->0,
                c.hold_min_edge_bps * (set * m),
                10000 * u,
                20,
            ))
        }),
{
    let u = unit();
    let c = strategy.config;
    let price = set_for(
        c,
        days,
        c.short_horizon_capital_efficiency_threshold@,
        c.medium_horizon_capital_efficiency_threshold@,
        c.capital_efficiency_threshold@,
    );
    let for_price = strategy.multiplier(
        asset,
        days,
        market_type,
        subtype,
        OverrideField::CapitalEfficiency,
    );
    if for_price is Some && for_price->0 is Some && is_mild(for_price->0->0) {
        let m = for_price->0->0;
        lemma_mild_product(price, m);
        lemma_held(product(price, m)->0, price * m, u, 10);
    }
    let set = set_for(
        c,
        days,
        c.short_horizon_exit_buffer_multiplier@,
        c.medium_horizon_exit_buffer_multiplier@,
        u,
    );
    let bps = c.exit_buffer_bps as int;
    lemma_bps_part(bps, set);
    let bare = bps_fraction(bps)->0;
    let margin = product(bare, set)->0;
    let for_margin = strategy.multiplier(
        asset,
        days,
        market_type,
        subtype,
        OverrideField::ModelReversalBuffer,
    );
    assert(days > c.short_horizon_max_days && days > c.medium_horizon_max_days ==> margin == bare)
        by {
        lemma_times_one(bare);
    }
    if for_margin is Some && for_margin->0 is Some && is_mild(for_margin->0->0) {
        let m = for_margin->0->0;
        lemma_mild_product(margin, m);
        assert(pow10(1) == 10) by {
            reveal_with_fuel(pow10, 2);
        }
        assert(0 <= margin * m <= 7 * 10 * (u * u)) by (nonlinear_arith)
            requires
                0 <= margin <= 7 * u,
                0 <= m <= 7 * u,
                u > 0,
        ;
        lemma_close_times(margin, bps * set, 10000, 1, m, 7, 1);
        let d = 10000 * u;
        assert(close(product(margin, m)->0, (bps * set) * m, d, 20)) by (nonlinear_arith)
            requires
                close(product(margin, m)->0, (bps * set) * m, d, 17),
                d > 0,
        ;
        lemma_held(product(margin, m)->0, (bps * set) * m, d, 20);
    }
    let held = set_for(
        c,
        days,
        c.short_horizon_hold_edge_multiplier@,
        c.medium_horizon_hold_edge_multiplier@,
        u,
    );
    let edge = c.hold_min_edge_bps as int;
    lemma_bps_part(edge, held);
    let for_edge = strategy.multiplier(asset, days, market_type, subtype, OverrideField::HoldEdge);
    if for_edge is Some && for_edge->0 is Some && is_mild(for_edge->0->0) {
        let m = for_edge->0->0;
        lemma_bps_parts(edge, held, m);
    }
}

pub proof fn lemma_times_one(v: int)
    requires
        0 <= v <= unit(),
    ensures
        product(v, unit()) == Some(v),
{
    let u = unit();
    assert(pow10(0) == 1);
    assert(0 <= v * u <= 7 * 1 * (u * u)) by (nonlinear_arith)
        requires
            0 <= v <= u,
    ;
    lemma_product_close(v, u, 0);
    let x = product(v, u)->0;
    assert(x == v) by (nonlinear_arith)
        requires
            2 * (x * u - v * u) <= 1 * u,
            2 * (v * u - x * u) <= 1 * u,
            u > 0,
    {
        if x > v {
            assert(x * u >= v * u + u);
        }
        if x < v {
            assert(v * u >= x * u + u);
        }
    }
}

/// So many basis points of a mild multiplier.
proof fn lemma_bps_part(bps: int, m: int)
    requires
        0 <= bps <= 10000,
        is_mild(m),
    ensures
        bps_fraction(bps) is Some,
        0 <= bps_fraction(bps)->0 <= unit(),
        product(bps_fraction(bps)->0, m) is Some,
        is_mild(product(bps_fraction(bps)->0, m)->0),
        close(product(bps_fraction(bps)->0, m)->0, bps * m, 10000, 1),
        close(product(bps_fraction(bps)->0, m)->0, bps * m, 10000, 2),
{
    let u = unit();
    law_basis_points_are_ten_thousandths(bps as u32);
    let f = bps_fraction(bps)->0;
    assert(f * 10000 == bps * u);
    lemma_mild_part(m, f);
    lemma_product_swap(m, f);
    let x = product(f, m)->0;
    assert(close(x, bps * m, 10000, 1) && close(x, bps * m, 10000, 2)) by (nonlinear_arith)
        requires
            close(x, m * f, u, 1),
            f * 10000 == bps * u,
            u > 0,
    {
        assert((m * f) * 10000 == (bps * m) * u);
        assert((x * u - m * f) * 10000 <= u * 10000);
        assert((m * f - x * u) * 10000 <= u * 10000);
        assert((x * 10000 - bps * m) * u <= 10000 * u);
        assert((bps * m - x * 10000) * u <= 10000 * u);
    }
}

/// So many basis points of the product of two mild multipliers.
proof fn lemma_bps_parts(bps: int, a: int, b: int)
    requires
        0 <= bps <= 10000,
        is_mild(a),
        is_mild(b),
    ensures
        product(a, b) is Some,
        bps_fraction(bps) is Some,
        product(bps_fraction(bps)->0, product(a, b)->0) is Some,
        close(
            product(bps_fraction(bps)->0, product(a, b)->0)->0,
            bps * (a * b),
            10000 * unit(),
            20,
        ),
{
    let u = unit();
    law_basis_points_are_ten_thousandths(bps as u32);
    let f = bps_fraction(bps)->0;
    lemma_mild_product(a, b);
    let v = product(a, b)->0;
    assert(pow10(1) == 10) by {
        reveal_with_fuel(pow10, 2);
    }
    assert(0 <= v * f <= 7 * 10 * (u * u)) by (nonlinear_arith)
        requires
            0 <= v <= 49 * u,
            0 <= f <= u,
            u > 0,
    ;
    lemma_close_times(v, a * b, u, 10, f, 1, 1);
    lemma_product_swap(v, f);
    let x = product(f, v)->0;
    let n = a * b;
    assert(close(x, bps * n, 10000 * u, 20)) by (nonlinear_arith)
        requires
            close(x, n * f, u * u, 20),
            f * 10000 == bps * u,
            u > 0,
    {
        assert((n * f) * 10000 == (bps * n) * u);
        assert((x * (u * u) - n * f) * 10000 <= (20 * (u * u)) * 10000);
        assert((n * f - x * (u * u)) * 10000 <= (20 * (u * u)) * 10000);
        assert((x * (10000 * u) - bps * n) * u <= (20 * (10000 * u)) * u);
        assert((bps * n - x * (10000 * u)) * u <= (20 * (10000 * u)) * u);
    }
}

} // verus!
