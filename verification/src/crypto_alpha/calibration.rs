//! The calibration table: which row applies to a market, and what it changes.
use crate::crypto_alpha::assets::CryptoAsset;
use crate::crypto_alpha::config::{
    CryptoAlphaConfig, CryptoCalibrationOverride, Horizon, OverrideField,
};
use crate::crypto_alpha::labels::{
    asset_class_selector, event_subtype_selector, CryptoEventSubtype, CryptoMarketType,
};
use crate::crypto_alpha::strategy::CryptoAlphaStrategy;
use crate::decimal::Decimal;
use crate::profitability::bps_as_fraction;
use crate::text;
use vstd::prelude::*;

verus! {

use crate::crypto_alpha::assets::AssetEntry;
use crate::crypto_alpha::labels::{asset_class, market_type_label, subtype_selector};
use crate::profitability::{bps_fraction, law_basis_points_are_ten_thousandths};
use crate::rounding::{
    at_least, at_most, close, lemma_product_close, lemma_sum_close, magnitude, minus, plus, pow10,
    product, times, unit,
};
use crate::types::figure;

/// What the selectors of a row are held against.
pub struct OverrideContext {
    pub symbol: Seq<char>,
    pub class: Seq<char>,
    pub horizon: Seq<char>,
    pub market_type: Seq<char>,
    pub subtype: Seq<char>,
}

pub open spec fn horizon_label(horizon: Horizon) -> Seq<char> {
    match horizon {
        Horizon::Short => "short"@,
        Horizon::Medium => "medium"@,
        Horizon::Long => "long"@,
    }
}

/// The context of a market.
pub open spec fn override_context(
    config: CryptoAlphaConfig,
    asset: AssetEntry,
    days: u32,
    market_type: CryptoMarketType,
    subtype: Option<CryptoEventSubtype>,
) -> OverrideContext {
    OverrideContext {
        symbol: asset.binance_symbol,
        class: asset_class(asset),
        horizon: horizon_label(config.spec_horizon(days)),
        market_type: market_type_label(market_type),
        subtype: subtype_selector(subtype),
    }
}

/// A selector takes the value: it is empty, `any`, or the value itself.
pub open spec fn selects(selector: Seq<char>, value: Seq<char>) -> bool {
    ||| selector.len() == 0
    ||| text::same_ignoring_case(selector, "any"@)
    ||| text::same_ignoring_case(selector, value)
}

/// A selector names the value, and not just anything.
pub open spec fn names_exactly(selector: Seq<char>, value: Seq<char>) -> bool {
    &&& !(selector.len() == 0 || selector == "*"@ || text::same_ignoring_case(selector, "any"@))
    &&& text::same_ignoring_case(selector, value)
}

/// The row applies in the context.
pub open spec fn applies(row: CryptoCalibrationOverride, context: OverrideContext) -> bool {
    &&& row.asset@.len() == 0 || row.asset@ == "*"@ || text::same_ignoring_case(
        row.asset@,
        context.symbol,
    )
    &&& selects(row.asset_class@, context.class)
    &&& selects(row.horizon@, context.horizon)
    &&& selects(row.market_type@, context.market_type)
    &&& selects(row.event_subtype@, context.subtype)
}

/// How specific a row is: an asset counts for more than a class, a class for more than a horizon,
/// that for more than a market type, and that for more than an event subtype.
pub open spec fn specificity(row: CryptoCalibrationOverride, context: OverrideContext) -> int {
    (if row.asset@.len() == 0 || row.asset@ == "*"@ {
        0int
    } else {
        16
    }) + (if names_exactly(row.asset_class@, context.class) {
        8int
    } else {
        0
    }) + (if names_exactly(row.horizon@, context.horizon) {
        4int
    } else {
        0
    }) + (if names_exactly(row.market_type@, context.market_type) {
        2int
    } else {
        0
    }) + (if names_exactly(row.event_subtype@, context.subtype) {
        1int
    } else {
        0
    })
}

/// The row applies and has a value in the column.
pub open spec fn offers(
    row: CryptoCalibrationOverride,
    context: OverrideContext,
    field: OverrideField,
) -> bool {
    applies(row, context) && row.column(field) is Some
}

/// The place of the row to use among the first `n`: the most specific of those that offer a value,
/// the first of several that are equally specific.
pub open spec fn best_row(
    rows: Seq<CryptoCalibrationOverride>,
    context: OverrideContext,
    field: OverrideField,
    n: nat,
) -> Option<int>
    decreases n,
{
    if n == 0 {
        None
    } else {
        let before = best_row(rows, context, field, (n - 1) as nat);
        if offers(rows[n - 1], context, field) && (before is None || specificity(
            rows[n - 1],
            context,
        ) > specificity(rows[before->0], context)) {
            Some(n - 1)
        } else {
            before
        }
    }
}

/// The value that the table gives in the context.
pub open spec fn table_value(
    config: CryptoAlphaConfig,
    context: OverrideContext,
    field: OverrideField,
) -> Option<Decimal> {
    let rows = config.calibration_overrides@;
    match best_row(rows, context, field, rows.len()) {
        Some(i) => rows[i].column(field),
        None => None,
    }
}

/// The row that is used offers a value; no row that does is more specific, and none before it is
/// as specific. If no row is used, none offers a value.
pub proof fn law_most_specific_row_wins(
    rows: Seq<CryptoCalibrationOverride>,
    context: OverrideContext,
    field: OverrideField,
    n: nat,
)
    requires
        n <= rows.len(),
    ensures
        match best_row(rows, context, field, n) {
            Some(i) => {
                &&& 0 <= i < n
                &&& offers(rows[i], context, field)
                &&& forall|j: int|
                    0 <= j < n && offers(#[trigger] rows[j], context, field) ==> specificity(
                        rows[j],
                        context,
                    ) <= specificity(rows[i], context)
                &&& forall|j: int|
                    0 <= j < i && offers(#[trigger] rows[j], context, field) ==> specificity(
                        rows[j],
                        context,
                    ) < specificity(rows[i], context)
            },
            None => forall|j: int| 0 <= j < n ==> !offers(#[trigger] rows[j], context, field),
        },
    decreases n,
{
    if n > 0 {
        law_most_specific_row_wins(rows, context, field, (n - 1) as nat);
    }
}

/// A value held between zero and one.
pub open spec fn fraction(v: Option<int>) -> Option<int> {
    at_least(at_most(v, Some(unit())), Some(0))
}

/// An overriding multiplier, blended with one and held within the allowed distance from one.
pub open spec fn guarded(config: CryptoAlphaConfig, v: int) -> Option<int> {
    let one = Some(unit());
    let blended = plus(
        one,
        times(minus(Some(v), one), fraction(Some(config.override_multiplier_blend@))),
    );
    let delta = bps_fraction(config.override_multiplier_max_delta_bps as int);
    at_most(at_least(blended, minus(one, delta)), plus(one, delta))
}

/// The multiplier that the table gives in the context, guarded and not below zero: `Some(None)`
/// where it gives none.
pub open spec fn table_multiplier(
    config: CryptoAlphaConfig,
    context: OverrideContext,
    field: OverrideField,
) -> Option<Option<int>> {
    match table_value(config, context, field) {
        None => Some(None),
        Some(v) => match at_least(guarded(config, v@), Some(0)) {
            Some(m) => Some(Some(m)),
            None => None,
        },
    }
}

/// What is known of an asset that may not be known.
pub open spec fn entry_of(asset: Option<&CryptoAsset>) -> Option<AssetEntry> {
    match asset {
        Some(a) => Some(a@),
        None => None,
    }
}

/// `v` times the multiplier, where there is one.
pub open spec fn scaled(v: Option<int>, multiplier: Option<Option<int>>) -> Option<int> {
    match multiplier {
        None => None,
        Some(None) => v,
        Some(Some(m)) => times(v, Some(m)),
    }
}

fn selector_takes(selector: &String, value: &str) -> (r: bool)
    ensures
        r == selects(selector@, value@),
{
    selector.as_str().is_empty() || text::eq_ignore_case(selector.as_str(), "any")
        || text::eq_ignore_case(selector.as_str(), value)
}

fn selector_names(selector: &String, value: &str) -> (r: bool)
    ensures
        r == names_exactly(selector@, value@),
{
    !(selector.as_str().is_empty() || text::same_text(selector.as_str(), "*")
        || text::eq_ignore_case(selector.as_str(), "any")) && text::eq_ignore_case(
        selector.as_str(),
        value,
    )
}

/// How specific a row is in the context.
pub fn specificity_score(
    entry: &CryptoCalibrationOverride,
    asset_class: &str,
    horizon: &str,
    market_type: &str,
    event_subtype: &str,
) -> (r: u32)
    ensures
        forall|symbol: Seq<char>|
            r == #[trigger] specificity(
                *entry,
                (OverrideContext {
                    symbol,
                    class: asset_class@,
                    horizon: horizon@,
                    market_type: market_type@,
                    subtype: event_subtype@,
                }),
            ),
{
    let asset_score: u32 = if entry.asset.as_str().is_empty() || text::same_text(
        entry.asset.as_str(),
        "*",
    ) {
        0
    } else {
        16
    };
    let asset_class_score: u32 = if selector_names(&entry.asset_class, asset_class) {
        8
    } else {
        0
    };
    let horizon_score: u32 = if selector_names(&entry.horizon, horizon) {
        4
    } else {
        0
    };
    let market_type_score: u32 = if selector_names(&entry.market_type, market_type) {
        2
    } else {
        0
    };
    let event_subtype_score: u32 = if selector_names(&entry.event_subtype, event_subtype) {
        1
    } else {
        0
    };
    asset_score + asset_class_score + horizon_score + market_type_score + event_subtype_score
}

fn row_applies(
    entry: &CryptoCalibrationOverride,
    symbol: &str,
    asset_class: &str,
    horizon: &str,
    market_type: &str,
    event_subtype: &str,
) -> (r: bool)
    ensures
        r == applies(
            *entry,
            (OverrideContext {
                symbol: symbol@,
                class: asset_class@,
                horizon: horizon@,
                market_type: market_type@,
                subtype: event_subtype@,
            }),
        ),
{
    let asset_match = entry.asset.as_str().is_empty() || text::same_text(entry.asset.as_str(), "*")
        || text::eq_ignore_case(entry.asset.as_str(), symbol);
    asset_match && selector_takes(&entry.asset_class, asset_class) && selector_takes(
        &entry.horizon,
        horizon,
    ) && selector_takes(&entry.market_type, market_type) && selector_takes(
        &entry.event_subtype,
        event_subtype,
    )
}

impl CryptoAlphaStrategy {
    pub fn horizon_bucket(&self, days_to_resolution: u32) -> (r: &'static str)
        ensures
            r@ == horizon_label(self.config.spec_horizon(days_to_resolution)),
    {
        match self.config.horizon(days_to_resolution) {
            Horizon::Short => "short",
            Horizon::Medium => "medium",
            Horizon::Long => "long",
        }
    }

    /// The value that the calibration table gives for a market.
    pub fn calibration_override_value(
        &self,
        asset: &CryptoAsset,
        days_to_resolution: u32,
        market_type: CryptoMarketType,
        event_subtype: Option<CryptoEventSubtype>,
        field: OverrideField,
    ) -> (r: Option<Decimal>)
        ensures
            r == table_value(
                self.config,
                override_context(
                    self.config,
                    asset@,
                    days_to_resolution,
                    market_type,
                    event_subtype,
                ),
                field,
            ),
    {
        let ghost context = override_context(
            self.config,
            asset@,
            days_to_resolution,
            market_type,
            event_subtype,
        );
        let horizon = self.horizon_bucket(days_to_resolution);
        let class = asset_class_selector(asset);
        let subtype = event_subtype_selector(event_subtype);
        let kind = market_type.as_str();
        let rows: &Vec<CryptoCalibrationOverride> = &self.config.calibration_overrides;
        let mut best: Option<usize> = None;
        let mut best_score: u32 = 0;
        let mut i: usize = 0;
        while i < rows.len()
            invariant
                i <= rows@.len(),
                context == (OverrideContext {
                    symbol: asset.binance_symbol@,
                    class: class@,
                    horizon: horizon@,
                    market_type: kind@,
                    subtype: subtype@,
                }),
                best_row(rows@, context, field, i as nat) == (match best {
                    Some(b) => Some(b as int),
                    None => None,
                }),
                best is Some ==> best->0 < i && best_score == specificity(
                    rows@[best->0 as int],
                    context,
                ),
            decreases rows@.len() - i,
        {
            let row = &rows[i];
            if row_applies(row, asset.binance_symbol, class, horizon, kind, subtype) && row.value(
                field,
            ).is_some() {
                let score = specificity_score(row, class, horizon, kind, subtype);
                proof {
                    assert(score == specificity(*row, context));
                }
                if best.is_none() || score > best_score {
                    best = Some(i);
                    best_score = score;
                }
            }
            i = i + 1;
        }
        match best {
            Some(b) => rows[b].value(field),
            None => None,
        }
    }

    pub fn guard_multiplier_override(&self, override_value: Decimal) -> (r: Decimal)
        requires
            guarded(self.config, override_value@) is Some,
        ensures
            guarded(self.config, override_value@) == Some(r@),
    {
        let baseline = Decimal::one();
        let blend = self.config.override_multiplier_blend.min(Decimal::one()).max(Decimal::zero());
        let blended = baseline + ((override_value - baseline) * blend);
        let max_delta = bps_as_fraction(self.config.override_multiplier_max_delta_bps);
        let lower = baseline - max_delta;
        let upper = baseline + max_delta;
        blended.max(lower).min(upper)
    }

    /// The multiplier that the table gives for a market, `Some(None)` where it gives none or the
    /// asset is not known.
    pub open spec fn multiplier(
        &self,
        asset: Option<AssetEntry>,
        days: u32,
        market_type: CryptoMarketType,
        subtype: Option<CryptoEventSubtype>,
        field: OverrideField,
    ) -> Option<Option<int>> {
        match asset {
            Some(a) => table_multiplier(
                self.config,
                override_context(self.config, a, days, market_type, subtype),
                field,
            ),
            None => Some(None),
        }
    }

    /// The size multiplier that the table gives for a market, which never enlarges.
    pub open spec fn size_multiplier(
        &self,
        asset: AssetEntry,
        days: u32,
        market_type: CryptoMarketType,
        subtype: Option<CryptoEventSubtype>,
    ) -> Option<Option<int>> {
        match table_value(
            self.config,
            override_context(self.config, asset, days, market_type, subtype),
            OverrideField::Size,
        ) {
            None => Some(None),
            Some(v) => match fraction(guarded(self.config, v@)) {
                Some(m) => Some(Some(m)),
                None => None,
            },
        }
    }

    /// The multiplier that the table gives for a market whose asset may not be known.
    pub fn override_multiplier(
        &self,
        asset: Option<&CryptoAsset>,
        days_to_resolution: u32,
        market_type: CryptoMarketType,
        event_subtype: Option<CryptoEventSubtype>,
        field: OverrideField,
    ) -> (r: Option<Decimal>)
        requires
            self.multiplier(
                entry_of(asset),
                days_to_resolution,
                market_type,
                event_subtype,
                field,
            ) is Some,
        ensures
            self.multiplier(
                entry_of(asset),
                days_to_resolution,
                market_type,
                event_subtype,
                field,
            ) == Some(figure(r)),
    {
        let known = match asset {
            Some(a) => a,
            None => return None,
        };
        match self.calibration_override_value(
            known,
            days_to_resolution,
            market_type,
            event_subtype,
            field,
        ) {
            Some(v) => Some(self.guard_multiplier_override(v).max(Decimal::zero())),
            None => None,
        }
    }

    pub fn calibration_override_size_multiplier(
        &self,
        asset: &CryptoAsset,
        days_to_resolution: u32,
        market_type: CryptoMarketType,
        event_subtype: Option<CryptoEventSubtype>,
    ) -> (r: Option<Decimal>)
        requires
            self.size_multiplier(asset@, days_to_resolution, market_type, event_subtype) is Some,
        ensures
            self.size_multiplier(asset@, days_to_resolution, market_type, event_subtype) == Some(
                figure(r),
            ),
    {
        match self.calibration_override_value(
            asset,
            days_to_resolution,
            market_type,
            event_subtype,
            OverrideField::Size,
        ) {
            Some(v) => Some(
                self.guard_multiplier_override(v).min(Decimal::one()).max(Decimal::zero()),
            ),
            None => None,
        }
    }

    pub fn calibration_override_sigma_multiplier(
        &self,
        asset: &CryptoAsset,
        days_to_resolution: u32,
        market_type: CryptoMarketType,
        event_subtype: Option<CryptoEventSubtype>,
    ) -> (r: Option<Decimal>)
        requires
            self.multiplier(
                Some(asset@),
                days_to_resolution,
                market_type,
                event_subtype,
                OverrideField::Sigma,
            ) is Some,
        ensures
            self.multiplier(
                Some(asset@),
                days_to_resolution,
                market_type,
                event_subtype,
                OverrideField::Sigma,
            ) == Some(figure(r)),
    {
        self.override_multiplier(
            Some(asset),
            days_to_resolution,
            market_type,
            event_subtype,
            OverrideField::Sigma,
        )
    }

    pub fn calibration_override_depth_ratio_multiplier(
        &self,
        asset: &CryptoAsset,
        days_to_resolution: u32,
        market_type: CryptoMarketType,
        event_subtype: Option<CryptoEventSubtype>,
    ) -> (r: Option<Decimal>)
        requires
            self.multiplier(
                Some(asset@),
                days_to_resolution,
                market_type,
                event_subtype,
                OverrideField::DepthRatio,
            ) is Some,
        ensures
            self.multiplier(
                Some(asset@),
                days_to_resolution,
                market_type,
                event_subtype,
                OverrideField::DepthRatio,
            ) == Some(figure(r)),
    {
        self.override_multiplier(
            Some(asset),
            days_to_resolution,
            market_type,
            event_subtype,
            OverrideField::DepthRatio,
        )
    }

    pub fn calibration_override_hold_edge_multiplier(
        &self,
        asset: &CryptoAsset,
        days_to_resolution: u32,
        market_type: CryptoMarketType,
        event_subtype: Option<CryptoEventSubtype>,
    ) -> (r: Option<Decimal>)
        requires
            self.multiplier(
                Some(asset@),
                days_to_resolution,
                market_type,
                event_subtype,
                OverrideField::HoldEdge,
            ) is Some,
        ensures
            self.multiplier(
                Some(asset@),
                days_to_resolution,
                market_type,
                event_subtype,
                OverrideField::HoldEdge,
            ) == Some(figure(r)),
    {
        self.override_multiplier(
            Some(asset),
            days_to_resolution,
            market_type,
            event_subtype,
            OverrideField::HoldEdge,
        )
    }

    pub fn calibration_override_edge_decay_exit_multiplier(
        &self,
        asset: &CryptoAsset,
        days_to_resolution: u32,
        market_type: CryptoMarketType,
        event_subtype: Option<CryptoEventSubtype>,
    ) -> (r: Option<Decimal>)
        requires
            self.multiplier(
                Some(asset@),
                days_to_resolution,
                market_type,
                event_subtype,
                OverrideField::EdgeDecayExit,
            ) is Some,
        ensures
            self.multiplier(
                Some(asset@),
                days_to_resolution,
                market_type,
                event_subtype,
                OverrideField::EdgeDecayExit,
            ) == Some(figure(r)),
    {
        self.override_multiplier(
            Some(asset),
            days_to_resolution,
            market_type,
            event_subtype,
            OverrideField::EdgeDecayExit,
        )
    }

    pub fn calibration_override_edge_decay_confirmation_scan_multiplier(
        &self,
        asset: &CryptoAsset,
        days_to_resolution: u32,
        market_type: CryptoMarketType,
        event_subtype: Option<CryptoEventSubtype>,
    ) -> (r: Option<Decimal>)
        requires
            self.multiplier(
                Some(asset@),
                days_to_resolution,
                market_type,
                event_subtype,
                OverrideField::EdgeDecayConfirmationScan,
            ) is Some,
        ensures
            self.multiplier(
                Some(asset@),
                days_to_resolution,
                market_type,
                event_subtype,
                OverrideField::EdgeDecayConfirmationScan,
            ) == Some(figure(r)),
    {
        self.override_multiplier(
            Some(asset),
            days_to_resolution,
            market_type,
            event_subtype,
            OverrideField::EdgeDecayConfirmationScan,
        )
    }

    pub fn calibration_override_edge_decay_confirmation_window_multiplier(
        &self,
        asset: &CryptoAsset,
        days_to_resolution: u32,
        market_type: CryptoMarketType,
        event_subtype: Option<CryptoEventSubtype>,
    ) -> (r: Option<Decimal>)
        requires
            self.multiplier(
                Some(asset@),
                days_to_resolution,
                market_type,
                event_subtype,
                OverrideField::EdgeDecayConfirmationWindow,
            ) is Some,
        ensures
            self.multiplier(
                Some(asset@),
                days_to_resolution,
                market_type,
                event_subtype,
                OverrideField::EdgeDecayConfirmationWindow,
            ) == Some(figure(r)),
    {
        self.override_multiplier(
            Some(asset),
            days_to_resolution,
            market_type,
            event_subtype,
            OverrideField::EdgeDecayConfirmationWindow,
        )
    }

    pub fn calibration_override_edge_decay_cooldown_multiplier(
        &self,
        asset: &CryptoAsset,
        days_to_resolution: u32,
        market_type: CryptoMarketType,
        event_subtype: Option<CryptoEventSubtype>,
    ) -> (r: Option<Decimal>)
        requires
            self.multiplier(
                Some(asset@),
                days_to_resolution,
                market_type,
                event_subtype,
                OverrideField::EdgeDecayCooldown,
            ) is Some,
        ensures
            self.multiplier(
                Some(asset@),
                days_to_resolution,
                market_type,
                event_subtype,
                OverrideField::EdgeDecayCooldown,
            ) == Some(figure(r)),
    {
        self.override_multiplier(
            Some(asset),
            days_to_resolution,
            market_type,
            event_subtype,
            OverrideField::EdgeDecayCooldown,
        )
    }

    pub fn calibration_override_capital_efficiency_multiplier(
        &self,
        asset: &CryptoAsset,
        days_to_resolution: u32,
        market_type: CryptoMarketType,
        event_subtype: Option<CryptoEventSubtype>,
    ) -> (r: Option<Decimal>)
        requires
            self.multiplier(
                Some(asset@),
                days_to_resolution,
                market_type,
                event_subtype,
                OverrideField::CapitalEfficiency,
            ) is Some,
        ensures
            self.multiplier(
                Some(asset@),
                days_to_resolution,
                market_type,
                event_subtype,
                OverrideField::CapitalEfficiency,
            ) == Some(figure(r)),
    {
        self.override_multiplier(
            Some(asset),
            days_to_resolution,
            market_type,
            event_subtype,
            OverrideField::CapitalEfficiency,
        )
    }

    pub fn calibration_override_model_reversal_buffer_multiplier(
        &self,
        asset: &CryptoAsset,
        days_to_resolution: u32,
        market_type: CryptoMarketType,
        event_subtype: Option<CryptoEventSubtype>,
    ) -> (r: Option<Decimal>)
        requires
            self.multiplier(
                Some(asset@),
                days_to_resolution,
                market_type,
                event_subtype,
                OverrideField::ModelReversalBuffer,
            ) is Some,
        ensures
            self.multiplier(
                Some(asset@),
                days_to_resolution,
                market_type,
                event_subtype,
                OverrideField::ModelReversalBuffer,
            ) == Some(figure(r)),
    {
        self.override_multiplier(
            Some(asset),
            days_to_resolution,
            market_type,
            event_subtype,
            OverrideField::ModelReversalBuffer,
        )
    }

    pub fn calibration_override_profit_retention_multiplier(
        &self,
        asset: &CryptoAsset,
        days_to_resolution: u32,
        market_type: CryptoMarketType,
        event_subtype: Option<CryptoEventSubtype>,
    ) -> (r: Option<Decimal>)
        requires
            self.multiplier(
                Some(asset@),
                days_to_resolution,
                market_type,
                event_subtype,
                OverrideField::ProfitRetention,
            ) is Some,
        ensures
            self.multiplier(
                Some(asset@),
                days_to_resolution,
                market_type,
                event_subtype,
                OverrideField::ProfitRetention,
            ) == Some(figure(r)),
    {
        self.override_multiplier(
            Some(asset),
            days_to_resolution,
            market_type,
            event_subtype,
            OverrideField::ProfitRetention,
        )
    }

    pub fn calibration_override_slippage_multiplier(
        &self,
        asset: &CryptoAsset,
        days_to_resolution: u32,
        market_type: CryptoMarketType,
        event_subtype: Option<CryptoEventSubtype>,
    ) -> (r: Option<Decimal>)
        requires
            self.multiplier(
                Some(asset@),
                days_to_resolution,
                market_type,
                event_subtype,
                OverrideField::Slippage,
            ) is Some,
        ensures
            self.multiplier(
                Some(asset@),
                days_to_resolution,
                market_type,
                event_subtype,
                OverrideField::Slippage,
            ) == Some(figure(r)),
    {
        self.override_multiplier(
            Some(asset),
            days_to_resolution,
            market_type,
            event_subtype,
            OverrideField::Slippage,
        )
    }

    pub fn calibration_override_size_retention_multiplier(
        &self,
        asset: &CryptoAsset,
        days_to_resolution: u32,
        market_type: CryptoMarketType,
        event_subtype: Option<CryptoEventSubtype>,
    ) -> (r: Option<Decimal>)
        requires
            self.multiplier(
                Some(asset@),
                days_to_resolution,
                market_type,
                event_subtype,
                OverrideField::SizeRetention,
            ) is Some,
        ensures
            self.multiplier(
                Some(asset@),
                days_to_resolution,
                market_type,
                event_subtype,
                OverrideField::SizeRetention,
            ) == Some(figure(r)),
    {
        self.override_multiplier(
            Some(asset),
            days_to_resolution,
            market_type,
            event_subtype,
            OverrideField::SizeRetention,
        )
    }
}

/// A row that names something is compared with another by what they name, from the asset over the
/// class, the horizon and the market type to the event subtype: the first in which only one of two rows
/// names exactly what the context has decides which one is more specific.
pub proof fn law_specificity_is_a_ranking(
    one: CryptoCalibrationOverride,
    other: CryptoCalibrationOverride,
    context: OverrideContext,
)
    ensures
        ({
            let named = |selector: Seq<char>, value: Seq<char>|
                selector.len() > 0 && selector != "*"@ && !text::same_ignoring_case(
                    selector,
                    "any"@,
                ) && text::same_ignoring_case(selector, value);
            let asset = |row: CryptoCalibrationOverride| row.asset@.len() > 0 && row.asset@ != "*"@;
            let class = |row: CryptoCalibrationOverride| named(row.asset_class@, context.class);
            let horizon = |row: CryptoCalibrationOverride| named(row.horizon@, context.horizon);
            let market = |row: CryptoCalibrationOverride|
                named(row.market_type@, context.market_type);
            let subtype = |row: CryptoCalibrationOverride|
                named(row.event_subtype@, context.subtype);
            specificity(one, context) > specificity(other, context) <==> {
                ||| asset(one) && !asset(other)
                ||| asset(one) == asset(other) && {
                    ||| class(one) && !class(other)
                    ||| class(one) == class(other) && {
                        ||| horizon(one) && !horizon(other)
                        ||| horizon(one) == horizon(other) && {
                            ||| market(one) && !market(other)
                            ||| market(one) == market(other) && subtype(one) && !subtype(other)
                        }
                    }
                }
            }
        }),
{
}

/// A row applies where each of its selectors is empty, stands for anything, or is the context's own,
/// whatever the case.
pub proof fn law_row_applies_by_its_selectors(
    row: CryptoCalibrationOverride,
    context: OverrideContext,
)
    ensures
        ({
            let open = |selector: Seq<char>, value: Seq<char>|
                selector.len() == 0 || text::same_ignoring_case(selector, "any"@)
                    || text::same_ignoring_case(selector, value);
            applies(row, context) <==> {
                &&& row.asset@.len() == 0 || row.asset@ == "*"@ || text::same_ignoring_case(
                    row.asset@,
                    context.symbol,
                )
                &&& open(row.asset_class@, context.class)
                &&& open(row.horizon@, context.horizon)
                &&& open(row.market_type@, context.market_type)
                &&& open(row.event_subtype@, context.subtype)
            }
        }),
{
}

/// A multiplier of the table is drawn towards one by the blend, and is never further from one than the
/// allowed distance. Where that does not bind, it is one and the blend of what the table's value has
/// over one, up to the rounding of the last digit.
pub proof fn law_multiplier_is_blended_and_held(config: CryptoAlphaConfig, v: int)
    requires
        0 <= v <= 5 * unit(),
        0 <= config.override_multiplier_blend@ <= unit(),
        config.override_multiplier_max_delta_bps <= 20000,
    ensures
        ({
            let u = unit();
            let m = guarded(config, v);
            let blend = config.override_multiplier_blend@;
            let reach = config.override_multiplier_max_delta_bps * u;
            &&& m is Some
            &&& (m->0 - u) * 10000 <= reach
            &&& (u - m->0) * 10000 <= reach
            &&& ((v - u) * blend + u) * 10000 <= reach * u && ((u - v) * blend + u) * 10000 <= reach * u
                ==> close(m->0, u * u + (v - u) * blend, u, 1)
            &&& (v - u) * blend * 10000 >= (reach + 10000) * u ==> (m->0 - u) * 10000 == reach
            &&& (u - v) * blend * 10000 >= (reach + 10000) * u ==> (u - m->0) * 10000 == reach
        }),
{
    let u = unit();
    let blend = config.override_multiplier_blend@;
    let bps = config.override_multiplier_max_delta_bps;
    let delta = bps_fraction(bps as int)->0;
    law_basis_points_are_ten_thousandths(bps);
    assert(pow10(0) == 1);
    lemma_sum_close(v, u, 0);
    let x = v - u;
    assert(-(u * u) <= x * blend <= 4 * (u * u)) by (nonlinear_arith)
        requires
            -u <= x <= 4 * u,
            0 <= blend <= u,
            u > 0,
    {
        assert(x * blend <= (4 * u) * u);
        assert(x * blend >= -(u * u));
    }
    assert(7 * pow10(0) * (u * u) >= 4 * (u * u) && u * u >= 0) by (nonlinear_arith)
        requires
            pow10(0) == 1,
            u > 0,
    ;
    lemma_product_close(x, blend, 0);
    let y = product(x, blend)->0;
    assert(-u - 1 <= y <= 4 * u + 1) by (nonlinear_arith)
        requires
            2 * (y * u - x * blend) <= 1 * u,
            2 * (x * blend - y * u) <= 1 * u,
            -(u * u) <= x * blend <= 4 * (u * u),
            u > 0,
    ;
    lemma_sum_close(u, y, 0);
    lemma_sum_close(u, delta, 0);
    let m = guarded(config, v)->0;
    assert(close(u + y, u * u + x * blend, u, 1)) by (nonlinear_arith)
        requires
            2 * (y * u - x * blend) <= 1 * u,
            2 * (x * blend - y * u) <= 1 * u,
            u > 0,
    ;
    let reach = bps * u;
    assert(delta * 10000 == reach);
    if (x * blend + u) * 10000 <= reach * u && ((u - v) * blend + u) * 10000 <= reach * u {
        assert((u - v) * blend == -(x * blend)) by (nonlinear_arith)
            requires
                x == v - u,
        ;
        assert(y <= delta && -y <= delta) by (nonlinear_arith)
            requires
                2 * (y * u - x * blend) <= 1 * u,
                2 * (x * blend - y * u) <= 1 * u,
                (x * blend + u) * 10000 <= (delta * 10000) * u,
                (-(x * blend) + u) * 10000 <= (delta * 10000) * u,
                u > 0,
        ;
    }
    if x * blend * 10000 >= (reach + 10000) * u {
        assert(y >= delta) by (nonlinear_arith)
            requires
                2 * (x * blend - y * u) <= 1 * u,
                x * blend * 10000 >= (delta * 10000 + 10000) * u,
                u > 0,
        ;
    }
    if (u - v) * blend * 10000 >= (reach + 10000) * u {
        assert((u - v) * blend == -(x * blend)) by (nonlinear_arith)
            requires
                x == v - u,
        ;
        assert(-y >= delta) by (nonlinear_arith)
            requires
                2 * (y * u - x * blend) <= 1 * u,
                -(x * blend) * 10000 >= (delta * 10000 + 10000) * u,
                u > 0,
        ;
    }
}

} // verus!
