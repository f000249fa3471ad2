//! How far the modelled probability of an outcome is trusted.
use crate::crypto_alpha::assets::CryptoAsset;
use crate::crypto_alpha::config::{CryptoAlphaConfig, Horizon, OverrideField};
use crate::crypto_alpha::labels::CryptoMarketType;
use crate::crypto_alpha::strategy::CryptoAlphaStrategy;
use crate::decimal::Decimal;
use crate::profitability::bps_as_fraction;
use crate::text;
use vstd::prelude::*;

verus! {

use crate::crypto_alpha::assets::AssetEntry;
use crate::crypto_alpha::calibration::{fraction, override_context, table_value};
use crate::profitability::{bps_fraction, lemma_bps_fraction};
use crate::rounding::{
    at_least, at_most, close, difference, law_arithmetic_is_exact, lemma_bounded_product,
    lemma_close_times, lemma_product_close, lemma_sum_close, magnitude, law_arithmetic_stays_in_range,
    lemma_fraction_representable, lemma_product_monotone, lemma_product_negated,
    lemma_rounded_monotone, lemma_rounded_order, lemma_sum_monotone, lemma_zero_representable, minus,
    plus, pow10, product, sum, times, unit,
};
use crate::types::figure;

/// One half.
pub open spec fn half() -> int {
    5_000_000_000_000_000_000_000_000_000
}

pub open spec fn asset_factor(config: CryptoAlphaConfig, asset: AssetEntry) -> Decimal {
    if asset.binance_symbol == "BTCUSDT"@ {
        config.btc_probability_calibration
    } else if asset.binance_symbol == "ETHUSDT"@ {
        config.eth_probability_calibration
    } else {
        config.alt_probability_calibration
    }
}

pub open spec fn horizon_factor(config: CryptoAlphaConfig, days: u32) -> int {
    match config.spec_horizon(days) {
        Horizon::Short => config.short_horizon_probability_calibration@,
        Horizon::Medium => config.medium_horizon_probability_calibration@,
        Horizon::Long => unit(),
    }
}

pub open spec fn market_type_factor(
    config: CryptoAlphaConfig,
    market_type: CryptoMarketType,
) -> Decimal {
    match market_type {
        CryptoMarketType::Binary => config.binary_probability_calibration,
        CryptoMarketType::Range => config.range_probability_calibration,
    }
}

/// The share of a probability's distance from one half that is kept, before the table is asked.
pub open spec fn baseline_factor(
    config: CryptoAlphaConfig,
    asset: AssetEntry,
    days: u32,
    market_type: CryptoMarketType,
) -> Option<int> {
    fraction(
        times(
            times(Some(asset_factor(config, asset)@), Some(horizon_factor(config, days))),
            Some(market_type_factor(config, market_type)@),
        ),
    )
}

/// The factor that the table gives for the market, whatever its event.
pub open spec fn override_factor(
    config: CryptoAlphaConfig,
    asset: AssetEntry,
    days: u32,
    market_type: CryptoMarketType,
) -> Option<int> {
    match table_value(
        config,
        override_context(config, asset, days, market_type, None),
        OverrideField::ProbabilityCalibration,
    ) {
        Some(v) => fraction(Some(v@)),
        None => None,
    }
}

/// The factor with the table's blended in, held within the allowed distance from the baseline and
/// between zero and one.
pub open spec fn calibration_factor(
    config: CryptoAlphaConfig,
    asset: AssetEntry,
    days: u32,
    market_type: CryptoMarketType,
) -> Option<int> {
    let baseline = baseline_factor(config, asset, days, market_type);
    match override_factor(config, asset, days, market_type) {
        None => baseline,
        Some(given) => {
            let blend = fraction(Some(config.override_probability_blend@));
            let blended = plus(baseline, times(minus(Some(given), baseline), blend));
            let delta = bps_fraction(config.override_probability_max_delta_bps as int);
            let lower = at_least(minus(baseline, delta), Some(0));
            let upper = at_most(plus(baseline, delta), Some(unit()));
            at_least(at_most(blended, upper), lower)
        },
    }
}

/// The probability drawn towards one half by the factor.
pub open spec fn calibrated(
    config: CryptoAlphaConfig,
    asset: AssetEntry,
    days: u32,
    market_type: CryptoMarketType,
    raw: int,
) -> Option<int> {
    fraction(
        plus(
            Some(half()),
            times(
                minus(Some(raw), Some(half())),
                calibration_factor(config, asset, days, market_type),
            ),
        ),
    )
}

/// A calibrated probability lies between zero and one.
pub proof fn law_calibrated_is_a_probability(
    config: CryptoAlphaConfig,
    asset: AssetEntry,
    days: u32,
    market_type: CryptoMarketType,
    raw: int,
)
    requires
        calibrated(config, asset, days, market_type, raw) is Some,
    ensures
        0 <= calibrated(config, asset, days, market_type, raw)->0 <= unit(),
{
}

/// The calibration factor lies between zero and one. It is the baseline where the table gives none,
/// and within the allowed distance from the baseline where it gives one.
pub proof fn law_calibration_factor_is_bounded(
    config: CryptoAlphaConfig,
    asset: AssetEntry,
    days: u32,
    market_type: CryptoMarketType,
)
    requires
        calibration_factor(config, asset, days, market_type) is Some,
    ensures
        0 <= calibration_factor(config, asset, days, market_type)->0 <= unit(),
        ({
            let baseline = baseline_factor(config, asset, days, market_type);
            let factor = calibration_factor(config, asset, days, market_type);
            let delta = bps_fraction(config.override_probability_max_delta_bps as int);
            match override_factor(config, asset, days, market_type) {
                None => factor == baseline,
                Some(_) => {
                    &&& minus(baseline, delta)->0 <= factor->0
                    &&& factor->0 <= plus(baseline, delta)->0
                },
            }
        }),
{
    let baseline = baseline_factor(config, asset, days, market_type);
    let bps = config.override_probability_max_delta_bps;
    lemma_bps_fraction(bps);
    lemma_fraction_representable(baseline->0);
    if override_factor(config, asset, days, market_type) is Some {
        let b = baseline->0;
        let delta = bps_fraction(bps as int)->0;
        reveal(difference);
        reveal(sum);
        assert((b - delta) * unit() <= b * unit() <= (b + delta) * unit()) by (nonlinear_arith)
            requires
                delta >= 0,
                unit() > 0,
        ;
        lemma_rounded_order(b - delta, unit(), b);
        lemma_rounded_order(b + delta, unit(), b);
    }
}

/// The calibration factor can be reckoned where the configured factors lie between zero and one.
pub proof fn law_calibration_can_be_reckoned(
    config: CryptoAlphaConfig,
    asset: AssetEntry,
    days: u32,
    market_type: CryptoMarketType,
)
    requires
        0 <= asset_factor(config, asset)@ <= unit(),
        0 <= horizon_factor(config, days) <= unit(),
        0 <= market_type_factor(config, market_type)@ <= unit(),
    ensures
        calibration_factor(config, asset, days, market_type) is Some,
{
    let first = asset_factor(config, asset)@;
    let second = horizon_factor(config, days);
    let third = market_type_factor(config, market_type)@;
    lemma_fraction_representable(first);
    lemma_fraction_representable(second);
    lemma_fraction_representable(third);
    law_arithmetic_stays_in_range(Some(first), Some(second), 1, 1, 1);
    law_arithmetic_stays_in_range(times(Some(first), Some(second)), Some(third), 1, 1, 1);
    let baseline = baseline_factor(config, asset, days, market_type);
    lemma_fraction_representable(baseline->0);
    if let Some(given) = override_factor(config, asset, days, market_type) {
        let blend = fraction(Some(config.override_probability_blend@));
        let bps = config.override_probability_max_delta_bps;
        let apart = minus(Some(given), baseline);
        lemma_fraction_representable(given);
        lemma_fraction_representable(blend->0);
        lemma_bps_fraction(bps);
        law_arithmetic_stays_in_range(Some(given), baseline, 1, 1, 1);
        law_arithmetic_stays_in_range(apart, blend, 2, 1, 1);
        law_arithmetic_stays_in_range(baseline, times(apart, blend), 1, 2, 1);
        law_arithmetic_stays_in_range(
            baseline,
            bps_fraction(bps as int),
            1,
            u32::MAX as int,
            1,
        );
    }
}

/// A calibrated probability is one half and the share of its distance from there that the factor
/// keeps, which is no more than that distance.
proof fn lemma_kept_distance(
    config: CryptoAlphaConfig,
    asset: AssetEntry,
    days: u32,
    market_type: CryptoMarketType,
    raw: int,
)
    requires
        0 <= raw <= unit(),
        calibration_factor(config, asset, days, market_type) is Some,
    ensures
        ({
            let apart = raw - half();
            let kept = product(apart, calibration_factor(config, asset, days, market_type)->0);
            &&& kept is Some
            &&& 0 <= kept->0 <= apart || apart <= kept->0 <= 0
            &&& calibrated(config, asset, days, market_type, raw) == Some(half() + kept->0)
        }),
{
    law_calibration_factor_is_bounded(config, asset, days, market_type);
    let factor = calibration_factor(config, asset, days, market_type)->0;
    let apart = raw - half();
    lemma_fraction_representable(apart);
    lemma_fraction_representable(factor);
    law_arithmetic_is_exact(raw, half(), apart);
    law_arithmetic_stays_in_range(Some(apart), Some(factor), 1, 1, 1);
    let kept = product(apart, factor)->0;
    assert(0 <= kept <= apart || apart <= kept <= 0) by {
        reveal(product);
        let d = unit() * unit();
        assert(apart >= 0 ==> 0 <= (apart * factor) * unit() <= apart * d) by (nonlinear_arith)
            requires
                0 <= factor <= unit(),
                d == unit() * unit(),
                unit() > 0,
        {
            if apart >= 0 {
                assert(0 <= apart * factor <= apart * unit());
            }
        }
        assert(apart <= 0 ==> apart * d <= (apart * factor) * unit() <= 0) by (nonlinear_arith)
            requires
                0 <= factor <= unit(),
                d == unit() * unit(),
                unit() > 0,
        {
            if apart <= 0 {
                assert(apart * unit() <= apart * factor <= 0);
            }
        }
        lemma_zero_representable();
        lemma_rounded_order(apart * factor, d, 0);
        lemma_rounded_order(apart * factor, d, apart);
    }
    lemma_fraction_representable(half() + kept);
    law_arithmetic_is_exact(half(), kept, half() + kept);
}

/// Calibrating draws a probability towards one half and never past it.
pub proof fn law_calibration_draws_towards_half(
    config: CryptoAlphaConfig,
    asset: AssetEntry,
    days: u32,
    market_type: CryptoMarketType,
    raw: int,
)
    requires
        0 <= raw <= unit(),
        calibration_factor(config, asset, days, market_type) is Some,
    ensures
        calibrated(config, asset, days, market_type, raw) is Some,
        raw >= half() ==> half() <= calibrated(config, asset, days, market_type, raw)->0 <= raw,
        raw <= half() ==> raw <= calibrated(config, asset, days, market_type, raw)->0 <= half(),
{
    lemma_kept_distance(config, asset, days, market_type, raw);
}

/// Calibrating treats the two sides of a market alike: the calibrated probabilities of a side and of
/// the other one make up the whole, and one half stays where it is.
pub proof fn law_calibration_is_symmetric(
    config: CryptoAlphaConfig,
    asset: AssetEntry,
    days: u32,
    market_type: CryptoMarketType,
    raw: int,
)
    requires
        0 <= raw <= unit(),
        calibration_factor(config, asset, days, market_type) is Some,
    ensures
        calibrated(config, asset, days, market_type, raw) is Some,
        calibrated(config, asset, days, market_type, unit() - raw) is Some,
        calibrated(config, asset, days, market_type, raw)->0 + calibrated(
            config,
            asset,
            days,
            market_type,
            unit() - raw,
        )->0 == unit(),
        calibrated(config, asset, days, market_type, half()) == Some(half()),
{
    let factor = calibration_factor(config, asset, days, market_type)->0;
    let apart = raw - half();
    lemma_kept_distance(config, asset, days, market_type, raw);
    lemma_kept_distance(config, asset, days, market_type, unit() - raw);
    assert(unit() - raw - half() == -apart);
    lemma_product_negated(apart, factor);
    law_calibration_draws_towards_half(config, asset, days, market_type, half());
}

/// Calibrating keeps the order of probabilities.
pub proof fn law_calibration_keeps_order(
    config: CryptoAlphaConfig,
    asset: AssetEntry,
    days: u32,
    market_type: CryptoMarketType,
    low: int,
    high: int,
)
    requires
        low <= high,
        calibrated(config, asset, days, market_type, low) is Some,
        calibrated(config, asset, days, market_type, high) is Some,
    ensures
        calibrated(config, asset, days, market_type, low)->0 <= calibrated(
            config,
            asset,
            days,
            market_type,
            high,
        )->0,
{
    law_calibration_factor_is_bounded(config, asset, days, market_type);
    let factor = calibration_factor(config, asset, days, market_type)->0;
    let near = minus(Some(low), Some(half()))->0;
    let far = minus(Some(high), Some(half()))->0;
    assert(near <= far) by {
        reveal(difference);
        lemma_rounded_monotone(low - half(), high - half(), unit());
    }
    lemma_product_monotone(near, far, factor);
    lemma_sum_monotone(half(), product(near, factor)->0, product(far, factor)->0);
}

/// What is left of a probability's distance from one half is the calibration factor's share of it, up to
/// the rounding of the last digit.
pub proof fn law_calibration_keeps_its_share(
    config: CryptoAlphaConfig,
    asset: AssetEntry,
    days: u32,
    market_type: CryptoMarketType,
    raw: int,
)
    requires
        0 <= raw <= unit(),
        calibration_factor(config, asset, days, market_type) is Some,
    ensures
        calibrated(config, asset, days, market_type, raw) is Some,
        close(
            2 * calibrated(config, asset, days, market_type, raw)->0 - unit(),
            (2 * raw - unit()) * calibration_factor(config, asset, days, market_type)->0,
            unit(),
            2,
        ),
{
    let u = unit();
    let factor = calibration_factor(config, asset, days, market_type)->0;
    let apart = raw - half();
    lemma_kept_distance(config, asset, days, market_type, raw);
    law_calibration_factor_is_bounded(config, asset, days, market_type);
    assert(pow10(0) == 1);
    assert(magnitude(apart * factor) <= 7 * pow10(0) * (u * u)) by (nonlinear_arith)
        requires
            -u <= apart <= u,
            0 <= factor <= u,
            pow10(0) == 1,
            u > 0,
    {
        assert(apart * factor <= u * u);
        assert(apart * factor >= -(u * u));
    }
    lemma_product_close(apart, factor, 0);
    let kept = product(apart, factor)->0;
    let c = calibrated(config, asset, days, market_type, raw)->0;
    assert(2 * c - u == 2 * kept);
    assert((2 * raw - u) * factor == 2 * (apart * factor)) by (nonlinear_arith)
        requires
            2 * raw - u == 2 * apart,
    ;
    assert((2 * kept) * u == 2 * (kept * u)) by (nonlinear_arith);
}

/// The baseline factor is the product of those for the asset, the horizon and the market type: Bitcoin
/// and Ether have their own, every other asset shares one, and so do the short and the medium horizon,
/// where the long one counts as one. It holds up to the rounding of the last digits.
pub proof fn law_baseline_is_a_product_of_three(
    config: CryptoAlphaConfig,
    asset: AssetEntry,
    days: u32,
    market_type: CryptoMarketType,
)
    requires
        0 <= config.btc_probability_calibration@ <= unit(),
        0 <= config.eth_probability_calibration@ <= unit(),
        0 <= config.alt_probability_calibration@ <= unit(),
        0 <= config.short_horizon_probability_calibration@ <= unit(),
        0 <= config.medium_horizon_probability_calibration@ <= unit(),
        0 <= config.binary_probability_calibration@ <= unit(),
        0 <= config.range_probability_calibration@ <= unit(),
    ensures
        ({
            let u = unit();
            let for_asset = if asset.binance_symbol == "BTCUSDT"@ {
                config.btc_probability_calibration@
            } else if asset.binance_symbol == "ETHUSDT"@ {
                config.eth_probability_calibration@
            } else {
                config.alt_probability_calibration@
            };
            let for_horizon = match config.spec_horizon(days) {
                Horizon::Short => config.short_horizon_probability_calibration@,
                Horizon::Medium => config.medium_horizon_probability_calibration@,
                Horizon::Long => u,
            };
            let for_type = if market_type == CryptoMarketType::Binary {
                config.binary_probability_calibration@
            } else {
                config.range_probability_calibration@
            };
            let baseline = baseline_factor(config, asset, days, market_type);
            &&& baseline is Some
            &&& close(baseline->0, for_asset * for_horizon * for_type, u * u, 2)
        }),
{
    let u = unit();
    let a = asset_factor(config, asset)@;
    let h = horizon_factor(config, days);
    let t = market_type_factor(config, market_type)@;
    assert(pow10(0) == 1);
    lemma_bounded_product(a, 1, h, 1);
    assert(close(a, a, 1, 0));
    lemma_close_times(a, a, 1, 0, h, 1, 0);
    let x = product(a, h)->0;
    assert(1 * u == u);
    lemma_bounded_product(x, 1, t, 1);
    lemma_close_times(x, a * h, 1 * u, 1, t, 1, 0);
}

/// Where the table gives a factor, the calibration factor is the baseline and the blend of what the
/// table's has over it, as long as that stays within the allowed distance and between zero and one. It
/// holds up to the rounding of the last digit.
pub proof fn law_table_factor_is_blended(
    config: CryptoAlphaConfig,
    asset: AssetEntry,
    days: u32,
    market_type: CryptoMarketType,
)
    requires
        calibration_factor(config, asset, days, market_type) is Some,
        override_factor(config, asset, days, market_type) is Some,
        0 <= config.override_probability_blend@ <= unit(),
        config.override_probability_max_delta_bps <= 20000,
    ensures
        ({
            let u = unit();
            let baseline = baseline_factor(config, asset, days, market_type)->0;
            let given = override_factor(config, asset, days, market_type)->0;
            let factor = calibration_factor(config, asset, days, market_type)->0;
            let moved = (given - baseline) * config.override_probability_blend@;
            let reach = config.override_probability_max_delta_bps * u;
            &&& (factor - baseline) * 10000 <= reach
            &&& (baseline - factor) * 10000 <= reach
            &&& (moved + u) * 10000 <= reach * u && (-moved + u) * 10000 <= reach * u ==> close(
                factor,
                baseline * u + moved,
                u,
                1,
            )
        }),
{
    let u = unit();
    let b = baseline_factor(config, asset, days, market_type)->0;
    let g = override_factor(config, asset, days, market_type)->0;
    let blend = config.override_probability_blend@;
    let bps = config.override_probability_max_delta_bps;
    let delta = bps_fraction(bps as int)->0;
    let x = g - b;
    crate::profitability::law_basis_points_are_ten_thousandths(bps);
    law_calibration_factor_is_bounded(config, asset, days, market_type);
    assert(pow10(0) == 1);
    lemma_sum_close(g, b, 0);
    assert(magnitude(x * blend) <= 7 * pow10(0) * (u * u) && -(u * u) <= x * blend <= u * u)
        by (nonlinear_arith)
        requires
            -u <= x <= u,
            0 <= blend <= u,
            pow10(0) == 1,
            u > 0,
    {
        assert(x * blend <= u * u);
        assert(x * blend >= -(u * u));
    }
    lemma_product_close(x, blend, 0);
    let y = product(x, blend)->0;
    assert(-u - 1 <= y <= u + 1) by (nonlinear_arith)
        requires
            2 * (y * u - x * blend) <= 1 * u,
            2 * (x * blend - y * u) <= 1 * u,
            -(u * u) <= x * blend <= u * u,
            u > 0,
    ;
    lemma_sum_close(b, y, 0);
    lemma_sum_close(b, delta, 0);
    let f = calibration_factor(config, asset, days, market_type)->0;
    assert(delta * 10000 == bps * u);
    assert(close(b + y, b * u + x * blend, u, 1)) by (nonlinear_arith)
        requires
            2 * (y * u - x * blend) <= 1 * u,
            2 * (x * blend - y * u) <= 1 * u,
            u > 0,
    ;
    if (x * blend + u) * 10000 <= (bps * u) * u && (-(x * blend) + u) * 10000 <= (bps * u) * u {
        assert(y <= delta && -y <= delta) by (nonlinear_arith)
            requires
                2 * (y * u - x * blend) <= 1 * u,
                2 * (x * blend - y * u) <= 1 * u,
                (x * blend + u) * 10000 <= (delta * 10000) * u,
                (-(x * blend) + u) * 10000 <= (delta * 10000) * u,
                u > 0,
        ;
        lemma_blend_stays_between(b, g, x, blend, y);
        assert(f == b + y);
    }
}

/// A part of the way from one fraction to another stays between zero and one.
proof fn lemma_blend_stays_between(b: int, g: int, x: int, blend: int, y: int)
    requires
        0 <= b <= unit(),
        0 <= g <= unit(),
        x == g - b,
        0 <= blend <= unit(),
        product(x, blend) == Some(y),
    ensures
        0 <= b + y <= unit(),
{
    let u = unit();
    lemma_fraction_representable(x);
    lemma_zero_representable();
    crate::rounding::law_arithmetic_keeps_order(x, blend, x);
    crate::rounding::law_arithmetic_keeps_order(x, blend, 0);
    assert(x >= 0 ==> 0 <= x * blend <= x * u) by (nonlinear_arith)
        requires
            0 <= blend <= u,
    ;
    assert(x <= 0 ==> x * u <= x * blend <= 0) by (nonlinear_arith)
        requires
            0 <= blend <= u,
    ;
}

fn one_half() -> (r: Decimal)
    ensures
        r@ == half(),
{
    proof {
        assert(pow10(27) == 1_000_000_000_000_000_000_000_000_000) by {
            reveal_with_fuel(pow10, 28);
        }
    }
    Decimal::new(5, 1)
}

impl CryptoAlphaStrategy {
    pub fn calibration_override_probability(
        &self,
        asset: &CryptoAsset,
        days_to_resolution: u32,
        market_type: CryptoMarketType,
    ) -> (r: Option<Decimal>)
        ensures
            figure(r) == override_factor(self.config, asset@, days_to_resolution, market_type),
    {
        match self.calibration_override_value(
            asset,
            days_to_resolution,
            market_type,
            None,
            OverrideField::ProbabilityCalibration,
        ) {
            Some(v) => Some(v.min(Decimal::one()).max(Decimal::zero())),
            None => None,
        }
    }

    pub fn baseline_probability_calibration_factor(
        &self,
        asset: &CryptoAsset,
        days_to_resolution: u32,
        market_type: CryptoMarketType,
    ) -> (r: Decimal)
        requires
            baseline_factor(self.config, asset@, days_to_resolution, market_type) is Some,
        ensures
            baseline_factor(self.config, asset@, days_to_resolution, market_type) == Some(r@),
    {
        let asset_factor = if text::same_text(asset.binance_symbol, "BTCUSDT") {
            self.config.btc_probability_calibration
        } else if text::same_text(asset.binance_symbol, "ETHUSDT") {
            self.config.eth_probability_calibration
        } else {
            self.config.alt_probability_calibration
        };
        let horizon_factor = match self.config.horizon(days_to_resolution) {
            Horizon::Short => self.config.short_horizon_probability_calibration,
            Horizon::Medium => self.config.medium_horizon_probability_calibration,
            Horizon::Long => Decimal::one(),
        };
        let market_type_factor = match market_type {
            CryptoMarketType::Binary => self.config.binary_probability_calibration,
            CryptoMarketType::Range => self.config.range_probability_calibration,
        };
        (asset_factor * horizon_factor * market_type_factor).min(Decimal::one()).max(
            Decimal::zero(),
        )
    }

    pub fn effective_probability_calibration_factor(
        &self,
        asset: &CryptoAsset,
        days_to_resolution: u32,
        market_type: CryptoMarketType,
    ) -> (r: Decimal)
        requires
            calibration_factor(self.config, asset@, days_to_resolution, market_type) is Some,
        ensures
            calibration_factor(self.config, asset@, days_to_resolution, market_type) == Some(r@),
    {
        let baseline = self.baseline_probability_calibration_factor(
            asset,
            days_to_resolution,
            market_type,
        );
        match self.calibration_override_probability(asset, days_to_resolution, market_type) {
            Some(given) => {
                let blend = self.config.override_probability_blend.min(Decimal::one()).max(
                    Decimal::zero(),
                );
                let blended = baseline + ((given - baseline) * blend);
                let max_delta = bps_as_fraction(self.config.override_probability_max_delta_bps);
                let lower = (baseline - max_delta).max(Decimal::zero());
                let upper = (baseline + max_delta).min(Decimal::one());
                blended.min(upper).max(lower)
            },
            None => baseline,
        }
    }

    /// The modelled probability, drawn towards one half.
    pub fn calibrate_probability(
        &self,
        asset: &CryptoAsset,
        days_to_resolution: u32,
        market_type: CryptoMarketType,
        raw_prob: Decimal,
    ) -> (r: Decimal)
        requires
            calibrated(self.config, asset@, days_to_resolution, market_type, raw_prob@) is Some,
        ensures
            calibrated(self.config, asset@, days_to_resolution, market_type, raw_prob@) == Some(
                r@,
            ),
            0 <= r@ <= unit(),
    {
        let factor = self.effective_probability_calibration_factor(
            asset,
            days_to_resolution,
            market_type,
        );
        let half = one_half();
        (half + ((raw_prob - half) * factor)).min(Decimal::one()).max(Decimal::zero())
    }
}

} // verus!
