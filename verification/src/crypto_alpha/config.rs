//! The settings of the strategy.
use crate::decimal::Decimal;
use vstd::prelude::*;

verus! {

/// One row of the calibration table: the selectors that say where it applies, and the values that
/// it replaces there.
#[derive(Debug)]
pub struct CryptoCalibrationOverride {
    pub asset: String,
    pub asset_class: String,
    pub horizon: String,
    pub market_type: String,
    pub event_subtype: String,
    pub probability_calibration: Option<Decimal>,
    pub sigma_multiplier: Option<Decimal>,
    pub size_multiplier: Option<Decimal>,
    pub depth_ratio_multiplier: Option<Decimal>,
    pub min_edge_multiplier: Option<Decimal>,
    pub max_spread_multiplier: Option<Decimal>,
    pub hold_edge_multiplier: Option<Decimal>,
    pub edge_decay_exit_multiplier: Option<Decimal>,
    pub edge_decay_confirmation_scan_multiplier: Option<Decimal>,
    pub edge_decay_confirmation_window_multiplier: Option<Decimal>,
    pub edge_decay_cooldown_multiplier: Option<Decimal>,
    pub capital_efficiency_multiplier: Option<Decimal>,
    pub model_reversal_buffer_multiplier: Option<Decimal>,
    pub profit_retention_multiplier: Option<Decimal>,
    pub slippage_multiplier: Option<Decimal>,
    pub size_retention_multiplier: Option<Decimal>,
}

/// A column of the calibration table.
#[derive(Clone, Copy, Debug, PartialEq, Eq, Structural)]
pub enum OverrideField {
    ProbabilityCalibration,
    Sigma,
    Size,
    DepthRatio,
    MinEdge,
    MaxSpread,
    HoldEdge,
    EdgeDecayExit,
    EdgeDecayConfirmationScan,
    EdgeDecayConfirmationWindow,
    EdgeDecayCooldown,
    CapitalEfficiency,
    ModelReversalBuffer,
    ProfitRetention,
    Slippage,
    SizeRetention,
}

impl CryptoCalibrationOverride {
    pub open spec fn column(&self, field: OverrideField) -> Option<Decimal> {
        match field {
            OverrideField::ProbabilityCalibration => self.probability_calibration,
            OverrideField::Sigma => self.sigma_multiplier,
            OverrideField::Size => self.size_multiplier,
            OverrideField::DepthRatio => self.depth_ratio_multiplier,
            OverrideField::MinEdge => self.min_edge_multiplier,
            OverrideField::MaxSpread => self.max_spread_multiplier,
            OverrideField::HoldEdge => self.hold_edge_multiplier,
            OverrideField::EdgeDecayExit => self.edge_decay_exit_multiplier,
            OverrideField::EdgeDecayConfirmationScan => {
                self.edge_decay_confirmation_scan_multiplier
            },
            OverrideField::EdgeDecayConfirmationWindow => {
                self.edge_decay_confirmation_window_multiplier
            },
            OverrideField::EdgeDecayCooldown => self.edge_decay_cooldown_multiplier,
            OverrideField::CapitalEfficiency => self.capital_efficiency_multiplier,
            OverrideField::ModelReversalBuffer => self.model_reversal_buffer_multiplier,
            OverrideField::ProfitRetention => self.profit_retention_multiplier,
            OverrideField::Slippage => self.slippage_multiplier,
            OverrideField::SizeRetention => self.size_retention_multiplier,
        }
    }

    /// The value in a column, where the row has one.
    pub fn value(&self, field: OverrideField) -> (r: Option<Decimal>)
        ensures
            r == self.column(field),
    {
        match field {
            OverrideField::ProbabilityCalibration => self.probability_calibration,
            OverrideField::Sigma => self.sigma_multiplier,
            OverrideField::Size => self.size_multiplier,
            OverrideField::DepthRatio => self.depth_ratio_multiplier,
            OverrideField::MinEdge => self.min_edge_multiplier,
            OverrideField::MaxSpread => self.max_spread_multiplier,
            OverrideField::HoldEdge => self.hold_edge_multiplier,
            OverrideField::EdgeDecayExit => self.edge_decay_exit_multiplier,
            OverrideField::EdgeDecayConfirmationScan => {
                self.edge_decay_confirmation_scan_multiplier
            },
            OverrideField::EdgeDecayConfirmationWindow => {
                self.edge_decay_confirmation_window_multiplier
            },
            OverrideField::EdgeDecayCooldown => self.edge_decay_cooldown_multiplier,
            OverrideField::CapitalEfficiency => self.capital_efficiency_multiplier,
            OverrideField::ModelReversalBuffer => self.model_reversal_buffer_multiplier,
            OverrideField::ProfitRetention => self.profit_retention_multiplier,
            OverrideField::Slippage => self.slippage_multiplier,
            OverrideField::SizeRetention => self.size_retention_multiplier,
        }
    }
}

/// The settings of the strategy.
#[derive(Debug)]
pub struct CryptoAlphaConfig {
    pub min_edge_bps: u32,
    pub max_position_pct: Decimal,
    pub kelly_fraction: Decimal,
    pub refresh_interval_secs: u64,
    pub spot_refresh_interval_secs: u64,
    pub history_refresh_interval_secs: u64,
    pub iv_refresh_interval_secs: u64,
    pub min_entry_depth_ratio: Decimal,
    pub gate_scale_feedback_lookback: usize,
    pub gate_scale_feedback_trigger_count: u32,
    pub gate_scale_feedback_step_multiplier: Decimal,
    pub gate_scale_feedback_max_steps: u32,
    pub exit_buffer_bps: u32,
    pub capital_efficiency_threshold: Decimal,
    pub max_spread_bps: u32,
    pub relative_stop_loss_ratio: Decimal,
    pub max_exposure_per_asset_pct: Decimal,
    pub max_exposure_per_asset_direction_pct: Decimal,
    pub low_event_min_edge_multiplier: Decimal,
    pub medium_event_min_edge_multiplier: Decimal,
    pub high_event_min_edge_multiplier: Decimal,
    pub low_event_max_spread_multiplier: Decimal,
    pub medium_event_max_spread_multiplier: Decimal,
    pub high_event_max_spread_multiplier: Decimal,
    pub low_event_sigma_multiplier: Decimal,
    pub medium_event_sigma_multiplier: Decimal,
    pub high_event_sigma_multiplier: Decimal,
    pub macro_event_sigma_multiplier: Decimal,
    pub crypto_event_sigma_multiplier: Decimal,
    pub low_event_size_multiplier: Decimal,
    pub medium_event_size_multiplier: Decimal,
    pub high_event_size_multiplier: Decimal,
    pub macro_event_size_multiplier: Decimal,
    pub crypto_event_size_multiplier: Decimal,
    pub btc_probability_calibration: Decimal,
    pub eth_probability_calibration: Decimal,
    pub alt_probability_calibration: Decimal,
    pub binary_probability_calibration: Decimal,
    pub range_probability_calibration: Decimal,
    pub override_probability_blend: Decimal,
    pub override_probability_max_delta_bps: u32,
    pub override_multiplier_blend: Decimal,
    pub override_multiplier_max_delta_bps: u32,
    pub calibration_overrides: Vec<CryptoCalibrationOverride>,
    pub short_horizon_max_days: u32,
    pub medium_horizon_max_days: u32,
    pub max_entry_days: u32,
    pub short_horizon_probability_calibration: Decimal,
    pub medium_horizon_probability_calibration: Decimal,
    pub short_horizon_size_multiplier: Decimal,
    pub medium_horizon_size_multiplier: Decimal,
    pub short_horizon_min_edge_multiplier: Decimal,
    pub medium_horizon_min_edge_multiplier: Decimal,
    pub short_horizon_max_spread_multiplier: Decimal,
    pub medium_horizon_max_spread_multiplier: Decimal,
    pub short_horizon_capital_efficiency_threshold: Decimal,
    pub medium_horizon_capital_efficiency_threshold: Decimal,
    pub short_horizon_exit_buffer_multiplier: Decimal,
    pub medium_horizon_exit_buffer_multiplier: Decimal,
    pub hold_min_edge_bps: u32,
    pub short_horizon_hold_edge_multiplier: Decimal,
    pub medium_horizon_hold_edge_multiplier: Decimal,
    pub edge_decay_exit_fraction: Decimal,
    pub edge_decay_exit_fraction_step: Decimal,
    pub edge_decay_moderate_gap_bps: u32,
    pub edge_decay_severe_gap_bps: u32,
    pub edge_decay_moderate_exit_multiplier: Decimal,
    pub edge_decay_severe_exit_multiplier: Decimal,
    pub edge_decay_moderate_cooldown_multiplier: Decimal,
    pub edge_decay_severe_cooldown_multiplier: Decimal,
    pub short_horizon_edge_decay_exit_multiplier: Decimal,
    pub medium_horizon_edge_decay_exit_multiplier: Decimal,
    pub edge_decay_cooldown_secs: u64,
    pub edge_decay_confirmation_scans: u32,
    pub short_horizon_edge_decay_confirmation_scans: u32,
    pub medium_horizon_edge_decay_confirmation_scans: u32,
    pub edge_decay_moderate_confirmation_scan_multiplier: Decimal,
    pub edge_decay_severe_confirmation_scan_multiplier: Decimal,
    pub edge_decay_confirmation_window_secs: u64,
    pub short_horizon_edge_decay_confirmation_window_multiplier: Decimal,
    pub medium_horizon_edge_decay_confirmation_window_multiplier: Decimal,
    pub edge_decay_moderate_confirmation_window_multiplier: Decimal,
    pub edge_decay_severe_confirmation_window_multiplier: Decimal,
    pub short_horizon_edge_decay_cooldown_multiplier: Decimal,
    pub medium_horizon_edge_decay_cooldown_multiplier: Decimal,
}

/// How far away the resolution of a market is.
#[derive(Clone, Copy, Debug, PartialEq, Eq, Structural)]
pub enum Horizon {
    Short,
    Medium,
    Long,
}

impl CryptoAlphaConfig {
    pub open spec fn spec_horizon(&self, days_to_resolution: u32) -> Horizon {
        if days_to_resolution <= self.short_horizon_max_days {
            Horizon::Short
        } else if days_to_resolution <= self.medium_horizon_max_days {
            Horizon::Medium
        } else {
            Horizon::Long
        }
    }

    pub fn horizon(&self, days_to_resolution: u32) -> (r: Horizon)
        ensures
            r == self.spec_horizon(days_to_resolution),
    {
        if days_to_resolution <= self.short_horizon_max_days {
            Horizon::Short
        } else if days_to_resolution <= self.medium_horizon_max_days {
            Horizon::Medium
        } else {
            Horizon::Long
        }
    }
}

} // verus!
