//! The strategy: its settings, and what it has from the account that it trades for.
use crate::crypto_alpha::config::CryptoAlphaConfig;
use crate::decimal::Decimal;
use crate::profitability::ProfitCalculator;
use vstd::prelude::*;

verus! {

/// The settings that the strategy shares with the execution of its orders.
#[derive(Clone, Copy, Debug)]
pub struct CryptoAlphaDeps {
    pub base_min_size_retention_ratio: Decimal,
    pub base_max_slippage_bps: u32,
    pub execution_quality_profit_weight: Decimal,
    pub execution_quality_size_weight: Decimal,
    pub execution_quality_slippage_weight: Decimal,
}

#[derive(Debug)]
pub struct CryptoAlphaStrategy {
    pub config: CryptoAlphaConfig,
    pub deps: CryptoAlphaDeps,
    pub profit_calc: ProfitCalculator,
}

impl CryptoAlphaStrategy {
    pub fn new(config: CryptoAlphaConfig, gas_cost_usd: Decimal, deps: CryptoAlphaDeps) -> (r:
        CryptoAlphaStrategy)
        ensures
            r.config == config,
            r.deps == deps,
            r.profit_calc.gas_cost_usd == gas_cost_usd,
    {
        CryptoAlphaStrategy { config, deps, profit_calc: ProfitCalculator::new(gas_cost_usd) }
    }
}

} // verus!
