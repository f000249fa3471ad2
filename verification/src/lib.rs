//! Trading strategies for prediction markets: what to trade, how much of it, and when to leave.
use vstd::prelude::*;

pub mod arbitrage;
pub mod convergence;
pub mod cross_market;
pub mod crypto_alpha;
pub mod decimal;
pub mod detector;
pub mod engine;
pub mod id_text;
pub mod keyed;
pub mod liquidity_rewards;
pub mod neg_risk;
pub mod profitability;
pub mod rounding;
pub mod similarity;
pub mod stop_loss;
pub mod text;
pub mod types;

verus! {

} // verus!
