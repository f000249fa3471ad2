//! Quoting on markets that reward resting liquidity.
pub mod config;
pub mod cooldown;
pub mod quoting;
pub mod reconcile;
pub mod selection;
