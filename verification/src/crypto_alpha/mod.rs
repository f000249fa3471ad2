//! Trading on price questions about crypto assets.
pub mod assets;
pub mod calibration;
pub mod candidates;
pub mod config;
pub mod context;
pub mod decisions;
pub mod detect;
pub mod detect_event;
pub mod detect_group;
pub mod edge_decay;
pub mod entry;
pub mod execution;
pub mod exits;
pub mod exposure;
pub mod feedback;
pub mod labels;
pub mod outcomes;
pub mod plan;
pub mod price;
pub mod price_cache;
pub mod probability;
pub mod question;
pub mod quotes;
pub mod scan;
pub mod sizing;
pub mod strategy;
pub mod thresholds;
