//! qwen35 (hybrid gated-delta-net and full attention) and dense qwen3.

pub mod batch;
pub mod config;
pub mod cpu;
pub mod formula;
pub mod state;
pub mod weights;
