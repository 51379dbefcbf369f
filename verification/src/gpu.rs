//! GPU side of inference: how weights are packed and which dispatches a pass
//! consists of. Everything here is plain data; a device executes it.

pub mod arena;
pub mod checkpoints;
pub mod flow;
pub mod formula;
pub mod forward;
pub mod grid;
pub mod hybrid;
pub mod pipelines;
pub mod plan;
pub mod qwen35;
pub mod tower;
pub mod upload;
pub mod vision;
