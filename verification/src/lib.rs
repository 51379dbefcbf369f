//! A local inference engine for open-weight language models: the checkpoint
//! reader, tokenizers, chat formats, dispatch planning and session rules.

use vstd::prelude::*;

pub mod arch;
pub mod browser;
pub mod cache;
pub mod chat;
pub mod checks;
pub mod clip;
pub mod config;
pub mod cpu;
pub mod cursor;
pub mod engine;
pub mod gguf;
pub mod gpu;
pub mod header;
pub mod hub;
pub mod json;
pub mod md;
pub mod quant;
pub mod qwen35;
pub mod repl;
pub mod sample;
pub mod secret;
pub mod server;
pub mod summary;
pub mod talk;
pub mod text;
pub mod tokenizer;
pub mod vision;
pub mod weights;
pub mod window;

verus! {

} // verus!
