//! Data, chat-format, decoding and serving logic of a small language model.
//!
//! Everything here works on plain values: text, token ids, row and window numbers. What is proved
//! of each function stands in its `ensures` clauses; the few calls into other crates stand behind
//! trusted items whose doc comments say what is taken on trust.

pub mod text;
pub mod chat;
pub mod config;
pub mod constants;
pub mod tokenizer;
pub mod windows;
pub mod stream;
pub mod swh;
pub mod eval;
pub mod grpo;
pub mod json;
pub mod steps;
pub mod serve;
pub mod data;
pub mod reason;
pub mod batch;
pub mod mix;
pub mod model;
pub mod train;
pub mod bpe;
