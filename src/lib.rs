//! CPU inference engine for LLaMA-family models stored as GGUF: container
//! parsing, quantized block layouts, tokenizer, KV cache addressing, sampling
//! decisions, and the data types of the surrounding agent.

pub mod error;
pub mod quant;
pub mod blocks;
pub mod gguf;
pub mod model;
pub mod tokenizer;
pub mod kv_cache;
pub mod sampler;
pub mod generation;
pub mod grammar;
pub mod zalo;
pub mod agent;
pub mod sandbox;
