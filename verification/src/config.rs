//! Job configuration: immutable for the lifetime of a job, shared read-only
//! across all workers.

use vstd::prelude::*;

verus! {

/// Settings of one translation job. The pacing delay is held in
/// milliseconds. Sampling knobs that the core itself never reads and that
/// need non-integral values (temperature, nucleus threshold) are carried by
/// the surrounding shell and merged into the outgoing payload there.
pub struct TranslatorConfig {
    pub base_url: String,
    pub api_key: String,
    pub model: String,
    pub system_prompt: String,
    pub max_tokens: Option<u32>,
    pub top_k: Option<i32>,
    pub stream: bool,
    pub threads: usize,
    pub batch_size: usize,
    pub delay_ms: u64,
    pub last_file: String,
}

} // verus!
