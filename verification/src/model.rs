//! Model metadata and KV-cache sizing.
//!
//! Holds the architecture parameters (layers, heads, dimensions) that
//! determine KV block byte sizes, and the arithmetic that sizes caches
//! and contexts from them.  Reading metadata out of a model file is
//! the loader's job in the surrounding application; the stub records
//! here describe common architectures for testing.

use vstd::prelude::*;

verus! {

/// Errors of the model-metadata loader.
#[derive(Debug)]
pub enum ModelLoaderError {
    /// The model file does not exist.
    FileNotFound(String),
    /// The model file is not in the expected format.
    InvalidFormat(String),
    /// Reading the model file failed.
    Io(String),
}

/// Metadata extracted from a model file.
pub struct ModelMetadata {
    /// Model architecture name.
    pub architecture: String,

    /// Number of transformer layers.
    pub n_layers: usize,

    /// Number of attention heads.
    pub n_heads: usize,

    /// Number of KV heads (for GQA/MQA, may differ from `n_heads`).
    pub n_kv_heads: usize,

    /// Dimension per attention head.
    pub head_dim: usize,

    /// Vocabulary size.
    pub n_vocab: usize,

    /// Context length the model was trained with.
    pub context_length: usize,

    /// File size in bytes.
    pub file_size: u64,

    /// Quantization type string.
    pub quantization: String,
}

impl ModelMetadata {
    /// KV cache bytes per token at FP16: two bytes per element for
    /// both K and V, across all layers.
    pub open spec fn spec_kv_bytes_per_token(self) -> int {
        4 * self.n_kv_heads * self.head_dim * self.n_layers
    }

    /// Compute the KV cache size per token in bytes (FP16, K and V).
    pub fn kv_bytes_per_token(&self) -> (r: usize)
        requires
            4 * self.n_kv_heads <= usize::MAX,
            4 * self.n_kv_heads * self.head_dim <= usize::MAX,
            self.spec_kv_bytes_per_token() <= usize::MAX,
        ensures
            r as int == self.spec_kv_bytes_per_token(),
    {
        let per_layer = 4 * self.n_kv_heads * self.head_dim;
        per_layer * self.n_layers
    }

    /// Compute the total KV cache size for a given context length.
    pub fn kv_cache_size(&self, context_length: usize) -> (r: usize)
        requires
            4 * self.n_kv_heads <= usize::MAX,
            4 * self.n_kv_heads * self.head_dim <= usize::MAX,
            self.spec_kv_bytes_per_token() <= usize::MAX,
            self.spec_kv_bytes_per_token() * context_length <= usize::MAX,
        ensures
            r as int == self.spec_kv_bytes_per_token() * context_length,
    {
        let per_token = self.kv_bytes_per_token();
        proof {
            assert(per_token * context_length <= usize::MAX) by (nonlinear_arith)
                requires
                    per_token as int == self.spec_kv_bytes_per_token(),
                    self.spec_kv_bytes_per_token() * context_length <= usize::MAX,
                    per_token >= 0,
                    context_length >= 0,
            ;
        }
        per_token * context_length
    }

    /// Compute how many tokens of context fit in the given VRAM
    /// budget.
    pub fn context_for_vram(&self, vram_bytes: usize) -> (r: usize)
        requires
            4 * self.n_kv_heads <= usize::MAX,
            4 * self.n_kv_heads * self.head_dim <= usize::MAX,
            self.spec_kv_bytes_per_token() <= usize::MAX,
        ensures
            self.spec_kv_bytes_per_token() == 0 ==> r == 0,
            self.spec_kv_bytes_per_token() > 0 ==> r as int == vram_bytes as int
                / self.spec_kv_bytes_per_token(),
    {
        let per_token = self.kv_bytes_per_token();
        if per_token == 0 {
            return 0;
        }
        vram_bytes / per_token
    }
}

/// Metadata of a 14-billion-parameter GQA model, for testing without a
/// model file.
pub fn stub_metadata_14b() -> (r: ModelMetadata)
    ensures
        r.n_layers == 48,
        r.n_heads == 40,
        r.n_kv_heads == 8,
        r.head_dim == 128,
        r.n_vocab == 152064,
        r.context_length == 32768,
        r.file_size == 9_663_676_416,
{
    ModelMetadata {
        architecture: String::from_str("qwen2"),
        n_layers: 48,
        n_heads: 40,
        n_kv_heads: 8,
        head_dim: 128,
        n_vocab: 152064,
        context_length: 32768,
        file_size: 9_663_676_416,
        quantization: String::from_str("Q4_K_M"),
    }
}

/// Metadata of a 32-billion-parameter GQA model, for testing without a
/// model file.
pub fn stub_metadata_32b() -> (r: ModelMetadata)
    ensures
        r.n_layers == 64,
        r.n_heads == 40,
        r.n_kv_heads == 8,
        r.head_dim == 128,
        r.n_vocab == 152064,
        r.context_length == 32768,
        r.file_size == 20_401_094_656,
{
    ModelMetadata {
        architecture: String::from_str("qwen2"),
        n_layers: 64,
        n_heads: 40,
        n_kv_heads: 8,
        head_dim: 128,
        n_vocab: 152064,
        context_length: 32768,
        file_size: 20_401_094_656,
    quantization: String::from_str("Q4_K_M"),
    }
}

} // verus!
