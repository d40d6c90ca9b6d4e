//! Stub model and context handles for the inference backend.
//!
//! The real backend wraps a C inference library; these handles
//! simulate its behaviour for integration testing without the C
//! library: tokenization yields roughly one token per four characters,
//! decoding advances the context position, and sampling returns a
//! fixed token.

use vstd::prelude::*;
use vstd::string::StringSliceAdditionalSpecFns;

verus! {

/// Errors of the inference backend.
#[derive(Debug)]
pub enum LlamaError {
    /// Loading the model file failed.
    ModelLoadFailed(String),
    /// Tokenization failed.
    TokenizeFailed(String),
    /// Decoding a batch failed.
    DecodeFailed(String),
    /// Creating a context failed.
    ContextFailed(String),
}

/// Token id type.
pub type TokenId = i32;

/// Model parameters.
pub struct ModelParams {
    /// Number of GPU layers to offload (-1 = all).
    pub n_gpu_layers: i32,

    /// Use memory mapping for the model file.
    pub use_mmap: bool,

    /// Use memory locking.
    pub use_mlock: bool,
}

impl Default for ModelParams {
    fn default() -> (r: ModelParams)
        ensures
            r.n_gpu_layers == -1,
            r.use_mmap,
            !r.use_mlock,
    {
        ModelParams { n_gpu_layers: -1, use_mmap: true, use_mlock: false }
    }
}

/// Context parameters.
pub struct ContextParams {
    /// Context size in tokens.
    pub n_ctx: u32,

    /// Batch size for prompt processing.
    pub n_batch: u32,

    /// Number of threads for computation.
    pub n_threads: u32,

    /// Use flash attention.
    pub flash_attn: bool,
}

impl Default for ContextParams {
    fn default() -> (r: ContextParams)
        ensures
            r.n_ctx == 32768,
            r.n_batch == 512,
            r.n_threads == 4,
            r.flash_attn,
    {
        ContextParams { n_ctx: 32768, n_batch: 512, n_threads: 4, flash_attn: true }
    }
}

/// Stub model handle.
pub struct LlamaModel {
    /// Model file path.
    pub path: String,

    /// Vocabulary size.
    pub n_vocab: usize,

    /// Number of layers.
    pub n_layers: usize,

    /// Number of attention heads.
    pub n_heads: usize,

    /// Number of KV heads (for GQA).
    pub n_kv_heads: usize,

    /// Hidden dimension per head.
    pub head_dim: usize,
}

/// Stub context handle.
pub struct LlamaContext {
    /// Context size.
    pub n_ctx: u32,

    /// Current token position.
    pub pos: usize,
}

impl LlamaModel {
    /// Load a model (stub): reports the architecture of the default
    /// target model.
    pub fn load(path: &str, _params: ModelParams) -> (r: Result<LlamaModel, LlamaError>)
        ensures
            r matches Ok(m) ==> {
                &&& m.path@ == path@
                &&& m.n_vocab == 152064
                &&& m.n_layers == 40
                &&& m.n_heads == 40
                &&& m.n_kv_heads == 8
                &&& m.head_dim == 128
            },
            r is Ok,
    {
        Ok(
            LlamaModel {
                path: String::from_str(path),
                n_vocab: 152064,
                n_layers: 40,
                n_heads: 40,
                n_kv_heads: 8,
                head_dim: 128,
            },
        )
    }

    /// Create a new context for this model (stub).
    pub fn new_context(&self, _params: ContextParams) -> (r: Result<LlamaContext, LlamaError>)
        ensures
            r matches Ok(c) ==> c.n_ctx == 32768 && c.pos == 0,
            r is Ok,
    {
        Ok(LlamaContext { n_ctx: 32768, pos: 0 })
    }

    /// Tokenize a string into token ids (stub): roughly one token per
    /// four bytes, at least one, preceded by the BOS token when asked.
    pub fn tokenize(&self, text: &str, add_bos: bool) -> (r: Result<Vec<TokenId>, LlamaError>)
        requires
            text.spec_bytes().len() < 0x1_0000_0000,
        ensures
            r is Ok,
            r matches Ok(tokens) ==> {
                let n = if text.spec_bytes().len() / 4 >= 1 {
                    text.spec_bytes().len() as int / 4
                } else {
                    1int
                };
                &&& tokens.len() == n + if add_bos {
                    1int
                } else {
                    0int
                }
                &&& (add_bos ==> tokens[0] == 1)
                &&& (forall|k: int|
                    (if add_bos {
                        1int
                    } else {
                        0int
                    }) <= k < tokens.len() ==> #[trigger] tokens[k] == k - (if add_bos {
                        1int
                    } else {
                        0int
                    }))
            },
    {
        let byte_len = text.len();
        let n_tokens: usize = if byte_len / 4 >= 1 {
            byte_len / 4
        } else {
            1
        };
        let mut tokens: Vec<TokenId> = Vec::new();
        let mut k: usize = 0;
        while k < n_tokens
            invariant
                k <= n_tokens,
                n_tokens < 0x4000_0000,
                tokens.len() == k,
                forall|j: int| 0 <= j < k ==> #[trigger] tokens[j] == j,
            decreases n_tokens - k,
        {
            tokens.push(k as i32);
            k = k + 1;
        }
        if add_bos {
            tokens.insert(0, 1);
        }
        Ok(tokens)
    }

    /// Decode tokens back to text (stub): returns a fixed placeholder
    /// marker.
    pub fn detokenize(&self, _tokens: &Vec<TokenId>) -> (r: Result<String, LlamaError>)
        ensures
            r is Ok,
    {
        Ok(String::from_str("[decoded tokens]"))
    }
}

impl LlamaContext {
    /// Process a batch of tokens (stub): advances the position.
    pub fn decode(&mut self, tokens: &Vec<TokenId>) -> (r: Result<(), LlamaError>)
        requires
            old(self).pos + tokens.len() <= usize::MAX,
        ensures
            r is Ok,
            final(self).pos == old(self).pos + tokens.len(),
            final(self).n_ctx == old(self).n_ctx,
    {
        self.pos = self.pos + tokens.len();
        Ok(())
    }

    /// Sample the next token (stub): returns a fixed token.
    pub fn sample(&self) -> (r: Result<TokenId, LlamaError>)
        ensures
            r == Ok::<TokenId, LlamaError>(42i32),
    {
        Ok(42)
    }

    /// Get the current KV cache usage in tokens.
    pub fn kv_cache_used(&self) -> (r: usize)
        ensures
            r == self.pos,
    {
        self.pos
    }

    /// Clear the KV cache.
    pub fn kv_cache_clear(&mut self)
        ensures
            final(self).pos == 0,
            final(self).n_ctx == old(self).n_ctx,
    {
        self.pos = 0;
    }
}

} // verus!
