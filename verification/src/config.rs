//! Runtime configuration for the tiered KV cache.
//!
//! All tier-related knobs (capacities, thresholds, eviction weights)
//! live here.  Fractions are fixed-point integers in `SCALE` units
//! (parts per million): watermarks, eviction weights and the attention
//! decay all stand for `value / SCALE` as a real number.

use vstd::prelude::*;

use crate::units::SCALE;

verus! {

/// HTTP server settings.
pub struct ServerConfig {
    /// Listen address, e.g. `0.0.0.0:8080`.
    pub listen: String,

    /// Maximum concurrent requests.
    pub max_concurrent_requests: usize,

    /// Request timeout in seconds.
    pub request_timeout_secs: u64,
}

impl Default for ServerConfig {
    fn default() -> (r: ServerConfig)
        ensures
            r.max_concurrent_requests == 4,
            r.request_timeout_secs == 300,
    {
        ServerConfig {
            listen: String::from_str("0.0.0.0:8080"),
            max_concurrent_requests: 4,
            request_timeout_secs: 300,
        }
    }
}

/// Model-related settings.
pub struct ModelConfig {
    /// Path to the GGUF model file.
    pub model_path: String,

    /// Number of GPU layers to offload (-1 = all).
    pub n_gpu_layers: i32,

    /// Context size in tokens.
    pub context_size: usize,

    /// Number of attention heads.
    pub n_heads: usize,

    /// Number of KV heads (for GQA/MQA).
    pub n_kv_heads: usize,

    /// Head dimension.
    pub head_dim: usize,

    /// Number of layers in the model.
    pub n_layers: usize,

    /// KV block size in tokens.
    pub block_size: usize,
}

impl Default for ModelConfig {
    fn default() -> (r: ModelConfig)
        ensures
            r.n_gpu_layers == -1,
            r.context_size == 32768,
            r.n_heads == 40,
            r.n_kv_heads == 8,
            r.head_dim == 128,
            r.n_layers == 40,
            r.block_size == 256,
    {
        ModelConfig {
            model_path: String::from_str("model.gguf"),
            n_gpu_layers: -1,
            context_size: 32768,
            n_heads: 40,
            n_kv_heads: 8,
            head_dim: 128,
            n_layers: 40,
            block_size: 256,
        }
    }
}

/// Tier capacity and watermark configuration.
///
/// Storage roots for the disk tiers are handled by the I/O layer; the
/// core only needs the byte budgets and whether an NFS tier exists.
pub struct TierConfig {
    /// GPU VRAM budget for KV cache in bytes (0 = auto-detect).
    pub gpu_vram_budget: u64,

    /// Host RAM budget for KV cache in bytes.
    pub host_ram_budget: u64,

    /// Maximum bytes on local SSD.
    pub local_ssd_budget: u64,

    /// Whether an NFS tier is configured.
    pub nfs_configured: bool,

    /// Maximum bytes on NFS.
    pub nfs_budget: u64,

    /// High watermark, in `SCALE` units: eviction starts when a tier's
    /// usage exceeds this fraction of its capacity.
    pub high_watermark: u64,

    /// Low watermark, in `SCALE` units: eviction aims below this
    /// fraction.
    pub low_watermark: u64,
}

impl TierConfig {
    /// Watermarks are proper fractions with the low one below the high.
    pub open spec fn wf(self) -> bool {
        0 < self.low_watermark < self.high_watermark < SCALE
    }
}

impl Default for TierConfig {
    fn default() -> (r: TierConfig)
        ensures
            r.wf(),
            r.gpu_vram_budget == 0,
            r.host_ram_budget == 8_589_934_592,
            r.local_ssd_budget == 21_474_836_480,
            !r.nfs_configured,
            r.nfs_budget == 0,
            r.high_watermark == 850_000,
            r.low_watermark == 700_000,
    {
        TierConfig {
            gpu_vram_budget: 0,  // auto-detect
            host_ram_budget: 8_589_934_592,  // 8 GiB
            local_ssd_budget: 21_474_836_480,  // 20 GiB
            nfs_configured: false,
            nfs_budget: 0,
            high_watermark: 850_000,
            low_watermark: 700_000,
        }
    }
}

/// Eviction policy weights, in `SCALE` units.
pub struct EvictionConfig {
    /// Weight for the inverse attention score (higher = prefer
    /// evicting low-attention blocks).
    pub alpha: u64,

    /// Weight for age / time since last access.
    pub beta: u64,

    /// Weight for tier preference (prefer evicting from GPU first).
    pub gamma: u64,

    /// Exponential moving average decay for attention scores.
    pub attention_ema_decay: u64,

    /// Minimum number of blocks to keep hot on GPU.
    pub min_hot_blocks: usize,
}

impl EvictionConfig {
    /// The weights and the decay are proper fixed-point fractions (at
    /// most one), which keeps the priority arithmetic overflow-free.
    pub open spec fn wf(self) -> bool {
        &&& self.alpha <= SCALE
        &&& self.beta <= SCALE
        &&& self.gamma <= SCALE
        &&& self.attention_ema_decay <= SCALE
    }
}

impl Default for EvictionConfig {
    fn default() -> (r: EvictionConfig)
        ensures
            r.wf(),
            r.alpha == 600_000,
            r.beta == 300_000,
            r.gamma == 100_000,
            r.attention_ema_decay == 900_000,
            r.min_hot_blocks == 8,
    {
        EvictionConfig {
            alpha: 600_000,
            beta: 300_000,
            gamma: 100_000,
            attention_ema_decay: 900_000,
            min_hot_blocks: 8,  // 2048 tokens at block_size 256
        }
    }
}

/// Compression settings per tier transition.
pub struct CompressionConfig {
    /// Quantize to Q8 when moving GPU to RAM.
    pub gpu_to_ram_quantize: bool,

    /// Quantize to Q4 when moving RAM to disk.
    pub ram_to_disk_quantize: bool,

    /// Apply lossless stream compression when writing to disk.
    pub disk_zstd_compression: bool,

    /// Stream compression level (1-22).
    pub zstd_level: i32,
}

impl CompressionConfig {
    /// The compression level lies in the library's accepted range,
    /// and the stream stage presupposes the quantize stage: the cold
    /// on-disk format names both, so a stream-compressed payload is
    /// always a quantized one.
    pub open spec fn wf(self) -> bool {
        &&& 1 <= self.zstd_level <= 22
        &&& self.disk_zstd_compression ==> self.ram_to_disk_quantize
    }
}

impl Default for CompressionConfig {
    fn default() -> (r: CompressionConfig)
        ensures
            r.wf(),
            r.gpu_to_ram_quantize,
            r.ram_to_disk_quantize,
            r.disk_zstd_compression,
            r.zstd_level == 3,
    {
        CompressionConfig {
            gpu_to_ram_quantize: true,
            ram_to_disk_quantize: true,
            disk_zstd_compression: true,
            zstd_level: 3,
        }
    }
}

/// Prefetch strategy settings.
pub struct PrefetchConfig {
    /// Number of tokens in the sliding hot window.
    pub hot_window_tokens: usize,

    /// Number of blocks to prefetch ahead of the hot window.
    pub prefetch_ahead: usize,

    /// Enable attention-pattern-based prefetching.
    pub attention_based: bool,
}

impl Default for PrefetchConfig {
    fn default() -> (r: PrefetchConfig)
        ensures
            r.hot_window_tokens == 2048,
            r.prefetch_ahead == 4,
            !r.attention_based,
    {
        PrefetchConfig { hot_window_tokens: 2048, prefetch_ahead: 4, attention_based: false }
    }
}

/// Top-level configuration.
pub struct Config {
    /// Server configuration.
    pub server: ServerConfig,

    /// Model configuration.
    pub model: ModelConfig,

    /// Tier configuration.
    pub tiers: TierConfig,

    /// Eviction policy tuning.
    pub eviction: EvictionConfig,

    /// Compression settings.
    pub compression: CompressionConfig,

    /// Prefetching settings.
    pub prefetch: PrefetchConfig,
}

impl Config {
    /// Well-formedness of the parts the cache core relies on.
    pub open spec fn wf(self) -> bool {
        &&& self.tiers.wf()
        &&& self.eviction.wf()
        &&& self.compression.wf()
        &&& self.model.block_size >= 1
    }

    /// The size in bytes of a single KV block at FP16: two bytes per
    /// element, both K and V, across all layers.
    pub open spec fn spec_kv_block_bytes(self) -> int {
        self.model.block_size * self.model.n_kv_heads * self.model.head_dim * 4
            * self.model.n_layers
    }

    /// Compute the size of a single KV block in bytes (FP16, K and V).
    pub fn kv_block_bytes(&self) -> (r: usize)
        requires
            self.model.block_size * self.model.n_kv_heads <= usize::MAX,
            self.model.block_size * self.model.n_kv_heads * self.model.head_dim <= usize::MAX,
            self.model.block_size * self.model.n_kv_heads * self.model.head_dim * 4 <= usize::MAX,
            self.spec_kv_block_bytes() <= usize::MAX,
        ensures
            r as int == self.spec_kv_block_bytes(),
    {
        let a = self.model.block_size * self.model.n_kv_heads;
        let b = a * self.model.head_dim;
        let per_layer = b * 4;  // 2 bytes per FP16 element, K and V
        per_layer * self.model.n_layers
    }

    /// Compute how many tokens fit in a byte budget at FP16: whole
    /// blocks only, `block_size` tokens each.
    pub fn tokens_for_budget(&self, budget_bytes: usize) -> (r: usize)
        requires
            self.model.block_size >= 1,
            self.model.block_size * self.model.n_kv_heads <= usize::MAX,
            self.model.block_size * self.model.n_kv_heads * self.model.head_dim <= usize::MAX,
            self.model.block_size * self.model.n_kv_heads * self.model.head_dim * 4 <= usize::MAX,
            self.spec_kv_block_bytes() <= usize::MAX,
        ensures
            self.spec_kv_block_bytes() == 0 ==> r == 0,
            self.spec_kv_block_bytes() > 0 ==> r as int == budget_bytes as int
                / self.spec_kv_block_bytes() * self.model.block_size,
    {
        let block_bytes = self.kv_block_bytes();
        if block_bytes == 0 {
            return 0;
        }
        let blocks = budget_bytes / block_bytes;
        proof {
            let bs = self.model.block_size as int;
            let m = self.model.n_kv_heads as int * self.model.head_dim as int * 4
                * self.model.n_layers as int;
            let k = self.spec_kv_block_bytes();
            let b = budget_bytes as int;
            assert(k == bs * m) by (nonlinear_arith)
                requires
                    k == self.model.block_size as int * self.model.n_kv_heads as int
                        * self.model.head_dim as int * 4 * self.model.n_layers as int,
                    m == self.model.n_kv_heads as int * self.model.head_dim as int * 4
                        * self.model.n_layers as int,
                    bs == self.model.block_size as int,
            ;
            assert(b / k * bs <= b) by (nonlinear_arith)
                requires
                    bs >= 1,
                    k == bs * m,
                    k > 0,
                    b >= 0,
            ;
        }
        blocks * self.model.block_size
    }
}

impl Default for Config {
    fn default() -> (r: Config)
        ensures
            r.wf(),
            r.model.block_size == 256,
            r.model.n_kv_heads == 8,
            r.model.head_dim == 128,
            r.model.n_layers == 40,
            r.tiers.high_watermark == 850_000,
            r.tiers.low_watermark == 700_000,
            r.eviction.alpha == 600_000,
            r.eviction.beta == 300_000,
            r.eviction.gamma == 100_000,
            r.eviction.attention_ema_decay == 900_000,
            r.compression.gpu_to_ram_quantize,
            r.compression.ram_to_disk_quantize,
            r.compression.disk_zstd_compression,
            r.compression.zstd_level == 3,
            r.prefetch.hot_window_tokens == 2048,
            r.prefetch.prefetch_ahead == 4,
    {
        Config {
            server: ServerConfig::default(),
            model: ModelConfig::default(),
            tiers: TierConfig::default(),
            eviction: EvictionConfig::default(),
            compression: CompressionConfig::default(),
            prefetch: PrefetchConfig::default(),
        }
    }
}

} // verus!
