//! Tiered KV-cache core for large-language-model inference.
//!
//! The library pages fixed-size KV blocks across a four-tier storage
//! hierarchy (GPU VRAM, host RAM, local SSD, NFS) while a decode loop
//! progresses.  It provides the block-addressed index, the tiered pager
//! with watermark-driven eviction, the attention-aware eviction policy,
//! the sliding-window prefetcher, the cross-tier compression pipeline,
//! the VRAM block allocator and the priority-driven transfer scheduler.
//!
//! Fractions (watermarks, eviction weights, attention scores) are held
//! as fixed-point integers in parts per million, so that every rule of
//! the core is exact and provable.

pub mod allocator;
pub mod block;
pub mod compressor;
pub mod config;
pub mod device;
pub mod evictor;
pub mod llama;
pub mod model;
pub mod pager;
pub mod prefetcher;
pub mod scheduler;
pub mod tier;
pub mod transfer;
pub mod units;
