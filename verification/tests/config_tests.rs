//! Tests for configuration and sizing arithmetic.

use kv_cache_tier::config::Config;
use kv_cache_tier::device::{stub_devices_molly, stub_devices_wintermute};
use kv_cache_tier::llama::{ContextParams, LlamaModel, ModelParams};
use kv_cache_tier::model::{stub_metadata_14b, stub_metadata_32b};

#[test]
fn test_default_config() {
    let cfg = Config::default();
    // Fractions are fixed-point: one million parts stand for 1.0.
    assert_eq!(cfg.eviction.alpha, 600_000);
    assert_eq!(cfg.model.block_size, 256);
}

#[test]
fn test_kv_block_bytes() {
    let cfg = Config::default();
    // block_size(256) * n_kv_heads(8) * head_dim(128) * 2(fp16) * 2(K+V) * n_layers(40)
    let expected = 256 * 8 * 128 * 2 * 2 * 40;
    assert_eq!(cfg.kv_block_bytes(), expected);
}

#[test]
fn test_tokens_for_budget() {
    let cfg = Config::default();
    let block_bytes = cfg.kv_block_bytes();
    // Exactly three blocks fit: three blocks' worth of tokens.
    assert_eq!(cfg.tokens_for_budget(3 * block_bytes + 17), 3 * 256);
    assert_eq!(cfg.tokens_for_budget(0), 0);
}

#[test]
fn test_kv_bytes_per_token_14b() {
    let meta = stub_metadata_14b();
    // 2 * 8 * 128 * 2 * 48 = 196,608 bytes per token
    let expected = 2 * 8 * 128 * 2 * 48;
    assert_eq!(meta.kv_bytes_per_token(), expected);
}

#[test]
fn test_context_for_vram() {
    let meta = stub_metadata_14b();
    let per_token = meta.kv_bytes_per_token();
    let vram = 4 * 1024 * 1024 * 1024; // 4 GiB
    let tokens = meta.context_for_vram(vram);
    assert_eq!(tokens, vram / per_token);
    assert!(tokens > 20000); // should support good context at 4 GiB
}

#[test]
fn test_kv_cache_size() {
    let meta = stub_metadata_32b();
    let per_token = meta.kv_bytes_per_token();
    assert_eq!(meta.kv_cache_size(1000), per_token * 1000);
}

#[test]
fn test_stub_devices() {
    let molly = stub_devices_molly();
    assert_eq!(molly.len(), 2);
    assert_eq!(molly[0].total_vram, 8 * 1024 * 1024 * 1024);

    let wintermute = stub_devices_wintermute();
    assert_eq!(wintermute.len(), 2);
    assert_eq!(wintermute[0].total_vram, 24 * 1024 * 1024 * 1024);
}

#[test]
fn test_model_load_stub() {
    let model = LlamaModel::load("test.gguf", ModelParams::default()).unwrap();
    assert_eq!(model.n_layers, 40);
}

#[test]
fn test_tokenize_stub() {
    let model = LlamaModel::load("test.gguf", ModelParams::default()).unwrap();
    let tokens = model.tokenize("Hello, world!", true).unwrap();
    assert!(!tokens.is_empty());
    assert_eq!(tokens[0], 1); // BOS
}

#[test]
fn test_context_decode() {
    let model = LlamaModel::load("test.gguf", ModelParams::default()).unwrap();
    let mut ctx = model.new_context(ContextParams::default()).unwrap();

    ctx.decode(&vec![1, 2, 3]).unwrap();
    assert_eq!(ctx.kv_cache_used(), 3);

    let token = ctx.sample().unwrap();
    assert_eq!(token, 42);
}
