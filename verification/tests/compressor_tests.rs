//! Tests for the compression pipeline.

use kv_cache_tier::block::GpuLocation;
use kv_cache_tier::block::KvBlock;
use kv_cache_tier::compressor::{CompressionError, Compressor};
use kv_cache_tier::config::CompressionConfig;
use kv_cache_tier::tier::{CacheFormat, Tier};

#[test]
fn test_zstd_roundtrip() {
    let compressor = Compressor::new(CompressionConfig::default());
    let data = vec![42u8; 4096];

    let compressed = compressor.zstd_compress(&data).unwrap();
    assert!(compressed.len() < data.len()); // should compress well

    let decompressed = compressor.zstd_decompress(&compressed).unwrap();
    assert_eq!(decompressed, data);
}

#[test]
fn test_quantize_reduces_size() {
    let compressor = Compressor::new(CompressionConfig::default());
    let data = vec![128u8; 1024]; // simulated FP16 data

    let q8 = compressor.quantize_fp16_to_q8(&data).unwrap();
    assert_eq!(q8.len(), 512); // 2x compression

    let q4 = compressor.quantize_q8_to_q4(&q8).unwrap();
    assert_eq!(q4.len(), 256); // 2x more compression
}

#[test]
fn test_quantize_roundtrip_length() {
    let compressor = Compressor::new(CompressionConfig::default());
    let data = vec![7u8; 4096];

    // FP16 -> Q8 -> FP16 restores the byte length exactly.
    let q8 = compressor.quantize_fp16_to_q8(&data).unwrap();
    let back = compressor.dequantize_q8_to_fp16(&q8).unwrap();
    assert_eq!(back.len(), data.len());

    // Q8 -> Q4 -> Q8 likewise.
    let q4 = compressor.quantize_q8_to_q4(&q8).unwrap();
    let q8_again = compressor.dequantize_q4_to_q8(&q4).unwrap();
    assert_eq!(q8_again.len(), q8.len());
}

#[test]
fn test_decompress_lifts_to_fp16_length() {
    let compressor = Compressor::new(CompressionConfig::default());
    // A Q8 buffer decompresses to twice its length at FP16.
    let q8 = vec![9u8; 512];
    let fp16 = compressor.decompress(&q8, CacheFormat::Q8).unwrap();
    assert_eq!(fp16.len(), 1024);
    // A Q4 buffer decompresses to four times its length.
    let q4 = vec![9u8; 256];
    let fp16 = compressor.decompress(&q4, CacheFormat::Q4).unwrap();
    assert_eq!(fp16.len(), 1024);
}

#[test]
fn test_compress_gpu_block_has_no_data() {
    let compressor = Compressor::new(CompressionConfig::default());
    let loc = GpuLocation {
        device_id: 0,
        offset: 0,
        size: 4096,
    };
    let block = KvBlock::new_gpu(0, 1, 0, 256, loc, 4096, 0);
    let result = compressor.compress_for_tier(&block, Tier::Ram);
    assert_eq!(result.unwrap_err(), CompressionError::NoData);
}

#[test]
fn test_compress_ram_block_for_disk() {
    let compressor = Compressor::new(CompressionConfig::default());
    let block = KvBlock::new_ram(0, 1, 0, 256, vec![42u8; 4096], CacheFormat::Q8, 0);
    // Quantize to Q4 then stream-compress: the result must decompress
    // back to the Q4 bytes.
    let compressed = compressor.compress_for_tier(&block, Tier::LocalDisk).unwrap();
    let unzstd = compressor.zstd_decompress(&compressed).unwrap();
    let expected_q4 = compressor.quantize_q8_to_q4(&vec![42u8; 4096]).unwrap();
    assert_eq!(unzstd, expected_q4);
}

#[test]
fn test_stream_decompress_rejects_garbage() {
    let compressor = Compressor::new(CompressionConfig::default());
    let garbage = vec![1u8, 2, 3, 4, 5];
    let result = compressor.zstd_decompress(&garbage);
    assert_eq!(result.unwrap_err(), CompressionError::StreamCompressionFailed);
}
