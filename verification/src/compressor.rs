//! Compression pipeline for KV cache blocks.
//!
//! Handles quantization (FP16 to Q8 to Q4) and lossless stream
//! compression for tier transitions; decompression reverses the
//! pipeline step by step, lifting data back to FP16.
//!
//! The quantization stages here are block-size-preserving placeholders
//! for device quantization kernels: FP16 to Q8 keeps every other byte,
//! Q8 to Q4 packs the two high nibbles of a byte pair into one byte.
//! Their inverses restore the exact byte lengths, which is what the
//! pager's accounting relies on.

use vstd::prelude::*;

use crate::block::{BlockPayload, KvBlock};
use crate::config::CompressionConfig;
use crate::tier::{CacheFormat, Tier};

verus! {

/// Errors of the compression pipeline.
#[derive(Debug, Clone, Copy, PartialEq, Eq, Structural)]
pub enum CompressionError {
    /// The lossless stream codec failed.
    StreamCompressionFailed,
    /// The source format cannot be quantized to the requested one.
    InvalidQuantization { from: CacheFormat, to: CacheFormat },
    /// The block has no byte payload to transform.
    NoData,
}

/// What `zstd::stream::decode_all` returns on the given bytes: the
/// decompressed payload for a well-formed compressed stream, absent
/// otherwise.  Decompression is a function of the input bytes alone.
pub uninterp spec fn zstd_decoded(data: Seq<u8>) -> Option<Seq<u8>>;

/// What `zstd::stream::encode_all` returns on the given bytes at the
/// given level.  Compression is a function of the bytes and the level
/// alone (no dictionary, no environment).
pub uninterp spec fn zstd_encoded(data: Seq<u8>, level: int) -> Seq<u8>;

/// Relies on `zstd::stream::encode_all`: compressing an in-memory
/// buffer at an accepted level succeeds (reading from a slice cannot
/// fail, and this library leaves allocation failure aside), and the
/// produced stream is one that `decode_all` losslessly decodes back
/// to the input, as the codec documents.
#[verifier::external_body]
fn zstd_encode(data: &Vec<u8>, level: i32) -> (r: Result<Vec<u8>, ()>)
    requires
        1 <= level <= 22,
    ensures
        r is Ok,
        r matches Ok(c) ==> c@ == zstd_encoded(data@, level as int) && zstd_decoded(c@) == Some(
            data@,
        ),
{
    match zstd::stream::encode_all(data.as_slice(), level) {
        Ok(c) => Ok(c),
        Err(_) => Err(()),
    }
}

/// Relies on `zstd::stream::decode_all`: decompresses a compressed
/// stream, failing exactly on inputs that are not well-formed streams.
#[verifier::external_body]
fn zstd_decode(data: &Vec<u8>) -> (r: Result<Vec<u8>, ()>)
    ensures
        r is Ok <==> zstd_decoded(data@) is Some,
        r matches Ok(d) ==> Some(d@) == zstd_decoded(data@),
{
    match zstd::stream::decode_all(data.as_slice()) {
        Ok(d) => Ok(d),
        Err(_) => Err(()),
    }
}

/// FP16 to Q8 quantization: one byte out of every FP16 byte pair.
pub open spec fn q8_of(s: Seq<u8>) -> Seq<u8> {
    Seq::new(((s.len() + 1) / 2) as nat, |i: int| s[2 * i])
}

/// Q8 to Q4 quantization: the high nibbles of a byte pair packed into
/// one byte (an unpaired final byte contributes only the high nibble).
pub open spec fn q4_of(s: Seq<u8>) -> Seq<u8> {
    Seq::new(
        ((s.len() + 1) / 2) as nat,
        |i: int|
            if 2 * i + 1 < s.len() {
                ((s[2 * i] >> 4u8) << 4u8) | (s[2 * i + 1] >> 4u8)
            } else {
                (s[2 * i] >> 4u8) << 4u8
            },
    )
}

/// Q8 to FP16 dequantization: each byte expands to a byte pair with a
/// zero-filled high byte.
pub open spec fn unq8_of(s: Seq<u8>) -> Seq<u8> {
    Seq::new(
        (2 * s.len()) as nat,
        |i: int|
            if i % 2 == 0 {
                s[i / 2]
            } else {
                0u8
            },
    )
}

/// Q4 to Q8 dequantization: each byte unpacks into two bytes holding
/// its high and low nibble, shifted back up.
pub open spec fn unq4_of(s: Seq<u8>) -> Seq<u8> {
    Seq::new(
        (2 * s.len()) as nat,
        |i: int|
            if i % 2 == 0 {
                (s[i / 2] >> 4u8) << 4u8
            } else {
                (s[i / 2] & 0x0Fu8) << 4u8
            },
    )
}

/// The FP16 bytes that decompression yields from data in a given
/// format, if the stream stage (when present) can decode the bytes.
pub open spec fn spec_decompressed(f: CacheFormat, d: Seq<u8>) -> Option<Seq<u8>> {
    match f {
        CacheFormat::Fp16 => Some(d),
        CacheFormat::Q8 => Some(unq8_of(d)),
        CacheFormat::Q4 => Some(unq8_of(unq4_of(d))),
        CacheFormat::Q4Zstd => match zstd_decoded(d) {
            Some(x) => Some(unq8_of(unq4_of(x))),
            None => None,
        },
    }
}

/// The byte payload a transition reads, if the block carries one.
pub open spec fn payload_bytes(p: BlockPayload) -> Option<Seq<u8>> {
    match p {
        BlockPayload::Gpu(_) => None,
        BlockPayload::Ram(d) => Some(d@),
        BlockPayload::Disk(d) => Some(d@),
    }
}

/// The bytes a disk-bound transition holds before stream compression:
/// quantized to Q4 if the configuration asks for it.
pub open spec fn disk_staged(cfg: CompressionConfig, d: Seq<u8>) -> Seq<u8> {
    if cfg.ram_to_disk_quantize {
        q4_of(d)
    } else {
        d
    }
}

/// The bytes a tier transition stores for a byte payload `d`:
/// GPU-to-RAM optionally quantizes to Q8, RAM-to-disk optionally
/// quantizes to Q4 and then optionally stream-compresses, every other
/// pair copies.
pub open spec fn spec_compressed(
    cfg: CompressionConfig,
    d: Seq<u8>,
    from: Tier,
    to: Tier,
) -> Seq<u8> {
    match (from, to) {
        (Tier::Gpu, Tier::Ram) => if cfg.gpu_to_ram_quantize {
            q8_of(d)
        } else {
            d
        },
        (Tier::Ram, Tier::LocalDisk) | (Tier::Ram, Tier::Nfs) => if cfg.disk_zstd_compression {
            zstd_encoded(disk_staged(cfg, d), cfg.zstd_level as int)
        } else {
            disk_staged(cfg, d)
        },
        _ => d,
    }
}

/// The compression engine: a stateless transformer keyed on the source
/// and target tier, driven by the configuration.
pub struct Compressor {
    /// Compression configuration (read-only).
    pub config: CompressionConfig,
}

impl Compressor {
    /// Create a compressor with the given configuration.
    pub fn new(config: CompressionConfig) -> (r: Compressor)
        ensures
            r.config == config,
    {
        Compressor { config }
    }

    /// FP16 to Q8 quantization: halves the data, keeping every other
    /// byte.
    pub fn quantize_fp16_to_q8(&self, data: &[u8]) -> (r: Result<Vec<u8>, CompressionError>)
        ensures
            r is Ok,
            r matches Ok(v) ==> v@ == q8_of(data@),
    {
        let n = data.len();
        let m = n / 2 + n % 2;
        let mut out: Vec<u8> = Vec::new();
        let mut j: usize = 0;
        while j < m
            invariant
                j <= m,
                n == data@.len(),
                m == (n + 1) / 2,
                out.len() == j,
                forall|k: int| 0 <= k < j ==> out[k] == q8_of(data@)[k],
            decreases m - j,
        {
            out.push(*vstd::slice::slice_index_get(data, 2 * j));
            proof {
                assert(out@[j as int] == q8_of(data@)[j as int]);
            }
            j = j + 1;
        }
        proof {
            assert(out@ =~= q8_of(data@));
        }
        Ok(out)
    }

    /// Q8 to Q4 quantization: packs the high nibbles of two bytes into
    /// one.
    pub fn quantize_q8_to_q4(&self, data: &[u8]) -> (r: Result<Vec<u8>, CompressionError>)
        ensures
            r is Ok,
            r matches Ok(v) ==> v@ == q4_of(data@),
    {
        let n = data.len();
        let m = n / 2 + n % 2;
        let mut out: Vec<u8> = Vec::new();
        let mut j: usize = 0;
        while j < m
            invariant
                j <= m,
                n == data@.len(),
                m == (n + 1) / 2,
                out.len() == j,
                forall|k: int| 0 <= k < j ==> out[k] == q4_of(data@)[k],
            decreases m - j,
        {
            let hi = *vstd::slice::slice_index_get(data, 2 * j) >> 4u8;
            if 2 * j + 1 < n {
                let lo = *vstd::slice::slice_index_get(data, 2 * j + 1) >> 4u8;
                out.push((hi << 4u8) | lo);
            } else {
                out.push(hi << 4u8);
            }
            proof {
                assert(out@[j as int] == q4_of(data@)[j as int]);
            }
            j = j + 1;
        }
        proof {
            assert(out@ =~= q4_of(data@));
        }
        Ok(out)
    }

    /// Q8 to FP16 dequantization: expands each byte to a zero-padded
    /// byte pair.
    pub fn dequantize_q8_to_fp16(&self, data: &[u8]) -> (r: Result<Vec<u8>, CompressionError>)
        requires
            2 * data.len() <= usize::MAX,
        ensures
            r is Ok,
            r matches Ok(v) ==> v@ == unq8_of(data@),
    {
        let n = data.len();
        let mut out: Vec<u8> = Vec::new();
        let mut i: usize = 0;
        while i < n
            invariant
                i <= n,
                n == data@.len(),
                2 * n <= usize::MAX,
                out.len() == 2 * i,
                forall|j: int| 0 <= j < out.len() ==> out[j] == unq8_of(data@)[j],
            decreases n - i,
        {
            out.push(*vstd::slice::slice_index_get(data, i));
            out.push(0u8);
            proof {
                assert(out@[2 * i as int] == unq8_of(data@)[2 * i as int]);
                assert(out@[2 * i as int + 1] == unq8_of(data@)[2 * i as int + 1]);
            }
            i = i + 1;
        }
        proof {
            assert(out@ =~= unq8_of(data@));
        }
        Ok(out)
    }

    /// Q4 to Q8 dequantization: unpacks each byte's two nibbles.
    pub fn dequantize_q4_to_q8(&self, data: &[u8]) -> (r: Result<Vec<u8>, CompressionError>)
        requires
            2 * data.len() <= usize::MAX,
        ensures
            r is Ok,
            r matches Ok(v) ==> v@ == unq4_of(data@),
    {
        let n = data.len();
        let mut out: Vec<u8> = Vec::new();
        let mut i: usize = 0;
        while i < n
            invariant
                i <= n,
                n == data@.len(),
                2 * n <= usize::MAX,
                out.len() == 2 * i,
                forall|j: int| 0 <= j < out.len() ==> out[j] == unq4_of(data@)[j],
            decreases n - i,
        {
            let byte = *vstd::slice::slice_index_get(data, i);
            out.push((byte >> 4u8) << 4u8);
            out.push((byte & 0x0Fu8) << 4u8);
            proof {
                assert(out@[2 * i as int] == unq4_of(data@)[2 * i as int]);
                assert(out@[2 * i as int + 1] == unq4_of(data@)[2 * i as int + 1]);
            }
            i = i + 1;
        }
        proof {
            assert(out@ =~= unq4_of(data@));
        }
        Ok(out)
    }

    /// Compress bytes with the lossless stream codec at the configured
    /// level.  Stream compression of an in-memory buffer succeeds and
    /// its output decodes back to the input.
    pub fn zstd_compress(&self, data: &Vec<u8>) -> (r: Result<Vec<u8>, CompressionError>)
        requires
            self.config.wf(),
        ensures
            r is Ok,
            r matches Ok(c) ==> c@ == zstd_encoded(data@, self.config.zstd_level as int)
                && zstd_decoded(c@) == Some(data@),
    {
        match zstd_encode(data, self.config.zstd_level) {
            Ok(c) => Ok(c),
            Err(_) => Err(CompressionError::StreamCompressionFailed),
        }
    }

    /// Decompress a stream produced by the lossless codec; fails
    /// exactly on bytes that are not a well-formed stream.
    pub fn zstd_decompress(&self, data: &Vec<u8>) -> (r: Result<Vec<u8>, CompressionError>)
        ensures
            r is Ok <==> zstd_decoded(data@) is Some,
            r matches Ok(d) ==> Some(d@) == zstd_decoded(data@),
            r is Err ==> r == Err::<Vec<u8>, CompressionError>(
                CompressionError::StreamCompressionFailed,
            ),
    {
        match zstd_decode(data) {
            Ok(d) => Ok(d),
            Err(_) => Err(CompressionError::StreamCompressionFailed),
        }
    }

    /// Compress a block's payload for storage in the target tier.
    ///
    /// GPU-to-RAM optionally quantizes FP16 to Q8; RAM-to-disk
    /// optionally quantizes Q8 to Q4 and then optionally applies the
    /// lossless stream codec; a disk-to-disk move copies; every other
    /// pair is the identity.  A block without a byte payload (one
    /// living on GPU) cannot be transformed here.
    pub fn compress_for_tier(&self, block: &KvBlock, target_tier: Tier) -> (r: Result<
        Vec<u8>,
        CompressionError,
    >)
        requires
            self.config.wf(),
        ensures
            payload_bytes(block.payload) is None <==> r == Err::<Vec<u8>, CompressionError>(
                CompressionError::NoData,
            ),
            payload_bytes(block.payload) matches Some(d) ==> {
                &&& r is Ok
                &&& (r matches Ok(v) ==> v@ == spec_compressed(
                    self.config,
                    d,
                    block.tier,
                    target_tier,
                ))
                &&& (r matches Ok(v) ==> (block.tier is Ram && (target_tier is LocalDisk
                    || target_tier is Nfs) && self.config.disk_zstd_compression
                    ==> zstd_decoded(v@) == Some(disk_staged(self.config, d))))
            },
    {
        let data: &Vec<u8> = match &block.payload {
            BlockPayload::Ram(d) => d,
            BlockPayload::Disk(d) => d,
            BlockPayload::Gpu(_) => {
                return Err(CompressionError::NoData);
            },
        };

        match (block.tier, target_tier) {
            // GPU to RAM: optionally quantize FP16 to Q8.
            (Tier::Gpu, Tier::Ram) => {
                if self.config.gpu_to_ram_quantize {
                    self.quantize_fp16_to_q8(data.as_slice())
                } else {
                    Ok(data.clone())
                }
            },
            // RAM to disk: optionally quantize Q8 to Q4, then
            // optionally stream-compress; quantize before compressing.
            (Tier::Ram, Tier::LocalDisk) | (Tier::Ram, Tier::Nfs) => {
                let staged: Vec<u8> = if self.config.ram_to_disk_quantize {
                    match self.quantize_q8_to_q4(data.as_slice()) {
                        Ok(q) => q,
                        Err(e) => {
                            return Err(e);
                        },
                    }
                } else {
                    data.clone()
                };
                if self.config.disk_zstd_compression {
                    self.zstd_compress(&staged)
                } else {
                    Ok(staged)
                }
            },
            // Any other pair (including disk to NFS): the bytes copy.
            _ => Ok(data.clone()),
        }
    }

    /// Decompress data from a given format back to FP16, reversing the
    /// pipeline step by step.
    pub fn decompress(&self, data: &[u8], format: CacheFormat) -> (r: Result<
        Vec<u8>,
        CompressionError,
    >)
        requires
            4 * data.len() <= usize::MAX,
        ensures
            match format {
                CacheFormat::Fp16 => r matches Ok(v) && v@ == data@,
                CacheFormat::Q8 => r matches Ok(v) && v@ == unq8_of(data@),
                CacheFormat::Q4 => r matches Ok(v) && v@ == unq8_of(unq4_of(data@)),
                CacheFormat::Q4Zstd => {
                    &&& (r is Ok <==> (zstd_decoded(data@) is Some && 4 * zstd_decoded(
                        data@,
                    ).unwrap().len() <= usize::MAX))
                    &&& (r matches Ok(v) ==> v@ == unq8_of(unq4_of(zstd_decoded(data@).unwrap())))
                    &&& (r is Err ==> r == Err::<Vec<u8>, CompressionError>(
                        CompressionError::StreamCompressionFailed,
                    ))
                },
            },
    {
        match format {
            CacheFormat::Q4Zstd => {
                let mut buf: Vec<u8> = Vec::new();
                buf.extend_from_slice(data);
                proof {
                    assert(buf@ =~= data@);
                }
                match self.zstd_decompress(&buf) {
                    Ok(decompressed) => {
                        if decompressed.len() > usize::MAX / 4 {
                            return Err(CompressionError::StreamCompressionFailed);
                        }
                        let dequantized = match self.dequantize_q4_to_q8(
                            decompressed.as_slice(),
                        ) {
                            Ok(v) => v,
                            Err(e) => {
                                return Err(e);
                            },
                        };
                        self.dequantize_q8_to_fp16(dequantized.as_slice())
                    },
                    Err(e) => Err(e),
                }
            },
            CacheFormat::Q4 => {
                let dequantized = match self.dequantize_q4_to_q8(data) {
                    Ok(v) => v,
                    Err(e) => {
                        return Err(e);
                    },
                };
                self.dequantize_q8_to_fp16(dequantized.as_slice())
            },
            CacheFormat::Q8 => self.dequantize_q8_to_fp16(data),
            CacheFormat::Fp16 => {
                let mut out: Vec<u8> = Vec::new();
                out.extend_from_slice(data);
                proof {
                    assert(out@ =~= data@);
                }
                Ok(out)
            },
        }
    }
}

/// The quantization pipeline restores byte lengths: lifting a
/// Q8-quantized buffer back to FP16 returns exactly as many bytes as
/// the even-length FP16 input had.
pub proof fn lemma_q8_roundtrip_len(d: Seq<u8>)
    requires
        d.len() % 2 == 0,
    ensures
        unq8_of(q8_of(d)).len() == d.len(),
{
}

/// Likewise one level down: unpacking a Q4-packed buffer returns
/// exactly as many bytes as the even-length Q8 input had, so a full
/// lift to FP16 doubles it.
pub proof fn lemma_q4_roundtrip_len(d: Seq<u8>)
    requires
        d.len() % 2 == 0,
    ensures
        unq4_of(q4_of(d)).len() == d.len(),
        unq8_of(unq4_of(q4_of(d))).len() == 2 * d.len(),
{
}

} // verus!
