//! Bookkeeping for the transfer layer.
//!
//! The actual byte movement (device copies, file reads and writes)
//! belongs to the asynchronous transfer workers around the library;
//! the types here carry the accounting those workers report into, the
//! validation they rely on, and the on-disk shard layout rule.

use vstd::prelude::*;

use crate::block::BlockId;
use crate::tier::Tier;

verus! {

/// Errors of the device transfer engine.
#[derive(Debug)]
pub enum GpuTransferError {
    /// The underlying device runtime reported an error.
    CudaError(String),
    /// The block has no GPU payload.
    BlockNotOnGpu(BlockId),
    /// The device index names no available device.
    DeviceNotAvailable(usize),
    /// The destination region is smaller than the data.
    BufferTooSmall { needed: usize, available: usize },
}

/// A pending device transfer operation.
#[derive(Debug, Clone, Copy, PartialEq, Eq, Structural)]
pub struct GpuTransferOp {
    /// The block being transferred.
    pub block_id: BlockId,

    /// Which way the bytes move.
    pub direction: TransferDirection,

    /// Bytes to move.
    pub size_bytes: usize,

    /// Device involved.
    pub device_id: usize,
}

/// Direction of a device transfer.
#[derive(Debug, Clone, Copy, PartialEq, Eq, Structural)]
pub enum TransferDirection {
    /// Device to host (GPU to RAM).
    DeviceToHost,
    /// Host to device (RAM to GPU).
    HostToDevice,
}

/// Device transfer statistics.
#[derive(Debug, Clone, Copy, PartialEq, Eq, Structural)]
pub struct TransferStats {
    /// Bytes moved device-to-host.
    pub total_d2h_bytes: u64,

    /// Bytes moved host-to-device.
    pub total_h2d_bytes: u64,

    /// Device-to-host transfers completed.
    pub total_d2h_transfers: u64,

    /// Host-to-device transfers completed.
    pub total_h2d_transfers: u64,
}

impl Default for TransferStats {
    fn default() -> (r: TransferStats)
        ensures
            r == (TransferStats {
                total_d2h_bytes: 0,
                total_h2d_bytes: 0,
                total_d2h_transfers: 0,
                total_h2d_transfers: 0,
            }),
    {
        TransferStats {
            total_d2h_bytes: 0,
            total_h2d_bytes: 0,
            total_d2h_transfers: 0,
            total_h2d_transfers: 0,
        }
    }
}

/// Bookkeeping of the GPU transfer engine: device count, staging
/// buffer sizing and transfer statistics.  The workers that perform
/// the copies validate devices and record volumes through this type.
pub struct GpuTransferEngine {
    /// Number of available GPU devices.
    pub device_count: usize,

    /// Size of each per-device staging buffer in bytes.
    pub staging_buffer_size: usize,

    /// Transfer statistics.
    pub stats: TransferStats,
}

impl GpuTransferEngine {
    /// Create a new transfer engine for the given number of devices,
    /// with per-device staging buffers of the given size.
    pub fn new(device_count: usize, staging_buffer_size: usize) -> (r: GpuTransferEngine)
        ensures
            r.device_count == device_count,
            r.staging_buffer_size == staging_buffer_size,
            r.stats == (TransferStats {
                total_d2h_bytes: 0,
                total_h2d_bytes: 0,
                total_d2h_transfers: 0,
                total_h2d_transfers: 0,
            }),
    {
        GpuTransferEngine {
            device_count,
            staging_buffer_size,
            stats: TransferStats {
                total_d2h_bytes: 0,
                total_h2d_bytes: 0,
                total_d2h_transfers: 0,
                total_h2d_transfers: 0,
            },
        }
    }

    /// Whether the device index names an available device.
    pub fn check_device(&self, device_id: usize) -> (r: bool)
        ensures
            r <==> device_id < self.device_count,
    {
        device_id < self.device_count
    }

    /// Record a completed device-to-host copy (saturating counters).
    pub fn record_d2h(&mut self, bytes: usize)
        ensures
            final(self).stats.total_d2h_bytes as int == if old(self).stats.total_d2h_bytes + bytes
                <= u64::MAX {
                old(self).stats.total_d2h_bytes + bytes
            } else {
                u64::MAX as int
            },
            final(self).stats.total_d2h_transfers as int == if old(
                self,
            ).stats.total_d2h_transfers == u64::MAX {
                u64::MAX as int
            } else {
                old(self).stats.total_d2h_transfers + 1
            },
            final(self).stats.total_h2d_bytes == old(self).stats.total_h2d_bytes,
            final(self).stats.total_h2d_transfers == old(self).stats.total_h2d_transfers,
            final(self).device_count == old(self).device_count,
            final(self).staging_buffer_size == old(self).staging_buffer_size,
    {
        if bytes as u64 <= u64::MAX - self.stats.total_d2h_bytes {
            self.stats.total_d2h_bytes = self.stats.total_d2h_bytes + bytes as u64;
        } else {
            self.stats.total_d2h_bytes = u64::MAX;
        }
        if self.stats.total_d2h_transfers < u64::MAX {
            self.stats.total_d2h_transfers = self.stats.total_d2h_transfers + 1;
        }
    }

    /// Record a completed host-to-device copy (saturating counters).
    pub fn record_h2d(&mut self, bytes: usize)
        ensures
            final(self).stats.total_h2d_bytes as int == if old(self).stats.total_h2d_bytes + bytes
                <= u64::MAX {
                old(self).stats.total_h2d_bytes + bytes
            } else {
                u64::MAX as int
            },
            final(self).stats.total_h2d_transfers as int == if old(
                self,
            ).stats.total_h2d_transfers == u64::MAX {
                u64::MAX as int
            } else {
                old(self).stats.total_h2d_transfers + 1
            },
            final(self).stats.total_d2h_bytes == old(self).stats.total_d2h_bytes,
            final(self).stats.total_d2h_transfers == old(self).stats.total_d2h_transfers,
            final(self).device_count == old(self).device_count,
            final(self).staging_buffer_size == old(self).staging_buffer_size,
    {
        if bytes as u64 <= u64::MAX - self.stats.total_h2d_bytes {
            self.stats.total_h2d_bytes = self.stats.total_h2d_bytes + bytes as u64;
        } else {
            self.stats.total_h2d_bytes = u64::MAX;
        }
        if self.stats.total_h2d_transfers < u64::MAX {
            self.stats.total_h2d_transfers = self.stats.total_h2d_transfers + 1;
        }
    }

    /// Get transfer statistics.
    pub fn stats(&self) -> (r: &TransferStats)
        ensures
            r == self.stats,
    {
        &self.stats
    }

    /// Number of available GPU devices.
    pub fn device_count(&self) -> (r: usize)
        ensures
            r == self.device_count,
    {
        self.device_count
    }
}

/// Errors of the disk I/O layer.
#[derive(Debug)]
pub enum DiskIoError {
    /// The block's file does not exist.
    FileNotFound(String),
    /// No storage root is configured for the tier.
    PathNotConfigured(Tier),
    /// Reading or writing the block file failed.
    Io(String),
}

/// Disk I/O statistics.
#[derive(Debug, Clone, Copy, PartialEq, Eq, Structural)]
pub struct DiskIoStats {
    /// Block files written.
    pub total_writes: u64,

    /// Block files read.
    pub total_reads: u64,

    /// Bytes written to block files.
    pub total_bytes_written: u64,

    /// Bytes read from block files.
    pub total_bytes_read: u64,
}

impl Default for DiskIoStats {
    fn default() -> (r: DiskIoStats)
        ensures
            r == (DiskIoStats {
                total_writes: 0,
                total_reads: 0,
                total_bytes_written: 0,
                total_bytes_read: 0,
            }),
    {
        DiskIoStats {
            total_writes: 0,
            total_reads: 0,
            total_bytes_written: 0,
            total_bytes_read: 0,
        }
    }
}

impl DiskIoStats {
    /// Record a completed block write (saturating counters).
    pub fn record_write(&mut self, bytes: usize)
        ensures
            final(self).total_writes as int == if old(self).total_writes == u64::MAX {
                u64::MAX as int
            } else {
                old(self).total_writes + 1
            },
            final(self).total_bytes_written as int == if old(self).total_bytes_written + bytes
                <= u64::MAX {
                old(self).total_bytes_written + bytes
            } else {
                u64::MAX as int
            },
            final(self).total_reads == old(self).total_reads,
            final(self).total_bytes_read == old(self).total_bytes_read,
    {
        if self.total_writes < u64::MAX {
            self.total_writes = self.total_writes + 1;
        }
        if bytes as u64 <= u64::MAX - self.total_bytes_written {
            self.total_bytes_written = self.total_bytes_written + bytes as u64;
        } else {
            self.total_bytes_written = u64::MAX;
        }
    }

    /// Record a completed block read (saturating counters).
    pub fn record_read(&mut self, bytes: usize)
        ensures
            final(self).total_reads as int == if old(self).total_reads == u64::MAX {
                u64::MAX as int
            } else {
                old(self).total_reads + 1
            },
            final(self).total_bytes_read as int == if old(self).total_bytes_read + bytes
                <= u64::MAX {
                old(self).total_bytes_read + bytes
            } else {
                u64::MAX as int
            },
            final(self).total_writes == old(self).total_writes,
            final(self).total_bytes_written == old(self).total_bytes_written,
    {
        if self.total_reads < u64::MAX {
            self.total_reads = self.total_reads + 1;
        }
        if bytes as u64 <= u64::MAX - self.total_bytes_read {
            self.total_bytes_read = self.total_bytes_read + bytes as u64;
        } else {
            self.total_bytes_read = u64::MAX;
        }
    }
}

/// The shard directory a block's file lives in: blocks are grouped a
/// thousand ids per directory, so the file for block `id` lies at
/// `<root>/<id / 1000>/<id>.kvblock`.
pub fn shard_of_block(block_id: BlockId) -> (r: u64)
    ensures
        r == block_id / 1000,
{
    block_id / 1000
}

} // verus!
