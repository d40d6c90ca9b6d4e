//! GPU device information.
//!
//! This build runs CPU-only: device discovery reports no devices, and
//! the stub device lists describe the hardware of the target cluster
//! for testing and sizing.

use vstd::prelude::*;

verus! {

/// Information about a single GPU device.
pub struct GpuDeviceInfo {
    /// Device index.
    pub id: usize,

    /// Device name.
    pub name: String,

    /// Total VRAM in bytes.
    pub total_vram: u64,

    /// Free VRAM in bytes (at detection time).
    pub free_vram: u64,

    /// Compute capability (major, minor).
    pub compute_capability: (u32, u32),

    /// PCIe bandwidth in bytes per second (theoretical max).
    pub pcie_bandwidth: u64,
}

/// Detect all available GPU devices.
///
/// Without device support compiled in, the list is empty (CPU-only
/// mode).
pub fn detect_devices() -> (r: Vec<GpuDeviceInfo>)
    ensures
        r.len() == 0,
{
    Vec::new()
}

/// Stub device info for a host with two 8 GiB consumer GPUs.
pub fn stub_devices_molly() -> (r: Vec<GpuDeviceInfo>)
    ensures
        r.len() == 2,
        r[0].id == 0 && r[1].id == 1,
        r[0].total_vram == 8_589_934_592 && r[1].total_vram == 8_589_934_592,
        r[0].free_vram == 7_516_192_768 && r[1].free_vram == 7_516_192_768,
        r[0].compute_capability == (6u32, 1u32) && r[1].compute_capability == (6u32, 1u32),
{
    let mut devices: Vec<GpuDeviceInfo> = Vec::new();
    devices.push(
        GpuDeviceInfo {
            id: 0,
            name: String::from_str("NVIDIA GeForce GTX 1070"),
            total_vram: 8_589_934_592,
            free_vram: 7_516_192_768,
            compute_capability: (6, 1),
            pcie_bandwidth: 12_000_000_000,
        },
    );
    devices.push(
        GpuDeviceInfo {
            id: 1,
            name: String::from_str("NVIDIA GeForce GTX 1070"),
            total_vram: 8_589_934_592,
            free_vram: 7_516_192_768,
            compute_capability: (6, 1),
            pcie_bandwidth: 12_000_000_000,
        },
    );
    devices
}

/// Stub device info for a host with two 24 GiB workstation GPUs.
pub fn stub_devices_wintermute() -> (r: Vec<GpuDeviceInfo>)
    ensures
        r.len() == 2,
        r[0].id == 0 && r[1].id == 1,
        r[0].total_vram == 25_769_803_776 && r[1].total_vram == 25_769_803_776,
        r[0].free_vram == 23_622_320_128 && r[1].free_vram == 23_622_320_128,
        r[0].compute_capability == (5u32, 2u32) && r[1].compute_capability == (5u32, 2u32),
{
    let mut devices: Vec<GpuDeviceInfo> = Vec::new();
    devices.push(
        GpuDeviceInfo {
            id: 0,
            name: String::from_str("NVIDIA Quadro M6000"),
            total_vram: 25_769_803_776,
            free_vram: 23_622_320_128,
            compute_capability: (5, 2),
            pcie_bandwidth: 12_000_000_000,
        },
    );
    devices.push(
        GpuDeviceInfo {
            id: 1,
            name: String::from_str("NVIDIA Quadro M6000"),
            total_vram: 25_769_803_776,
            free_vram: 23_622_320_128,
            compute_capability: (5, 2),
            pcie_bandwidth: 12_000_000_000,
        },
    );
    devices
}

} // verus!
