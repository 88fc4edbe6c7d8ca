//! Guest-physical addresses that the machine fixes.

use vstd::prelude::*;

verus! {

/// First address of the region that memory-mapped devices are placed in (AArch64).
pub const MMIO_MEM_START: u64 = 0x0a00_0000;

/// Where a PVH guest finds its `hvm_start_info` (x86-64).
pub const PVH_INFO_START: u64 = 0x6000;

/// Where the memory map of a PVH guest starts (x86-64).
pub const PVH_MEMMAP_START: u64 = 0x7000;

/// Where the kernel command line is (x86-64).
pub const CMDLINE_START: u64 = 0x2_0000;

} // verus!
