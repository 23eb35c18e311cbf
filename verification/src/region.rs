use vstd::prelude::*;

verus! {

/// A half-open interval of 64-bit addresses `[start, end)`.
///
/// Two instances are fixed for the target device: a data region and an
/// instruction region, both derived from its documented memory map.
#[derive(Clone, Copy, PartialEq, Eq, Structural, Debug)]
pub struct Region {
    pub start: u64,
    pub end: u64,
}

/// Base address of the target's data memory region.
pub const DRAM_START: u64 = 0x3FC80000;

/// One past the last address of the target's data memory region.
pub const DRAM_END: u64 = 0x3FC80000 + 0x50000 + 0x600;

/// Base address of the target's instruction memory region.
pub const IRAM_START: u64 = 0x4037C000 + 0x4000;

/// One past the last address of the target's instruction memory region.
pub const IRAM_END: u64 = 0x4037C000 + 0x4000 + 400 * 1024 - 0x400;

impl Region {
    /// A region is well formed when it spans at least one address.
    pub open spec fn wf(self) -> bool {
        self.start < self.end
    }

    /// The number of addresses the region spans.
    pub open spec fn spec_capacity(self) -> int {
        self.end - self.start
    }

    /// Whether `addr` falls inside the half-open interval.
    pub open spec fn spec_contains(self, addr: u64) -> bool {
        self.start <= addr && addr < self.end
    }

    pub fn capacity(&self) -> (c: u64)
        requires
            self.wf(),
        ensures
            c == self.spec_capacity(),
    {
        self.end - self.start
    }

    pub fn contains(&self, addr: u64) -> (b: bool)
        ensures
            b == self.spec_contains(addr),
    {
        self.start <= addr && addr < self.end
    }

    /// The target's data memory region.
    pub fn dram() -> (r: Region)
        ensures
            r == (Region { start: DRAM_START, end: DRAM_END }),
            r.wf(),
    {
        Region { start: DRAM_START, end: DRAM_END }
    }

    /// The target's instruction memory region.
    pub fn iram() -> (r: Region)
        ensures
            r == (Region { start: IRAM_START, end: IRAM_END }),
            r.wf(),
    {
        Region { start: IRAM_START, end: IRAM_END }
    }
}

} // verus!
