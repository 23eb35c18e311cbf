//! Region-allocation analysis for an embedded target's memory map: how
//! the sections and symbols of a linked image consume two fixed memory
//! regions, with alignment padding, byte totals, shares of each
//! region's capacity, and human-readable sizes.

pub mod bytes;
pub mod elf;
pub mod items;
pub mod region;
pub mod report;
pub mod select;
