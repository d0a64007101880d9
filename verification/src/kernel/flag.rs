//! Bits of a page-table entry.
use vstd::prelude::*;

verus! {

/// Present: the entry is in use.
pub const P: u64 = 1;

/// Writes are allowed.
pub const RW: u64 = 2;

/// User mode may use it.
pub const US: u64 = 4;

/// The entry of an inner table is a large page.
pub const PS: u64 = 0x80;

/// Instructions may not be fetched.
pub const NX: u64 = 0x8000_0000_0000_0000;

/// Bits of the physical address.
pub const PA_MASK: u64 = 0x000F_FFFF_FFFF_F000;

/// Bits of every entry that leads to an inner table, so that the leaf decides.
pub const INNER: u64 = 7;

} // verus!
