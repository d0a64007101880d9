//! Errors of the VM driver and of the tables under it.
use vstd::prelude::*;

verus! {

/// A cap-table operation that could not be done.
#[derive(Clone, Copy, Debug, PartialEq, Eq)]
pub enum CapError {
    /// A cnode of more than 256 slots was asked for.
    CNodeTooLarge(u8),
    /// The slot index is not below the number of slots.
    SlotOutOfRange(u32),
    /// A slot path was empty or too deep.
    BadPathLength(usize),
}

/// A management operation that was refused.
#[derive(Clone, Copy, Debug, PartialEq, Eq)]
pub enum OpError {
    SlotPinned(u32),
    SourceEmpty,
}

/// A publication that was refused.
#[derive(Clone, Copy, Debug, PartialEq, Eq)]
pub enum CacheError {
    /// The cap still holds a live reference and has no content hash.
    HasRef,
    /// No cap is known under the live reference.
    UnknownRef(u64),
}

/// A memory region that could not be mapped.
#[derive(Clone, Copy, Debug, PartialEq, Eq)]
pub enum MapError {
    Misaligned,
    OutOfRange,
    DataTooLong,
}

/// Errors from the VM driver, distinct from the reasons for which a program
/// run ends.
#[derive(Debug, PartialEq, Eq)]
pub enum VmError {
    CallStackFull,
    CallStackEmpty,
    Invariant(&'static str),
    ReferenceOutOfRange(usize),
    ReferenceNonInstance(usize),
    InstanceNotFound,
    ImageNotFound,
    CapTable(CapError),
    Op(OpError),
    CacheDirectory(CacheError),
    UnhandledMarker,
    InvalidBytecode(String),
    SlotKindMismatch(u32),
    SlotEmpty(u32),
    MapRegion(MapError),
}

} // verus!
