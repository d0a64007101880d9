//! Operation codes of the cap-table operations.
use vstd::prelude::*;

verus! {

pub const COPY: u32 = 1;

pub const MOVE: u32 = 2;

pub const DROP: u32 = 3;

pub const CNODE_SWAP: u32 = 4;

pub const CNODE_MINT: u32 = 5;

/// Last code of the range.
pub const MAX: u32 = 15;

} // verus!
