//! Operation codes of the host calls.
use vstd::prelude::*;

verus! {

/// Yield the marker in slot `r7`.
pub const HOST_YIELD: u32 = 16;

/// Bind the image in slot `r7`.
pub const SET_IMAGE: u32 = 17;

/// Spawn an instance of the image in slot `r7`.
pub const DERIVE_SPAWN: u32 = 18;

/// Make an image. Not offered.
pub const MAKE_IMAGE: u32 = 19;

/// Compare the targets in slots `r7` and `r8`.
pub const HOST_SAME_TYPE: u32 = 20;

/// Put the type of the instance in slot `r7` into slot `r8`.
pub const HOST_TYPE_OF: u32 = 21;

/// Read `r9` bytes of the data in slot `r7` to address `r8`.
pub const HOST_READ_DATA_CAP: u32 = 22;

/// Make a data cap of the `r8` bytes at address `r7`, paid from quota `r9`, in
/// slot `r10`.
pub const HOST_MINT_DATA_CAP: u32 = 23;

/// Put the data of file `r7` into slot `r8`.
pub const HOST_OPEN: u32 = 24;

/// Make a file of the data in slot `r7`, paid from quota `r8`.
pub const HOST_SAVE: u32 = 25;

/// Call endpoint `r8` of the instance in slot `r7`.
pub const HOST_CALL: u32 = 26;

/// Last code of the range.
pub const MAX: u32 = 63;

} // verus!
