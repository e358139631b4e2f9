//! Request name flags (from the D-Bus specification).

use vstd::prelude::*;

verus! {

/// Allow replacement of this owner by another connection.
pub const ALLOW_REPLACEMENT: u32 = 0x1;

/// Attempt to replace the existing owner if possible.
pub const REPLACE_EXISTING: u32 = 0x2;

/// Don't queue if the name is already owned - return immediately.
pub const DO_NOT_QUEUE: u32 = 0x4;

} // verus!
