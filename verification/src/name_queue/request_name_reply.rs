//! Request name reply codes (from the D-Bus specification).

use vstd::prelude::*;

verus! {

/// Caller is now the primary owner of the name.
pub const PRIMARY_OWNER: u32 = 1;

/// Caller is in queue waiting for the name.
pub const IN_QUEUE: u32 = 2;

/// Name is already owned and DO_NOT_QUEUE was specified.
pub const EXISTS: u32 = 3;

/// Caller was already the primary owner of the name.
pub const ALREADY_OWNER: u32 = 4;

} // verus!
