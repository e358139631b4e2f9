//! Release name reply codes (from the D-Bus specification).

use vstd::prelude::*;

verus! {

/// Caller has released the name successfully.
pub const RELEASED: u32 = 1;

/// The name does not exist (was not owned by anyone).
pub const NON_EXISTENT: u32 = 2;

/// The caller is not the owner of this name.
pub const NOT_OWNER: u32 = 3;

} // verus!
