//! The codes of change operations, as the `op` column of a change record holds them.

use vstd::prelude::*;

verus! {

/// Insert.
pub const INSERT: &'static str = "i";

/// Update.
pub const UPDATE: &'static str = "u";

/// Delete.
pub const DELETE: &'static str = "d";

} // verus!
