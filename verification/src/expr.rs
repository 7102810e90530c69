//! Filters on columns.

use vstd::prelude::*;

verus! {

/// A condition on the values of one column.
#[derive(Debug, PartialEq, Eq)]
pub struct Filter {
    /// The name of the column.
    pub field: String,
    /// How the column is compared with the value, for instance `=` or `<`.
    pub operator: String,
    /// What the column is compared with.
    pub value: String,
}

} // verus!
