//! Validation failures, accumulating every problem found.

use vstd::prelude::*;

verus! {

/// A validation failure: one detail line per problem, never empty by
/// construction.
#[derive(Debug)]
pub struct ValidationError {
    pub details: Vec<String>,
}

impl ValidationError {
    /// A failure with a single detail line.
    pub fn new(detail: String) -> (r: Self)
        ensures
            r.details@ == seq![detail],
    {
        ValidationError { details: vec![detail] }
    }

    /// A failure with the given detail lines.
    pub fn with_details(details: Vec<String>) -> (r: Self)
        ensures
            r.details == details,
    {
        ValidationError { details }
    }
}

/// Whether a storage engine's message reports a key conflict: the unique
/// or primary key constraint is named in it.
pub fn is_conflict_message(message: &str) -> (r: bool)
    ensures
        r == (crate::strutil::has_substr(message@, "UNIQUE"@)
            || crate::strutil::has_substr(message@, "PRIMARY"@)),
{
    crate::strutil::str_contains(message, "UNIQUE")
        || crate::strutil::str_contains(message, "PRIMARY")
}

} // verus!
