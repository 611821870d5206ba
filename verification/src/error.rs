//! The single error kind of the crate.

use vstd::prelude::*;

verus! {

/// Raised when a string fails to resolve against a record's field
/// enumeration. Selection construction is the only fallible step; by the time
/// serialization begins a selection holds only valid variants.
#[derive(Debug)]
pub enum Error {
    UnknownField(String),
}

impl Error {
    /// The string that failed to resolve to any field.
    pub fn field_name(&self) -> (r: &String)
        ensures
            self matches Error::UnknownField(s) && r@ == s@,
    {
        match self {
            Error::UnknownField(s) => s,
        }
    }
}

impl PartialEq for Error {
    fn eq(&self, other: &Self) -> (r: bool) {
        match (self, other) {
            (Error::UnknownField(a), Error::UnknownField(b)) => *a == *b,
        }
    }
}

impl vstd::std_specs::cmp::PartialEqSpecImpl for Error {
    open spec fn obeys_eq_spec() -> bool {
        true
    }

    open spec fn eq_spec(&self, other: &Self) -> bool {
        match (self, other) {
            (Error::UnknownField(a), Error::UnknownField(b)) => a@ == b@,
        }
    }
}

} // verus!
