//! Plain data of the query layer: interned bindings and files, and the
//! signal that a query was cancelled.

use vstd::prelude::*;
use vstd::string::*;

verus! {

/// The signal that a query was cancelled because its inputs changed.
#[derive(Debug)]
pub struct Cancelled;

impl Cancelled {
    /// Returns the description of the signal.
    pub fn to_display_string(&self) -> (s: String)
        ensures
            s@ == "Cancelled"@,
    {
        String::from_str("Cancelled")
    }
}

/// The data of a binding: the identifier it binds.
#[derive(Clone, Debug, Hash, PartialEq, Eq)]
pub struct BindingData {
    pub identifier: String,
}

/// The data of a file: its path.
#[derive(Clone, Debug, Hash, PartialEq, Eq)]
pub struct FileData {
    pub path: String,
}

} // verus!
