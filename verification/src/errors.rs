use vstd::prelude::*;

verus! {

/// Why a store operation could not produce a value.
#[derive(Clone, Copy, Debug, PartialEq, Eq)]
pub enum StoreError {
    /// No record carries the requested identifier or short code.
    NotFound,
    /// A random pick was asked of an empty collection.
    EmptyCollection,
}

} // verus!
