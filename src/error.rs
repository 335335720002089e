use vstd::prelude::*;

verus! {

/// Why an operation of the picker did not take place.
#[derive(Clone, Debug, PartialEq, Eq)]
pub enum PickerError {
    /// The current directory could not be enumerated; the text says why.
    ListingFailed(String),
    /// The operation was asked for in a state where it is not available.
    InvalidOperation,
}

} // verus!
