//! The ways in which parsing a key or editing a document can fail.
use vstd::prelude::*;

verus! {

/// Why an operation on a key path or a document did not succeed.
#[derive(Clone, Copy, Debug, PartialEq, Eq, Structural)]
pub enum TomatoError {
    /// A bracketed array index in the key could not be read as a number.
    MalformedKey,
    /// A removal was asked for with a key of no segments.
    EmptyKey,
    /// A segment on the way to the node to remove does not exist.
    KeyNotFound,
    /// A segment indexes into something that is not an array, names a field of
    /// something that is not a table, or lies past the end of an array.
    IndexOnNonArray,
    /// The node to append to exists and is not an array.
    AppendToNonArray,
    /// The name of an output format is not one of the known ones.
    UnknownFormat,
}

} // verus!
