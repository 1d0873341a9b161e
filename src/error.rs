use vstd::prelude::*;

verus! {

/// The ways in which an operation on the graph can fail.
#[derive(Debug, Clone, Copy, PartialEq, Eq, Structural)]
pub enum ErrorKind {
    /// A value's kind does not fit the kind that a sensor or another value declares.
    TypeMismatch,
    /// A value or a node handle that the graph does not hold.
    NotFound,
    /// A self-loop, a duplicate edge of one kind between one ordered pair, or a
    /// weight above full strength.
    InvalidConnection,
    /// Distance or ordering asked across kinds that cannot be compared.
    Incomparable,
}

} // verus!
