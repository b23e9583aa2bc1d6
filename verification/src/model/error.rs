//! What can go wrong while reading geometry or material text.

use vstd::prelude::*;

verus! {

/// The reason a line was rejected.
#[derive(Clone, Copy, Debug, PartialEq, Eq, Structural)]
pub enum ErrorKind {
    /// A numeric field is missing or is not a number.
    MalformedNumber,
    /// A face corner does not have all three slash-separated components.
    MalformedFaceCorner,
    /// A face corner refers to a position, texture coordinate or normal
    /// that has not been declared.
    IndexOutOfRange,
    /// A face has fewer than three or more than four corners.
    UnsupportedFaceArity,
}

/// A rejected line: why, and which one (counting from zero).
#[derive(Clone, Copy, Debug, PartialEq, Eq, Structural)]
pub struct ParseError {
    pub kind: ErrorKind,
    pub line: usize,
}

} // verus!
