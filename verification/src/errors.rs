//! The error taxonomy of the library.

use vstd::prelude::*;

verus! {

/// Everything that can go wrong in the library.
///
/// - `IoError`: the listing source could not be read (raised by the I/O shell,
///   never by the parser itself, which works on lines already in memory).
/// - `MalformedShape`: a dataset line carries shape text that does not parse.
/// - `StructuralViolation`: the listing is not a valid pre-order tree dump
///   (the parser's ascend loop would pop past the root).
/// - `NotFound`: a path lookup names a missing child, or a non-group where a
///   group is needed.
/// - `InvalidOperation`: an absolute path was resolved from a non-root node.
/// - `Unavailable`: a remote fetch failed (connection, decompression or
///   decoding).
#[derive(Clone, Copy, Debug, PartialEq, Eq, Structural)]
pub enum H5Error {
    IoError,
    MalformedShape,
    StructuralViolation,
    NotFound,
    InvalidOperation,
    Unavailable,
}

impl H5Error {
    /// A short human-readable tag for the error.
    pub fn tag(&self) -> (r: &'static str)
        ensures
            r@ == self.spec_tag(),
    {
        proof {
            reveal_strlit("io error");
            reveal_strlit("malformed shape");
            reveal_strlit("structural violation");
            reveal_strlit("not found");
            reveal_strlit("invalid operation");
            reveal_strlit("unavailable");
        }
        match self {
            H5Error::IoError => "io error",
            H5Error::MalformedShape => "malformed shape",
            H5Error::StructuralViolation => "structural violation",
            H5Error::NotFound => "not found",
            H5Error::InvalidOperation => "invalid operation",
            H5Error::Unavailable => "unavailable",
        }
    }

    /// What `tag` returns for each variant.
    pub open spec fn spec_tag(self) -> Seq<char> {
        match self {
            H5Error::IoError => "io error"@,
            H5Error::MalformedShape => "malformed shape"@,
            H5Error::StructuralViolation => "structural violation"@,
            H5Error::NotFound => "not found"@,
            H5Error::InvalidOperation => "invalid operation"@,
            H5Error::Unavailable => "unavailable"@,
        }
    }
}

} // verus!
