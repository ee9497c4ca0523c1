//! The failure vocabulary shared by the encoder and the decoder.

use vstd::prelude::*;

use crate::marker::Marker;

verus! {

/// A typed encode or decode failure. Decoding aborts at the first failure;
/// there is no partial-result recovery.
#[derive(Debug)]
pub enum Error {
    /// A non-string value was written or read where a map key is required.
    InvalidKey,
    /// A byte outside the grammar where a marker is required, or a
    /// structurally disallowed marker.
    InvalidMarker,
    /// Bytes that are not valid UTF-8, or a character request whose string
    /// form is not exactly one ASCII byte, or a decimal number whose digit
    /// string does not name a 64-bit value.
    InvalidString,
    /// Unconsumed bytes after a top-level decode.
    TrailingData,
    /// A failure of an outer binding layer, carried through unchanged.
    Custom(String),
    /// The input ended in the middle of a read.
    Eof,
    /// A length field whose marker is not one of the signed integer markers.
    ExpectedLength,
    /// The value's marker matched none of the markers acceptable for the
    /// requested shape; the payload lists every marker that would have been
    /// accepted.
    Expected(Vec<Marker>),
}

/// The spec-level image of an [`Error`], with sequences in place of vectors,
/// so that parse specifications can name failures exactly.
pub enum Fail {
    InvalidKey,
    InvalidMarker,
    InvalidString,
    TrailingData,
    Custom(Seq<char>),
    Eof,
    ExpectedLength,
    Expected(Seq<Marker>),
}

impl View for Error {
    type V = Fail;

    open spec fn view(&self) -> Fail {
        match self {
            Error::InvalidKey => Fail::InvalidKey,
            Error::InvalidMarker => Fail::InvalidMarker,
            Error::InvalidString => Fail::InvalidString,
            Error::TrailingData => Fail::TrailingData,
            Error::Custom(s) => Fail::Custom(s@),
            Error::Eof => Fail::Eof,
            Error::ExpectedLength => Fail::ExpectedLength,
            Error::Expected(ms) => Fail::Expected(ms@),
        }
    }
}

impl Error {
    /// A short, stable description of the failure, for reporting.
    pub fn describe(&self) -> (r: String)
        ensures
            self matches Error::Custom(s) ==> r@ == s@,
    {
        match self {
            Error::InvalidKey => "invalid key".to_owned(),
            Error::InvalidMarker => "invalid marker".to_owned(),
            Error::InvalidString => "invalid string".to_owned(),
            Error::TrailingData => "trailing data".to_owned(),
            Error::Custom(s) => s.as_str().to_owned(),
            Error::Eof => "end of input".to_owned(),
            Error::ExpectedLength => "expected length".to_owned(),
            Error::Expected(_) => "expected markers".to_owned(),
        }
    }
}

} // verus!
