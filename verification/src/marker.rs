//! The marker grammar: the closed set of single-byte wire tags and the
//! total byte-to-tag mapping shared by the encoder and the decoder.

use vstd::prelude::*;

use crate::error::Error;

verus! {

/// A wire tag. Every encoded value begins with exactly one marker byte,
/// except inside containers that declare a shared element type.
#[derive(Clone, Copy, PartialEq, Eq, Structural, Debug)]
pub enum Marker {
    Null,
    NoOp,
    True,
    False,
    I8,
    U8,
    I16,
    I32,
    I64,
    F32,
    F64,
    Number,
    Char,
    String,
    ArrayStart,
    ArrayEnd,
    ObjectStart,
    ObjectEnd,
    Length,
    OfType,
}

/// The single byte that stands for a marker on the wire.
pub open spec fn marker_byte(m: Marker) -> u8 {
    match m {
        Marker::Null => 90u8,         // 'Z'
        Marker::NoOp => 78u8,         // 'N'
        Marker::True => 84u8,         // 'T'
        Marker::False => 70u8,        // 'F'
        Marker::I8 => 105u8,          // 'i'
        Marker::U8 => 85u8,           // 'U'
        Marker::I16 => 73u8,          // 'I'
        Marker::I32 => 108u8,         // 'l'
        Marker::I64 => 76u8,          // 'L'
        Marker::F32 => 100u8,         // 'd'
        Marker::F64 => 68u8,          // 'D'
        Marker::Number => 72u8,       // 'H'
        Marker::Char => 67u8,         // 'C'
        Marker::String => 83u8,       // 'S'
        Marker::ArrayStart => 91u8,   // '['
        Marker::ArrayEnd => 93u8,     // ']'
        Marker::ObjectStart => 123u8, // '{'
        Marker::ObjectEnd => 125u8,   // '}'
        Marker::Length => 35u8,       // '#'
        Marker::OfType => 36u8,       // '$'
    }
}

/// The partial inverse of [`marker_byte`]: `None` for a byte outside the grammar.
pub open spec fn byte_marker(b: u8) -> Option<Marker> {
    if b == 90u8 {
        Some(Marker::Null)
    } else if b == 78u8 {
        Some(Marker::NoOp)
    } else if b == 84u8 {
        Some(Marker::True)
    } else if b == 70u8 {
        Some(Marker::False)
    } else if b == 105u8 {
        Some(Marker::I8)
    } else if b == 85u8 {
        Some(Marker::U8)
    } else if b == 73u8 {
        Some(Marker::I16)
    } else if b == 108u8 {
        Some(Marker::I32)
    } else if b == 76u8 {
        Some(Marker::I64)
    } else if b == 100u8 {
        Some(Marker::F32)
    } else if b == 68u8 {
        Some(Marker::F64)
    } else if b == 72u8 {
        Some(Marker::Number)
    } else if b == 67u8 {
        Some(Marker::Char)
    } else if b == 83u8 {
        Some(Marker::String)
    } else if b == 91u8 {
        Some(Marker::ArrayStart)
    } else if b == 93u8 {
        Some(Marker::ArrayEnd)
    } else if b == 123u8 {
        Some(Marker::ObjectStart)
    } else if b == 125u8 {
        Some(Marker::ObjectEnd)
    } else if b == 35u8 {
        Some(Marker::Length)
    } else if b == 36u8 {
        Some(Marker::OfType)
    } else {
        None
    }
}

/// Decoding a marker byte undoes encoding one: the two spec maps invert
/// each other on the closed tag set.
pub proof fn lemma_marker_byte_inverse(m: Marker)
    ensures
        byte_marker(marker_byte(m)) == Some(m),
{
}

/// No two markers share a wire byte.
pub proof fn lemma_marker_byte_injective(m1: Marker, m2: Marker)
    ensures
        marker_byte(m1) == marker_byte(m2) ==> m1 == m2,
{
}

impl Marker {
    /// The wire byte of this marker.
    pub fn to_byte(self) -> (b: u8)
        ensures
            b == marker_byte(self),
    {
        match self {
            Marker::Null => 90u8,
            Marker::NoOp => 78u8,
            Marker::True => 84u8,
            Marker::False => 70u8,
            Marker::I8 => 105u8,
            Marker::U8 => 85u8,
            Marker::I16 => 73u8,
            Marker::I32 => 108u8,
            Marker::I64 => 76u8,
            Marker::F32 => 100u8,
            Marker::F64 => 68u8,
            Marker::Number => 72u8,
            Marker::Char => 67u8,
            Marker::String => 83u8,
            Marker::ArrayStart => 91u8,
            Marker::ArrayEnd => 93u8,
            Marker::ObjectStart => 123u8,
            Marker::ObjectEnd => 125u8,
            Marker::Length => 35u8,
            Marker::OfType => 36u8,
        }
    }

    /// The marker a wire byte stands for; `Error::InvalidMarker` for a byte
    /// outside the grammar.
    pub fn from_byte(b: u8) -> (r: Result<Marker, Error>)
        ensures
            match r {
                Ok(m) => byte_marker(b) == Some(m),
                Err(e) => byte_marker(b) is None && e == Error::InvalidMarker,
            },
    {
        if b == 90u8 {
            Ok(Marker::Null)
        } else if b == 78u8 {
            Ok(Marker::NoOp)
        } else if b == 84u8 {
            Ok(Marker::True)
        } else if b == 70u8 {
            Ok(Marker::False)
        } else if b == 105u8 {
            Ok(Marker::I8)
        } else if b == 85u8 {
            Ok(Marker::U8)
        } else if b == 73u8 {
            Ok(Marker::I16)
        } else if b == 108u8 {
            Ok(Marker::I32)
        } else if b == 76u8 {
            Ok(Marker::I64)
        } else if b == 100u8 {
            Ok(Marker::F32)
        } else if b == 68u8 {
            Ok(Marker::F64)
        } else if b == 72u8 {
            Ok(Marker::Number)
        } else if b == 67u8 {
            Ok(Marker::Char)
        } else if b == 83u8 {
            Ok(Marker::String)
        } else if b == 91u8 {
            Ok(Marker::ArrayStart)
        } else if b == 93u8 {
            Ok(Marker::ArrayEnd)
        } else if b == 123u8 {
            Ok(Marker::ObjectStart)
        } else if b == 125u8 {
            Ok(Marker::ObjectEnd)
        } else if b == 35u8 {
            Ok(Marker::Length)
        } else if b == 36u8 {
            Ok(Marker::OfType)
        } else {
            Err(Error::InvalidMarker)
        }
    }
}

} // verus!
