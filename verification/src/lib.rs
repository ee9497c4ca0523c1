//! A compact, self-describing binary codec.
//!
//! Values are encoded as a marker byte (identifying the shape and width of
//! what follows) and a big-endian payload. Sequences and maps may be framed
//! three ways: delimited by a closing byte, counted by an explicit length,
//! or counted with a shared element-type hint. The encoder and the decoder
//! share only this wire grammar; each is specified against spec-level
//! encoding and parsing functions in [`wire`].

pub mod de;
pub mod error;
pub mod laws;
pub mod marker;
pub mod ser;
pub mod wire;
