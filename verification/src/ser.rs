//! The encoder: values in, marker-tagged bytes out.
//!
//! A [`SimpleFormatter`] owns the output buffer and the key/value write
//! mode; a [`Serializer`] adds the value-level grammar on top of it. Every
//! writing method states the exact bytes it appends, in terms of the `enc_*`
//! functions of [`crate::wire`].

use vstd::prelude::*;

use crate::error::Error;
use crate::marker::Marker;
use crate::wire::{
    dec_digits, enc_bool, enc_bytes, enc_i16, enc_i32, enc_i64, enc_i8, enc_len, enc_marker,
    enc_null, enc_str_key, enc_str_value, enc_u64, enc_u8, enc_u8_elems, enc_variant_head,
};

verus! {

/// The two-state write mode: an object entry's key is written without its
/// own type marker and may only be a string or a character; everything else
/// is written in value mode.
#[derive(Clone, Copy, PartialEq, Eq, Structural, Debug)]
pub enum FormatterMode {
    Key,
    Value,
}

impl FormatterMode {
    pub fn is_key(&self) -> (r: bool)
        ensures
            r == (*self == FormatterMode::Key),
    {
        match self {
            FormatterMode::Key => true,
            FormatterMode::Value => false,
        }
    }

    pub fn is_value(&self) -> (r: bool)
        ensures
            r == (*self == FormatterMode::Value),
    {
        !self.is_key()
    }
}

/// A byte-buffer writer that knows the marker bytes and the big-endian
/// layout of the fixed-width payloads, and carries the write mode.
pub struct SimpleFormatter {
    pub out: Vec<u8>,
    pub mode: FormatterMode,
}

impl SimpleFormatter {
    /// A fresh formatter with an empty output buffer, in value mode.
    pub fn new() -> (r: SimpleFormatter)
        ensures
            r.out@ == Seq::<u8>::empty(),
            r.mode == FormatterMode::Value,
    {
        SimpleFormatter { out: Vec::new(), mode: FormatterMode::Value }
    }

    pub fn set_mode(&mut self, mode: FormatterMode)
        ensures
            final(self).mode == mode,
            final(self).out == old(self).out,
    {
        self.mode = mode;
    }

    pub fn get_mode(&self) -> (r: FormatterMode)
        ensures
            r == self.mode,
    {
        self.mode
    }

    /// Appends bytes unchanged.
    pub fn write_raw(&mut self, v: &[u8])
        ensures
            final(self).out@ == old(self).out@ + v@,
            final(self).mode == old(self).mode,
    {
        let n = v.len();
        let mut i: usize = 0;
        while i < n
            invariant
                n == v@.len(),
                i <= n,
                self.out@ == old(self).out@ + v@.take(i as int),
                self.mode == old(self).mode,
            decreases n - i,
        {
            let b = *vstd::slice::slice_index_get(v, i);
            self.out.push(b);
            proof {
                assert(old(self).out@ + v@.take(i + 1) =~= (old(self).out@ + v@.take(
                    i as int,
                )).push(v@[i as int]));
            }
            i = i + 1;
        }
        proof {
            assert(v@.take(n as int) =~= v@);
        }
    }

    /// Appends one marker byte.
    pub fn write_mark(&mut self, marker: Marker)
        ensures
            final(self).out@ == old(self).out@ + enc_marker(marker),
            final(self).mode == old(self).mode,
    {
        self.out.push(marker.to_byte());
        proof {
            assert(final(self).out@ =~= old(self).out@ + enc_marker(marker));
        }
    }

    /// Appends the encoding of a boolean.
    pub fn write_bool(&mut self, v: bool)
        ensures
            final(self).out@ == old(self).out@ + enc_bool(v),
            final(self).mode == old(self).mode,
    {
        self.write_mark(if v { Marker::True } else { Marker::False });
    }

    /// Appends the encoding of an 8-bit unsigned value.
    pub fn write_u8(&mut self, v: u8)
        ensures
            final(self).out@ == old(self).out@ + enc_u8(v),
            final(self).mode == old(self).mode,
    {
        self.write_mark(Marker::U8);
        self.out.push(v);
        proof {
            assert(final(self).out@ =~= old(self).out@ + enc_u8(v));
        }
    }

    /// Appends the encoding of an 8-bit signed value.
    pub fn write_i8(&mut self, v: i8)
        ensures
            final(self).out@ == old(self).out@ + enc_i8(v),
            final(self).mode == old(self).mode,
    {
        self.write_mark(Marker::I8);
        self.out.push(v as u8);
        proof {
            assert(final(self).out@ =~= old(self).out@ + enc_i8(v));
        }
    }

    /// Appends the encoding of a 16-bit signed value, big-endian.
    pub fn write_i16(&mut self, v: i16)
        ensures
            final(self).out@ == old(self).out@ + enc_i16(v),
            final(self).mode == old(self).mode,
    {
        self.write_mark(Marker::I16);
        let u = v as u16;
        self.out.push((u >> 8) as u8);
        self.out.push(u as u8);
        proof {
            assert(final(self).out@ =~= old(self).out@ + enc_i16(v));
        }
    }

    /// Appends the encoding of a 32-bit signed value, big-endian.
    pub fn write_i32(&mut self, v: i32)
        ensures
            final(self).out@ == old(self).out@ + enc_i32(v),
            final(self).mode == old(self).mode,
    {
        self.write_mark(Marker::I32);
        let u = v as u32;
        self.out.push((u >> 24) as u8);
        self.out.push((u >> 16) as u8);
        self.out.push((u >> 8) as u8);
        self.out.push(u as u8);
        proof {
            assert(final(self).out@ =~= old(self).out@ + enc_i32(v));
        }
    }

    /// Appends the encoding of a 64-bit signed value, big-endian.
    pub fn write_i64(&mut self, v: i64)
        ensures
            final(self).out@ == old(self).out@ + enc_i64(v),
            final(self).mode == old(self).mode,
    {
        self.write_mark(Marker::I64);
        let u = v as u64;
        self.out.push((u >> 56) as u8);
        self.out.push((u >> 48) as u8);
        self.out.push((u >> 40) as u8);
        self.out.push((u >> 32) as u8);
        self.out.push((u >> 24) as u8);
        self.out.push((u >> 16) as u8);
        self.out.push((u >> 8) as u8);
        self.out.push(u as u8);
        proof {
            assert(final(self).out@ =~= old(self).out@ + enc_i64(v));
        }
    }

    /// Appends the encoding of a 16-bit unsigned value, widened to the next
    /// signed width that can hold every value of it.
    pub fn write_u16(&mut self, v: u16)
        ensures
            final(self).out@ == old(self).out@ + enc_i32(v as i32),
            final(self).mode == old(self).mode,
    {
        self.write_i32(v as i32);
    }

    /// Appends the encoding of a 32-bit unsigned value, widened to the next
    /// signed width that can hold every value of it.
    pub fn write_u32(&mut self, v: u32)
        ensures
            final(self).out@ == old(self).out@ + enc_i64(v as i64),
            final(self).mode == old(self).mode,
    {
        self.write_i64(v as i64);
    }

    /// Appends a length, always as a 64-bit signed value.
    pub fn write_len(&mut self, v: usize)
        requires
            v <= i64::MAX,
        ensures
            final(self).out@ == old(self).out@ + enc_len(v as int),
            final(self).mode == old(self).mode,
    {
        self.write_i64(v as i64);
    }
}

/// A value encoder over a [`SimpleFormatter`]. Container methods return a
/// token that remembers whether the container declared its length, so that
/// closing it writes the end delimiter exactly when no length was declared.
pub struct Serializer {
    pub formatter: SimpleFormatter,
}

/// Shorthand for the encoder state a serializing method starts from.
pub open spec fn ser_out(s: &Serializer) -> Seq<u8> {
    s.formatter.out@
}

/// Shorthand for the write mode of a serializer.
pub open spec fn ser_mode(s: &Serializer) -> FormatterMode {
    s.formatter.mode
}

impl Serializer {
    pub fn new(formatter: SimpleFormatter) -> (r: Serializer)
        ensures
            r.formatter == formatter,
    {
        Serializer { formatter }
    }

    /// Hands the encoded bytes out.
    pub fn into_bytes(self) -> (r: Vec<u8>)
        ensures
            r@ == self.formatter.out@,
    {
        self.formatter.out
    }

    /// Writes a boolean; a boolean is not a valid map key.
    pub fn serialize_bool(&mut self, v: bool) -> (r: Result<(), Error>)
        ensures
            ser_mode(old(self)) == FormatterMode::Key ==> r == Err::<(), Error>(Error::InvalidKey)
                && *final(self) == *old(self),
            ser_mode(old(self)) == FormatterMode::Value ==> r == Ok::<(), Error>(()) && ser_out(
                final(self),
            ) == ser_out(old(self)) + enc_bool(v) && ser_mode(final(self)) == FormatterMode::Value,
    {
        if self.formatter.get_mode().is_key() {
            return Err(Error::InvalidKey);
        }
        self.formatter.write_bool(v);
        Ok(())
    }

    /// Writes an 8-bit signed value; a number is not a valid map key.
    pub fn serialize_i8(&mut self, v: i8) -> (r: Result<(), Error>)
        ensures
            ser_mode(old(self)) == FormatterMode::Key ==> r == Err::<(), Error>(Error::InvalidKey)
                && *final(self) == *old(self),
            ser_mode(old(self)) == FormatterMode::Value ==> r == Ok::<(), Error>(()) && ser_out(
                final(self),
            ) == ser_out(old(self)) + enc_i8(v) && ser_mode(final(self)) == FormatterMode::Value,
    {
        if self.formatter.get_mode().is_key() {
            return Err(Error::InvalidKey);
        }
        self.formatter.write_i8(v);
        Ok(())
    }

    /// Writes a 16-bit signed value; a number is not a valid map key.
    pub fn serialize_i16(&mut self, v: i16) -> (r: Result<(), Error>)
        ensures
            ser_mode(old(self)) == FormatterMode::Key ==> r == Err::<(), Error>(Error::InvalidKey)
                && *final(self) == *old(self),
            ser_mode(old(self)) == FormatterMode::Value ==> r == Ok::<(), Error>(()) && ser_out(
                final(self),
            ) == ser_out(old(self)) + enc_i16(v) && ser_mode(final(self)) == FormatterMode::Value,
    {
        if self.formatter.get_mode().is_key() {
            return Err(Error::InvalidKey);
        }
        self.formatter.write_i16(v);
        Ok(())
    }

    /// Writes a 32-bit signed value; a number is not a valid map key.
    pub fn serialize_i32(&mut self, v: i32) -> (r: Result<(), Error>)
        ensures
            ser_mode(old(self)) == FormatterMode::Key ==> r == Err::<(), Error>(Error::InvalidKey)
                && *final(self) == *old(self),
            ser_mode(old(self)) == FormatterMode::Value ==> r == Ok::<(), Error>(()) && ser_out(
                final(self),
            ) == ser_out(old(self)) + enc_i32(v) && ser_mode(final(self)) == FormatterMode::Value,
    {
        if self.formatter.get_mode().is_key() {
            return Err(Error::InvalidKey);
        }
        self.formatter.write_i32(v);
        Ok(())
    }

    /// Writes a 64-bit signed value; a number is not a valid map key.
    pub fn serialize_i64(&mut self, v: i64) -> (r: Result<(), Error>)
        ensures
            ser_mode(old(self)) == FormatterMode::Key ==> r == Err::<(), Error>(Error::InvalidKey)
                && *final(self) == *old(self),
            ser_mode(old(self)) == FormatterMode::Value ==> r == Ok::<(), Error>(()) && ser_out(
                final(self),
            ) == ser_out(old(self)) + enc_i64(v) && ser_mode(final(self)) == FormatterMode::Value,
    {
        if self.formatter.get_mode().is_key() {
            return Err(Error::InvalidKey);
        }
        self.formatter.write_i64(v);
        Ok(())
    }

    /// Writes an 8-bit unsigned value; a number is not a valid map key.
    pub fn serialize_u8(&mut self, v: u8) -> (r: Result<(), Error>)
        ensures
            ser_mode(old(self)) == FormatterMode::Key ==> r == Err::<(), Error>(Error::InvalidKey)
                && *final(self) == *old(self),
            ser_mode(old(self)) == FormatterMode::Value ==> r == Ok::<(), Error>(()) && ser_out(
                final(self),
            ) == ser_out(old(self)) + enc_u8(v) && ser_mode(final(self)) == FormatterMode::Value,
    {
        if self.formatter.get_mode().is_key() {
            return Err(Error::InvalidKey);
        }
        self.formatter.write_u8(v);
        Ok(())
    }

    /// Writes a 16-bit unsigned value as the 32-bit signed encoding.
    pub fn serialize_u16(&mut self, v: u16) -> (r: Result<(), Error>)
        ensures
            ser_mode(old(self)) == FormatterMode::Key ==> r == Err::<(), Error>(Error::InvalidKey)
                && *final(self) == *old(self),
            ser_mode(old(self)) == FormatterMode::Value ==> r == Ok::<(), Error>(()) && ser_out(
                final(self),
            ) == ser_out(old(self)) + enc_i32(v as i32) && ser_mode(final(self))
                == FormatterMode::Value,
    {
        if self.formatter.get_mode().is_key() {
            return Err(Error::InvalidKey);
        }
        self.formatter.write_u16(v);
        Ok(())
    }

    /// Writes a 32-bit unsigned value as the 64-bit signed encoding.
    pub fn serialize_u32(&mut self, v: u32) -> (r: Result<(), Error>)
        ensures
            ser_mode(old(self)) == FormatterMode::Key ==> r == Err::<(), Error>(Error::InvalidKey)
                && *final(self) == *old(self),
            ser_mode(old(self)) == FormatterMode::Value ==> r == Ok::<(), Error>(()) && ser_out(
                final(self),
            ) == ser_out(old(self)) + enc_i64(v as i64) && ser_mode(final(self))
                == FormatterMode::Value,
    {
        if self.formatter.get_mode().is_key() {
            return Err(Error::InvalidKey);
        }
        self.formatter.write_u32(v);
        Ok(())
    }

    /// Writes a 64-bit unsigned value. No fixed-width unsigned marker of
    /// that size exists, so it goes out as the decimal-number marker with a
    /// length-prefixed ASCII digit string.
    pub fn serialize_u64(&mut self, v: u64) -> (r: Result<(), Error>)
        ensures
            ser_mode(old(self)) == FormatterMode::Key ==> r == Err::<(), Error>(Error::InvalidKey)
                && *final(self) == *old(self),
            ser_mode(old(self)) == FormatterMode::Value ==> r == Ok::<(), Error>(()) && ser_out(
                final(self),
            ) == ser_out(old(self)) + enc_u64(v) && ser_mode(final(self)) == FormatterMode::Value,
    {
        if self.formatter.get_mode().is_key() {
            return Err(Error::InvalidKey);
        }
        self.formatter.write_mark(Marker::Number);
        let mut digits: Vec<u8> = Vec::new();
        push_dec_digits(&mut digits, v);
        proof {
            lemma_dec_digits_len(v as nat);
        }
        self.formatter.write_len(digits.len());
        self.formatter.write_raw(digits.as_slice());
        proof {
            assert(ser_out(self) =~= ser_out(old(self)) + enc_u64(v));
        }
        Ok(())
    }

    /// Writes a character as its one-character string form. A character is
    /// a valid map key: in key mode only the length-prefixed payload goes
    /// out, the string marker being implied by the key position.
    pub fn serialize_char(&mut self, v: char) -> (r: Result<(), Error>)
        ensures
            r == Ok::<(), Error>(()),
            ser_mode(final(self)) == ser_mode(old(self)),
            ser_mode(old(self)) == FormatterMode::Key ==> ser_out(final(self)) == ser_out(
                old(self),
            ) + enc_str_key(seq![v]),
            ser_mode(old(self)) == FormatterMode::Value ==> ser_out(final(self)) == ser_out(
                old(self),
            ) + enc_str_value(seq![v]),
    {
        let bytes = char_utf8(v);
        if self.formatter.get_mode().is_value() {
            self.formatter.write_mark(Marker::String);
        }
        self.formatter.write_len(bytes.len());
        self.formatter.write_raw(bytes.as_slice());
        proof {
            if ser_mode(old(self)) == FormatterMode::Key {
                assert(ser_out(self) =~= ser_out(old(self)) + enc_str_key(seq![v]));
            } else {
                assert(ser_out(self) =~= ser_out(old(self)) + enc_str_value(seq![v]));
            }
        }
        Ok(())
    }

    /// Writes a string: the marker (in value mode only), the byte length,
    /// then the UTF-8 bytes. A string is a valid map key.
    pub fn serialize_str(&mut self, v: &str) -> (r: Result<(), Error>)
        requires
            vstd::utf8::encode_utf8(v@).len() <= i64::MAX,
        ensures
            r == Ok::<(), Error>(()),
            ser_mode(final(self)) == ser_mode(old(self)),
            ser_mode(old(self)) == FormatterMode::Key ==> ser_out(final(self)) == ser_out(
                old(self),
            ) + enc_str_key(v@),
            ser_mode(old(self)) == FormatterMode::Value ==> ser_out(final(self)) == ser_out(
                old(self),
            ) + enc_str_value(v@),
    {
        if self.formatter.get_mode().is_value() {
            self.formatter.write_mark(Marker::String);
        }
        let bytes = v.as_bytes();
        self.formatter.write_len(bytes.len());
        self.formatter.write_raw(bytes);
        proof {
            if ser_mode(old(self)) == FormatterMode::Key {
                assert(ser_out(self) =~= ser_out(old(self)) + enc_str_key(v@));
            } else {
                assert(ser_out(self) =~= ser_out(old(self)) + enc_str_value(v@));
            }
        }
        Ok(())
    }

    /// Writes a raw byte sequence as a counted array of 8-bit unsigned
    /// values; bytes are not a valid map key.
    pub fn serialize_bytes(&mut self, v: &[u8]) -> (r: Result<(), Error>)
        requires
            v@.len() <= i64::MAX,
        ensures
            ser_mode(old(self)) == FormatterMode::Key ==> r == Err::<(), Error>(Error::InvalidKey)
                && *final(self) == *old(self),
            ser_mode(old(self)) == FormatterMode::Value ==> r == Ok::<(), Error>(()) && ser_out(
                final(self),
            ) == ser_out(old(self)) + enc_bytes(v@) && ser_mode(final(self)) == FormatterMode::Value,
    {
        if self.formatter.get_mode().is_key() {
            return Err(Error::InvalidKey);
        }
        self.formatter.write_mark(Marker::ArrayStart);
        self.formatter.write_mark(Marker::Length);
        self.formatter.write_len(v.len());
        let ghost head = ser_out(old(self)) + enc_marker(Marker::ArrayStart) + enc_marker(
            Marker::Length,
        ) + enc_len(v@.len() as int);
        let n = v.len();
        let mut i: usize = 0;
        while i < n
            invariant
                n == v@.len(),
                i <= n,
                ser_out(self) == head + enc_u8_elems(v@.take(i as int)),
                ser_mode(self) == FormatterMode::Value,
                self.formatter.mode == FormatterMode::Value,
            decreases n - i,
        {
            let b = *vstd::slice::slice_index_get(v, i);
            self.formatter.write_u8(b);
            proof {
                assert(v@.take(i + 1).drop_last() =~= v@.take(i as int));
                assert(v@.take(i + 1).last() == v@[i as int]);
                assert(enc_u8_elems(v@.take(i + 1)) == enc_u8_elems(v@.take(i as int)) + enc_u8(
                    v@[i as int],
                ));
                assert(ser_out(self) =~= head + enc_u8_elems(v@.take(i + 1)));
            }
            i = i + 1;
        }
        proof {
            assert(v@.take(n as int) =~= v@);
            assert(ser_out(self) =~= ser_out(old(self)) + enc_bytes(v@));
        }
        Ok(())
    }

    /// Writes an absent optional as the null marker; not a valid map key.
    pub fn serialize_none(&mut self) -> (r: Result<(), Error>)
        ensures
            ser_mode(old(self)) == FormatterMode::Key ==> r == Err::<(), Error>(Error::InvalidKey)
                && *final(self) == *old(self),
            ser_mode(old(self)) == FormatterMode::Value ==> r == Ok::<(), Error>(()) && ser_out(
                final(self),
            ) == ser_out(old(self)) + enc_null() && ser_mode(final(self)) == FormatterMode::Value,
    {
        if self.formatter.get_mode().is_key() {
            return Err(Error::InvalidKey);
        }
        self.formatter.write_mark(Marker::Null);
        Ok(())
    }

    /// Writes a unit value as the null marker; not a valid map key. A
    /// present optional has no encoding of its own: its inner value is
    /// written directly.
    pub fn serialize_unit(&mut self) -> (r: Result<(), Error>)
        ensures
            ser_mode(old(self)) == FormatterMode::Key ==> r == Err::<(), Error>(Error::InvalidKey)
                && *final(self) == *old(self),
            ser_mode(old(self)) == FormatterMode::Value ==> r == Ok::<(), Error>(()) && ser_out(
                final(self),
            ) == ser_out(old(self)) + enc_null() && ser_mode(final(self)) == FormatterMode::Value,
    {
        if self.formatter.get_mode().is_key() {
            return Err(Error::InvalidKey);
        }
        self.formatter.write_mark(Marker::Null);
        Ok(())
    }

    /// Writes a unit variant: just its name, as a bare string.
    pub fn serialize_unit_variant(&mut self, variant: &str) -> (r: Result<(), Error>)
        requires
            vstd::utf8::encode_utf8(variant@).len() <= i64::MAX,
        ensures
            r == Ok::<(), Error>(()),
            ser_mode(final(self)) == ser_mode(old(self)),
            ser_mode(old(self)) == FormatterMode::Key ==> ser_out(final(self)) == ser_out(
                old(self),
            ) + enc_str_key(variant@),
            ser_mode(old(self)) == FormatterMode::Value ==> ser_out(final(self)) == ser_out(
                old(self),
            ) + enc_str_value(variant@),
    {
        self.serialize_str(variant)
    }

    /// Writes the head of a newtype variant: a one-entry object with a
    /// declared count of one and the variant's name as its key, and leaves
    /// the encoder in value mode for the payload that must follow. No
    /// closing delimiter is owed afterwards.
    pub fn serialize_newtype_variant(&mut self, variant: &str) -> (r: Result<(), Error>)
        requires
            vstd::utf8::encode_utf8(variant@).len() <= i64::MAX,
        ensures
            ser_mode(old(self)) == FormatterMode::Key ==> r == Err::<(), Error>(Error::InvalidKey)
                && *final(self) == *old(self),
            ser_mode(old(self)) == FormatterMode::Value ==> r == Ok::<(), Error>(()) && ser_out(
                final(self),
            ) == ser_out(old(self)) + enc_variant_head(variant@) && ser_mode(final(self))
                == FormatterMode::Value,
    {
        if self.formatter.get_mode().is_key() {
            return Err(Error::InvalidKey);
        }
        self.write_variant_head(variant);
        Ok(())
    }

    /// Writes an object-form variant head: object start, count of one, the
    /// name as key; leaves value mode set for the payload.
    fn write_variant_head(&mut self, variant: &str)
        requires
            vstd::utf8::encode_utf8(variant@).len() <= i64::MAX,
        ensures
            ser_out(final(self)) == ser_out(old(self)) + enc_variant_head(variant@),
            ser_mode(final(self)) == FormatterMode::Value,
    {
        self.formatter.write_mark(Marker::ObjectStart);
        self.formatter.write_mark(Marker::Length);
        self.formatter.write_len(1);
        self.formatter.set_mode(FormatterMode::Key);
        let _ = self.serialize_str(variant);
        self.formatter.set_mode(FormatterMode::Value);
        proof {
            assert(ser_out(self) =~= ser_out(old(self)) + enc_variant_head(variant@));
        }
    }

    /// Opens a sequence; not a valid map key. With a known element count the
    /// count is declared up front and no end delimiter will be owed;
    /// without one, elements are self-described and closing the returned
    /// token writes the end delimiter.
    pub fn serialize_seq(&mut self, len: Option<usize>) -> (r: Result<ArraySerializer, Error>)
        requires
            len matches Some(n) ==> n <= i64::MAX,
        ensures
            ser_mode(old(self)) == FormatterMode::Key ==> (r matches Err(e) && e
                == Error::InvalidKey && *final(self) == *old(self)),
            ser_mode(old(self)) == FormatterMode::Value ==> match r {
                Ok(tok) => tok.len == len && ser_mode(final(self)) == FormatterMode::Value
                    && ser_out(final(self)) == ser_out(old(self)) + enc_marker(Marker::ArrayStart)
                    + (match len {
                    Some(n) => enc_marker(Marker::Length) + enc_len(n as int),
                    None => Seq::<u8>::empty(),
                }),
                Err(_) => false,
            },
    {
        if self.formatter.get_mode().is_key() {
            return Err(Error::InvalidKey);
        }
        self.formatter.write_mark(Marker::ArrayStart);
        if let Some(n) = len {
            self.formatter.write_mark(Marker::Length);
            self.formatter.write_len(n);
            proof {
                assert(ser_out(self) =~= ser_out(old(self)) + enc_marker(Marker::ArrayStart)
                    + (enc_marker(Marker::Length) + enc_len(len.unwrap() as int)));
            }
        } else {
            proof {
                assert(ser_out(self) =~= ser_out(old(self)) + enc_marker(Marker::ArrayStart)
                    + Seq::<u8>::empty());
            }
        }
        Ok(ArraySerializer { len })
    }

    /// Opens a map; not a valid map key. Framing is as for sequences.
    pub fn serialize_map(&mut self, len: Option<usize>) -> (r: Result<ObjectSerializer, Error>)
        requires
            len matches Some(n) ==> n <= i64::MAX,
        ensures
            ser_mode(old(self)) == FormatterMode::Key ==> (r matches Err(e) && e
                == Error::InvalidKey && *final(self) == *old(self)),
            ser_mode(old(self)) == FormatterMode::Value ==> match r {
                Ok(tok) => tok.len == len && ser_mode(final(self)) == FormatterMode::Value
                    && ser_out(final(self)) == ser_out(old(self)) + enc_marker(Marker::ObjectStart)
                    + (match len {
                    Some(n) => enc_marker(Marker::Length) + enc_len(n as int),
                    None => Seq::<u8>::empty(),
                }),
                Err(_) => false,
            },
    {
        if self.formatter.get_mode().is_key() {
            return Err(Error::InvalidKey);
        }
        self.formatter.write_mark(Marker::ObjectStart);
        if let Some(n) = len {
            self.formatter.write_mark(Marker::Length);
            self.formatter.write_len(n);
            proof {
                assert(ser_out(self) =~= ser_out(old(self)) + enc_marker(Marker::ObjectStart)
                    + (enc_marker(Marker::Length) + enc_len(len.unwrap() as int)));
            }
        } else {
            proof {
                assert(ser_out(self) =~= ser_out(old(self)) + enc_marker(Marker::ObjectStart)
                    + Seq::<u8>::empty());
            }
        }
        Ok(ObjectSerializer { len })
    }

    /// Writes the head of a tuple variant: the one-entry object wrapper,
    /// then a counted array head for the fields. The declared counts mean
    /// no delimiter is owed for either container.
    pub fn serialize_tuple_variant(&mut self, variant: &str, len: usize) -> (r: Result<
        VariantSerializer,
        Error,
    >)
        requires
            vstd::utf8::encode_utf8(variant@).len() <= i64::MAX,
            len <= i64::MAX,
        ensures
            ser_mode(old(self)) == FormatterMode::Key ==> (r matches Err(e) && e
                == Error::InvalidKey && *final(self) == *old(self)),
            ser_mode(old(self)) == FormatterMode::Value ==> r is Ok && ser_mode(final(self))
                == FormatterMode::Value && ser_out(final(self)) == ser_out(old(self))
                + enc_variant_head(variant@) + enc_marker(Marker::ArrayStart) + enc_marker(
                Marker::Length,
            ) + enc_len(len as int),
    {
        if self.formatter.get_mode().is_key() {
            return Err(Error::InvalidKey);
        }
        self.write_variant_head(variant);
        self.formatter.write_mark(Marker::ArrayStart);
        self.formatter.write_mark(Marker::Length);
        self.formatter.write_len(len);
        proof {
            assert(ser_out(self) =~= ser_out(old(self)) + enc_variant_head(variant@) + enc_marker(
                Marker::ArrayStart,
            ) + enc_marker(Marker::Length) + enc_len(len as int));
        }
        Ok(VariantSerializer {  })
    }

    /// Writes the head of a record variant: the one-entry object wrapper,
    /// then a counted object head for the fields.
    pub fn serialize_struct_variant(&mut self, variant: &str, len: usize) -> (r: Result<
        VariantSerializer,
        Error,
    >)
        requires
            vstd::utf8::encode_utf8(variant@).len() <= i64::MAX,
            len <= i64::MAX,
        ensures
            ser_mode(old(self)) == FormatterMode::Key ==> (r matches Err(e) && e
                == Error::InvalidKey && *final(self) == *old(self)),
            ser_mode(old(self)) == FormatterMode::Value ==> r is Ok && ser_mode(final(self))
                == FormatterMode::Value && ser_out(final(self)) == ser_out(old(self))
                + enc_variant_head(variant@) + enc_marker(Marker::ObjectStart) + enc_marker(
                Marker::Length,
            ) + enc_len(len as int),
    {
        if self.formatter.get_mode().is_key() {
            return Err(Error::InvalidKey);
        }
        self.write_variant_head(variant);
        self.formatter.write_mark(Marker::ObjectStart);
        self.formatter.write_mark(Marker::Length);
        self.formatter.write_len(len);
        proof {
            assert(ser_out(self) =~= ser_out(old(self)) + enc_variant_head(variant@) + enc_marker(
                Marker::ObjectStart,
            ) + enc_marker(Marker::Length) + enc_len(len as int));
        }
        Ok(VariantSerializer {  })
    }
}

/// The token a sequence opening returns: it remembers whether the sequence
/// declared its count, and so whether closing it owes an end delimiter.
pub struct ArraySerializer {
    pub len: Option<usize>,
}

impl ArraySerializer {
    /// Closes the sequence: the end delimiter goes out exactly when no
    /// count was declared.
    pub fn end(self, ser: &mut Serializer)
        ensures
            ser_mode(final(ser)) == ser_mode(old(ser)),
            self.len is None ==> ser_out(final(ser)) == ser_out(old(ser)) + enc_marker(
                Marker::ArrayEnd,
            ),
            self.len is Some ==> *final(ser) == *old(ser),
    {
        if self.len.is_none() {
            ser.formatter.write_mark(Marker::ArrayEnd);
        }
    }
}

/// The token a map opening returns. Keys are written in key mode (without
/// their own marker) and values in value mode; the caller switches modes
/// through this token around each entry.
pub struct ObjectSerializer {
    pub len: Option<usize>,
}

impl ObjectSerializer {
    /// Puts the encoder in key mode for the entry's key.
    pub fn begin_key(&self, ser: &mut Serializer)
        ensures
            ser_mode(final(ser)) == FormatterMode::Key,
            final(ser).formatter.out == old(ser).formatter.out,
    {
        ser.formatter.set_mode(FormatterMode::Key);
    }

    /// Puts the encoder back in value mode for the entry's value.
    pub fn begin_value(&self, ser: &mut Serializer)
        ensures
            ser_mode(final(ser)) == FormatterMode::Value,
            final(ser).formatter.out == old(ser).formatter.out,
    {
        ser.formatter.set_mode(FormatterMode::Value);
    }

    /// Closes the map: the end delimiter goes out exactly when no count was
    /// declared.
    pub fn end(self, ser: &mut Serializer)
        ensures
            ser_mode(final(ser)) == ser_mode(old(ser)),
            self.len is None ==> ser_out(final(ser)) == ser_out(old(ser)) + enc_marker(
                Marker::ObjectEnd,
            ),
            self.len is Some ==> *final(ser) == *old(ser),
    {
        if self.len.is_none() {
            ser.formatter.write_mark(Marker::ObjectEnd);
        }
    }
}

/// The token a tuple or record variant head returns. Both containers it
/// opened declared their counts, so closing it writes nothing; record
/// fields switch modes through it as map entries do.
pub struct VariantSerializer {}

impl VariantSerializer {
    /// Puts the encoder in key mode for a record field's name.
    pub fn begin_key(&self, ser: &mut Serializer)
        ensures
            ser_mode(final(ser)) == FormatterMode::Key,
            final(ser).formatter.out == old(ser).formatter.out,
    {
        ser.formatter.set_mode(FormatterMode::Key);
    }

    /// Puts the encoder back in value mode for a record field's value.
    pub fn begin_value(&self, ser: &mut Serializer)
        ensures
            ser_mode(final(ser)) == FormatterMode::Value,
            final(ser).formatter.out == old(ser).formatter.out,
    {
        ser.formatter.set_mode(FormatterMode::Value);
    }

    /// Closes the variant: both counts were declared, nothing is owed.
    pub fn end(self, ser: &mut Serializer)
        ensures
            *final(ser) == *old(ser),
    {
    }
}

/// The UTF-8 bytes of one character, at most four of them.
pub(crate) fn char_utf8(c: char) -> (r: Vec<u8>)
    ensures
        r@ == vstd::utf8::encode_utf8(seq![c]),
        r@.len() <= 4,
{
    proof {
        vstd::utf8::char_is_scalar(c);
        assert(seq![c].len() == 1);
        assert(seq![c][0] == c);
        assert(seq![c].drop_first() =~= Seq::<char>::empty());
        assert(vstd::utf8::encode_utf8(Seq::<char>::empty()) =~= Seq::<u8>::empty());
        assert(vstd::utf8::encode_utf8(seq![c]) =~= vstd::utf8::encode_scalar(c as u32)
            + vstd::utf8::encode_utf8(Seq::<char>::empty()));
        assert(vstd::utf8::encode_utf8(seq![c]) =~= vstd::utf8::encode_scalar(c as u32));
    }
    let u = c as u32;
    let mut r: Vec<u8> = Vec::new();
    if u <= 0x7F {
        r.push((u & 0x7F) as u8);
        proof {
            assert(r@ =~= vstd::utf8::encode_scalar(c as u32));
        }
    } else if u <= 0x7FF {
        r.push(0xC0 | (((u >> 6) & 0x1F) as u8));
        r.push(0x80 | ((u & 0x3F) as u8));
        proof {
            assert(r@ =~= vstd::utf8::encode_scalar(c as u32));
        }
    } else if u <= 0xFFFF {
        r.push(0xE0 | (((u >> 12) & 0x0F) as u8));
        r.push(0x80 | (((u >> 6) & 0x3F) as u8));
        r.push(0x80 | ((u & 0x3F) as u8));
        proof {
            assert(r@ =~= vstd::utf8::encode_scalar(c as u32));
        }
    } else {
        r.push(0xF0 | (((u >> 18) & 0x7) as u8));
        r.push(0x80 | (((u >> 12) & 0x3F) as u8));
        r.push(0x80 | (((u >> 6) & 0x3F) as u8));
        r.push(0x80 | ((u & 0x3F) as u8));
        proof {
            assert(r@ =~= vstd::utf8::encode_scalar(c as u32));
        }
    }
    r
}

/// Appends the decimal digits of `n`, most significant first.
fn push_dec_digits(out: &mut Vec<u8>, n: u64)
    ensures
        final(out)@ == old(out)@ + dec_digits(n as nat),
    decreases n,
{
    if n < 10 {
        out.push(48 + (n as u8));
        proof {
            assert(final(out)@ =~= old(out)@ + dec_digits(n as nat));
        }
    } else {
        push_dec_digits(out, n / 10);
        out.push(48 + ((n % 10) as u8));
        proof {
            assert(dec_digits(n as nat) == dec_digits((n as nat) / 10).push(
                (48 + (n as nat) % 10) as u8,
            ));
            assert(final(out)@ =~= old(out)@ + dec_digits(n as nat));
        }
    }
}

/// Powers of ten, for bounding digit-string lengths.
spec fn pow10(k: nat) -> nat
    decreases k,
{
    if k == 0 {
        1
    } else {
        10 * pow10((k - 1) as nat)
    }
}

proof fn lemma_dec_digits_len_bound(n: nat, k: nat)
    requires
        k >= 1,
        n < pow10(k),
    ensures
        dec_digits(n).len() <= k,
    decreases n,
{
    if n >= 10 {
        assert(pow10(k) == 10 * pow10((k - 1) as nat));
        assert(n / 10 < pow10((k - 1) as nat));
        assert(k >= 2) by {
            if k == 1 {
                assert(pow10(1nat) == 10 * pow10(0nat));
            }
        }
        lemma_dec_digits_len_bound(n / 10, (k - 1) as nat);
    }
}

/// A 64-bit value never needs more than twenty decimal digits.
pub proof fn lemma_dec_digits_len(n: nat)
    requires
        n <= u64::MAX,
    ensures
        dec_digits(n).len() <= 20,
{
    assert(pow10(20nat) == 100000000000000000000) by {
        reveal_with_fuel(pow10, 21);
    }
    lemma_dec_digits_len_bound(n, 20nat);
}

} // verus!
