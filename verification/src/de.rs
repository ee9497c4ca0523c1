//! The decoder: marker-tagged bytes in, typed values out.
//!
//! A [`Deserializer`] is a cursor over the input plus one pending type hint,
//! set by a container traversal just before an element so that the element's
//! read skips its own marker. Every reading method states its exact outcome
//! in terms of the `p_*` parse functions of [`crate::wire`]: on success the
//! value and the new position are the parse's, on failure the error is the
//! parse's. Decoding aborts at the first failure.

use vstd::prelude::*;
use vstd::utf8::{decode_utf8, valid_utf8};

use crate::error::Error;
use crate::marker::{Marker, byte_marker, marker_byte};
use crate::wire::{
    be16_val, be32_val, be64_val, PRes, all_digits, digits_val, lemma_digits_val_prefix, p_bool,
    p_byte, p_bytes, p_char, p_container_head, p_framing, p_i16, p_i32, p_i64, p_i8, p_len,
    p_marker, p_raw, p_some, p_step, p_str, p_string, p_u64, p_u8, p_unit, p_variant_end,
    p_variant_head,
};

verus! {

/// A decoding cursor: the input bytes, the position of the next unread byte,
/// and the pending element-type hint, if a container traversal set one.
pub struct Deserializer {
    pub bytes: Vec<u8>,
    pub pos: usize,
    pub of_type: Option<Marker>,
}

impl Deserializer {
    /// The cursor never stands past the end of the input.
    pub open spec fn wf(&self) -> bool {
        self.pos <= self.bytes@.len()
    }

    /// A fresh decoder at the start of the input, with no pending hint.
    pub fn new(bytes: Vec<u8>) -> (r: Deserializer)
        ensures
            r.bytes == bytes,
            r.pos == 0,
            r.of_type is None,
            r.wf(),
    {
        Deserializer { bytes, pos: 0, of_type: None }
    }

    /// How many bytes the decoder has consumed. A caller that wants strict
    /// "no trailing bytes" behaviour compares this against the input length
    /// after a top-level read.
    pub fn position(&self) -> (r: usize)
        ensures
            r == self.pos,
    {
        self.pos
    }

    /// Whether every input byte has been consumed.
    pub fn is_at_end(&self) -> (r: bool)
        requires
            self.wf(),
        ensures
            r == (self.pos == self.bytes@.len()),
    {
        self.pos == self.bytes.len()
    }

    /// The next byte, not consumed.
    pub fn peek_byte(&self) -> (r: Result<u8, Error>)
        requires
            self.wf(),
        ensures
            match r {
                Ok(v) => p_byte(self.bytes@, self.pos as int) == PRes::<u8>::Val(
                    v,
                    self.pos + 1 as int,
                ),
                Err(e) => p_byte(self.bytes@, self.pos as int) == PRes::<u8>::Fail(e@),
            },
    {
        if self.pos < self.bytes.len() {
            Ok(self.bytes[self.pos])
        } else {
            Err(Error::Eof)
        }
    }

    /// The next byte, consumed.
    pub fn read_byte(&mut self) -> (r: Result<u8, Error>)
        requires
            old(self).wf(),
        ensures
            final(self).wf(),
            final(self).bytes == old(self).bytes,
            final(self).of_type == old(self).of_type,
            match r {
                Ok(v) => p_byte(old(self).bytes@, old(self).pos as int) == PRes::<u8>::Val(
                    v,
                    final(self).pos as int,
                ),
                Err(e) => p_byte(old(self).bytes@, old(self).pos as int) == PRes::<u8>::Fail(e@)
                    && *final(self) == *old(self),
            },
    {
        if self.pos < self.bytes.len() {
            let b = self.bytes[self.pos];
            self.pos = self.pos + 1;
            Ok(b)
        } else {
            Err(Error::Eof)
        }
    }

    /// `len` raw bytes, consumed, as an owned copy. Nothing is consumed and
    /// nothing is allocated when fewer than `len` bytes remain.
    pub fn read_bytes(&mut self, len: usize) -> (r: Result<Vec<u8>, Error>)
        requires
            old(self).wf(),
        ensures
            final(self).wf(),
            final(self).bytes == old(self).bytes,
            final(self).of_type == old(self).of_type,
            match r {
                Ok(v) => p_raw(old(self).bytes@, old(self).pos as int, len as int)
                    == PRes::<Seq<u8>>::Val(v@, final(self).pos as int),
                Err(e) => p_raw(old(self).bytes@, old(self).pos as int, len as int)
                    == PRes::<Seq<u8>>::Fail(e@) && *final(self) == *old(self),
            },
    {
        if self.bytes.len() - self.pos < len {
            return Err(Error::Eof);
        }
        let start = self.pos;
        let end = start + len;
        let mut out: Vec<u8> = Vec::new();
        let mut i: usize = 0;
        while i < len
            invariant
                self == old(self),
                start == self.pos,
                self.wf(),
                i <= len,
                end == start + len,
                start + len <= self.bytes@.len(),
                out@ == self.bytes@.subrange(start as int, start + i as int),
            decreases len - i,
        {
            let b = self.bytes[start + i];
            out.push(b);
            proof {
                assert(self.bytes@.subrange(start as int, start + (i + 1) as int)
                    =~= self.bytes@.subrange(start as int, start + i as int).push(
                    self.bytes@[start + i],
                ));
            }
            i = i + 1;
        }
        self.pos = start + len;
        Ok(out)
    }

    /// The next marker, not consumed.
    pub fn peek_marker(&self) -> (r: Result<Marker, Error>)
        requires
            self.wf(),
        ensures
            match r {
                Ok(m) => p_marker(self.bytes@, self.pos as int) == PRes::<Marker>::Val(
                    m,
                    self.pos + 1 as int,
                ),
                Err(e) => p_marker(self.bytes@, self.pos as int) == PRes::<Marker>::Fail(e@),
            },
    {
        let b = self.peek_byte()?;
        let m = Marker::from_byte(b)?;
        Ok(m)
    }

    /// The next marker, consumed. The byte is consumed even when it lies
    /// outside the grammar.
    pub fn read_marker(&mut self) -> (r: Result<Marker, Error>)
        requires
            old(self).wf(),
        ensures
            final(self).wf(),
            final(self).bytes == old(self).bytes,
            final(self).of_type == old(self).of_type,
            match r {
                Ok(m) => p_marker(old(self).bytes@, old(self).pos as int) == PRes::<Marker>::Val(
                    m,
                    final(self).pos as int,
                ),
                Err(e) => p_marker(old(self).bytes@, old(self).pos as int) == PRes::<Marker>::Fail(
                    e@,
                ),
            },
    {
        let b = self.read_byte()?;
        let m = Marker::from_byte(b)?;
        Ok(m)
    }

    /// The marker governing the next value: the pending hint, taken, or a
    /// marker read from the stream. After the call no hint is pending.
    pub fn take_or_read_marker(&mut self) -> (r: Result<Marker, Error>)
        requires
            old(self).wf(),
        ensures
            final(self).wf(),
            final(self).bytes == old(self).bytes,
            final(self).of_type is None,
            match r {
                Ok(m) => p_step(old(self).bytes@, old(self).pos as int, old(self).of_type)
                    == PRes::<Marker>::Val(m, final(self).pos as int),
                Err(e) => p_step(old(self).bytes@, old(self).pos as int, old(self).of_type)
                    == PRes::<Marker>::Fail(e@),
            },
    {
        if let Some(m) = self.of_type {
            self.of_type = None;
            return Ok(m);
        }
        self.read_marker()
    }

    /// A length field: one signed integer marker and its payload,
    /// sign-extended to a host-width count.
    pub fn read_len(&mut self) -> (r: Result<usize, Error>)
        requires
            old(self).wf(),
        ensures
            final(self).wf(),
            final(self).bytes == old(self).bytes,
            final(self).of_type == old(self).of_type,
            match r {
                Ok(n) => p_len(old(self).bytes@, old(self).pos as int) == PRes::<usize>::Val(
                    n,
                    final(self).pos as int,
                ),
                Err(e) => p_len(old(self).bytes@, old(self).pos as int) == PRes::<usize>::Fail(e@),
            },
    {
        let m = self.read_marker()?;
        let n: usize = match m {
            Marker::I8 => self.read_i8()? as usize,
            Marker::I16 => self.read_i16()? as usize,
            Marker::I32 => self.read_i32()? as usize,
            Marker::I64 => self.read_i64()? as usize,
            _ => {
                return Err(Error::ExpectedLength);
            },
        };
        Ok(n)
    }

    /// One unsigned byte of payload.
    pub fn read_u8(&mut self) -> (r: Result<u8, Error>)
        requires
            old(self).wf(),
        ensures
            final(self).wf(),
            final(self).bytes == old(self).bytes,
            final(self).of_type == old(self).of_type,
            match r {
                Ok(v) => old(self).pos + 1 <= old(self).bytes@.len() && v == old(self).bytes@[old(self).pos as int] && final(self).pos == old(self).pos + 1,
                Err(e) => old(self).pos + 1 > old(self).bytes@.len() && e == Error::Eof && *final(self) == *old(self),
            },
    {
        match self.read_byte() {
            Ok(b) => Ok(b),
            Err(e) => Err(e),
        }
    }

    /// One signed byte of payload.
    pub fn read_i8(&mut self) -> (r: Result<i8, Error>)
        requires
            old(self).wf(),
        ensures
            final(self).wf(),
            final(self).bytes == old(self).bytes,
            final(self).of_type == old(self).of_type,
            match r {
                Ok(v) => old(self).pos + 1 <= old(self).bytes@.len() && v == old(self).bytes@[old(self).pos as int] as i8 && final(self).pos == old(self).pos + 1,
                Err(e) => old(self).pos + 1 > old(self).bytes@.len() && e == Error::Eof && *final(self) == *old(self),
            },
    {
        match self.read_byte() {
            Ok(b) => Ok(b as i8),
            Err(e) => Err(e),
        }
    }

    /// Two big-endian payload bytes as a signed 16-bit value. Nothing is
    /// consumed when too few bytes remain.
    pub fn read_i16(&mut self) -> (r: Result<i16, Error>)
        requires
            old(self).wf(),
        ensures
            final(self).wf(),
            final(self).bytes == old(self).bytes,
            final(self).of_type == old(self).of_type,
            match r {
                Ok(v) => old(self).pos + 2 <= old(self).bytes@.len() && v == be16_val(
                    old(self).bytes@[old(self).pos as int],
                    old(self).bytes@[old(self).pos + 1],
                ) as i16 && final(self).pos == old(self).pos + 2,
                Err(e) => old(self).pos + 2 > old(self).bytes@.len() && e == Error::Eof && *final(self) == *old(self),
            },
    {
        if self.bytes.len() - self.pos < 2 {
            return Err(Error::Eof);
        }
        let b0 = self.bytes[self.pos];
        let b1 = self.bytes[self.pos + 1];
        self.pos = self.pos + 2;
        Ok((((b0 as u16) << 8u16) | (b1 as u16)) as i16)
    }

    /// Four big-endian payload bytes as a signed 32-bit value.
    pub fn read_i32(&mut self) -> (r: Result<i32, Error>)
        requires
            old(self).wf(),
        ensures
            final(self).wf(),
            final(self).bytes == old(self).bytes,
            final(self).of_type == old(self).of_type,
            match r {
                Ok(v) => old(self).pos + 4 <= old(self).bytes@.len() && v == be32_val(
                    old(self).bytes@[old(self).pos as int],
                    old(self).bytes@[old(self).pos + 1],
                    old(self).bytes@[old(self).pos + 2],
                    old(self).bytes@[old(self).pos + 3],
                ) as i32 && final(self).pos == old(self).pos + 4,
                Err(e) => old(self).pos + 4 > old(self).bytes@.len() && e == Error::Eof && *final(self) == *old(self),
            },
    {
        if self.bytes.len() - self.pos < 4 {
            return Err(Error::Eof);
        }
        let b0 = self.bytes[self.pos];
        let b1 = self.bytes[self.pos + 1];
        let b2 = self.bytes[self.pos + 2];
        let b3 = self.bytes[self.pos + 3];
        self.pos = self.pos + 4;
        Ok((((b0 as u32) << 24u32) | ((b1 as u32) << 16u32) | ((b2 as u32) << 8u32) | (b3 as u32))
            as i32)
    }

    /// Eight big-endian payload bytes as a signed 64-bit value.
    pub fn read_i64(&mut self) -> (r: Result<i64, Error>)
        requires
            old(self).wf(),
        ensures
            final(self).wf(),
            final(self).bytes == old(self).bytes,
            final(self).of_type == old(self).of_type,
            match r {
                Ok(v) => old(self).pos + 8 <= old(self).bytes@.len() && v == be64_val(
                    old(self).bytes@[old(self).pos as int],
                    old(self).bytes@[old(self).pos + 1],
                    old(self).bytes@[old(self).pos + 2],
                    old(self).bytes@[old(self).pos + 3],
                    old(self).bytes@[old(self).pos + 4],
                    old(self).bytes@[old(self).pos + 5],
                    old(self).bytes@[old(self).pos + 6],
                    old(self).bytes@[old(self).pos + 7],
                ) as i64 && final(self).pos == old(self).pos + 8,
                Err(e) => old(self).pos + 8 > old(self).bytes@.len() && e == Error::Eof && *final(self) == *old(self),
            },
    {
        if self.bytes.len() - self.pos < 8 {
            return Err(Error::Eof);
        }
        let b0 = self.bytes[self.pos];
        let b1 = self.bytes[self.pos + 1];
        let b2 = self.bytes[self.pos + 2];
        let b3 = self.bytes[self.pos + 3];
        let b4 = self.bytes[self.pos + 4];
        let b5 = self.bytes[self.pos + 5];
        let b6 = self.bytes[self.pos + 6];
        let b7 = self.bytes[self.pos + 7];
        self.pos = self.pos + 8;
        Ok((((b0 as u64) << 56u64) | ((b1 as u64) << 48u64) | ((b2 as u64) << 40u64) | ((b3
            as u64) << 32u64) | ((b4 as u64) << 24u64) | ((b5 as u64) << 16u64) | ((b6 as u64)
            << 8u64) | (b7 as u64)) as i64)
    }
    /// A string payload without its marker: a length field, the raw bytes,
    /// and the demand that they are valid UTF-8. Object keys and hinted
    /// strings are read in exactly this form.
    pub fn read_string(&mut self) -> (r: Result<String, Error>)
        requires
            old(self).wf(),
        ensures
            final(self).wf(),
            final(self).bytes == old(self).bytes,
            final(self).of_type == old(self).of_type,
            match r {
                Ok(s) => crate::wire::p_str_payload(old(self).bytes@, old(self).pos as int)
                    == PRes::<Seq<char>>::Val(s@, final(self).pos as int),
                Err(e) => crate::wire::p_str_payload(old(self).bytes@, old(self).pos as int)
                    == PRes::<Seq<char>>::Fail(e@),
            },
    {
        let n = self.read_len()?;
        let bs = self.read_bytes(n)?;
        match bytes_to_string(bs) {
            Some(s) => Ok(s),
            None => Err(Error::InvalidString),
        }
    }

    /// A boolean value.
    pub fn deserialize_bool(&mut self) -> (r: Result<bool, Error>)
        requires
            old(self).wf(),
        ensures
            final(self).wf(),
            final(self).bytes == old(self).bytes,
            match r {
                Ok(v) => p_bool(old(self).bytes@, old(self).pos as int, old(self).of_type)
                    == PRes::<bool>::Val(v, final(self).pos as int) && final(self).of_type is None,
                Err(e) => p_bool(old(self).bytes@, old(self).pos as int, old(self).of_type)
                    == PRes::<bool>::Fail(e@),
            },
    {
        let m = self.take_or_read_marker()?;
        match m {
            Marker::True => Ok(true),
            Marker::False => Ok(false),
            _ => {
                let mut ms: Vec<Marker> = Vec::new();
                ms.push(Marker::True);
                ms.push(Marker::False);
                proof {
                    assert(ms@ =~= seq![Marker::True, Marker::False]);
                }
                Err(Error::Expected(ms))
            },
        }
    }

    /// An 8-bit signed value: only the 8-bit marker is accepted.
    pub fn deserialize_i8(&mut self) -> (r: Result<i8, Error>)
        requires
            old(self).wf(),
        ensures
            final(self).wf(),
            final(self).bytes == old(self).bytes,
            match r {
                Ok(v) => p_i8(old(self).bytes@, old(self).pos as int, old(self).of_type)
                    == PRes::<i8>::Val(v, final(self).pos as int) && final(self).of_type is None,
                Err(e) => p_i8(old(self).bytes@, old(self).pos as int, old(self).of_type)
                    == PRes::<i8>::Fail(e@),
            },
    {
        let m = self.take_or_read_marker()?;
        match m {
            Marker::I8 => {
                let v = self.read_i8()?;
                Ok(v)
            },
            _ => {
                let mut ms: Vec<Marker> = Vec::new();
                ms.push(Marker::I8);
                proof {
                    assert(ms@ =~= seq![Marker::I8]);
                }
                Err(Error::Expected(ms))
            },
        }
    }

    /// A 16-bit signed value, widening from the 8-bit wire form.
    pub fn deserialize_i16(&mut self) -> (r: Result<i16, Error>)
        requires
            old(self).wf(),
        ensures
            final(self).wf(),
            final(self).bytes == old(self).bytes,
            match r {
                Ok(v) => p_i16(old(self).bytes@, old(self).pos as int, old(self).of_type)
                    == PRes::<i16>::Val(v, final(self).pos as int) && final(self).of_type is None,
                Err(e) => p_i16(old(self).bytes@, old(self).pos as int, old(self).of_type)
                    == PRes::<i16>::Fail(e@),
            },
    {
        let m = self.take_or_read_marker()?;
        match m {
            Marker::I16 => {
                let v = self.read_i16()?;
                Ok(v)
            },
            Marker::I8 => {
                let v = self.read_i8()?;
                Ok(v as i16)
            },
            _ => {
                let mut ms: Vec<Marker> = Vec::new();
                ms.push(Marker::I16);
                ms.push(Marker::I8);
                proof {
                    assert(ms@ =~= seq![Marker::I16, Marker::I8]);
                }
                Err(Error::Expected(ms))
            },
        }
    }

    /// A 32-bit signed value, widening from the narrower signed wire forms.
    pub fn deserialize_i32(&mut self) -> (r: Result<i32, Error>)
        requires
            old(self).wf(),
        ensures
            final(self).wf(),
            final(self).bytes == old(self).bytes,
            match r {
                Ok(v) => p_i32(old(self).bytes@, old(self).pos as int, old(self).of_type)
                    == PRes::<i32>::Val(v, final(self).pos as int) && final(self).of_type is None,
                Err(e) => p_i32(old(self).bytes@, old(self).pos as int, old(self).of_type)
                    == PRes::<i32>::Fail(e@),
            },
    {
        let m = self.take_or_read_marker()?;
        match m {
            Marker::I32 => {
                let v = self.read_i32()?;
                Ok(v)
            },
            Marker::I16 => {
                let v = self.read_i16()?;
                Ok(v as i32)
            },
            Marker::I8 => {
                let v = self.read_i8()?;
                Ok(v as i32)
            },
            _ => {
                let mut ms: Vec<Marker> = Vec::new();
                ms.push(Marker::I32);
                ms.push(Marker::I16);
                ms.push(Marker::I8);
                proof {
                    assert(ms@ =~= seq![Marker::I32, Marker::I16, Marker::I8]);
                }
                Err(Error::Expected(ms))
            },
        }
    }

    /// A 64-bit signed value, widening from every narrower signed wire form.
    pub fn deserialize_i64(&mut self) -> (r: Result<i64, Error>)
        requires
            old(self).wf(),
        ensures
            final(self).wf(),
            final(self).bytes == old(self).bytes,
            match r {
                Ok(v) => p_i64(old(self).bytes@, old(self).pos as int, old(self).of_type)
                    == PRes::<i64>::Val(v, final(self).pos as int) && final(self).of_type is None,
                Err(e) => p_i64(old(self).bytes@, old(self).pos as int, old(self).of_type)
                    == PRes::<i64>::Fail(e@),
            },
    {
        let m = self.take_or_read_marker()?;
        match m {
            Marker::I64 => {
                let v = self.read_i64()?;
                Ok(v)
            },
            Marker::I32 => {
                let v = self.read_i32()?;
                Ok(v as i64)
            },
            Marker::I16 => {
                let v = self.read_i16()?;
                Ok(v as i64)
            },
            Marker::I8 => {
                let v = self.read_i8()?;
                Ok(v as i64)
            },
            _ => {
                let mut ms: Vec<Marker> = Vec::new();
                ms.push(Marker::I64);
                ms.push(Marker::I32);
                ms.push(Marker::I16);
                ms.push(Marker::I8);
                proof {
                    assert(ms@ =~= seq![Marker::I64, Marker::I32, Marker::I16, Marker::I8]);
                }
                Err(Error::Expected(ms))
            },
        }
    }

    /// An 8-bit unsigned value.
    pub fn deserialize_u8(&mut self) -> (r: Result<u8, Error>)
        requires
            old(self).wf(),
        ensures
            final(self).wf(),
            final(self).bytes == old(self).bytes,
            match r {
                Ok(v) => p_u8(old(self).bytes@, old(self).pos as int, old(self).of_type)
                    == PRes::<u8>::Val(v, final(self).pos as int) && final(self).of_type is None,
                Err(e) => p_u8(old(self).bytes@, old(self).pos as int, old(self).of_type)
                    == PRes::<u8>::Fail(e@),
            },
    {
        let m = self.take_or_read_marker()?;
        match m {
            Marker::U8 => {
                let v = self.read_u8()?;
                Ok(v)
            },
            _ => {
                let mut ms: Vec<Marker> = Vec::new();
                ms.push(Marker::U8);
                proof {
                    assert(ms@ =~= seq![Marker::U8]);
                }
                Err(Error::Expected(ms))
            },
        }
    }

    /// A 16-bit unsigned value. The only unsigned wire form is the 8-bit
    /// one, so only that is accepted and widened.
    pub fn deserialize_u16(&mut self) -> (r: Result<u16, Error>)
        requires
            old(self).wf(),
        ensures
            final(self).wf(),
            final(self).bytes == old(self).bytes,
            match r {
                Ok(v) => p_u8(old(self).bytes@, old(self).pos as int, old(self).of_type)
                    == PRes::<u8>::Val(v as u8, final(self).pos as int) && v <= u8::MAX && final(self).of_type is None,
                Err(e) => p_u8(old(self).bytes@, old(self).pos as int, old(self).of_type)
                    == PRes::<u8>::Fail(e@),
            },
    {
        match self.deserialize_u8() {
            Ok(v) => Ok(v as u16),
            Err(e) => Err(e),
        }
    }

    /// A 32-bit unsigned value, from the 8-bit unsigned wire form only.
    pub fn deserialize_u32(&mut self) -> (r: Result<u32, Error>)
        requires
            old(self).wf(),
        ensures
            final(self).wf(),
            final(self).bytes == old(self).bytes,
            match r {
                Ok(v) => p_u8(old(self).bytes@, old(self).pos as int, old(self).of_type)
                    == PRes::<u8>::Val(v as u8, final(self).pos as int) && v <= u8::MAX && final(self).of_type is None,
                Err(e) => p_u8(old(self).bytes@, old(self).pos as int, old(self).of_type)
                    == PRes::<u8>::Fail(e@),
            },
    {
        match self.deserialize_u8() {
            Ok(v) => Ok(v as u32),
            Err(e) => Err(e),
        }
    }

    /// A 64-bit unsigned value: the 8-bit unsigned wire form, or the
    /// decimal-number form whose digit string names a 64-bit value.
    pub fn deserialize_u64(&mut self) -> (r: Result<u64, Error>)
        requires
            old(self).wf(),
        ensures
            final(self).wf(),
            final(self).bytes == old(self).bytes,
            match r {
                Ok(v) => p_u64(old(self).bytes@, old(self).pos as int, old(self).of_type)
                    == PRes::<u64>::Val(v, final(self).pos as int) && final(self).of_type is None,
                Err(e) => p_u64(old(self).bytes@, old(self).pos as int, old(self).of_type)
                    == PRes::<u64>::Fail(e@),
            },
    {
        let m = self.take_or_read_marker()?;
        match m {
            Marker::U8 => {
                let v = self.read_u8()?;
                Ok(v as u64)
            },
            Marker::Number => {
                let n = self.read_len()?;
                let ds = self.read_bytes(n)?;
                if ds.len() == 0 {
                    return Err(Error::InvalidString);
                }
                let mut acc: u64 = 0;
                let mut i: usize = 0;
                let len = ds.len();
                #[verifier::loop_isolation(false)]
                while i < len
                    invariant
                        len == ds@.len(),
                        i <= len,
                        all_digits(ds@.take(i as int)),
                        acc == digits_val(ds@.take(i as int)),
                    decreases len - i,
                {
                    let d = ds[i];
                    if d < 48 || d > 57 {
                        return Err(Error::InvalidString);
                    }
                    let dv = (d - 48) as u64;
                    if acc > (u64::MAX - dv) / 10 {
                        proof {
                            assert(acc * 10 + dv > u64::MAX) by {
                                vstd::arithmetic::div_mod::lemma_fundamental_div_mod(
                                    (u64::MAX - dv) as int,
                                    10,
                                );
                            }
                            assert(ds@.take(i + 1).drop_last() =~= ds@.take(i as int));
                            assert(digits_val(ds@.take(i + 1)) == acc * 10 + dv);
                            if all_digits(ds@) {
                                lemma_digits_val_prefix(ds@, i + 1);
                                assert(ds@.take(ds@.len() as int) =~= ds@);
                            }
                        }
                        return Err(Error::InvalidString);
                    }
                    proof {
                        assert(acc * 10 + dv <= u64::MAX) by {
                            vstd::arithmetic::div_mod::lemma_fundamental_div_mod(
                                (u64::MAX - dv) as int,
                                10,
                            );
                        }
                        assert(ds@.take(i + 1).drop_last() =~= ds@.take(i as int));
                    }
                    acc = acc * 10 + dv;
                    i = i + 1;
                }
                proof {
                    assert(ds@.take(len as int) =~= ds@);
                }
                Ok(acc)
            },
            _ => {
                let mut ms: Vec<Marker> = Vec::new();
                ms.push(Marker::Number);
                ms.push(Marker::U8);
                proof {
                    assert(ms@ =~= seq![Marker::Number, Marker::U8]);
                }
                Err(Error::Expected(ms))
            },
        }
    }

    /// A character: the one-byte character form, or a string whose payload
    /// is exactly one ASCII byte.
    pub fn deserialize_char(&mut self) -> (r: Result<char, Error>)
        requires
            old(self).wf(),
        ensures
            final(self).wf(),
            final(self).bytes == old(self).bytes,
            match r {
                Ok(v) => p_char(old(self).bytes@, old(self).pos as int, old(self).of_type)
                    == PRes::<char>::Val(v, final(self).pos as int) && final(self).of_type is None,
                Err(e) => p_char(old(self).bytes@, old(self).pos as int, old(self).of_type)
                    == PRes::<char>::Fail(e@),
            },
    {
        let m = self.take_or_read_marker()?;
        match m {
            Marker::Char => {
                let b = self.read_byte()?;
                Ok(b as char)
            },
            Marker::String => {
                let n = self.read_len()?;
                let bs = self.read_bytes(n)?;
                if bs.len() == 1 {
                    let b = bs[0];
                    if b < 128 {
                        proof {
                            crate::wire::lemma_ascii_byte_utf8(b);
                            assert(bs@ =~= seq![b]);
                        }
                        return Ok(b as char);
                    }
                }
                proof {
                    if valid_utf8(bs@) && bs@.len() == 1 {
                        crate::wire::lemma_single_valid_byte_ascii(bs@);
                    }
                }
                Err(Error::InvalidString)
            },
            _ => {
                let mut ms: Vec<Marker> = Vec::new();
                ms.push(Marker::Char);
                ms.push(Marker::String);
                proof {
                    assert(ms@ =~= seq![Marker::Char, Marker::String]);
                }
                Err(Error::Expected(ms))
            },
        }
    }

    /// An owned string: the length-prefixed form, or a one-byte character
    /// read as a one-character string.
    pub fn deserialize_string(&mut self) -> (r: Result<String, Error>)
        requires
            old(self).wf(),
        ensures
            final(self).wf(),
            final(self).bytes == old(self).bytes,
            match r {
                Ok(v) => p_string(old(self).bytes@, old(self).pos as int, old(self).of_type)
                    == PRes::<Seq<char>>::Val(v@, final(self).pos as int) && final(self).of_type is None,
                Err(e) => p_string(old(self).bytes@, old(self).pos as int, old(self).of_type)
                    == PRes::<Seq<char>>::Fail(e@),
            },
    {
        let m = self.take_or_read_marker()?;
        match m {
            Marker::String => {
                let s = self.read_string()?;
                Ok(s)
            },
            Marker::Char => {
                let b = self.read_byte()?;
                let cs = crate::ser::char_utf8(b as char);
                proof {
                    vstd::utf8::encode_utf8_valid_utf8(seq![b as char]);
                    vstd::utf8::encode_utf8_decode_utf8(seq![b as char]);
                }
                match bytes_to_string(cs) {
                    Some(s) => Ok(s),
                    None => {
                        proof {
                            assert(false);
                        }
                        Err(Error::InvalidString)
                    },
                }
            },
            _ => {
                let mut ms: Vec<Marker> = Vec::new();
                ms.push(Marker::String);
                ms.push(Marker::Char);
                proof {
                    assert(ms@ =~= seq![Marker::String, Marker::Char]);
                }
                Err(Error::Expected(ms))
            },
        }
    }

    /// A string by the borrowed-style rules: as [`Self::deserialize_string`],
    /// except that the one-byte character form must itself be valid UTF-8.
    pub fn deserialize_str(&mut self) -> (r: Result<String, Error>)
        requires
            old(self).wf(),
        ensures
            final(self).wf(),
            final(self).bytes == old(self).bytes,
            match r {
                Ok(v) => p_str(old(self).bytes@, old(self).pos as int, old(self).of_type)
                    == PRes::<Seq<char>>::Val(v@, final(self).pos as int) && final(self).of_type is None,
                Err(e) => p_str(old(self).bytes@, old(self).pos as int, old(self).of_type)
                    == PRes::<Seq<char>>::Fail(e@),
            },
    {
        let m = self.take_or_read_marker()?;
        match m {
            Marker::String => {
                let s = self.read_string()?;
                Ok(s)
            },
            Marker::Char => {
                let bs = self.read_bytes(1)?;
                match bytes_to_string(bs) {
                    Some(s) => Ok(s),
                    None => Err(Error::InvalidString),
                }
            },
            _ => {
                let mut ms: Vec<Marker> = Vec::new();
                ms.push(Marker::String);
                ms.push(Marker::Char);
                proof {
                    assert(ms@ =~= seq![Marker::String, Marker::Char]);
                }
                Err(Error::Expected(ms))
            },
        }
    }

    /// A unit value: exactly a null marker. A pending hint is not consulted
    /// and stays pending.
    pub fn deserialize_unit(&mut self) -> (r: Result<(), Error>)
        requires
            old(self).wf(),
        ensures
            final(self).wf(),
            final(self).bytes == old(self).bytes,
            final(self).of_type == old(self).of_type,
            match r {
                Ok(v) => p_unit(old(self).bytes@, old(self).pos as int) == PRes::<()>::Val(
                    (),
                    final(self).pos as int,
                ),
                Err(e) => p_unit(old(self).bytes@, old(self).pos as int) == PRes::<()>::Fail(e@),
            },
    {
        let m = self.read_marker()?;
        match m {
            Marker::Null => Ok(()),
            _ => {
                let mut ms: Vec<Marker> = Vec::new();
                ms.push(Marker::Null);
                proof {
                    assert(ms@ =~= seq![Marker::Null]);
                }
                Err(Error::Expected(ms))
            },
        }
    }

    /// Optional presence: a null marker means "absent" and is consumed;
    /// anything else means "present" and is left for the inner read. A
    /// pending hint is not consulted and stays pending.
    pub fn deserialize_option_begin(&mut self) -> (r: Result<bool, Error>)
        requires
            old(self).wf(),
        ensures
            final(self).wf(),
            final(self).bytes == old(self).bytes,
            final(self).of_type == old(self).of_type,
            match r {
                Ok(v) => p_some(old(self).bytes@, old(self).pos as int) == PRes::<bool>::Val(
                    v,
                    final(self).pos as int,
                ),
                Err(e) => p_some(old(self).bytes@, old(self).pos as int) == PRes::<bool>::Fail(e@)
                    && *final(self) == *old(self),
            },
    {
        let m = self.peek_marker()?;
        match m {
            Marker::Null => {
                let _ = self.read_marker();
                Ok(false)
            },
            _ => Ok(true),
        }
    }
    /// The framing of a container, inspected just inside its start marker:
    /// an optional element count and an optional shared element type.
    pub fn read_framing(&mut self) -> (r: Result<(Option<usize>, Option<Marker>), Error>)
        requires
            old(self).wf(),
        ensures
            final(self).wf(),
            final(self).bytes == old(self).bytes,
            final(self).of_type == old(self).of_type,
            match r {
                Ok(v) => p_framing(old(self).bytes@, old(self).pos as int) == PRes::<
                    (Option<usize>, Option<Marker>),
                >::Val(v, final(self).pos as int),
                Err(e) => p_framing(old(self).bytes@, old(self).pos as int) == PRes::<
                    (Option<usize>, Option<Marker>),
                >::Fail(e@),
            },
    {
        let m = self.peek_marker()?;
        match m {
            Marker::OfType => {
                let _ = self.read_marker();
                let ty = self.read_marker()?;
                let m2 = self.read_marker()?;
                match m2 {
                    Marker::Length => {
                        let n = self.read_len()?;
                        Ok((Some(n), Some(ty)))
                    },
                    _ => {
                        let mut ms: Vec<Marker> = Vec::new();
                        ms.push(Marker::Length);
                        proof {
                            assert(ms@ =~= seq![Marker::Length]);
                        }
                        Err(Error::Expected(ms))
                    },
                }
            },
            Marker::Length => {
                let _ = self.read_marker();
                let n = self.read_len()?;
                Ok((Some(n), None))
            },
            _ => Ok((None, None)),
        }
    }

    /// Opens a sequence: the start marker, then the framing, handed back as
    /// a traversal object. A declared count means no end delimiter follows.
    pub fn deserialize_seq(&mut self) -> (r: Result<ArrayAccess, Error>)
        requires
            old(self).wf(),
        ensures
            final(self).wf(),
            final(self).bytes == old(self).bytes,
            final(self).of_type == old(self).of_type,
            match r {
                Ok(acc) => p_container_head(
                    old(self).bytes@,
                    old(self).pos as int,
                    Marker::ArrayStart,
                ) == PRes::<(Option<usize>, Option<Marker>)>::Val(
                    (acc.len, acc.of_type),
                    final(self).pos as int,
                ) && acc.trailer == (if acc.len is Some {
                    None::<Marker>
                } else {
                    Some(Marker::ArrayEnd)
                }),
                Err(e) => p_container_head(
                    old(self).bytes@,
                    old(self).pos as int,
                    Marker::ArrayStart,
                ) == PRes::<(Option<usize>, Option<Marker>)>::Fail(e@),
            },
    {
        let m = self.read_marker()?;
        match m {
            Marker::ArrayStart => {
                let (len, ty) = self.read_framing()?;
                let trailer = if len.is_some() {
                    None
                } else {
                    Some(Marker::ArrayEnd)
                };
                Ok(ArrayAccess { len, of_type: ty, trailer })
            },
            _ => {
                let mut ms: Vec<Marker> = Vec::new();
                ms.push(Marker::ArrayStart);
                proof {
                    assert(ms@ =~= seq![Marker::ArrayStart]);
                }
                Err(Error::Expected(ms))
            },
        }
    }

    /// Opens a map: the start marker, then the framing, handed back as a
    /// traversal object.
    pub fn deserialize_map(&mut self) -> (r: Result<ObjectAccess, Error>)
        requires
            old(self).wf(),
        ensures
            final(self).wf(),
            final(self).bytes == old(self).bytes,
            final(self).of_type == old(self).of_type,
            match r {
                Ok(acc) => p_container_head(
                    old(self).bytes@,
                    old(self).pos as int,
                    Marker::ObjectStart,
                ) == PRes::<(Option<usize>, Option<Marker>)>::Val(
                    (acc.len, acc.of_type),
                    final(self).pos as int,
                ) && acc.trailer == (if acc.len is Some {
                    None::<Marker>
                } else {
                    Some(Marker::ObjectEnd)
                }),
                Err(e) => p_container_head(
                    old(self).bytes@,
                    old(self).pos as int,
                    Marker::ObjectStart,
                ) == PRes::<(Option<usize>, Option<Marker>)>::Fail(e@),
            },
    {
        let m = self.read_marker()?;
        match m {
            Marker::ObjectStart => {
                let (len, ty) = self.read_framing()?;
                let trailer = if len.is_some() {
                    None
                } else {
                    Some(Marker::ObjectEnd)
                };
                Ok(ObjectAccess { len, of_type: ty, trailer })
            },
            _ => {
                let mut ms: Vec<Marker> = Vec::new();
                ms.push(Marker::ObjectStart);
                proof {
                    assert(ms@ =~= seq![Marker::ObjectStart]);
                }
                Err(Error::Expected(ms))
            },
        }
    }

    /// A raw byte span: a sequence that declared its count is sliced whole,
    /// without per-element markers being checked; a delimited sequence
    /// cannot be sliced and fails at the attempt.
    pub fn deserialize_bytes(&mut self) -> (r: Result<Vec<u8>, Error>)
        requires
            old(self).wf(),
        ensures
            final(self).wf(),
            final(self).bytes == old(self).bytes,
            final(self).of_type == old(self).of_type,
            match r {
                Ok(v) => p_bytes(old(self).bytes@, old(self).pos as int) == PRes::<Seq<u8>>::Val(
                    v@,
                    final(self).pos as int,
                ),
                Err(e) => p_bytes(old(self).bytes@, old(self).pos as int) == PRes::<Seq<u8>>::Fail(
                    e@,
                ),
            },
    {
        let m = self.read_marker()?;
        match m {
            Marker::ArrayStart => {
                let (len, _ty) = self.read_framing()?;
                match len {
                    Some(n) => {
                        let v = self.read_bytes(n)?;
                        Ok(v)
                    },
                    None => Err(Error::ExpectedLength),
                }
            },
            _ => {
                let mut ms: Vec<Marker> = Vec::new();
                ms.push(Marker::ArrayStart);
                proof {
                    assert(ms@ =~= seq![Marker::ArrayStart]);
                }
                Err(Error::Expected(ms))
            },
        }
    }

    /// The head of a tagged-union value: a bare string is a unit variant's
    /// name; an object opening is read through its framing and its single
    /// key, the variant's name. The payload that follows is read by the
    /// caller, and [`Self::deserialize_enum_end`] closes the object form.
    pub fn deserialize_enum_begin(&mut self) -> (r: Result<VariantHead, Error>)
        requires
            old(self).wf(),
        ensures
            final(self).wf(),
            final(self).bytes == old(self).bytes,
            final(self).of_type == old(self).of_type,
            match r {
                Ok(h) => (p_variant_head(old(self).bytes@, old(self).pos as int) matches
                    PRes::Val(s, p) && head_matches(&h, s) && final(self).pos == p),
                Err(e) => p_variant_head(old(self).bytes@, old(self).pos as int)
                    == PRes::<crate::wire::VariantShape>::Fail(e@),
            },
    {
        let m = self.read_marker()?;
        match m {
            Marker::String => {
                let s = self.read_string()?;
                Ok(VariantHead::Unit(s))
            },
            Marker::ObjectStart => {
                let (len, _ty) = self.read_framing()?;
                let name = self.read_string()?;
                Ok(VariantHead::Entry { name, counted: len.is_some() })
            },
            _ => {
                let mut ms: Vec<Marker> = Vec::new();
                ms.push(Marker::String);
                ms.push(Marker::ObjectStart);
                proof {
                    assert(ms@ =~= seq![Marker::String, Marker::ObjectStart]);
                }
                Err(Error::Expected(ms))
            },
        }
    }

    /// Closes an object-form variant: nothing is owed when its count was
    /// declared; otherwise exactly the closing object delimiter.
    pub fn deserialize_enum_end(&mut self, counted: bool) -> (r: Result<(), Error>)
        requires
            old(self).wf(),
        ensures
            final(self).wf(),
            final(self).bytes == old(self).bytes,
            final(self).of_type == old(self).of_type,
            match r {
                Ok(v) => p_variant_end(old(self).bytes@, old(self).pos as int, counted)
                    == PRes::<()>::Val((), final(self).pos as int),
                Err(e) => p_variant_end(old(self).bytes@, old(self).pos as int, counted)
                    == PRes::<()>::Fail(e@),
            },
    {
        if counted {
            return Ok(());
        }
        let m = self.read_marker()?;
        match m {
            Marker::ObjectEnd => Ok(()),
            _ => {
                let mut ms: Vec<Marker> = Vec::new();
                ms.push(Marker::ObjectEnd);
                proof {
                    assert(ms@ =~= seq![Marker::ObjectEnd]);
                }
                Err(Error::Expected(ms))
            },
        }
    }
}

impl Deserializer {
    /// A whole sequence of 8-bit signed values, under any of the three
    /// framings.
    pub fn deserialize_i8_seq(&mut self) -> (r: Result<Vec<i8>, Error>)
        requires
            old(self).wf(),
            old(self).of_type is None,
        ensures
            final(self).wf(),
            final(self).bytes == old(self).bytes,
            match r {
                Ok(v) => crate::wire::p_i8_seq(old(self).bytes@, old(self).pos as int)
                    == PRes::<Seq<i8>>::Val(v@, final(self).pos as int) && final(self).of_type is None,
                Err(e) => crate::wire::p_i8_seq(old(self).bytes@, old(self).pos as int)
                    == PRes::<Seq<i8>>::Fail(e@),
            },
    {
        let ghost b = self.bytes@;
        let ghost total = crate::wire::p_i8_seq(b, old(self).pos as int);
        let ghost f = crate::wire::p_i8_elem();
        let ghost end = marker_byte(Marker::ArrayEnd);
        let mut acc = self.deserialize_seq()?;
        let ghost len0 = acc.len;
        let ghost ty0 = acc.of_type;
        let mut out: Vec<i8> = Vec::new();
        proof {
            assert(Seq::<i8>::empty() + Seq::<i8>::empty() =~= Seq::<i8>::empty());
        }
        let mut done = false;
        #[verifier::loop_isolation(false)]
        while !done
            invariant
                self.wf(),
                self.bytes == old(self).bytes,
                self.bytes@ == b,
                self.of_type is None,
                acc.of_type == ty0,
                acc.trailer == (if len0 is Some {
                    None::<Marker>
                } else {
                    Some(Marker::ArrayEnd)
                }),
                done ==> total == PRes::<Seq<i8>>::Val(out@, self.pos as int),
                !done ==> (match len0 {
                    Some(_) => acc.len matches Some(k) && total == crate::wire::p_cont(
                        crate::wire::p_elems_counted(b, self.pos as int, k as nat, ty0, f),
                        out@,
                    ),
                    None => (acc.len is None && total == crate::wire::p_cont(
                        crate::wire::p_elems_delim(b, self.pos as int, end, f),
                        out@,
                    )) || (acc.len == Some(0usize) && total == PRes::<Seq<i8>>::Val(
                        out@,
                        self.pos as int,
                    )),
                }),
            decreases (b.len() - self.pos) + (match acc.len {
                Some(k) => k as int,
                None => 1int,
            }) + (if done {
                0int
            } else {
                1int
            }),
        {
            let ghost pos_it = self.pos as int;
            let ghost acc_it = acc;
            let more = acc.next_element_begin(self)?;
            if !more {
                proof {
                    if len0 is Some {
                        assert(out@ + Seq::<i8>::empty() =~= out@);
                    } else if acc_it.len is None {
                        assert(b[pos_it] == end);
                        assert(out@ + Seq::<i8>::empty() =~= out@);
                    }
                }
                done = true;
                continue ;
            }
            let ghost hint = if len0 is Some { ty0 } else { None };
            proof {
                if len0 is None {
                    assert(b[pos_it] != end) by {
                        if b[pos_it] == end {
                            assert(byte_marker(end) == Some(Marker::ArrayEnd));
                        }
                    }
                }
            }
            let v = match self.deserialize_i8() {
                Ok(v) => v,
                Err(e) => {
                    proof {
                        if len0 is Some {
                            assert(f(b, pos_it, hint) == p_i8(b, pos_it, hint));
                        } else {
                            assert(f(b, pos_it, None) == p_i8(b, pos_it, None::<Marker>));
                        }
                    }
                    return Err(e);
                },
            };
            let ghost pos_v = self.pos as int;
            let ghost out0 = out@;
            out.push(v);
            proof {
                assert(f(b, pos_it, hint) == p_i8(b, pos_it, hint));
                crate::wire::lemma_p_i8_progress(b, pos_it, hint);
            }
            let ghost acc1 = acc;
            match acc.next_element_end(self) {
                Ok(u) => u,
                Err(e) => {
                    proof {
                        assert(len0 is None && pos_v == b.len() && e == Error::Eof);
                    }
                    return Err(e);
                },
            };
            proof {
                if len0 is Some {
                    let k = acc1.len.unwrap() as nat;
                    let rest = crate::wire::p_elems_counted(b, pos_v, (k - 1) as nat, ty0, f);
                    assert(crate::wire::p_elems_counted(b, pos_it, k, ty0, f) == match rest {
                        PRes::<Seq<i8>>::Val(vs, p3) => PRes::<Seq<i8>>::Val(seq![v] + vs, p3),
                        PRes::<Seq<i8>>::Fail(ff) => PRes::<Seq<i8>>::Fail(ff),
                    });
                    match rest {
                        PRes::<Seq<i8>>::Val(vs, p3) => {
                            assert(out0 + (seq![v] + vs) =~= out@ + vs);
                        },
                        PRes::<Seq<i8>>::Fail(_) => {},
                    }
                } else {
                    let rest = crate::wire::p_elems_delim(b, pos_v, end, f);
                    assert(crate::wire::p_elems_delim(b, pos_it, end, f) == match rest {
                        PRes::<Seq<i8>>::Val(vs, p3) => PRes::<Seq<i8>>::Val(seq![v] + vs, p3),
                        PRes::<Seq<i8>>::Fail(ff) => PRes::<Seq<i8>>::Fail(ff),
                    });
                    match rest {
                        PRes::<Seq<i8>>::Val(vs, p3) => {
                            assert(out0 + (seq![v] + vs) =~= out@ + vs);
                        },
                        PRes::<Seq<i8>>::Fail(_) => {},
                    }
                    if acc.len == Some(0usize) {
                        // the delimiter stood right after the element and was
                        // consumed at once
                        assert(byte_marker(b[pos_v]) == Some(Marker::ArrayEnd));
                        assert(byte_marker(end) == Some(Marker::ArrayEnd));
                        assert(b[pos_v] == end) by {
                            crate::marker::lemma_marker_byte_inverse(Marker::ArrayEnd);
                            if b[pos_v] != end {
                                assert(byte_marker(b[pos_v]) == Some(Marker::ArrayEnd));
                            }
                        }
                        assert(rest == PRes::<Seq<i8>>::Val(Seq::<i8>::empty(), pos_v + 1));
                        assert(out@ + Seq::<i8>::empty() =~= out@);
                    } else {
                        assert(self.pos as int == pos_v);
                    }
                }
            }
        }
        Ok(out)
    }
}


/// Whether a vector of decoded strings carries exactly the parsed character
/// sequences.
pub open spec fn strings_match(es: Seq<Seq<char>>, vs: Seq<String>) -> bool {
    vs.len() == es.len() && (forall|i: int| 0 <= i < es.len() ==> #[trigger] vs[i]@ == es[i])
}

/// Whether a vector of decoded entries carries exactly the parsed keys and
/// values.
pub open spec fn entries_match<T>(es: Seq<(Seq<char>, T)>, vs: Seq<(String, T)>) -> bool {
    vs.len() == es.len() && (forall|i: int|
        0 <= i < es.len() ==> #[trigger] vs[i].0@ == es[i].0 && vs[i].1 == es[i].1)
}

/// Whether a vector of decoded string entries carries exactly the parsed
/// keys and values.
pub open spec fn str_entries_match(es: Seq<(Seq<char>, Seq<char>)>, vs: Seq<(String, String)>) -> bool {
    vs.len() == es.len() && (forall|i: int|
        0 <= i < es.len() ==> #[trigger] vs[i].0@ == es[i].0 && vs[i].1@ == es[i].1)
}

proof fn lemma_strings_match_push(es: Seq<Seq<char>>, vs: Seq<String>, v: String)
    requires
        strings_match(es, vs),
    ensures
        strings_match(es.push(v@), vs.push(v)),
{
    let es2 = es.push(v@);
    let vs2 = vs.push(v);
    assert forall|i: int| 0 <= i < es2.len() implies #[trigger] vs2[i]@ == es2[i] by {
        if i < es.len() {
            assert(vs2[i] == vs[i]);
        }
    }
}

proof fn lemma_entries_match_push<T>(es: Seq<(Seq<char>, T)>, vs: Seq<(String, T)>, k: String, v: T)
    requires
        entries_match(es, vs),
    ensures
        entries_match(es.push((k@, v)), vs.push((k, v))),
{
    let es2 = es.push((k@, v));
    let vs2 = vs.push((k, v));
    assert forall|i: int| 0 <= i < es2.len() implies #[trigger] vs2[i].0@ == es2[i].0 && vs2[i].1
        == es2[i].1 by {
        if i < es.len() {
            assert(vs2[i] == vs[i]);
        }
    }
}

proof fn lemma_str_entries_match_push(
    es: Seq<(Seq<char>, Seq<char>)>,
    vs: Seq<(String, String)>,
    k: String,
    v: String,
)
    requires
        str_entries_match(es, vs),
    ensures
        str_entries_match(es.push((k@, v@)), vs.push((k, v))),
{
    let es2 = es.push((k@, v@));
    let vs2 = vs.push((k, v));
    assert forall|i: int| 0 <= i < es2.len() implies #[trigger] vs2[i].0@ == es2[i].0 && vs2[i].1@
        == es2[i].1 by {
        if i < es.len() {
            assert(vs2[i] == vs[i]);
        }
    }
}

impl Deserializer {
    /// A whole sequence of strings, under any of the three framings.
    pub fn deserialize_string_seq(&mut self) -> (r: Result<Vec<String>, Error>)
        requires
            old(self).wf(),
            old(self).of_type is None,
        ensures
            final(self).wf(),
            final(self).bytes == old(self).bytes,
            match r {
                Ok(v) => (crate::wire::p_string_seq(old(self).bytes@, old(self).pos as int)
                    matches PRes::Val(es, p) && strings_match(es, v@) && final(self).pos == p)
                    && final(self).of_type is None,
                Err(e) => crate::wire::p_string_seq(old(self).bytes@, old(self).pos as int)
                    == PRes::<Seq<Seq<char>>>::Fail(e@),
            },
    {
        let ghost b = self.bytes@;
        let ghost total = crate::wire::p_string_seq(b, old(self).pos as int);
        let ghost f = crate::wire::p_string_elem();
        let ghost end = marker_byte(Marker::ArrayEnd);
        let mut acc = self.deserialize_seq()?;
        let ghost len0 = acc.len;
        let ghost ty0 = acc.of_type;
        let mut out: Vec<String> = Vec::new();
        let ghost mut gout: Seq<Seq<char>> = Seq::empty();
        let mut done = false;
        #[verifier::loop_isolation(false)]
        while !done
            invariant
                self.wf(),
                self.bytes == old(self).bytes,
                self.bytes@ == b,
                self.of_type is None,
                acc.of_type == ty0,
                acc.trailer == (if len0 is Some {
                    None::<Marker>
                } else {
                    Some(Marker::ArrayEnd)
                }),
                strings_match(gout, out@),
                done ==> total == PRes::<Seq<Seq<char>>>::Val(gout, self.pos as int),
                !done ==> (match len0 {
                    Some(_) => acc.len matches Some(k) && total == crate::wire::p_cont(
                        crate::wire::p_elems_counted(b, self.pos as int, k as nat, ty0, f),
                        gout,
                    ),
                    None => (acc.len is None && total == crate::wire::p_cont(
                        crate::wire::p_elems_delim(b, self.pos as int, end, f),
                        gout,
                    )) || (acc.len == Some(0usize) && total == PRes::<Seq<Seq<char>>>::Val(
                        gout,
                        self.pos as int,
                    )),
                }),
            decreases (b.len() - self.pos) + (match acc.len {
                Some(k) => k as int,
                None => 1int,
            }) + (if done {
                0int
            } else {
                1int
            }),
        {
            let ghost pos_it = self.pos as int;
            let ghost acc_it = acc;
            let more = acc.next_element_begin(self)?;
            if !more {
                proof {
                    if len0 is Some {
                        assert(gout + Seq::<Seq<char>>::empty() =~= gout);
                    } else if acc_it.len is None {
                        assert(b[pos_it] == end);
                        assert(gout + Seq::<Seq<char>>::empty() =~= gout);
                    }
                }
                done = true;
                continue ;
            }
            let ghost hint = if len0 is Some {
                ty0
            } else {
                None
            };
            proof {
                if len0 is None {
                    assert(b[pos_it] != end) by {
                        if b[pos_it] == end {
                            assert(byte_marker(end) == Some(Marker::ArrayEnd));
                        }
                    }
                }
            }
            let v = match self.deserialize_string() {
                Ok(v) => v,
                Err(e) => {
                    proof {
                        assert(f(b, pos_it, hint) == p_string(b, pos_it, hint));
                    }
                    return Err(e);
                },
            };
            let ghost pos_v = self.pos as int;
            let ghost gout0 = gout;
            proof {
                lemma_strings_match_push(gout, out@, v);
                gout = gout.push(v@);
            }
            out.push(v);
            proof {
                assert(f(b, pos_it, hint) == p_string(b, pos_it, hint));
                crate::wire::lemma_p_string_progress(b, pos_it, hint);
            }
            let ghost acc1 = acc;
            match acc.next_element_end(self) {
                Ok(u) => u,
                Err(e) => {
                    proof {
                        assert(len0 is None && pos_v == b.len() && e == Error::Eof);
                    }
                    return Err(e);
                },
            };
            proof {
                let gv = gout0.push(gout[gout.len() - 1]);
                if len0 is Some {
                    let k = acc1.len.unwrap() as nat;
                    let rest = crate::wire::p_elems_counted(b, pos_v, (k - 1) as nat, ty0, f);
                    assert(crate::wire::p_elems_counted(b, pos_it, k, ty0, f) == match rest {
                        PRes::<Seq<Seq<char>>>::Val(vs, p3) => PRes::<Seq<Seq<char>>>::Val(
                            seq![gout[gout.len() - 1]] + vs,
                            p3,
                        ),
                        PRes::<Seq<Seq<char>>>::Fail(ff) => PRes::<Seq<Seq<char>>>::Fail(ff),
                    });
                    match rest {
                        PRes::<Seq<Seq<char>>>::Val(vs, p3) => {
                            assert(gout0 + (seq![gout[gout.len() - 1]] + vs) =~= gout + vs);
                        },
                        PRes::<Seq<Seq<char>>>::Fail(_) => {},
                    }
                } else {
                    let rest = crate::wire::p_elems_delim(b, pos_v, end, f);
                    assert(crate::wire::p_elems_delim(b, pos_it, end, f) == match rest {
                        PRes::<Seq<Seq<char>>>::Val(vs, p3) => PRes::<Seq<Seq<char>>>::Val(
                            seq![gout[gout.len() - 1]] + vs,
                            p3,
                        ),
                        PRes::<Seq<Seq<char>>>::Fail(ff) => PRes::<Seq<Seq<char>>>::Fail(ff),
                    });
                    match rest {
                        PRes::<Seq<Seq<char>>>::Val(vs, p3) => {
                            assert(gout0 + (seq![gout[gout.len() - 1]] + vs) =~= gout + vs);
                        },
                        PRes::<Seq<Seq<char>>>::Fail(_) => {},
                    }
                    if acc.len == Some(0usize) {
                        assert(byte_marker(b[pos_v]) == Some(Marker::ArrayEnd));
                        assert(byte_marker(end) == Some(Marker::ArrayEnd));
                        assert(b[pos_v] == end) by {
                            crate::marker::lemma_marker_byte_inverse(Marker::ArrayEnd);
                            if b[pos_v] != end {
                                assert(byte_marker(b[pos_v]) == Some(Marker::ArrayEnd));
                            }
                        }
                        assert(rest == PRes::<Seq<Seq<char>>>::Val(
                            Seq::<Seq<char>>::empty(),
                            pos_v + 1,
                        ));
                        assert(gout + Seq::<Seq<char>>::empty() =~= gout);
                    } else {
                        assert(self.pos as int == pos_v);
                    }
                }
            }
        }
        Ok(out)
    }
}

impl Deserializer {
    /// A whole map with 8-bit signed values, under any of the three framings.
    /// Keys are strings; entries come back in wire order.
    pub fn deserialize_i8_map(&mut self) -> (r: Result<Vec<(String, i8)>, Error>)
        requires
            old(self).wf(),
            old(self).of_type is None,
        ensures
            final(self).wf(),
            final(self).bytes == old(self).bytes,
            match r {
                Ok(v) => (crate::wire::p_i8_map(old(self).bytes@, old(self).pos as int)
                    matches PRes::Val(es, p) && entries_match(es, v@) && final(self).pos == p)
                    && final(self).of_type is None,
                Err(e) => crate::wire::p_i8_map(old(self).bytes@, old(self).pos as int)
                    == PRes::<Seq<(Seq<char>, i8)>>::Fail(e@),
            },
    {
        let ghost b = self.bytes@;
        let ghost total = crate::wire::p_i8_map(b, old(self).pos as int);
        let ghost f = crate::wire::p_i8_elem();
        let mut acc = self.deserialize_map()?;
        let ghost len0 = acc.len;
        let ghost ty0 = acc.of_type;
        let mut out: Vec<(String, i8)> = Vec::new();
        let ghost mut gout: Seq<(Seq<char>, i8)> = Seq::empty();
        let mut done = false;
        #[verifier::loop_isolation(false)]
        while !done
            invariant
                self.wf(),
                self.bytes == old(self).bytes,
                self.bytes@ == b,
                self.of_type is None,
                acc.of_type == ty0,
                acc.trailer == (if len0 is Some {
                    None::<Marker>
                } else {
                    Some(Marker::ObjectEnd)
                }),
                entries_match(gout, out@),
                done ==> total == PRes::<Seq<(Seq<char>, i8)>>::Val(gout, self.pos as int),
                !done ==> (match len0 {
                    Some(_) => acc.len matches Some(k) && total == crate::wire::p_cont(
                        crate::wire::p_entries_counted(b, self.pos as int, k as nat, ty0, f),
                        gout,
                    ),
                    None => (acc.len is None && total == crate::wire::p_cont(
                        crate::wire::p_entries_delim(b, self.pos as int, f),
                        gout,
                    )) || (acc.len == Some(0usize) && total == PRes::<
                        Seq<(Seq<char>, i8)>,
                    >::Val(gout, self.pos as int)),
                }),
            decreases (b.len() - self.pos) + (match acc.len {
                Some(k) => k as int,
                None => 1int,
            }) + (if done {
                0int
            } else {
                1int
            }),
        {
            let ghost pos_it = self.pos as int;
            let ghost acc_it = acc;
            let ghost endb = marker_byte(Marker::ObjectEnd);
            let keyopt = match acc.next_key(self) {
                Ok(o) => o,
                Err(e) => {
                    proof {
                        if len0 is None && acc_it.len is None {
                            crate::marker::lemma_marker_byte_inverse(Marker::ObjectEnd);
                            if (p_marker(b, pos_it) matches PRes::Val(m, p)) {
                                assert(b[pos_it] != endb);
                                crate::wire::lemma_p_string_progress(
                                    b,
                                    pos_it,
                                    Some(Marker::String),
                                );
                            }
                        }
                    }
                    return Err(e);
                },
            };
            let key = match keyopt {
                Some(k) => k,
                None => {
                    proof {
                        if len0 is Some {
                            assert(gout + Seq::<(Seq<char>, i8)>::empty() =~= gout);
                        } else if acc_it.len is None {
                            crate::marker::lemma_marker_byte_inverse(Marker::ObjectEnd);
                            assert(b[pos_it] == endb);
                            assert(gout + Seq::<(Seq<char>, i8)>::empty() =~= gout);
                        }
                    }
                    done = true;
                    continue ;
                },
            };
            // where the key's bytes ended, before any delimiter was consumed
            let ghost closed = len0 is None && acc.len == Some(0usize);
            let ghost p1 = if closed {
                self.pos as int - 1
            } else {
                self.pos as int
            };
            let ghost hint = ty0;
            proof {
                crate::wire::lemma_p_string_progress(b, pos_it, Some(Marker::String));
                if len0 is None {
                    crate::marker::lemma_marker_byte_inverse(Marker::ObjectEnd);
                    assert(b[pos_it] != endb);
                }
            }
            acc.next_value_begin(self);
            let ghost pos_val = self.pos as int;
            let v = match self.deserialize_i8() {
                Ok(v) => v,
                Err(e) => {
                    proof {
                        assert(f(b, pos_val, hint) == p_i8(b, pos_val, hint));
                    }
                    return Err(e);
                },
            };
            let ghost pos_v = self.pos as int;
            let ghost gout0 = gout;
            let ghost gkey = key@;
            let ghost gval = v;
            proof {
                lemma_entries_match_push(gout, out@, key, v);
                gout = gout.push((gkey, gval));
            }
            out.push((key, v));
            proof {
                assert(f(b, pos_val, hint) == p_i8(b, pos_val, hint));
                crate::wire::lemma_p_i8_progress(b, pos_val, hint);
                if len0 is Some {
                    let k = acc_it.len.unwrap() as nat;
                    let rest = crate::wire::p_entries_counted(b, pos_v, (k - 1) as nat, ty0, f);
                    assert(crate::wire::p_entries_counted(b, pos_it, k, ty0, f) == match rest {
                        PRes::<Seq<(Seq<char>, i8)>>::Val(es, p3) => PRes::<
                            Seq<(Seq<char>, i8)>,
                        >::Val(seq![(gkey, gval)] + es, p3),
                        PRes::<Seq<(Seq<char>, i8)>>::Fail(ff) => PRes::<
                            Seq<(Seq<char>, i8)>,
                        >::Fail(ff),
                    });
                    match rest {
                        PRes::<Seq<(Seq<char>, i8)>>::Val(es, p3) => {
                            assert(gout0 + (seq![(gkey, gval)] + es) =~= gout + es);
                        },
                        PRes::<Seq<(Seq<char>, i8)>>::Fail(_) => {},
                    }
                } else {
                    if closed {
                        assert(crate::wire::p_entries_delim(b, pos_it, f) == PRes::<
                            Seq<(Seq<char>, i8)>,
                        >::Val(seq![(gkey, gval)], pos_v));
                        assert(gout0 + seq![(gkey, gval)] =~= gout);
                    } else {
                        let rest = crate::wire::p_entries_delim(b, pos_v, f);
                        assert(crate::wire::p_entries_delim(b, pos_it, f) == match rest {
                            PRes::<Seq<(Seq<char>, i8)>>::Val(es, p3) => PRes::<
                                Seq<(Seq<char>, i8)>,
                            >::Val(seq![(gkey, gval)] + es, p3),
                            PRes::<Seq<(Seq<char>, i8)>>::Fail(ff) => PRes::<
                                Seq<(Seq<char>, i8)>,
                            >::Fail(ff),
                        });
                        match rest {
                            PRes::<Seq<(Seq<char>, i8)>>::Val(es, p3) => {
                                assert(gout0 + (seq![(gkey, gval)] + es) =~= gout + es);
                            },
                            PRes::<Seq<(Seq<char>, i8)>>::Fail(_) => {},
                        }
                    }
                }
            }
        }
        Ok(out)
    }
}

impl Deserializer {
    /// A whole map with 32-bit signed values, under any of the three framings.
    /// Keys are strings; entries come back in wire order.
    pub fn deserialize_i32_map(&mut self) -> (r: Result<Vec<(String, i32)>, Error>)
        requires
            old(self).wf(),
            old(self).of_type is None,
        ensures
            final(self).wf(),
            final(self).bytes == old(self).bytes,
            match r {
                Ok(v) => (crate::wire::p_i32_map(old(self).bytes@, old(self).pos as int)
                    matches PRes::Val(es, p) && entries_match(es, v@) && final(self).pos == p)
                    && final(self).of_type is None,
                Err(e) => crate::wire::p_i32_map(old(self).bytes@, old(self).pos as int)
                    == PRes::<Seq<(Seq<char>, i32)>>::Fail(e@),
            },
    {
        let ghost b = self.bytes@;
        let ghost total = crate::wire::p_i32_map(b, old(self).pos as int);
        let ghost f = crate::wire::p_i32_elem();
        let mut acc = self.deserialize_map()?;
        let ghost len0 = acc.len;
        let ghost ty0 = acc.of_type;
        let mut out: Vec<(String, i32)> = Vec::new();
        let ghost mut gout: Seq<(Seq<char>, i32)> = Seq::empty();
        let mut done = false;
        #[verifier::loop_isolation(false)]
        while !done
            invariant
                self.wf(),
                self.bytes == old(self).bytes,
                self.bytes@ == b,
                self.of_type is None,
                acc.of_type == ty0,
                acc.trailer == (if len0 is Some {
                    None::<Marker>
                } else {
                    Some(Marker::ObjectEnd)
                }),
                entries_match(gout, out@),
                done ==> total == PRes::<Seq<(Seq<char>, i32)>>::Val(gout, self.pos as int),
                !done ==> (match len0 {
                    Some(_) => acc.len matches Some(k) && total == crate::wire::p_cont(
                        crate::wire::p_entries_counted(b, self.pos as int, k as nat, ty0, f),
                        gout,
                    ),
                    None => (acc.len is None && total == crate::wire::p_cont(
                        crate::wire::p_entries_delim(b, self.pos as int, f),
                        gout,
                    )) || (acc.len == Some(0usize) && total == PRes::<
                        Seq<(Seq<char>, i32)>,
                    >::Val(gout, self.pos as int)),
                }),
            decreases (b.len() - self.pos) + (match acc.len {
                Some(k) => k as int,
                None => 1int,
            }) + (if done {
                0int
            } else {
                1int
            }),
        {
            let ghost pos_it = self.pos as int;
            let ghost acc_it = acc;
            let ghost endb = marker_byte(Marker::ObjectEnd);
            let keyopt = match acc.next_key(self) {
                Ok(o) => o,
                Err(e) => {
                    proof {
                        if len0 is None && acc_it.len is None {
                            crate::marker::lemma_marker_byte_inverse(Marker::ObjectEnd);
                            if (p_marker(b, pos_it) matches PRes::Val(m, p)) {
                                assert(b[pos_it] != endb);
                                crate::wire::lemma_p_string_progress(
                                    b,
                                    pos_it,
                                    Some(Marker::String),
                                );
                            }
                        }
                    }
                    return Err(e);
                },
            };
            let key = match keyopt {
                Some(k) => k,
                None => {
                    proof {
                        if len0 is Some {
                            assert(gout + Seq::<(Seq<char>, i32)>::empty() =~= gout);
                        } else if acc_it.len is None {
                            crate::marker::lemma_marker_byte_inverse(Marker::ObjectEnd);
                            assert(b[pos_it] == endb);
                            assert(gout + Seq::<(Seq<char>, i32)>::empty() =~= gout);
                        }
                    }
                    done = true;
                    continue ;
                },
            };
            // where the key's bytes ended, before any delimiter was consumed
            let ghost closed = len0 is None && acc.len == Some(0usize);
            let ghost p1 = if closed {
                self.pos as int - 1
            } else {
                self.pos as int
            };
            let ghost hint = ty0;
            proof {
                crate::wire::lemma_p_string_progress(b, pos_it, Some(Marker::String));
                if len0 is None {
                    crate::marker::lemma_marker_byte_inverse(Marker::ObjectEnd);
                    assert(b[pos_it] != endb);
                }
            }
            acc.next_value_begin(self);
            let ghost pos_val = self.pos as int;
            let v = match self.deserialize_i32() {
                Ok(v) => v,
                Err(e) => {
                    proof {
                        assert(f(b, pos_val, hint) == p_i32(b, pos_val, hint));
                    }
                    return Err(e);
                },
            };
            let ghost pos_v = self.pos as int;
            let ghost gout0 = gout;
            let ghost gkey = key@;
            let ghost gval = v;
            proof {
                lemma_entries_match_push(gout, out@, key, v);
                gout = gout.push((gkey, gval));
            }
            out.push((key, v));
            proof {
                assert(f(b, pos_val, hint) == p_i32(b, pos_val, hint));
                crate::wire::lemma_p_i32_progress(b, pos_val, hint);
                if len0 is Some {
                    let k = acc_it.len.unwrap() as nat;
                    let rest = crate::wire::p_entries_counted(b, pos_v, (k - 1) as nat, ty0, f);
                    assert(crate::wire::p_entries_counted(b, pos_it, k, ty0, f) == match rest {
                        PRes::<Seq<(Seq<char>, i32)>>::Val(es, p3) => PRes::<
                            Seq<(Seq<char>, i32)>,
                        >::Val(seq![(gkey, gval)] + es, p3),
                        PRes::<Seq<(Seq<char>, i32)>>::Fail(ff) => PRes::<
                            Seq<(Seq<char>, i32)>,
                        >::Fail(ff),
                    });
                    match rest {
                        PRes::<Seq<(Seq<char>, i32)>>::Val(es, p3) => {
                            assert(gout0 + (seq![(gkey, gval)] + es) =~= gout + es);
                        },
                        PRes::<Seq<(Seq<char>, i32)>>::Fail(_) => {},
                    }
                } else {
                    if closed {
                        assert(crate::wire::p_entries_delim(b, pos_it, f) == PRes::<
                            Seq<(Seq<char>, i32)>,
                        >::Val(seq![(gkey, gval)], pos_v));
                        assert(gout0 + seq![(gkey, gval)] =~= gout);
                    } else {
                        let rest = crate::wire::p_entries_delim(b, pos_v, f);
                        assert(crate::wire::p_entries_delim(b, pos_it, f) == match rest {
                            PRes::<Seq<(Seq<char>, i32)>>::Val(es, p3) => PRes::<
                                Seq<(Seq<char>, i32)>,
                            >::Val(seq![(gkey, gval)] + es, p3),
                            PRes::<Seq<(Seq<char>, i32)>>::Fail(ff) => PRes::<
                                Seq<(Seq<char>, i32)>,
                            >::Fail(ff),
                        });
                        match rest {
                            PRes::<Seq<(Seq<char>, i32)>>::Val(es, p3) => {
                                assert(gout0 + (seq![(gkey, gval)] + es) =~= gout + es);
                            },
                            PRes::<Seq<(Seq<char>, i32)>>::Fail(_) => {},
                        }
                    }
                }
            }
        }
        Ok(out)
    }
}

impl Deserializer {
    /// A whole map with string values, under any of the three framings.
    /// Keys are strings; entries come back in wire order.
    pub fn deserialize_string_map(&mut self) -> (r: Result<Vec<(String, String)>, Error>)
        requires
            old(self).wf(),
            old(self).of_type is None,
        ensures
            final(self).wf(),
            final(self).bytes == old(self).bytes,
            match r {
                Ok(v) => (crate::wire::p_string_map(old(self).bytes@, old(self).pos as int)
                    matches PRes::Val(es, p) && str_entries_match(es, v@) && final(self).pos == p)
                    && final(self).of_type is None,
                Err(e) => crate::wire::p_string_map(old(self).bytes@, old(self).pos as int)
                    == PRes::<Seq<(Seq<char>, Seq<char>)>>::Fail(e@),
            },
    {
        let ghost b = self.bytes@;
        let ghost total = crate::wire::p_string_map(b, old(self).pos as int);
        let ghost f = crate::wire::p_string_elem();
        let mut acc = self.deserialize_map()?;
        let ghost len0 = acc.len;
        let ghost ty0 = acc.of_type;
        let mut out: Vec<(String, String)> = Vec::new();
        let ghost mut gout: Seq<(Seq<char>, Seq<char>)> = Seq::empty();
        let mut done = false;
        #[verifier::loop_isolation(false)]
        while !done
            invariant
                self.wf(),
                self.bytes == old(self).bytes,
                self.bytes@ == b,
                self.of_type is None,
                acc.of_type == ty0,
                acc.trailer == (if len0 is Some {
                    None::<Marker>
                } else {
                    Some(Marker::ObjectEnd)
                }),
                str_entries_match(gout, out@),
                done ==> total == PRes::<Seq<(Seq<char>, Seq<char>)>>::Val(gout, self.pos as int),
                !done ==> (match len0 {
                    Some(_) => acc.len matches Some(k) && total == crate::wire::p_cont(
                        crate::wire::p_entries_counted(b, self.pos as int, k as nat, ty0, f),
                        gout,
                    ),
                    None => (acc.len is None && total == crate::wire::p_cont(
                        crate::wire::p_entries_delim(b, self.pos as int, f),
                        gout,
                    )) || (acc.len == Some(0usize) && total == PRes::<
                        Seq<(Seq<char>, Seq<char>)>,
                    >::Val(gout, self.pos as int)),
                }),
            decreases (b.len() - self.pos) + (match acc.len {
                Some(k) => k as int,
                None => 1int,
            }) + (if done {
                0int
            } else {
                1int
            }),
        {
            let ghost pos_it = self.pos as int;
            let ghost acc_it = acc;
            let ghost endb = marker_byte(Marker::ObjectEnd);
            let keyopt = match acc.next_key(self) {
                Ok(o) => o,
                Err(e) => {
                    proof {
                        if len0 is None && acc_it.len is None {
                            crate::marker::lemma_marker_byte_inverse(Marker::ObjectEnd);
                            if (p_marker(b, pos_it) matches PRes::Val(m, p)) {
                                assert(b[pos_it] != endb);
                                crate::wire::lemma_p_string_progress(
                                    b,
                                    pos_it,
                                    Some(Marker::String),
                                );
                            }
                        }
                    }
                    return Err(e);
                },
            };
            let key = match keyopt {
                Some(k) => k,
                None => {
                    proof {
                        if len0 is Some {
                            assert(gout + Seq::<(Seq<char>, Seq<char>)>::empty() =~= gout);
                        } else if acc_it.len is None {
                            crate::marker::lemma_marker_byte_inverse(Marker::ObjectEnd);
                            assert(b[pos_it] == endb);
                            assert(gout + Seq::<(Seq<char>, Seq<char>)>::empty() =~= gout);
                        }
                    }
                    done = true;
                    continue ;
                },
            };
            // where the key's bytes ended, before any delimiter was consumed
            let ghost closed = len0 is None && acc.len == Some(0usize);
            let ghost p1 = if closed {
                self.pos as int - 1
            } else {
                self.pos as int
            };
            let ghost hint = ty0;
            proof {
                crate::wire::lemma_p_string_progress(b, pos_it, Some(Marker::String));
                if len0 is None {
                    crate::marker::lemma_marker_byte_inverse(Marker::ObjectEnd);
                    assert(b[pos_it] != endb);
                }
            }
            acc.next_value_begin(self);
            let ghost pos_val = self.pos as int;
            let v = match self.deserialize_string() {
                Ok(v) => v,
                Err(e) => {
                    proof {
                        assert(f(b, pos_val, hint) == p_string(b, pos_val, hint));
                    }
                    return Err(e);
                },
            };
            let ghost pos_v = self.pos as int;
            let ghost gout0 = gout;
            let ghost gkey = key@;
            let ghost gval = v@;
            proof {
                lemma_str_entries_match_push(gout, out@, key, v);
                gout = gout.push((gkey, gval));
            }
            out.push((key, v));
            proof {
                assert(f(b, pos_val, hint) == p_string(b, pos_val, hint));
                crate::wire::lemma_p_string_progress(b, pos_val, hint);
                if len0 is Some {
                    let k = acc_it.len.unwrap() as nat;
                    let rest = crate::wire::p_entries_counted(b, pos_v, (k - 1) as nat, ty0, f);
                    assert(crate::wire::p_entries_counted(b, pos_it, k, ty0, f) == match rest {
                        PRes::<Seq<(Seq<char>, Seq<char>)>>::Val(es, p3) => PRes::<
                            Seq<(Seq<char>, Seq<char>)>,
                        >::Val(seq![(gkey, gval)] + es, p3),
                        PRes::<Seq<(Seq<char>, Seq<char>)>>::Fail(ff) => PRes::<
                            Seq<(Seq<char>, Seq<char>)>,
                        >::Fail(ff),
                    });
                    match rest {
                        PRes::<Seq<(Seq<char>, Seq<char>)>>::Val(es, p3) => {
                            assert(gout0 + (seq![(gkey, gval)] + es) =~= gout + es);
                        },
                        PRes::<Seq<(Seq<char>, Seq<char>)>>::Fail(_) => {},
                    }
                } else {
                    if closed {
                        assert(crate::wire::p_entries_delim(b, pos_it, f) == PRes::<
                            Seq<(Seq<char>, Seq<char>)>,
                        >::Val(seq![(gkey, gval)], pos_v));
                        assert(gout0 + seq![(gkey, gval)] =~= gout);
                    } else {
                        let rest = crate::wire::p_entries_delim(b, pos_v, f);
                        assert(crate::wire::p_entries_delim(b, pos_it, f) == match rest {
                            PRes::<Seq<(Seq<char>, Seq<char>)>>::Val(es, p3) => PRes::<
                                Seq<(Seq<char>, Seq<char>)>,
                            >::Val(seq![(gkey, gval)] + es, p3),
                            PRes::<Seq<(Seq<char>, Seq<char>)>>::Fail(ff) => PRes::<
                                Seq<(Seq<char>, Seq<char>)>,
                            >::Fail(ff),
                        });
                        match rest {
                            PRes::<Seq<(Seq<char>, Seq<char>)>>::Val(es, p3) => {
                                assert(gout0 + (seq![(gkey, gval)] + es) =~= gout + es);
                            },
                            PRes::<Seq<(Seq<char>, Seq<char>)>>::Fail(_) => {},
                        }
                    }
                }
            }
        }
        Ok(out)
    }
}

/// The head of a decoded tagged-union value: a bare name, or the opened
/// one-entry object form with its name and whether a count was declared.
pub enum VariantHead {
    Unit(String),
    Entry { name: String, counted: bool },
}

/// Whether a decoded variant head carries exactly what the parsed shape
/// says.
pub open spec fn head_matches(h: &VariantHead, s: crate::wire::VariantShape) -> bool {
    match s {
        crate::wire::VariantShape::Bare(nm) => h matches VariantHead::Unit(n) && n@ == nm,
        crate::wire::VariantShape::Entry { name: nm, counted: c } => h matches VariantHead::Entry {
            name: n,
            counted: cc,
        } && n@ == nm && cc == c,
    }
}

/// The sequence traversal: the remaining count if one was declared, the
/// shared element type if one was declared, and the delimiter to watch for
/// when no count bounds the elements.
pub struct ArrayAccess {
    pub len: Option<usize>,
    pub of_type: Option<Marker>,
    pub trailer: Option<Marker>,
}

impl ArrayAccess {
    /// Prepares the next element. `false` means the container is exhausted:
    /// either the count has run out, or the delimiter was found (and then
    /// consumed). `true` means an element follows, with the shared type
    /// hint, if any, installed for it.
    pub fn next_element_begin(&mut self, de: &mut Deserializer) -> (r: Result<bool, Error>)
        requires
            old(de).wf(),
        ensures
            final(de).wf(),
            final(de).bytes == old(de).bytes,
            final(self).of_type == old(self).of_type,
            final(self).trailer == old(self).trailer,
            match old(self).len {
                Some(k) => {
                    if k == 0 {
                        r == Ok::<bool, Error>(false) && *final(self) == *old(self) && *final(de) == *old(de)
                    } else {
                        r == Ok::<bool, Error>(true) && *final(self) == *old(self) && final(de).pos
                            == old(de).pos && final(de).of_type == old(self).of_type
                    }
                },
                None => match old(self).trailer {
                    Some(t) => match p_marker(old(de).bytes@, old(de).pos as int) {
                        PRes::Val(m, p) => {
                            if m == t {
                                r == Ok::<bool, Error>(false) && final(self).len == Some(0usize)
                                    && final(de).pos == p && final(de).of_type == old(de).of_type
                            } else {
                                r == Ok::<bool, Error>(true) && *final(self) == *old(self)
                                    && *final(de) == *old(de)
                            }
                        },
                        PRes::Fail(f) => (r matches Err(e) && e@ == f) && *final(self) == *old(self) && *final(de) == *old(de),
                    },
                    None => r == Ok::<bool, Error>(true) && *final(self) == *old(self) && *final(de) == *old(de),
                },
            },
    {
        match self.len {
            Some(k) => {
                if k == 0 {
                    Ok(false)
                } else {
                    de.of_type = self.of_type;
                    Ok(true)
                }
            },
            None => {
                if let Some(t) = self.trailer {
                    let m = de.peek_marker()?;
                    if m == t {
                        let _ = de.read_marker();
                        self.len = Some(0);
                        Ok(false)
                    } else {
                        Ok(true)
                    }
                } else {
                    Ok(true)
                }
            },
        }
    }

    /// Books the element just read: a declared count is decremented; in
    /// delimited framing, a delimiter standing right after the element is
    /// consumed at once, tolerating producers that close a counted
    /// container redundantly, and the end of input right after an element
    /// is a failure, since the delimiter is still owed.
    pub fn next_element_end(&mut self, de: &mut Deserializer) -> (r: Result<(), Error>)
        requires
            old(de).wf(),
            old(self).len matches Some(k) ==> k >= 1,
        ensures
            final(de).wf(),
            final(de).bytes == old(de).bytes,
            final(self).of_type == old(self).of_type,
            final(self).trailer == old(self).trailer,
            match old(self).len {
                Some(k) => {
                    if k > 1 || old(self).trailer is None {
                        r == Ok::<(), Error>(()) && final(self).len == Some((k - 1) as usize)
                            && *final(de) == *old(de)
                    } else {
                        match p_marker(old(de).bytes@, old(de).pos as int) {
                            PRes::Val(m, p) => r == Ok::<(), Error>(()) && final(self).len == Some(
                                0usize,
                            ) && (if m == old(self).trailer.unwrap() {
                                final(de).pos == p && final(de).of_type == old(de).of_type
                            } else {
                                *final(de) == *old(de)
                            }),
                            PRes::Fail(f) => (r matches Err(e) && e@ == f),
                        }
                    }
                },
                None => match old(self).trailer {
                    Some(t) => {
                        if old(de).pos == old(de).bytes@.len() {
                            (r matches Err(e) && e == Error::Eof) && *final(de) == *old(de)
                                && *final(self) == *old(self)
                        } else {
                            r == Ok::<(), Error>(()) && (if byte_marker(
                                old(de).bytes@[old(de).pos as int],
                            ) == Some(t) {
                                final(self).len == Some(0usize) && final(de).pos == old(de).pos + 1
                                    && final(de).of_type == old(de).of_type
                            } else {
                                *final(self) == *old(self) && *final(de) == *old(de)
                            })
                        }
                    },
                    None => r == Ok::<(), Error>(()) && *final(self) == *old(self) && *final(de)
                        == *old(de),
                },
            },
    {
        match self.len {
            Some(k) => {
                self.len = Some(k - 1);
                if k == 1 {
                    if let Some(t) = self.trailer {
                        let m = de.peek_marker()?;
                        if m == t {
                            let _ = de.read_marker();
                            self.len = Some(0);
                        }
                    }
                }
                Ok(())
            },
            None => {
                if let Some(t) = self.trailer {
                    let b = de.peek_byte()?;
                    match Marker::from_byte(b) {
                        Ok(m) => {
                            if m == t {
                                let _ = de.read_marker();
                                self.len = Some(0);
                            }
                        },
                        Err(_) => {},
                    }
                }
                Ok(())
            },
        }
    }
}

/// The map traversal: as the sequence traversal, except that every key is
/// read as a string, without its own marker, whatever element type the
/// container declared; the declared type governs values only.
pub struct ObjectAccess {
    pub len: Option<usize>,
    pub of_type: Option<Marker>,
    pub trailer: Option<Marker>,
}

impl ObjectAccess {
    /// Reads the next entry's key, or reports the container exhausted. In
    /// delimited framing a delimiter found right after the key is consumed
    /// at once, as for sequence elements; the entry's value is still owed
    /// and read next.
    pub fn next_key(&mut self, de: &mut Deserializer) -> (r: Result<Option<String>, Error>)
        requires
            old(de).wf(),
        ensures
            final(de).wf(),
            final(de).bytes == old(de).bytes,
            final(self).of_type == old(self).of_type,
            final(self).trailer == old(self).trailer,
            match old(self).len {
                Some(k) => {
                    if k == 0 {
                        (r matches Ok(o) && o is None) && *final(self) == *old(self) && *final(de) == *old(de)
                    } else {
                        match p_string(old(de).bytes@, old(de).pos as int, Some(Marker::String)) {
                            PRes::Val(s, p1) => {
                                if k > 1 || old(self).trailer is None {
                                    (r matches Ok(o) && o matches Some(key) && key@ == s) && final(de).pos == p1 && final(de).of_type is None && final(self).len
                                        == Some((k - 1) as usize)
                                } else {
                                    match p_marker(old(de).bytes@, p1) {
                                        PRes::Val(m, p2) => (r matches Ok(o) && o matches Some(key)
                                            && key@ == s) && final(self).len == Some(0usize)
                                            && final(de).of_type is None && (if m == old(self).trailer.unwrap() {
                                            final(de).pos == p2
                                        } else {
                                            final(de).pos == p1
                                        }),
                                        PRes::Fail(f) => (r matches Err(e) && e@ == f),
                                    }
                                }
                            },
                            PRes::Fail(f) => (r matches Err(e) && e@ == f),
                        }
                    }
                },
                None => match old(self).trailer {
                    Some(t) => match p_marker(old(de).bytes@, old(de).pos as int) {
                        PRes::Val(m, p) => {
                            if m == t {
                                (r matches Ok(o) && o is None) && final(self).len == Some(0usize)
                                    && final(de).pos == p && final(de).of_type == old(de).of_type
                            } else {
                                match p_string(
                                    old(de).bytes@,
                                    old(de).pos as int,
                                    Some(Marker::String),
                                ) {
                                    PRes::Val(s, p1) => {
                                        if p1 == old(de).bytes@.len() {
                                            (r matches Err(e) && e == Error::Eof) && final(de).pos
                                                == p1
                                        } else {
                                            (r matches Ok(o) && o matches Some(key) && key@ == s)
                                                && final(de).of_type is None && (if byte_marker(
                                                old(de).bytes@[p1],
                                            ) == Some(t) {
                                                final(self).len == Some(0usize) && final(de).pos
                                                    == p1 + 1
                                            } else {
                                                final(self).len == old(self).len && final(de).pos
                                                    == p1
                                            })
                                        }
                                    },
                                    PRes::Fail(f) => (r matches Err(e) && e@ == f),
                                }
                            }
                        },
                        PRes::Fail(f) => (r matches Err(e) && e@ == f) && *final(self) == *old(self) && *final(de) == *old(de),
                    },
                    None => match p_string(old(de).bytes@, old(de).pos as int, Some(Marker::String)) {
                        PRes::Val(s, p1) => (r matches Ok(o) && o matches Some(key) && key@ == s)
                            && final(de).pos == p1 && final(de).of_type is None && *final(self)
                            == *old(self),
                        PRes::Fail(f) => (r matches Err(e) && e@ == f),
                    },
                },
            },
    {
        match self.len {
            Some(k) => {
                if k == 0 {
                    return Ok(None);
                }
                de.of_type = Some(Marker::String);
                let key = de.deserialize_string()?;
                self.len = Some(k - 1);
                if k == 1 {
                    if let Some(t) = self.trailer {
                        let m = de.peek_marker()?;
                        if m == t {
                            let _ = de.read_marker();
                            self.len = Some(0);
                        }
                    }
                }
                Ok(Some(key))
            },
            None => {
                if let Some(t) = self.trailer {
                    let m = de.peek_marker()?;
                    if m == t {
                        let _ = de.read_marker();
                        self.len = Some(0);
                        return Ok(None);
                    }
                }
                de.of_type = Some(Marker::String);
                let key = de.deserialize_string()?;
                if let Some(t) = self.trailer {
                    let b = de.peek_byte()?;
                    match Marker::from_byte(b) {
                        Ok(m) => {
                            if m == t {
                                let _ = de.read_marker();
                                self.len = Some(0);
                            }
                        },
                        Err(_) => {},
                    }
                }
                Ok(Some(key))
            },
        }
    }

    /// Prepares the entry's value: the container's declared type, if any,
    /// is installed as the pending hint for it.
    pub fn next_value_begin(&self, de: &mut Deserializer)
        ensures
            final(de).bytes == old(de).bytes,
            final(de).pos == old(de).pos,
            final(de).of_type == self.of_type,
    {
        de.of_type = self.of_type;
    }
}

/// Relies on String::from_utf8: it returns the string whose UTF-8 encoding
/// is the input exactly when the input is valid UTF-8, and refuses anything
/// else.
#[verifier::external_body]
fn bytes_to_string(v: Vec<u8>) -> (r: Option<String>)
    ensures
        match r {
            Some(s) => valid_utf8(v@) && s@ == decode_utf8(v@),
            None => !valid_utf8(v@),
        },
{
    match String::from_utf8(v) {
        Ok(s) => Some(s),
        Err(_) => None,
    }
}

} // verus!
