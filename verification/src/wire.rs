//! The wire grammar, stated as specification functions.
//!
//! `enc_*` functions give the exact byte sequence the encoder owes for a
//! value; `p_*` functions give the exact outcome the decoder owes on a byte
//! stream: either the value and the position just past its encoding, or the
//! failure it reports. The executable encoder and decoder are verified
//! against these functions; the round-trip and widening laws are proved
//! from them alone.

use vstd::prelude::*;
use vstd::utf8::{encode_utf8, decode_utf8, valid_utf8};

use crate::error::Fail;
use crate::marker::{Marker, marker_byte, byte_marker};

verus! {

// ---------------------------------------------------------------------------
// Big-endian byte strings
// ---------------------------------------------------------------------------

/// The two big-endian bytes of a 16-bit value.
pub open spec fn be16(v: u16) -> Seq<u8> {
    seq![(v >> 8) as u8, v as u8]
}

/// The four big-endian bytes of a 32-bit value.
pub open spec fn be32(v: u32) -> Seq<u8> {
    seq![(v >> 24) as u8, (v >> 16) as u8, (v >> 8) as u8, v as u8]
}

/// The eight big-endian bytes of a 64-bit value.
pub open spec fn be64(v: u64) -> Seq<u8> {
    seq![
        (v >> 56) as u8,
        (v >> 48) as u8,
        (v >> 40) as u8,
        (v >> 32) as u8,
        (v >> 24) as u8,
        (v >> 16) as u8,
        (v >> 8) as u8,
        v as u8,
    ]
}

/// The 16-bit value two big-endian bytes stand for.
pub open spec fn be16_val(b0: u8, b1: u8) -> u16 {
    ((b0 as u16) << 8) | (b1 as u16)
}

/// The 32-bit value four big-endian bytes stand for.
pub open spec fn be32_val(b0: u8, b1: u8, b2: u8, b3: u8) -> u32 {
    ((b0 as u32) << 24) | ((b1 as u32) << 16) | ((b2 as u32) << 8) | (b3 as u32)
}

/// The 64-bit value eight big-endian bytes stand for.
pub open spec fn be64_val(b0: u8, b1: u8, b2: u8, b3: u8, b4: u8, b5: u8, b6: u8, b7: u8) -> u64 {
    ((b0 as u64) << 56) | ((b1 as u64) << 48) | ((b2 as u64) << 40) | ((b3 as u64) << 32)
        | ((b4 as u64) << 24) | ((b5 as u64) << 16) | ((b6 as u64) << 8) | (b7 as u64)
}

/// Reading back the two big-endian bytes of a value yields the value.
pub proof fn lemma_be16_roundtrip(v: u16)
    ensures
        be16_val(be16(v)[0], be16(v)[1]) == v,
{
    assert((((v >> 8) as u8 as u16) << 8) | (v as u8 as u16) == v) by (bit_vector);
}

/// Reading back the four big-endian bytes of a value yields the value.
pub proof fn lemma_be32_roundtrip(v: u32)
    ensures
        be32_val(be32(v)[0], be32(v)[1], be32(v)[2], be32(v)[3]) == v,
{
    assert((((v >> 24) as u8 as u32) << 24) | (((v >> 16) as u8 as u32) << 16)
        | (((v >> 8) as u8 as u32) << 8) | (v as u8 as u32) == v) by (bit_vector);
}

/// Reading back the eight big-endian bytes of a value yields the value.
pub proof fn lemma_be64_roundtrip(v: u64)
    ensures
        be64_val(
            be64(v)[0], be64(v)[1], be64(v)[2], be64(v)[3],
            be64(v)[4], be64(v)[5], be64(v)[6], be64(v)[7],
        ) == v,
{
    assert((((v >> 56) as u8 as u64) << 56) | (((v >> 48) as u8 as u64) << 48)
        | (((v >> 40) as u8 as u64) << 40) | (((v >> 32) as u8 as u64) << 32)
        | (((v >> 24) as u8 as u64) << 24) | (((v >> 16) as u8 as u64) << 16)
        | (((v >> 8) as u8 as u64) << 8) | (v as u8 as u64) == v) by (bit_vector);
}

// ---------------------------------------------------------------------------
// Decimal digit strings (the arbitrary-precision number payload)
// ---------------------------------------------------------------------------

/// The ASCII decimal digits of a number, most significant first.
pub open spec fn dec_digits(n: nat) -> Seq<u8>
    decreases n,
{
    if n < 10 {
        seq![(48 + n) as u8]
    } else {
        dec_digits(n / 10).push((48 + n % 10) as u8)
    }
}

/// Whether every byte is an ASCII decimal digit.
pub open spec fn all_digits(s: Seq<u8>) -> bool {
    forall|i: int| 0 <= i < s.len() ==> 48 <= #[trigger] s[i] <= 57
}

/// The number an ASCII digit string stands for.
pub open spec fn digits_val(s: Seq<u8>) -> int
    decreases s.len(),
{
    if s.len() == 0 {
        0
    } else {
        digits_val(s.drop_last()) * 10 + (s.last() - 48)
    }
}

proof fn lemma_digits_val_single(x: u8)
    ensures
        digits_val(seq![x]) == x - 48,
{
    let s = seq![x];
    assert(s.len() == 1);
    assert(s.last() == x);
    assert(s.drop_last() =~= Seq::<u8>::empty());
    assert(digits_val(s.drop_last()) == 0);
    assert(digits_val(s) == digits_val(s.drop_last()) * 10 + (s.last() - 48));
}

/// The digit string of a number is made of digits and reads back to it.
pub proof fn lemma_dec_digits_val(n: nat)
    ensures
        all_digits(dec_digits(n)),
        digits_val(dec_digits(n)) == n,
        dec_digits(n).len() >= 1,
    decreases n,
{
    if n < 10 {
        assert(dec_digits(n) =~= seq![(48 + n) as u8]);
        assert((48 + n) as u8 == 48 + n);
        lemma_digits_val_single((48 + n) as u8);
    } else {
        lemma_dec_digits_val(n / 10);
        assert(dec_digits(n).drop_last() =~= dec_digits(n / 10));
        assert(dec_digits(n).last() == (48 + n % 10) as u8);
        assert((48 + n % 10) as u8 == 48 + n % 10);
        assert(digits_val(dec_digits(n)) == digits_val(dec_digits(n / 10)) * 10 + (n % 10));
        assert(n / 10 * 10 + n % 10 == n) by {
            vstd::arithmetic::div_mod::lemma_fundamental_div_mod(n as int, 10);
        }
    }
}

/// Extending a digit string can only grow the number it stands for.
pub proof fn lemma_digits_val_prefix(s: Seq<u8>, i: int)
    requires
        all_digits(s),
        0 <= i <= s.len(),
    ensures
        0 <= digits_val(s.take(i)) <= digits_val(s),
    decreases s.len() - i,
{
    lemma_digits_val_nonneg(s.take(i));
    if i < s.len() {
        lemma_digits_val_prefix(s, i + 1);
        assert(s.take(i + 1).drop_last() =~= s.take(i));
        assert(digits_val(s.take(i + 1)) == digits_val(s.take(i)) * 10 + (s[i] - 48));
    } else {
        assert(s.take(i) =~= s);
    }
}

/// A digit string never stands for a negative number.
pub proof fn lemma_digits_val_nonneg(s: Seq<u8>)
    requires
        all_digits(s),
    ensures
        digits_val(s) >= 0,
    decreases s.len(),
{
    if s.len() > 0 {
        assert(all_digits(s.drop_last()));
        lemma_digits_val_nonneg(s.drop_last());
    }
}

// ---------------------------------------------------------------------------
// Encodings: the exact bytes the encoder owes
// ---------------------------------------------------------------------------

/// The one-byte encoding of a marker.
pub open spec fn enc_marker(m: Marker) -> Seq<u8> {
    seq![marker_byte(m)]
}

pub open spec fn enc_bool(v: bool) -> Seq<u8> {
    if v {
        enc_marker(Marker::True)
    } else {
        enc_marker(Marker::False)
    }
}

pub open spec fn enc_u8(v: u8) -> Seq<u8> {
    enc_marker(Marker::U8) + seq![v]
}

pub open spec fn enc_i8(v: i8) -> Seq<u8> {
    enc_marker(Marker::I8) + seq![v as u8]
}

pub open spec fn enc_i16(v: i16) -> Seq<u8> {
    enc_marker(Marker::I16) + be16(v as u16)
}

pub open spec fn enc_i32(v: i32) -> Seq<u8> {
    enc_marker(Marker::I32) + be32(v as u32)
}

pub open spec fn enc_i64(v: i64) -> Seq<u8> {
    enc_marker(Marker::I64) + be64(v as u64)
}

/// A length field: the encoder always writes lengths as a 64-bit signed
/// integer value.
pub open spec fn enc_len(n: int) -> Seq<u8> {
    enc_i64(n as i64)
}

/// A string in value position: string marker, byte length, UTF-8 bytes.
pub open spec fn enc_str_value(s: Seq<char>) -> Seq<u8> {
    enc_marker(Marker::String) + enc_len(encode_utf8(s).len() as int) + encode_utf8(s)
}

/// A string in key position: as in value position but without the marker,
/// since an object key is known to be a string by its place in the grammar.
pub open spec fn enc_str_key(s: Seq<char>) -> Seq<u8> {
    enc_len(encode_utf8(s).len() as int) + encode_utf8(s)
}

/// An unsigned 64-bit value: no fixed-width marker exists for it, so it is
/// written as the decimal-number marker with a length-prefixed digit string.
pub open spec fn enc_u64(v: u64) -> Seq<u8> {
    enc_marker(Marker::Number) + enc_len(dec_digits(v as nat).len() as int) + dec_digits(v as nat)
}

pub open spec fn enc_null() -> Seq<u8> {
    enc_marker(Marker::Null)
}

/// The elements of a raw byte sequence, each written as an 8-bit unsigned
/// value with its own marker.
pub open spec fn enc_u8_elems(s: Seq<u8>) -> Seq<u8>
    decreases s.len(),
{
    if s.len() == 0 {
        seq![]
    } else {
        enc_u8_elems(s.drop_last()) + enc_u8(s.last())
    }
}

/// A raw byte sequence: a counted array of 8-bit unsigned values.
pub open spec fn enc_bytes(s: Seq<u8>) -> Seq<u8> {
    enc_marker(Marker::ArrayStart) + enc_marker(Marker::Length) + enc_len(s.len() as int)
        + enc_u8_elems(s)
}

/// The head of an object-form variant: a one-entry object declaring its
/// count, whose key is the variant's name. The payload follows in value
/// position; no closing delimiter is owed, the count having been declared.
pub open spec fn enc_variant_head(name: Seq<char>) -> Seq<u8> {
    enc_marker(Marker::ObjectStart) + enc_marker(Marker::Length) + enc_len(1) + enc_str_key(name)
}

// ---------------------------------------------------------------------------
// Parses: the exact outcome the decoder owes
// ---------------------------------------------------------------------------

/// The outcome of parsing one item at a position of a byte stream: the item
/// and the position just past it, or the failure reported.
pub enum PRes<T> {
    Val(T, int),
    Fail(Fail),
}

/// One byte of input.
pub open spec fn p_byte(b: Seq<u8>, pos: int) -> PRes<u8> {
    if 0 <= pos < b.len() {
        PRes::Val(b[pos], pos + 1)
    } else {
        PRes::Fail(Fail::Eof)
    }
}

/// One marker byte.
pub open spec fn p_marker(b: Seq<u8>, pos: int) -> PRes<Marker> {
    if 0 <= pos < b.len() {
        match byte_marker(b[pos]) {
            Some(m) => PRes::Val(m, pos + 1),
            None => PRes::Fail(Fail::InvalidMarker),
        }
    } else {
        PRes::Fail(Fail::Eof)
    }
}

/// The marker governing the next value: a pending container type hint if one
/// is set, else a marker byte read from the stream.
pub open spec fn p_step(b: Seq<u8>, pos: int, hint: Option<Marker>) -> PRes<Marker> {
    match hint {
        Some(m) => PRes::Val(m, pos),
        None => p_marker(b, pos),
    }
}

/// `n` raw bytes.
pub open spec fn p_raw(b: Seq<u8>, pos: int, n: int) -> PRes<Seq<u8>> {
    if 0 <= pos && 0 <= n && pos + n <= b.len() {
        PRes::Val(b.subrange(pos, pos + n), pos + n)
    } else {
        PRes::Fail(Fail::Eof)
    }
}

/// A length: one signed integer marker and its payload, sign-extended to a
/// host-width count. A negative length wraps to a count so large that any
/// later read past the end of the input fails.
pub open spec fn p_len(b: Seq<u8>, pos: int) -> PRes<usize> {
    match p_marker(b, pos) {
        PRes::Val(m, p) => {
            if m == Marker::I8 {
                if p + 1 <= b.len() {
                    PRes::Val((b[p] as i8) as usize, p + 1)
                } else {
                    PRes::Fail(Fail::Eof)
                }
            } else if m == Marker::I16 {
                if p + 2 <= b.len() {
                    PRes::Val((be16_val(b[p], b[p + 1]) as i16) as usize, p + 2)
                } else {
                    PRes::Fail(Fail::Eof)
                }
            } else if m == Marker::I32 {
                if p + 4 <= b.len() {
                    PRes::Val((be32_val(b[p], b[p + 1], b[p + 2], b[p + 3]) as i32) as usize, p + 4)
                } else {
                    PRes::Fail(Fail::Eof)
                }
            } else if m == Marker::I64 {
                if p + 8 <= b.len() {
                    PRes::Val(
                        (be64_val(
                            b[p], b[p + 1], b[p + 2], b[p + 3],
                            b[p + 4], b[p + 5], b[p + 6], b[p + 7],
                        ) as i64) as usize,
                        p + 8,
                    )
                } else {
                    PRes::Fail(Fail::Eof)
                }
            } else {
                PRes::Fail(Fail::ExpectedLength)
            }
        },
        PRes::Fail(f) => PRes::Fail(f),
    }
}

/// A string payload without its marker: a length field, that many raw
/// bytes, and the demand that they are valid UTF-8. Object keys are read in
/// exactly this form, their marker being implied by the key position.
pub open spec fn p_str_payload(b: Seq<u8>, pos: int) -> PRes<Seq<char>> {
    match p_len(b, pos) {
        PRes::Val(n, p2) => match p_raw(b, p2, n as int) {
            PRes::Val(bs, p3) => {
                if valid_utf8(bs) {
                    PRes::Val(decode_utf8(bs), p3)
                } else {
                    PRes::Fail(Fail::InvalidString)
                }
            },
            PRes::Fail(f) => PRes::Fail(f),
        },
        PRes::Fail(f) => PRes::Fail(f),
    }
}

/// A boolean value.
pub open spec fn p_bool(b: Seq<u8>, pos: int, hint: Option<Marker>) -> PRes<bool> {
    match p_step(b, pos, hint) {
        PRes::Val(m, p) => {
            if m == Marker::True {
                PRes::Val(true, p)
            } else if m == Marker::False {
                PRes::Val(false, p)
            } else {
                PRes::Fail(Fail::Expected(seq![Marker::True, Marker::False]))
            }
        },
        PRes::Fail(f) => PRes::Fail(f),
    }
}

/// An 8-bit signed value: only the 8-bit marker is accepted.
pub open spec fn p_i8(b: Seq<u8>, pos: int, hint: Option<Marker>) -> PRes<i8> {
    match p_step(b, pos, hint) {
        PRes::Val(m, p) => {
            if m == Marker::I8 {
                if p + 1 <= b.len() {
                    PRes::Val(b[p] as i8, p + 1)
                } else {
                    PRes::Fail(Fail::Eof)
                }
            } else {
                PRes::Fail(Fail::Expected(seq![Marker::I8]))
            }
        },
        PRes::Fail(f) => PRes::Fail(f),
    }
}

/// A 16-bit signed value: the wire value may be 16-bit or any narrower
/// signed width, never wider.
pub open spec fn p_i16(b: Seq<u8>, pos: int, hint: Option<Marker>) -> PRes<i16> {
    match p_step(b, pos, hint) {
        PRes::Val(m, p) => {
            if m == Marker::I16 {
                if p + 2 <= b.len() {
                    PRes::Val(be16_val(b[p], b[p + 1]) as i16, p + 2)
                } else {
                    PRes::Fail(Fail::Eof)
                }
            } else if m == Marker::I8 {
                if p + 1 <= b.len() {
                    PRes::Val((b[p] as i8) as i16, p + 1)
                } else {
                    PRes::Fail(Fail::Eof)
                }
            } else {
                PRes::Fail(Fail::Expected(seq![Marker::I16, Marker::I8]))
            }
        },
        PRes::Fail(f) => PRes::Fail(f),
    }
}

/// A 32-bit signed value, widening from 16-bit or 8-bit wire values.
pub open spec fn p_i32(b: Seq<u8>, pos: int, hint: Option<Marker>) -> PRes<i32> {
    match p_step(b, pos, hint) {
        PRes::Val(m, p) => {
            if m == Marker::I32 {
                if p + 4 <= b.len() {
                    PRes::Val(be32_val(b[p], b[p + 1], b[p + 2], b[p + 3]) as i32, p + 4)
                } else {
                    PRes::Fail(Fail::Eof)
                }
            } else if m == Marker::I16 {
                if p + 2 <= b.len() {
                    PRes::Val((be16_val(b[p], b[p + 1]) as i16) as i32, p + 2)
                } else {
                    PRes::Fail(Fail::Eof)
                }
            } else if m == Marker::I8 {
                if p + 1 <= b.len() {
                    PRes::Val((b[p] as i8) as i32, p + 1)
                } else {
                    PRes::Fail(Fail::Eof)
                }
            } else {
                PRes::Fail(Fail::Expected(seq![Marker::I32, Marker::I16, Marker::I8]))
            }
        },
        PRes::Fail(f) => PRes::Fail(f),
    }
}

/// A 64-bit signed value, widening from any narrower signed wire value.
pub open spec fn p_i64(b: Seq<u8>, pos: int, hint: Option<Marker>) -> PRes<i64> {
    match p_step(b, pos, hint) {
        PRes::Val(m, p) => {
            if m == Marker::I64 {
                if p + 8 <= b.len() {
                    PRes::Val(
                        be64_val(
                            b[p], b[p + 1], b[p + 2], b[p + 3],
                            b[p + 4], b[p + 5], b[p + 6], b[p + 7],
                        ) as i64,
                        p + 8,
                    )
                } else {
                    PRes::Fail(Fail::Eof)
                }
            } else if m == Marker::I32 {
                if p + 4 <= b.len() {
                    PRes::Val((be32_val(b[p], b[p + 1], b[p + 2], b[p + 3]) as i32) as i64, p + 4)
                } else {
                    PRes::Fail(Fail::Eof)
                }
            } else if m == Marker::I16 {
                if p + 2 <= b.len() {
                    PRes::Val((be16_val(b[p], b[p + 1]) as i16) as i64, p + 2)
                } else {
                    PRes::Fail(Fail::Eof)
                }
            } else if m == Marker::I8 {
                if p + 1 <= b.len() {
                    PRes::Val((b[p] as i8) as i64, p + 1)
                } else {
                    PRes::Fail(Fail::Eof)
                }
            } else {
                PRes::Fail(
                    Fail::Expected(seq![Marker::I64, Marker::I32, Marker::I16, Marker::I8]),
                )
            }
        },
        PRes::Fail(f) => PRes::Fail(f),
    }
}

/// An 8-bit unsigned value.
pub open spec fn p_u8(b: Seq<u8>, pos: int, hint: Option<Marker>) -> PRes<u8> {
    match p_step(b, pos, hint) {
        PRes::Val(m, p) => {
            if m == Marker::U8 {
                if p + 1 <= b.len() {
                    PRes::Val(b[p], p + 1)
                } else {
                    PRes::Fail(Fail::Eof)
                }
            } else {
                PRes::Fail(Fail::Expected(seq![Marker::U8]))
            }
        },
        PRes::Fail(f) => PRes::Fail(f),
    }
}

/// A 64-bit unsigned value: either an 8-bit unsigned wire value, or a
/// decimal digit string that names a value no wider than 64 bits.
pub open spec fn p_u64(b: Seq<u8>, pos: int, hint: Option<Marker>) -> PRes<u64> {
    match p_step(b, pos, hint) {
        PRes::Val(m, p) => {
            if m == Marker::U8 {
                if p + 1 <= b.len() {
                    PRes::Val(b[p] as u64, p + 1)
                } else {
                    PRes::Fail(Fail::Eof)
                }
            } else if m == Marker::Number {
                match p_len(b, p) {
                    PRes::Val(n, p2) => match p_raw(b, p2, n as int) {
                        PRes::Val(ds, p3) => {
                            if ds.len() > 0 && all_digits(ds) && digits_val(ds) <= u64::MAX {
                                PRes::Val(digits_val(ds) as u64, p3)
                            } else {
                                PRes::Fail(Fail::InvalidString)
                            }
                        },
                        PRes::Fail(f) => PRes::Fail(f),
                    },
                    PRes::Fail(f) => PRes::Fail(f),
                }
            } else {
                PRes::Fail(Fail::Expected(seq![Marker::Number, Marker::U8]))
            }
        },
        PRes::Fail(f) => PRes::Fail(f),
    }
}

/// A character: either the one-byte character marker, or a string whose
/// payload is exactly one ASCII byte.
pub open spec fn p_char(b: Seq<u8>, pos: int, hint: Option<Marker>) -> PRes<char> {
    match p_step(b, pos, hint) {
        PRes::Val(m, p) => {
            if m == Marker::Char {
                if p + 1 <= b.len() {
                    PRes::Val(b[p] as char, p + 1)
                } else {
                    PRes::Fail(Fail::Eof)
                }
            } else if m == Marker::String {
                match p_len(b, p) {
                    PRes::Val(n, p2) => match p_raw(b, p2, n as int) {
                        PRes::Val(bs, p3) => {
                            if !valid_utf8(bs) {
                                PRes::Fail(Fail::InvalidString)
                            } else if bs.len() == 1 && bs[0] < 128 {
                                PRes::Val(bs[0] as char, p3)
                            } else {
                                PRes::Fail(Fail::InvalidString)
                            }
                        },
                        PRes::Fail(f) => PRes::Fail(f),
                    },
                    PRes::Fail(f) => PRes::Fail(f),
                }
            } else {
                PRes::Fail(Fail::Expected(seq![Marker::Char, Marker::String]))
            }
        },
        PRes::Fail(f) => PRes::Fail(f),
    }
}

/// An owned string: a length-prefixed UTF-8 payload, or a one-byte
/// character read as a one-character string.
pub open spec fn p_string(b: Seq<u8>, pos: int, hint: Option<Marker>) -> PRes<Seq<char>> {
    match p_step(b, pos, hint) {
        PRes::Val(m, p) => {
            if m == Marker::String {
                match p_len(b, p) {
                    PRes::Val(n, p2) => match p_raw(b, p2, n as int) {
                        PRes::Val(bs, p3) => {
                            if valid_utf8(bs) {
                                PRes::Val(decode_utf8(bs), p3)
                            } else {
                                PRes::Fail(Fail::InvalidString)
                            }
                        },
                        PRes::Fail(f) => PRes::Fail(f),
                    },
                    PRes::Fail(f) => PRes::Fail(f),
                }
            } else if m == Marker::Char {
                if p + 1 <= b.len() {
                    PRes::Val(seq![b[p] as char], p + 1)
                } else {
                    PRes::Fail(Fail::Eof)
                }
            } else {
                PRes::Fail(Fail::Expected(seq![Marker::String, Marker::Char]))
            }
        },
        PRes::Fail(f) => PRes::Fail(f),
    }
}

/// A borrowed-style string read: as [`p_string`], except that the one-byte
/// character form must itself be valid UTF-8 (a single ASCII byte).
pub open spec fn p_str(b: Seq<u8>, pos: int, hint: Option<Marker>) -> PRes<Seq<char>> {
    match p_step(b, pos, hint) {
        PRes::Val(m, p) => {
            if m == Marker::String {
                match p_len(b, p) {
                    PRes::Val(n, p2) => match p_raw(b, p2, n as int) {
                        PRes::Val(bs, p3) => {
                            if valid_utf8(bs) {
                                PRes::Val(decode_utf8(bs), p3)
                            } else {
                                PRes::Fail(Fail::InvalidString)
                            }
                        },
                        PRes::Fail(f) => PRes::Fail(f),
                    },
                    PRes::Fail(f) => PRes::Fail(f),
                }
            } else if m == Marker::Char {
                match p_raw(b, p, 1) {
                    PRes::Val(bs, p2) => {
                        if valid_utf8(bs) {
                            PRes::Val(decode_utf8(bs), p2)
                        } else {
                            PRes::Fail(Fail::InvalidString)
                        }
                    },
                    PRes::Fail(f) => PRes::Fail(f),
                }
            } else {
                PRes::Fail(Fail::Expected(seq![Marker::String, Marker::Char]))
            }
        },
        PRes::Fail(f) => PRes::Fail(f),
    }
}

/// A unit value: exactly a null marker. The pending type hint is not
/// consulted here.
pub open spec fn p_unit(b: Seq<u8>, pos: int) -> PRes<()> {
    match p_marker(b, pos) {
        PRes::Val(m, p) => {
            if m == Marker::Null {
                PRes::Val((), p)
            } else {
                PRes::Fail(Fail::Expected(seq![Marker::Null]))
            }
        },
        PRes::Fail(f) => PRes::Fail(f),
    }
}

/// Optional presence: peek for the null marker; consume it for "absent",
/// leave the stream untouched for "present". The boolean is presence.
pub open spec fn p_some(b: Seq<u8>, pos: int) -> PRes<bool> {
    match p_marker(b, pos) {
        PRes::Val(m, p) => {
            if m == Marker::Null {
                PRes::Val(false, p)
            } else {
                PRes::Val(true, pos)
            }
        },
        PRes::Fail(f) => PRes::Fail(f),
    }
}

/// The framing of a container, inspected just inside its start marker:
/// an optional element count and an optional shared element type.
/// The count being present means no closing delimiter follows.
pub open spec fn p_framing(b: Seq<u8>, pos: int) -> PRes<(Option<usize>, Option<Marker>)> {
    match p_marker(b, pos) {
        PRes::Val(m0, _) => {
            if m0 == Marker::OfType {
                match p_marker(b, pos + 1) {
                    PRes::Val(ty, p1) => match p_marker(b, p1) {
                        PRes::Val(m2, p2) => {
                            if m2 == Marker::Length {
                                match p_len(b, p2) {
                                    PRes::Val(n, p3) => PRes::Val((Some(n), Some(ty)), p3),
                                    PRes::Fail(f) => PRes::Fail(f),
                                }
                            } else {
                                PRes::Fail(Fail::Expected(seq![Marker::Length]))
                            }
                        },
                        PRes::Fail(f) => PRes::Fail(f),
                    },
                    PRes::Fail(f) => PRes::Fail(f),
                }
            } else if m0 == Marker::Length {
                match p_len(b, pos + 1) {
                    PRes::Val(n, p1) => PRes::Val((Some(n), None), p1),
                    PRes::Fail(f) => PRes::Fail(f),
                }
            } else {
                PRes::Val((None, None), pos)
            }
        },
        PRes::Fail(f) => PRes::Fail(f),
    }
}

// ---------------------------------------------------------------------------
// Container element streams
// ---------------------------------------------------------------------------

/// Exactly `k` elements, each parsed under the same type hint; no closing
/// delimiter is read.
pub open spec fn p_elems_counted<T>(
    b: Seq<u8>,
    pos: int,
    k: nat,
    hint: Option<Marker>,
    elem: spec_fn(Seq<u8>, int, Option<Marker>) -> PRes<T>,
) -> PRes<Seq<T>>
    decreases k,
{
    if k == 0 {
        PRes::Val(seq![], pos)
    } else {
        match elem(b, pos, hint) {
            PRes::Val(v, p2) => match p_elems_counted(b, p2, (k - 1) as nat, hint, elem) {
                PRes::Val(vs, p3) => PRes::Val(seq![v] + vs, p3),
                PRes::Fail(f) => PRes::Fail(f),
            },
            PRes::Fail(f) => PRes::Fail(f),
        }
    }
}

/// Self-described elements until the closing delimiter byte `end`. Before
/// each element, the next byte is inspected: the delimiter closes the
/// container, a byte outside the grammar is a failure, and the end of input
/// is a failure, so a container that is never closed cannot parse.
pub open spec fn p_elems_delim<T>(
    b: Seq<u8>,
    pos: int,
    end: u8,
    elem: spec_fn(Seq<u8>, int, Option<Marker>) -> PRes<T>,
) -> PRes<Seq<T>>
    decreases b.len() - pos,
{
    if pos < 0 || pos >= b.len() {
        PRes::Fail(Fail::Eof)
    } else if b[pos] == end {
        PRes::Val(seq![], pos + 1)
    } else if byte_marker(b[pos]) is None {
        PRes::Fail(Fail::InvalidMarker)
    } else {
        match elem(b, pos, None) {
            PRes::Val(v, p2) => {
                if pos < p2 <= b.len() {
                    match p_elems_delim(b, p2, end, elem) {
                        PRes::Val(vs, p3) => PRes::Val(seq![v] + vs, p3),
                        PRes::Fail(f) => PRes::Fail(f),
                    }
                } else {
                    PRes::Fail(Fail::Eof)
                }
            },
            PRes::Fail(f) => PRes::Fail(f),
        }
    }
}

/// Exactly `k` key/value entries: each key is a string read without its own
/// marker, each value is parsed under the container's type hint.
pub open spec fn p_entries_counted<T>(
    b: Seq<u8>,
    pos: int,
    k: nat,
    hint: Option<Marker>,
    val: spec_fn(Seq<u8>, int, Option<Marker>) -> PRes<T>,
) -> PRes<Seq<(Seq<char>, T)>>
    decreases k,
{
    if k == 0 {
        PRes::Val(seq![], pos)
    } else {
        match p_string(b, pos, Some(Marker::String)) {
            PRes::Val(key, p1) => match val(b, p1, hint) {
                PRes::Val(v, p2) => match p_entries_counted(b, p2, (k - 1) as nat, hint, val) {
                    PRes::Val(es, p3) => PRes::Val(seq![(key, v)] + es, p3),
                    PRes::Fail(f) => PRes::Fail(f),
                },
                PRes::Fail(f) => PRes::Fail(f),
            },
            PRes::Fail(f) => PRes::Fail(f),
        }
    }
}

/// Self-described key/value entries until the closing object delimiter.
/// After each key, a delimiter byte found where the value's marker belongs
/// is consumed and ends the container once the entry's value has been read:
/// the tolerance for producers that redundantly close containers acts right
/// after each element, and for objects the element checked is the key.
pub open spec fn p_entries_delim<T>(
    b: Seq<u8>,
    pos: int,
    val: spec_fn(Seq<u8>, int, Option<Marker>) -> PRes<T>,
) -> PRes<Seq<(Seq<char>, T)>>
    decreases b.len() - pos,
{
    if pos < 0 || pos >= b.len() {
        PRes::Fail(Fail::Eof)
    } else if b[pos] == marker_byte(Marker::ObjectEnd) {
        PRes::Val(seq![], pos + 1)
    } else if byte_marker(b[pos]) is None {
        PRes::Fail(Fail::InvalidMarker)
    } else {
        match p_string(b, pos, Some(Marker::String)) {
            PRes::Val(key, p1) => {
                if p1 >= b.len() {
                    PRes::Fail(Fail::Eof)
                } else {
                    let closed = b[p1] == marker_byte(Marker::ObjectEnd);
                    let pv = if closed {
                        p1 + 1
                    } else {
                        p1
                    };
                    match val(b, pv, None) {
                        PRes::Val(v, p2) => {
                            if closed {
                                PRes::Val(seq![(key, v)], p2)
                            } else if pos < p1 && pv < p2 <= b.len() {
                                match p_entries_delim(b, p2, val) {
                                    PRes::Val(es, p3) => PRes::Val(seq![(key, v)] + es, p3),
                                    PRes::Fail(f) => PRes::Fail(f),
                                }
                            } else {
                                PRes::Fail(Fail::Eof)
                            }
                        },
                        PRes::Fail(f) => PRes::Fail(f),
                    }
                }
            },
            PRes::Fail(f) => PRes::Fail(f),
        }
    }
}

/// The head of a container: its start marker, then its framing.
pub open spec fn p_container_head(b: Seq<u8>, pos: int, start: Marker) -> PRes<
    (Option<usize>, Option<Marker>),
> {
    match p_marker(b, pos) {
        PRes::Val(m, p) => {
            if m == start {
                p_framing(b, p)
            } else {
                PRes::Fail(Fail::Expected(seq![start]))
            }
        },
        PRes::Fail(f) => PRes::Fail(f),
    }
}

/// Prefixes what a container parse has already produced onto what remains.
pub open spec fn p_cont<T>(r: PRes<Seq<T>>, done: Seq<T>) -> PRes<Seq<T>> {
    match r {
        PRes::Val(vs, p) => PRes::Val(done + vs, p),
        PRes::Fail(f) => PRes::Fail(f),
    }
}

/// The 8-bit signed parse, as a container element.
pub open spec fn p_i8_elem() -> spec_fn(Seq<u8>, int, Option<Marker>) -> PRes<i8> {
    |b: Seq<u8>, p: int, h: Option<Marker>| p_i8(b, p, h)
}

/// The 32-bit signed parse, as a container element.
pub open spec fn p_i32_elem() -> spec_fn(Seq<u8>, int, Option<Marker>) -> PRes<i32> {
    |b: Seq<u8>, p: int, h: Option<Marker>| p_i32(b, p, h)
}

/// The owned-string parse, as a container element.
pub open spec fn p_string_elem() -> spec_fn(Seq<u8>, int, Option<Marker>) -> PRes<Seq<char>> {
    |b: Seq<u8>, p: int, h: Option<Marker>| p_string(b, p, h)
}

/// A whole sequence of 8-bit signed values, under any of the three framings.
pub open spec fn p_i8_seq(b: Seq<u8>, pos: int) -> PRes<Seq<i8>> {
    match p_container_head(b, pos, Marker::ArrayStart) {
        PRes::Val((len, ty), p1) => match len {
            Some(k) => p_elems_counted(b, p1, k as nat, ty, p_i8_elem()),
            None => p_elems_delim(b, p1, marker_byte(Marker::ArrayEnd), p_i8_elem()),
        },
        PRes::Fail(f) => PRes::Fail(f),
    }
}

/// A whole sequence of strings, under any of the three framings.
pub open spec fn p_string_seq(b: Seq<u8>, pos: int) -> PRes<Seq<Seq<char>>> {
    match p_container_head(b, pos, Marker::ArrayStart) {
        PRes::Val((len, ty), p1) => match len {
            Some(k) => p_elems_counted(b, p1, k as nat, ty, p_string_elem()),
            None => p_elems_delim(b, p1, marker_byte(Marker::ArrayEnd), p_string_elem()),
        },
        PRes::Fail(f) => PRes::Fail(f),
    }
}

/// A whole map with 8-bit signed values, under any of the three framings.
pub open spec fn p_i8_map(b: Seq<u8>, pos: int) -> PRes<Seq<(Seq<char>, i8)>> {
    match p_container_head(b, pos, Marker::ObjectStart) {
        PRes::Val((len, ty), p1) => match len {
            Some(k) => p_entries_counted(b, p1, k as nat, ty, p_i8_elem()),
            None => p_entries_delim(b, p1, p_i8_elem()),
        },
        PRes::Fail(f) => PRes::Fail(f),
    }
}

/// A whole map with 32-bit signed values, under any of the three framings.
pub open spec fn p_i32_map(b: Seq<u8>, pos: int) -> PRes<Seq<(Seq<char>, i32)>> {
    match p_container_head(b, pos, Marker::ObjectStart) {
        PRes::Val((len, ty), p1) => match len {
            Some(k) => p_entries_counted(b, p1, k as nat, ty, p_i32_elem()),
            None => p_entries_delim(b, p1, p_i32_elem()),
        },
        PRes::Fail(f) => PRes::Fail(f),
    }
}

/// A whole map with string values, under any of the three framings.
pub open spec fn p_string_map(b: Seq<u8>, pos: int) -> PRes<Seq<(Seq<char>, Seq<char>)>> {
    match p_container_head(b, pos, Marker::ObjectStart) {
        PRes::Val((len, ty), p1) => match len {
            Some(k) => p_entries_counted(b, p1, k as nat, ty, p_string_elem()),
            None => p_entries_delim(b, p1, p_string_elem()),
        },
        PRes::Fail(f) => PRes::Fail(f),
    }
}

/// A raw byte span: a sequence that declared its count (with or without a
/// shared type) is sliced whole; a delimited sequence cannot be sliced and
/// fails at the attempt.
pub open spec fn p_bytes(b: Seq<u8>, pos: int) -> PRes<Seq<u8>> {
    match p_container_head(b, pos, Marker::ArrayStart) {
        PRes::Val((len, _ty), p1) => match len {
            Some(n) => p_raw(b, p1, n as int),
            None => PRes::Fail(Fail::ExpectedLength),
        },
        PRes::Fail(f) => PRes::Fail(f),
    }
}

/// A single ASCII byte is a valid UTF-8 encoding of its own code point.
pub proof fn lemma_ascii_byte_utf8(b: u8)
    requires
        b < 128,
    ensures
        valid_utf8(seq![b]),
        decode_utf8(seq![b]) == seq![b as char],
{
    let c = b as char;
    assert(c as u32 == b as u32);
    let u = c as u32;
    assert(u & 0x7F == u) by (bit_vector)
        requires
            u < 128,
    ;
    assert(vstd::utf8::encode_scalar(u) =~= seq![b]);
    assert(seq![c].len() == 1);
    assert(seq![c][0] == c);
    assert(seq![c].drop_first() =~= Seq::<char>::empty());
    assert(encode_utf8(Seq::<char>::empty()) =~= Seq::<u8>::empty());
    assert(encode_utf8(seq![c]) =~= vstd::utf8::encode_scalar(u) + encode_utf8(
        Seq::<char>::empty(),
    ));
    assert(encode_utf8(seq![c]) =~= seq![b]);
    vstd::utf8::encode_utf8_valid_utf8(seq![c]);
    vstd::utf8::encode_utf8_decode_utf8(seq![c]);
}

/// A one-byte valid UTF-8 encoding is an ASCII byte.
pub proof fn lemma_single_valid_byte_ascii(bs: Seq<u8>)
    requires
        valid_utf8(bs),
        bs.len() == 1,
    ensures
        bs[0] < 128,
{
    assert(vstd::utf8::valid_first_scalar(bs));
}

// ---------------------------------------------------------------------------
// Progress: a parsed item never ends before it starts nor past the input
// ---------------------------------------------------------------------------

/// A length field sits within the input and takes at least two bytes.
pub proof fn lemma_p_len_progress(b: Seq<u8>, pos: int)
    ensures
        p_len(b, pos) matches PRes::Val(n, p2) ==> pos + 2 <= p2 <= b.len(),
{
}

/// A parsed 8-bit signed value ends within the input, after at least one
/// byte when its marker came from the stream.
pub proof fn lemma_p_i8_progress(b: Seq<u8>, pos: int, hint: Option<Marker>)
    ensures
        p_i8(b, pos, hint) matches PRes::Val(v, p2) ==> pos <= p2 <= b.len() && (hint is None
            ==> pos < p2),
{
}

/// A parsed 32-bit signed value ends within the input, after at least one
/// byte when its marker came from the stream.
pub proof fn lemma_p_i32_progress(b: Seq<u8>, pos: int, hint: Option<Marker>)
    ensures
        p_i32(b, pos, hint) matches PRes::Val(v, p2) ==> pos <= p2 <= b.len() && (hint is None
            ==> pos < p2),
{
}

/// A parsed string ends within the input and always takes at least one byte,
/// whether or not its marker came from the stream: both its forms carry a
/// payload.
pub proof fn lemma_p_string_progress(b: Seq<u8>, pos: int, hint: Option<Marker>)
    ensures
        p_string(b, pos, hint) matches PRes::Val(v, p2) ==> pos < p2 <= b.len(),
{
    lemma_p_len_progress(b, pos);
    lemma_p_len_progress(b, pos + 1);
}

// ---------------------------------------------------------------------------
// Tagged variants
// ---------------------------------------------------------------------------

/// The head of a tagged-union value: either a bare string (a unit variant's
/// name) or the opening of a one-entry object, with its framing noted and
/// the variant name read as the entry's key.
pub enum VariantShape {
    Bare(Seq<char>),
    Entry { name: Seq<char>, counted: bool },
}

/// The head of a variant value. For the object form, a declared count is
/// consumed and remembered only as present; the payload that follows the
/// name is not part of the head.
pub open spec fn p_variant_head(b: Seq<u8>, pos: int) -> PRes<VariantShape> {
    match p_marker(b, pos) {
        PRes::Val(m, p) => {
            if m == Marker::String {
                match p_len(b, p) {
                    PRes::Val(n, p2) => match p_raw(b, p2, n as int) {
                        PRes::Val(bs, p3) => {
                            if valid_utf8(bs) {
                                PRes::Val(VariantShape::Bare(decode_utf8(bs)), p3)
                            } else {
                                PRes::Fail(Fail::InvalidString)
                            }
                        },
                        PRes::Fail(f) => PRes::Fail(f),
                    },
                    PRes::Fail(f) => PRes::Fail(f),
                }
            } else if m == Marker::ObjectStart {
                match p_framing(b, p) {
                    PRes::Val((len, _ty), p1) => match p_str(b, p1, Some(Marker::String)) {
                        PRes::Val(name, p2) => PRes::Val(
                            VariantShape::Entry { name, counted: len is Some },
                            p2,
                        ),
                        PRes::Fail(f) => PRes::Fail(f),
                    },
                    PRes::Fail(f) => PRes::Fail(f),
                }
            } else {
                PRes::Fail(Fail::Expected(seq![Marker::String, Marker::ObjectStart]))
            }
        },
        PRes::Fail(f) => PRes::Fail(f),
    }
}

/// The close of an object-form variant: nothing when a count was declared,
/// otherwise exactly the closing object delimiter.
pub open spec fn p_variant_end(b: Seq<u8>, pos: int, counted: bool) -> PRes<()> {
    if counted {
        PRes::Val((), pos)
    } else {
        match p_marker(b, pos) {
            PRes::Val(m, p) => {
                if m == Marker::ObjectEnd {
                    PRes::Val((), p)
                } else {
                    PRes::Fail(Fail::Expected(seq![Marker::ObjectEnd]))
                }
            },
            PRes::Fail(f) => PRes::Fail(f),
        }
    }
}

} // verus!
