//! The laws the codec obeys, proved from the wire grammar alone: whatever
//! the encoder writes, the decoder reads back unchanged (round-trip); a
//! narrower wire value is accepted by every wider signed read and never the
//! reverse (widening); and cutting an encoding short is always reported as
//! the input ending too early, never answered with an invented value.
//!
//! Every law is stated over an arbitrary continuation `rest`, so it holds
//! for a value standing anywhere in a longer stream, not only at its end.

use vstd::prelude::*;
use vstd::utf8::encode_utf8;

use crate::error::Fail;
use crate::marker::{byte_marker, marker_byte, Marker};
use crate::wire::{
    PRes, be16, be32, be64, dec_digits, digits_val, enc_bool, enc_i16, enc_i32, enc_i64, enc_i8,
    enc_len, enc_null, enc_str_value, enc_u64, enc_u8, lemma_be16_roundtrip, lemma_be32_roundtrip,
    lemma_be64_roundtrip, lemma_dec_digits_val, p_bool, p_char, p_i16, p_i32, p_i64, p_i8, p_len,
    p_some, p_string, p_u64, p_u8, p_unit,
};

verus! {

// ---------------------------------------------------------------------------
// Round-trip: decoding an encoding yields the value written
// ---------------------------------------------------------------------------

/// A boolean reads back as written.
pub proof fn lemma_roundtrip_bool(v: bool, rest: Seq<u8>)
    ensures
        p_bool(enc_bool(v) + rest, 0, None) == PRes::<bool>::Val(v, 1),
{
    let b = enc_bool(v) + rest;
    assert(b[0] == enc_bool(v)[0]);
}

/// An 8-bit signed value reads back as written.
pub proof fn lemma_roundtrip_i8(v: i8, rest: Seq<u8>)
    ensures
        p_i8(enc_i8(v) + rest, 0, None) == PRes::<i8>::Val(v, 2),
{
    let b = enc_i8(v) + rest;
    assert(b[0] == enc_i8(v)[0]);
    assert(b[1] == enc_i8(v)[1]);
    assert(b[1] == v as u8);
    assert((v as u8) as i8 == v) by (bit_vector);
}

/// A 16-bit signed value reads back as written.
pub proof fn lemma_roundtrip_i16(v: i16, rest: Seq<u8>)
    ensures
        p_i16(enc_i16(v) + rest, 0, None) == PRes::<i16>::Val(v, 3),
{
    let b = enc_i16(v) + rest;
    assert(b[0] == enc_i16(v)[0]);
    assert(b[1] == be16(v as u16)[0] && b[2] == be16(v as u16)[1]);
    lemma_be16_roundtrip(v as u16);
    assert((v as u16) as i16 == v) by (bit_vector);
}

/// A 32-bit signed value reads back as written.
pub proof fn lemma_roundtrip_i32(v: i32, rest: Seq<u8>)
    ensures
        p_i32(enc_i32(v) + rest, 0, None) == PRes::<i32>::Val(v, 5),
{
    let b = enc_i32(v) + rest;
    assert(b[0] == enc_i32(v)[0]);
    assert(b[1] == be32(v as u32)[0] && b[2] == be32(v as u32)[1] && b[3] == be32(v as u32)[2]
        && b[4] == be32(v as u32)[3]);
    lemma_be32_roundtrip(v as u32);
    assert((v as u32) as i32 == v) by (bit_vector);
}

/// A 64-bit signed value reads back as written.
pub proof fn lemma_roundtrip_i64(v: i64, rest: Seq<u8>)
    ensures
        p_i64(enc_i64(v) + rest, 0, None) == PRes::<i64>::Val(v, 9),
{
    let b = enc_i64(v) + rest;
    assert(b[0] == enc_i64(v)[0]);
    assert(forall|i: int| 1 <= i < 9 ==> b[i] == #[trigger] be64(v as u64)[i - 1]);
    lemma_be64_roundtrip(v as u64);
    assert((v as u64) as i64 == v) by (bit_vector);
}

/// An 8-bit unsigned value reads back as written.
pub proof fn lemma_roundtrip_u8(v: u8, rest: Seq<u8>)
    ensures
        p_u8(enc_u8(v) + rest, 0, None) == PRes::<u8>::Val(v, 2),
{
    let b = enc_u8(v) + rest;
    assert(b[0] == enc_u8(v)[0]);
    assert(b[1] == enc_u8(v)[1]);
}

/// A 64-bit unsigned value reads back as written, through its decimal
/// digit-string form.
pub proof fn lemma_roundtrip_u64(v: u64, rest: Seq<u8>)
    ensures
        p_u64(enc_u64(v) + rest, 0, None) == PRes::<u64>::Val(
            v,
            10 + dec_digits(v as nat).len() as int,
        ),
{
    let ds = dec_digits(v as nat);
    lemma_dec_digits_val(v as nat);
    crate::ser::lemma_dec_digits_len(v as nat);
    let b = enc_u64(v) + rest;
    assert(b[0] == enc_u64(v)[0]);
    // the length field
    assert(b[1] == enc_len(ds.len() as int)[0]);
    let n = ds.len() as usize;
    assert(forall|i: int| 0 <= i < 8 ==> b[2 + i] == #[trigger] be64((n as i64) as u64)[i]);
    lemma_be64_roundtrip((n as i64) as u64);
    assert(((n as i64) as u64) as i64 == n as i64) by (bit_vector)
        requires
            n <= 20,
    ;
    assert((n as i64) as usize == n);
    assert(p_len(b, 1) == PRes::<usize>::Val(n, 10));
    // the digit string
    assert(b.subrange(10, 10 + n as int) =~= ds);
    assert(digits_val(ds) <= u64::MAX);
}

/// A character reads back as written: the encoder writes a character as a
/// one-character string, and a one-byte string whose byte is ASCII decodes
/// to that character. Characters outside ASCII encode to longer strings,
/// which the character read refuses.
pub proof fn lemma_roundtrip_char(c: char, rest: Seq<u8>)
    requires
        (c as u32) < 128,
    ensures
        p_char(enc_str_value(seq![c]) + rest, 0, None) == PRes::<char>::Val(c, 11),
{
    let u = c as u32;
    assert(u & 0x7F == u) by (bit_vector)
        requires
            u < 128,
    ;
    assert(vstd::utf8::encode_scalar(u) =~= seq![u as u8]);
    assert(seq![c].drop_first() =~= Seq::<char>::empty());
    assert(encode_utf8(Seq::<char>::empty()) =~= Seq::<u8>::empty());
    assert(encode_utf8(seq![c]) =~= vstd::utf8::encode_scalar(u) + encode_utf8(
        Seq::<char>::empty(),
    ));
    assert(encode_utf8(seq![c]) =~= seq![u as u8]);
    let b = enc_str_value(seq![c]) + rest;
    assert(b[0] == enc_str_value(seq![c])[0]);
    assert(b[1] == enc_len(1)[0]);
    assert(forall|i: int| 0 <= i < 8 ==> b[2 + i] == #[trigger] be64(1u64)[i]);
    lemma_be64_roundtrip(1u64);
    assert((1i64) as usize == 1usize);
    assert(p_len(b, 1) == PRes::<usize>::Val(1usize, 10));
    assert(b.subrange(10, 11) =~= seq![u as u8]);
    assert((u as u8) < 128);
    crate::wire::lemma_ascii_byte_utf8(u as u8);
    assert(((u as u8) as char) as u32 == (u as u8) as u32);
    vstd::utf8::char_u32_cast(c, u);
    assert((u as u8) as u32 == u) by (bit_vector)
        requires
            u < 128,
    ;
    assert((u as u8) as char == c) by {
        vstd::utf8::char_u32_cast(c, ((u as u8) as char) as u32);
    }
}

/// The character and string forms overlap deliberately: a one-byte
/// character encoding satisfies both a character request and a string
/// request, yielding the character and its one-character string. Paired
/// with [`lemma_roundtrip_char`] and [`lemma_roundtrip_string`], an ASCII
/// character on the wire reads back the same whichever of its two forms
/// carried it and whichever of the two shapes is asked for.
pub proof fn lemma_char_string_overlap(v: u8, rest: Seq<u8>)
    requires
        v < 128,
    ensures
        p_char(seq![67u8, v] + rest, 0, None) == PRes::<char>::Val(v as char, 2),
        p_string(seq![67u8, v] + rest, 0, None) == PRes::<Seq<char>>::Val(seq![v as char], 2),
{
    let b = seq![67u8, v] + rest;
    assert(b[0] == 67u8);
    assert(b[1] == v);
    crate::wire::lemma_ascii_byte_utf8(v);
}

/// A string reads back as written: the decoder undoes the encoder's UTF-8
/// bytes exactly.
pub proof fn lemma_roundtrip_string(s: Seq<char>, rest: Seq<u8>)
    requires
        encode_utf8(s).len() <= i64::MAX,
        encode_utf8(s).len() <= usize::MAX,
    ensures
        p_string(enc_str_value(s) + rest, 0, None) == PRes::<Seq<char>>::Val(
            s,
            10 + encode_utf8(s).len() as int,
        ),
{
    let bs = encode_utf8(s);
    let n = bs.len() as usize;
    let b = enc_str_value(s) + rest;
    assert(b[0] == enc_str_value(s)[0]);
    assert(b[1] == enc_len(n as int)[0]);
    assert(forall|i: int| 0 <= i < 8 ==> b[2 + i] == #[trigger] be64((n as i64) as u64)[i]);
    lemma_be64_roundtrip((n as i64) as u64);
    assert(((n as i64) as u64) as i64 == n as i64) by (bit_vector)
        requires
            n <= i64::MAX,
    ;
    assert((n as i64) as usize == n);
    assert(p_len(b, 1) == PRes::<usize>::Val(n, 10));
    assert(b.subrange(10, 10 + n as int) =~= bs);
    vstd::utf8::encode_utf8_valid_utf8(s);
    vstd::utf8::encode_utf8_decode_utf8(s);
}

/// A unit value reads back as written.
pub proof fn lemma_roundtrip_unit(rest: Seq<u8>)
    ensures
        p_unit(enc_null() + rest, 0) == PRes::<()>::Val((), 1),
{
    let b = enc_null() + rest;
    assert(b[0] == enc_null()[0]);
}

/// An absent optional reads back as absent.
pub proof fn lemma_roundtrip_none(rest: Seq<u8>)
    ensures
        p_some(enc_null() + rest, 0) == PRes::<bool>::Val(false, 1),
{
    let b = enc_null() + rest;
    assert(b[0] == enc_null()[0]);
}

// ---------------------------------------------------------------------------
// Container framing equivalence: the three framings of one sequence of
// values decode to the identical sequence
// ---------------------------------------------------------------------------

/// The self-described encodings of a sequence of 8-bit signed values, one
/// after the other, each with its own marker.
pub open spec fn enc_i8_elems(vs: Seq<i8>) -> Seq<u8>
    decreases vs.len(),
{
    if vs.len() == 0 {
        seq![]
    } else {
        enc_i8(vs[0]) + enc_i8_elems(vs.drop_first())
    }
}

/// The raw payloads of a sequence of 8-bit signed values, without markers,
/// as they stand under a shared-type hint.
pub open spec fn raw_i8_elems(vs: Seq<i8>) -> Seq<u8>
    decreases vs.len(),
{
    if vs.len() == 0 {
        seq![]
    } else {
        seq![vs[0] as u8] + raw_i8_elems(vs.drop_first())
    }
}

/// The delimited framing: start marker, self-described elements, end marker.
pub open spec fn enc_i8_seq_delim(vs: Seq<i8>) -> Seq<u8> {
    seq![marker_byte(Marker::ArrayStart)] + enc_i8_elems(vs) + seq![
        marker_byte(Marker::ArrayEnd),
    ]
}

/// The counted framing: start marker, declared count, self-described
/// elements, no end marker.
pub open spec fn enc_i8_seq_counted(vs: Seq<i8>) -> Seq<u8> {
    seq![marker_byte(Marker::ArrayStart), marker_byte(Marker::Length)] + enc_len(
        vs.len() as int,
    ) + enc_i8_elems(vs)
}

/// The typed and counted framing: start marker, shared element type,
/// declared count, raw payloads.
pub open spec fn enc_i8_seq_typed(vs: Seq<i8>) -> Seq<u8> {
    seq![
        marker_byte(Marker::ArrayStart),
        marker_byte(Marker::OfType),
        marker_byte(Marker::I8),
        marker_byte(Marker::Length),
    ] + enc_len(vs.len() as int) + raw_i8_elems(vs)
}

proof fn lemma_counted_i8_elems(vs: Seq<i8>, pad: Seq<u8>, rest: Seq<u8>)
    ensures
        crate::wire::p_elems_counted(
            pad + enc_i8_elems(vs) + rest,
            pad.len() as int,
            vs.len(),
            None,
            crate::wire::p_i8_elem(),
        ) == PRes::<Seq<i8>>::Val(vs, pad.len() + 2 * vs.len() as int),
    decreases vs.len(),
{
    let b = pad + enc_i8_elems(vs) + rest;
    let f = crate::wire::p_i8_elem();
    let pos = pad.len() as int;
    if vs.len() == 0 {
        assert(vs =~= Seq::<i8>::empty());
    } else {
        let v0 = vs[0];
        assert(b[pos] == enc_i8(v0)[0]);
        assert(b[pos + 1] == enc_i8(v0)[1]);
        assert((v0 as u8) as i8 == v0) by (bit_vector);
        assert(f(b, pos, None) == p_i8(b, pos, None::<Marker>));
        assert(p_i8(b, pos, None) == PRes::<i8>::Val(v0, pos + 2));
        let pad2 = pad + enc_i8(v0);
        assert(pad2 + enc_i8_elems(vs.drop_first()) + rest =~= b);
        lemma_counted_i8_elems(vs.drop_first(), pad2, rest);
        assert(seq![v0] + vs.drop_first() =~= vs);
    }
}

proof fn lemma_typed_i8_elems(vs: Seq<i8>, pad: Seq<u8>, rest: Seq<u8>)
    ensures
        crate::wire::p_elems_counted(
            pad + raw_i8_elems(vs) + rest,
            pad.len() as int,
            vs.len(),
            Some(Marker::I8),
            crate::wire::p_i8_elem(),
        ) == PRes::<Seq<i8>>::Val(vs, pad.len() + vs.len() as int),
    decreases vs.len(),
{
    let b = pad + raw_i8_elems(vs) + rest;
    let f = crate::wire::p_i8_elem();
    let pos = pad.len() as int;
    if vs.len() == 0 {
        assert(vs =~= Seq::<i8>::empty());
    } else {
        let v0 = vs[0];
        assert(b[pos] == v0 as u8);
        assert((v0 as u8) as i8 == v0) by (bit_vector);
        assert(f(b, pos, Some(Marker::I8)) == p_i8(b, pos, Some(Marker::I8)));
        assert(p_i8(b, pos, Some(Marker::I8)) == PRes::<i8>::Val(v0, pos + 1));
        let pad2 = pad + seq![v0 as u8];
        assert(pad2 + raw_i8_elems(vs.drop_first()) + rest =~= b);
        lemma_typed_i8_elems(vs.drop_first(), pad2, rest);
        assert(seq![v0] + vs.drop_first() =~= vs);
    }
}

proof fn lemma_delim_i8_elems(vs: Seq<i8>, pad: Seq<u8>, rest: Seq<u8>)
    ensures
        crate::wire::p_elems_delim(
            pad + enc_i8_elems(vs) + seq![marker_byte(Marker::ArrayEnd)] + rest,
            pad.len() as int,
            marker_byte(Marker::ArrayEnd),
            crate::wire::p_i8_elem(),
        ) == PRes::<Seq<i8>>::Val(vs, pad.len() + 2 * vs.len() as int + 1),
    decreases vs.len(),
{
    let end = marker_byte(Marker::ArrayEnd);
    let b = pad + enc_i8_elems(vs) + seq![end] + rest;
    let f = crate::wire::p_i8_elem();
    let pos = pad.len() as int;
    if vs.len() == 0 {
        assert(b[pos] == end);
        assert(vs =~= Seq::<i8>::empty());
    } else {
        let v0 = vs[0];
        assert(b[pos] == enc_i8(v0)[0]);
        assert(b[pos + 1] == enc_i8(v0)[1]);
        assert(b[pos] != end);
        assert(byte_marker(b[pos]) == Some(Marker::I8));
        assert((v0 as u8) as i8 == v0) by (bit_vector);
        assert(f(b, pos, None) == p_i8(b, pos, None::<Marker>));
        assert(p_i8(b, pos, None) == PRes::<i8>::Val(v0, pos + 2));
        let pad2 = pad + enc_i8(v0);
        assert(pad2 + enc_i8_elems(vs.drop_first()) + seq![end] + rest =~= b);
        lemma_delim_i8_elems(vs.drop_first(), pad2, rest);
        assert(seq![v0] + vs.drop_first() =~= vs);
    }
}

/// A delimited sequence of 8-bit values reads back as written.
pub proof fn lemma_roundtrip_i8_seq_delim(vs: Seq<i8>, rest: Seq<u8>)
    ensures
        crate::wire::p_i8_seq(enc_i8_seq_delim(vs) + rest, 0) == PRes::<Seq<i8>>::Val(
            vs,
            2 + 2 * vs.len() as int,
        ),
{
    let b = enc_i8_seq_delim(vs) + rest;
    assert(b[0] == marker_byte(Marker::ArrayStart));
    // the byte after the start marker is an element marker or the end
    // delimiter, so no count and no shared type are declared
    if vs.len() == 0 {
        assert(b[1] == marker_byte(Marker::ArrayEnd));
    } else {
        assert(b[1] == enc_i8(vs[0])[0]);
    }
    assert(crate::wire::p_framing(b, 1) == PRes::<(Option<usize>, Option<Marker>)>::Val(
        (None, None),
        1,
    ));
    let pad = seq![marker_byte(Marker::ArrayStart)];
    assert(pad + enc_i8_elems(vs) + seq![marker_byte(Marker::ArrayEnd)] + rest =~= b);
    lemma_delim_i8_elems(vs, pad, rest);
}

/// A counted sequence of 8-bit values reads back as written.
pub proof fn lemma_roundtrip_i8_seq_counted(vs: Seq<i8>, rest: Seq<u8>)
    requires
        vs.len() <= i64::MAX,
        vs.len() <= usize::MAX,
    ensures
        crate::wire::p_i8_seq(enc_i8_seq_counted(vs) + rest, 0) == PRes::<Seq<i8>>::Val(
            vs,
            11 + 2 * vs.len() as int,
        ),
{
    let b = enc_i8_seq_counted(vs) + rest;
    let n = vs.len() as usize;
    assert(b[0] == marker_byte(Marker::ArrayStart));
    assert(b[1] == marker_byte(Marker::Length));
    assert(b[2] == enc_len(n as int)[0]);
    assert(forall|i: int| 0 <= i < 8 ==> b[3 + i] == #[trigger] be64((n as i64) as u64)[i]);
    lemma_be64_roundtrip((n as i64) as u64);
    assert(((n as i64) as u64) as i64 == n as i64) by (bit_vector)
        requires
            n <= i64::MAX,
    ;
    assert((n as i64) as usize == n);
    assert(p_len(b, 2) == PRes::<usize>::Val(n, 11));
    assert(crate::wire::p_framing(b, 1) == PRes::<(Option<usize>, Option<Marker>)>::Val(
        (Some(n), None),
        11,
    ));
    let pad = b.take(11);
    assert(pad + enc_i8_elems(vs) + rest =~= b);
    lemma_counted_i8_elems(vs, pad, rest);
}

/// A typed and counted sequence of 8-bit values reads back as written.
pub proof fn lemma_roundtrip_i8_seq_typed(vs: Seq<i8>, rest: Seq<u8>)
    requires
        vs.len() <= i64::MAX,
        vs.len() <= usize::MAX,
    ensures
        crate::wire::p_i8_seq(enc_i8_seq_typed(vs) + rest, 0) == PRes::<Seq<i8>>::Val(
            vs,
            13 + vs.len() as int,
        ),
{
    let b = enc_i8_seq_typed(vs) + rest;
    let n = vs.len() as usize;
    assert(b[0] == marker_byte(Marker::ArrayStart));
    assert(b[1] == marker_byte(Marker::OfType));
    assert(b[2] == marker_byte(Marker::I8));
    assert(b[3] == marker_byte(Marker::Length));
    assert(b[4] == enc_len(n as int)[0]);
    assert(forall|i: int| 0 <= i < 8 ==> b[5 + i] == #[trigger] be64((n as i64) as u64)[i]);
    lemma_be64_roundtrip((n as i64) as u64);
    assert(((n as i64) as u64) as i64 == n as i64) by (bit_vector)
        requires
            n <= i64::MAX,
    ;
    assert((n as i64) as usize == n);
    assert(p_len(b, 4) == PRes::<usize>::Val(n, 13));
    assert(crate::wire::p_framing(b, 1) == PRes::<(Option<usize>, Option<Marker>)>::Val(
        (Some(n), Some(Marker::I8)),
        13,
    ));
    let pad = b.take(13);
    assert(pad + raw_i8_elems(vs) + rest =~= b);
    lemma_typed_i8_elems(vs, pad, rest);
}

/// Framing equivalence: the three encodings of one sequence of 8-bit values
/// all decode to the identical sequence; only the positions they end at
/// differ.
pub proof fn lemma_framing_equivalence_i8(vs: Seq<i8>, rest: Seq<u8>)
    requires
        vs.len() <= i64::MAX,
        vs.len() <= usize::MAX,
    ensures
        crate::wire::p_i8_seq(enc_i8_seq_delim(vs) + rest, 0) matches PRes::Val(a, _) && a == vs,
        crate::wire::p_i8_seq(enc_i8_seq_counted(vs) + rest, 0) matches PRes::Val(a, _) && a
            == vs,
        crate::wire::p_i8_seq(enc_i8_seq_typed(vs) + rest, 0) matches PRes::Val(a, _) && a == vs,
{
    lemma_roundtrip_i8_seq_delim(vs, rest);
    lemma_roundtrip_i8_seq_counted(vs, rest);
    lemma_roundtrip_i8_seq_typed(vs, rest);
}

// ---------------------------------------------------------------------------
// Widening: a narrower wire value is accepted by every wider signed read,
// sign-extended; a wider wire value is never accepted by a narrower read
// ---------------------------------------------------------------------------

/// An 8-bit wire value satisfies a 16-bit request, sign-extended.
pub proof fn lemma_widen_i8_to_i16(v: i8, rest: Seq<u8>)
    ensures
        p_i16(enc_i8(v) + rest, 0, None) == PRes::<i16>::Val(v as i16, 2),
{
    let b = enc_i8(v) + rest;
    assert(b[0] == enc_i8(v)[0]);
    assert(b[1] == v as u8);
    assert((v as u8) as i8 == v) by (bit_vector);
}

/// An 8-bit wire value satisfies a 32-bit request, sign-extended.
pub proof fn lemma_widen_i8_to_i32(v: i8, rest: Seq<u8>)
    ensures
        p_i32(enc_i8(v) + rest, 0, None) == PRes::<i32>::Val(v as i32, 2),
{
    let b = enc_i8(v) + rest;
    assert(b[0] == enc_i8(v)[0]);
    assert(b[1] == v as u8);
    assert((v as u8) as i8 == v) by (bit_vector);
}

/// An 8-bit wire value satisfies a 64-bit request, sign-extended.
pub proof fn lemma_widen_i8_to_i64(v: i8, rest: Seq<u8>)
    ensures
        p_i64(enc_i8(v) + rest, 0, None) == PRes::<i64>::Val(v as i64, 2),
{
    let b = enc_i8(v) + rest;
    assert(b[0] == enc_i8(v)[0]);
    assert(b[1] == v as u8);
    assert((v as u8) as i8 == v) by (bit_vector);
}

/// A 16-bit wire value satisfies a 32-bit request, sign-extended.
pub proof fn lemma_widen_i16_to_i32(v: i16, rest: Seq<u8>)
    ensures
        p_i32(enc_i16(v) + rest, 0, None) == PRes::<i32>::Val(v as i32, 3),
{
    let b = enc_i16(v) + rest;
    assert(b[0] == enc_i16(v)[0]);
    assert(b[1] == be16(v as u16)[0] && b[2] == be16(v as u16)[1]);
    lemma_be16_roundtrip(v as u16);
    assert((v as u16) as i16 == v) by (bit_vector);
}

/// A 16-bit wire value satisfies a 64-bit request, sign-extended.
pub proof fn lemma_widen_i16_to_i64(v: i16, rest: Seq<u8>)
    ensures
        p_i64(enc_i16(v) + rest, 0, None) == PRes::<i64>::Val(v as i64, 3),
{
    let b = enc_i16(v) + rest;
    assert(b[0] == enc_i16(v)[0]);
    assert(b[1] == be16(v as u16)[0] && b[2] == be16(v as u16)[1]);
    lemma_be16_roundtrip(v as u16);
    assert((v as u16) as i16 == v) by (bit_vector);
}

/// A 32-bit wire value satisfies a 64-bit request, sign-extended.
pub proof fn lemma_widen_i32_to_i64(v: i32, rest: Seq<u8>)
    ensures
        p_i64(enc_i32(v) + rest, 0, None) == PRes::<i64>::Val(v as i64, 5),
{
    let b = enc_i32(v) + rest;
    assert(b[0] == enc_i32(v)[0]);
    assert(b[1] == be32(v as u32)[0] && b[2] == be32(v as u32)[1] && b[3] == be32(v as u32)[2]
        && b[4] == be32(v as u32)[3]);
    lemma_be32_roundtrip(v as u32);
    assert((v as u32) as i32 == v) by (bit_vector);
}

/// Narrowing is never accepted: a 32-bit wire value fails an 8-bit request,
/// naming the one marker that would have been accepted.
pub proof fn lemma_no_narrow_i32_to_i8(v: i32, rest: Seq<u8>)
    ensures
        p_i8(enc_i32(v) + rest, 0, None) == PRes::<i8>::Fail(Fail::Expected(seq![Marker::I8])),
{
    let b = enc_i32(v) + rest;
    assert(b[0] == enc_i32(v)[0]);
}

/// Narrowing is never accepted: a 64-bit wire value fails a 32-bit request,
/// naming every marker that would have been accepted.
pub proof fn lemma_no_narrow_i64_to_i32(v: i64, rest: Seq<u8>)
    ensures
        p_i32(enc_i64(v) + rest, 0, None) == PRes::<i32>::Fail(
            Fail::Expected(seq![Marker::I32, Marker::I16, Marker::I8]),
        ),
{
    let b = enc_i64(v) + rest;
    assert(b[0] == enc_i64(v)[0]);
}

// ---------------------------------------------------------------------------
// Truncation: any strict prefix of an encoding fails as ended-too-early,
// never as a value
// ---------------------------------------------------------------------------

/// A truncated boolean encoding fails as ended-too-early.
pub proof fn lemma_truncation_bool(v: bool, k: int)
    requires
        0 <= k < enc_bool(v).len(),
    ensures
        p_bool(enc_bool(v).take(k), 0, None) == PRes::<bool>::Fail(Fail::Eof),
{
}

/// A truncated 8-bit signed encoding fails as ended-too-early.
pub proof fn lemma_truncation_i8(v: i8, k: int)
    requires
        0 <= k < enc_i8(v).len(),
    ensures
        p_i8(enc_i8(v).take(k), 0, None) == PRes::<i8>::Fail(Fail::Eof),
{
    let b = enc_i8(v).take(k);
    if k >= 1 {
        assert(b[0] == enc_i8(v)[0]);
    }
}

/// A truncated 16-bit signed encoding fails as ended-too-early.
pub proof fn lemma_truncation_i16(v: i16, k: int)
    requires
        0 <= k < enc_i16(v).len(),
    ensures
        p_i16(enc_i16(v).take(k), 0, None) == PRes::<i16>::Fail(Fail::Eof),
{
    let b = enc_i16(v).take(k);
    if k >= 1 {
        assert(b[0] == enc_i16(v)[0]);
    }
}

/// A truncated 32-bit signed encoding fails as ended-too-early.
pub proof fn lemma_truncation_i32(v: i32, k: int)
    requires
        0 <= k < enc_i32(v).len(),
    ensures
        p_i32(enc_i32(v).take(k), 0, None) == PRes::<i32>::Fail(Fail::Eof),
{
    let b = enc_i32(v).take(k);
    if k >= 1 {
        assert(b[0] == enc_i32(v)[0]);
    }
}

/// A truncated 64-bit signed encoding fails as ended-too-early.
pub proof fn lemma_truncation_i64(v: i64, k: int)
    requires
        0 <= k < enc_i64(v).len(),
    ensures
        p_i64(enc_i64(v).take(k), 0, None) == PRes::<i64>::Fail(Fail::Eof),
{
    let b = enc_i64(v).take(k);
    if k >= 1 {
        assert(b[0] == enc_i64(v)[0]);
    }
}

/// A truncated 8-bit unsigned encoding fails as ended-too-early.
pub proof fn lemma_truncation_u8(v: u8, k: int)
    requires
        0 <= k < enc_u8(v).len(),
    ensures
        p_u8(enc_u8(v).take(k), 0, None) == PRes::<u8>::Fail(Fail::Eof),
{
    let b = enc_u8(v).take(k);
    if k >= 1 {
        assert(b[0] == enc_u8(v)[0]);
    }
}

/// A truncated string encoding fails as ended-too-early.
pub proof fn lemma_truncation_string(s: Seq<char>, k: int)
    requires
        encode_utf8(s).len() <= i64::MAX,
        encode_utf8(s).len() <= usize::MAX,
        0 <= k < enc_str_value(s).len(),
    ensures
        p_string(enc_str_value(s).take(k), 0, None) == PRes::<Seq<char>>::Fail(Fail::Eof),
{
    let bs = encode_utf8(s);
    let n = bs.len() as usize;
    let full = enc_str_value(s);
    let b = full.take(k);
    if k >= 1 {
        assert(b[0] == full[0]);
        if k >= 2 {
            assert(b[1] == full[1]);
            if k >= 10 {
                assert(forall|i: int|
                    0 <= i < 8 ==> b[2 + i] == #[trigger] be64((n as i64) as u64)[i]);
                lemma_be64_roundtrip((n as i64) as u64);
                assert(((n as i64) as u64) as i64 == n as i64) by (bit_vector)
                    requires
                        n <= i64::MAX,
                ;
                assert((n as i64) as usize == n);
                assert(p_len(b, 1) == PRes::<usize>::Val(n, 10));
                assert(k < 10 + n);
            }
        }
    }
}

/// A truncated 64-bit unsigned (decimal form) encoding fails as
/// ended-too-early.
pub proof fn lemma_truncation_u64(v: u64, k: int)
    requires
        0 <= k < enc_u64(v).len(),
    ensures
        p_u64(enc_u64(v).take(k), 0, None) == PRes::<u64>::Fail(Fail::Eof),
{
    let ds = dec_digits(v as nat);
    lemma_dec_digits_val(v as nat);
    crate::ser::lemma_dec_digits_len(v as nat);
    let n = ds.len() as usize;
    let full = enc_u64(v);
    let b = full.take(k);
    if k >= 1 {
        assert(b[0] == full[0]);
        if k >= 2 {
            assert(b[1] == full[1]);
            if k >= 10 {
                assert(forall|i: int|
                    0 <= i < 8 ==> b[2 + i] == #[trigger] be64((n as i64) as u64)[i]);
                lemma_be64_roundtrip((n as i64) as u64);
                assert(((n as i64) as u64) as i64 == n as i64) by (bit_vector)
                    requires
                        n <= 20,
                ;
                assert((n as i64) as usize == n);
                assert(p_len(b, 1) == PRes::<usize>::Val(n, 10));
                assert(k < 10 + n);
            }
        }
    }
}

} // verus!
