use bintag::de::Deserializer;
use bintag::error::Error;
use bintag::marker::Marker;
use bintag::ser::{Serializer, SimpleFormatter};

#[test]
fn a_byte_outside_the_grammar_is_an_invalid_marker() {
    let data = vec![1u8];
    let mut de = Deserializer::new(data);
    assert!(matches!(de.deserialize_bool(), Err(Error::InvalidMarker)));
}

#[test]
fn a_wrong_marker_reports_every_marker_that_would_have_been_accepted() {
    let mut data = vec![b'l'];
    data.extend_from_slice(&7i32.to_be_bytes());
    let mut de = Deserializer::new(data);
    match de.deserialize_i8() {
        Err(Error::Expected(ms)) => assert_eq!(ms, vec![Marker::I8]),
        _ => panic!("Expected a marker-set error"),
    }

    let mut data = vec![b'L'];
    data.extend_from_slice(&7i64.to_be_bytes());
    let mut de = Deserializer::new(data);
    match de.deserialize_i32() {
        Err(Error::Expected(ms)) => {
            assert_eq!(ms, vec![Marker::I32, Marker::I16, Marker::I8])
        },
        _ => panic!("Expected a marker-set error"),
    }
}

#[test]
fn empty_input_is_an_eof() {
    let mut de = Deserializer::new(Vec::new());
    assert!(matches!(de.deserialize_bool(), Err(Error::Eof)));
}

#[test]
fn truncating_an_i32_by_one_byte_is_an_eof() {
    let mut data = vec![b'l'];
    data.extend_from_slice(&2147483647i32.to_be_bytes());
    data.pop();
    let mut de = Deserializer::new(data);
    assert!(matches!(de.deserialize_i32(), Err(Error::Eof)));
}

#[test]
fn truncating_a_string_by_one_byte_is_an_eof() {
    let mut data = vec![b'S', b'i', 4u8];
    data.extend_from_slice(b"tes");
    let mut de = Deserializer::new(data);
    assert!(matches!(de.deserialize_string(), Err(Error::Eof)));
}

#[test]
fn truncating_a_counted_sequence_is_an_eof() {
    let data = vec![b'[', b'#', b'i', 3, b'i', 1, b'i', 2];
    let mut de = Deserializer::new(data);
    assert!(matches!(de.deserialize_i8_seq(), Err(Error::Eof)));
}

#[test]
fn a_delimited_sequence_that_is_never_closed_is_an_eof() {
    let data = vec![b'[', b'i', 1];
    let mut de = Deserializer::new(data);
    assert!(matches!(de.deserialize_i8_seq(), Err(Error::Eof)));
}

#[test]
fn a_length_field_with_a_non_integer_marker_is_rejected() {
    let data = vec![b'S', b'T'];
    let mut de = Deserializer::new(data);
    assert!(matches!(de.deserialize_string(), Err(Error::ExpectedLength)));
}

#[test]
fn a_delimited_sequence_cannot_be_read_as_a_byte_span() {
    let data = vec![b'[', b'U', 1, b'U', 2, b']'];
    let mut de = Deserializer::new(data);
    assert!(matches!(de.deserialize_bytes(), Err(Error::ExpectedLength)));
}

#[test]
fn non_utf8_string_bytes_are_an_invalid_string() {
    let data = vec![b'S', b'i', 1, 0xFF];
    let mut de = Deserializer::new(data);
    assert!(matches!(de.deserialize_string(), Err(Error::InvalidString)));
}

#[test]
fn a_character_request_on_a_longer_string_is_an_invalid_string() {
    let mut data = vec![b'S', b'i', 2];
    data.extend_from_slice(b"AB");
    let mut de = Deserializer::new(data);
    assert!(matches!(de.deserialize_char(), Err(Error::InvalidString)));
}

#[test]
fn a_decimal_number_with_a_non_digit_byte_is_an_invalid_string() {
    let mut data = vec![b'H', b'i', 3];
    data.extend_from_slice(b"1x3");
    let mut de = Deserializer::new(data);
    assert!(matches!(de.deserialize_u64(), Err(Error::InvalidString)));
}

#[test]
fn a_decimal_number_wider_than_64_bits_is_an_invalid_string() {
    let digits = b"18446744073709551616"; // one past the largest 64-bit value
    let mut data = vec![b'H', b'i', digits.len() as u8];
    data.extend_from_slice(digits);
    let mut de = Deserializer::new(data);
    assert!(matches!(de.deserialize_u64(), Err(Error::InvalidString)));
}

#[test]
fn a_negative_length_cannot_be_satisfied_by_any_input() {
    let mut data = vec![b'S', b'i'];
    data.extend_from_slice(&(-1i8).to_be_bytes());
    data.extend_from_slice(b"test");
    let mut de = Deserializer::new(data);
    assert!(matches!(de.deserialize_string(), Err(Error::Eof)));
}

#[test]
fn a_key_left_without_a_value_is_an_eof() {
    let mut data = vec![b'{', b'i', 1];
    data.extend_from_slice(b"t");
    let mut de = Deserializer::new(data);
    assert!(matches!(de.deserialize_i8_map(), Err(Error::Eof)));
}

#[test]
fn writing_bytes_in_key_position_is_an_invalid_key() {
    let mut ser = Serializer::new(SimpleFormatter::new());
    let obj = ser.serialize_map(None).unwrap();
    obj.begin_key(&mut ser);
    assert!(matches!(ser.serialize_bytes(b"k"), Err(Error::InvalidKey)));
    assert!(matches!(ser.serialize_none(), Err(Error::InvalidKey)));
    assert!(matches!(ser.serialize_u64(1), Err(Error::InvalidKey)));
    assert!(matches!(ser.serialize_seq(None), Err(Error::InvalidKey)));
    assert!(matches!(ser.serialize_map(None), Err(Error::InvalidKey)));
}

#[test]
fn describing_an_error_names_its_kind() {
    assert_eq!(Error::Eof.describe(), "end of input");
    assert_eq!(Error::InvalidKey.describe(), "invalid key");
    assert_eq!(Error::InvalidMarker.describe(), "invalid marker");
    assert_eq!(Error::InvalidString.describe(), "invalid string");
    assert_eq!(Error::TrailingData.describe(), "trailing data");
    assert_eq!(Error::ExpectedLength.describe(), "expected length");
    assert_eq!(Error::Custom("boom".to_string()).describe(), "boom");
}

#[test]
fn an_unclosed_object_form_variant_is_rejected_at_its_end() {
    let mut data = vec![b'{', b'i', 7];
    data.extend_from_slice(b"NewType");
    data.push(b'l');
    data.extend_from_slice(&7i32.to_be_bytes());
    data.push(b'T'); // something other than the closing delimiter

    let mut de = Deserializer::new(data);
    let head = de.deserialize_enum_begin().unwrap();
    match head {
        bintag::de::VariantHead::Entry { name, counted } => {
            assert_eq!(name, "NewType");
            assert!(!counted);
            let n = de.deserialize_i32().unwrap();
            assert_eq!(n, 7);
            match de.deserialize_enum_end(counted) {
                Err(Error::Expected(ms)) => assert_eq!(ms, vec![Marker::ObjectEnd]),
                _ => panic!("Expected a marker-set error"),
            }
        },
        _ => panic!("Expected the object form"),
    }
}
