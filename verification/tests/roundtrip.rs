use bintag::de::Deserializer;
use bintag::ser::{Serializer, SimpleFormatter};

fn new_serializer() -> Serializer {
    Serializer::new(SimpleFormatter::new())
}

#[test]
fn bool_survives_a_round_trip() {
    for v in [true, false] {
        let mut ser = new_serializer();
        ser.serialize_bool(v).unwrap();
        let mut de = Deserializer::new(ser.into_bytes());
        assert_eq!(de.deserialize_bool().unwrap(), v);
        assert!(de.is_at_end());
    }
}

#[test]
fn signed_integers_survive_a_round_trip() {
    for v in [i8::MIN, -1, 0, 1, i8::MAX] {
        let mut ser = new_serializer();
        ser.serialize_i8(v).unwrap();
        let mut de = Deserializer::new(ser.into_bytes());
        assert_eq!(de.deserialize_i8().unwrap(), v);
    }
    for v in [i16::MIN, -1, 0, 1, i16::MAX] {
        let mut ser = new_serializer();
        ser.serialize_i16(v).unwrap();
        let mut de = Deserializer::new(ser.into_bytes());
        assert_eq!(de.deserialize_i16().unwrap(), v);
    }
    for v in [i32::MIN, -1, 0, 1, i32::MAX] {
        let mut ser = new_serializer();
        ser.serialize_i32(v).unwrap();
        let mut de = Deserializer::new(ser.into_bytes());
        assert_eq!(de.deserialize_i32().unwrap(), v);
    }
    for v in [i64::MIN, -1, 0, 1, i64::MAX] {
        let mut ser = new_serializer();
        ser.serialize_i64(v).unwrap();
        let mut de = Deserializer::new(ser.into_bytes());
        assert_eq!(de.deserialize_i64().unwrap(), v);
    }
}

#[test]
fn unsigned_integers_survive_a_round_trip() {
    for v in [0u8, 1, u8::MAX] {
        let mut ser = new_serializer();
        ser.serialize_u8(v).unwrap();
        let mut de = Deserializer::new(ser.into_bytes());
        assert_eq!(de.deserialize_u8().unwrap(), v);
    }
    for v in [0u64, 1, 9, 10, 12345678901234567890, u64::MAX] {
        let mut ser = new_serializer();
        ser.serialize_u64(v).unwrap();
        let mut de = Deserializer::new(ser.into_bytes());
        assert_eq!(de.deserialize_u64().unwrap(), v);
    }
}

#[test]
fn widened_unsigned_integers_read_back_through_the_wider_signed_request() {
    let mut ser = new_serializer();
    ser.serialize_u16(u16::MAX).unwrap();
    let mut de = Deserializer::new(ser.into_bytes());
    assert_eq!(de.deserialize_i32().unwrap(), u16::MAX as i32);

    let mut ser = new_serializer();
    ser.serialize_u32(u32::MAX).unwrap();
    let mut de = Deserializer::new(ser.into_bytes());
    assert_eq!(de.deserialize_i64().unwrap(), u32::MAX as i64);
}

#[test]
fn ascii_chars_survive_a_round_trip() {
    for v in ['A', 'z', '0', ' ', '~'] {
        let mut ser = new_serializer();
        ser.serialize_char(v).unwrap();
        let mut de = Deserializer::new(ser.into_bytes());
        assert_eq!(de.deserialize_char().unwrap(), v);
    }
}

#[test]
fn strings_survive_a_round_trip() {
    for v in ["", "a", "test", "h\u{e9}llo", "\u{65e5}\u{672c}\u{8a9e}"] {
        let mut ser = new_serializer();
        ser.serialize_str(v).unwrap();
        let mut de = Deserializer::new(ser.into_bytes());
        assert_eq!(de.deserialize_string().unwrap(), v);
        assert!(de.is_at_end());
    }
}

#[test]
fn unit_and_none_survive_a_round_trip() {
    let mut ser = new_serializer();
    ser.serialize_unit().unwrap();
    let mut de = Deserializer::new(ser.into_bytes());
    de.deserialize_unit().unwrap();

    let mut ser = new_serializer();
    ser.serialize_none().unwrap();
    let mut de = Deserializer::new(ser.into_bytes());
    assert_eq!(de.deserialize_option_begin().unwrap(), false);
}

#[test]
fn byte_sequences_survive_a_round_trip() {
    let bytes = b"\x00\x01\xfe\xff";
    let mut ser = new_serializer();
    ser.serialize_bytes(bytes).unwrap();
    let mut de = Deserializer::new(ser.into_bytes());
    // the encoder writes each byte with its own 8-bit unsigned marker, so
    // the counted sequence reads back element by element
    let mut arr = de.deserialize_seq().unwrap();
    let mut out: Vec<u8> = Vec::new();
    loop {
        if !arr.next_element_begin(&mut de).unwrap() {
            break;
        }
        out.push(de.deserialize_u8().unwrap());
        arr.next_element_end(&mut de).unwrap();
    }
    assert_eq!(out, bytes.to_vec());
}

#[test]
fn widening_accepts_an_i8_wire_value_at_every_signed_width() {
    let mut ser = new_serializer();
    ser.serialize_i8(i8::MAX).unwrap();
    let bytes = ser.into_bytes();

    let mut de = Deserializer::new(bytes.clone());
    assert_eq!(de.deserialize_i16().unwrap(), i8::MAX as i16);
    let mut de = Deserializer::new(bytes.clone());
    assert_eq!(de.deserialize_i32().unwrap(), i8::MAX as i32);
    let mut de = Deserializer::new(bytes);
    assert_eq!(de.deserialize_i64().unwrap(), i8::MAX as i64);
}

#[test]
fn a_delimited_map_written_by_the_encoder_reads_back_in_order() {
    let mut ser = new_serializer();
    let obj = ser.serialize_map(None).unwrap();
    obj.begin_key(&mut ser);
    ser.serialize_str("one").unwrap();
    obj.begin_value(&mut ser);
    ser.serialize_i8(1).unwrap();
    obj.begin_key(&mut ser);
    ser.serialize_char('k').unwrap();
    obj.begin_value(&mut ser);
    ser.serialize_i8(2).unwrap();
    obj.end(&mut ser);

    let mut de = Deserializer::new(ser.into_bytes());
    let pairs = de.deserialize_i8_map().unwrap();
    assert_eq!(
        pairs,
        vec![("one".to_string(), 1i8), ("k".to_string(), 2i8)]
    );
}

#[test]
fn a_counted_sequence_written_by_the_encoder_reads_back_in_order() {
    let mut ser = new_serializer();
    let arr = ser.serialize_seq(Some(3)).unwrap();
    ser.serialize_i8(5).unwrap();
    ser.serialize_i8(-6).unwrap();
    ser.serialize_i8(7).unwrap();
    arr.end(&mut ser);

    let mut de = Deserializer::new(ser.into_bytes());
    assert_eq!(de.deserialize_i8_seq().unwrap(), vec![5i8, -6i8, 7i8]);
}

#[test]
fn a_delimited_sequence_written_by_the_encoder_reads_back_in_order() {
    let mut ser = new_serializer();
    let arr = ser.serialize_seq(None).unwrap();
    ser.serialize_str("ab").unwrap();
    ser.serialize_str("").unwrap();
    arr.end(&mut ser);

    let mut de = Deserializer::new(ser.into_bytes());
    assert_eq!(
        de.deserialize_string_seq().unwrap(),
        vec!["ab".to_string(), "".to_string()]
    );
}

#[test]
fn a_tuple_variant_written_by_the_encoder_reads_back_in_order() {
    let mut ser = new_serializer();
    let var = ser.serialize_tuple_variant("Tuple", 2).unwrap();
    ser.serialize_i32(1).unwrap();
    ser.serialize_i32(2).unwrap();
    var.end(&mut ser);

    let mut de = Deserializer::new(ser.into_bytes());
    match de.deserialize_enum_begin().unwrap() {
        bintag::de::VariantHead::Entry { name, counted } => {
            assert_eq!(name, "Tuple");
            assert!(counted);
            let mut arr = de.deserialize_seq().unwrap();
            let mut items: Vec<i32> = Vec::new();
            loop {
                if !arr.next_element_begin(&mut de).unwrap() {
                    break;
                }
                items.push(de.deserialize_i32().unwrap());
                arr.next_element_end(&mut de).unwrap();
            }
            de.deserialize_enum_end(counted).unwrap();
            assert_eq!(items, vec![1, 2]);
        },
        _ => panic!("Expected the object form"),
    }
}

#[test]
fn a_record_variant_written_by_the_encoder_reads_back_by_name() {
    let mut ser = new_serializer();
    let var = ser.serialize_struct_variant("Struct", 2).unwrap();
    var.begin_key(&mut ser);
    ser.serialize_str("field1").unwrap();
    var.begin_value(&mut ser);
    ser.serialize_i32(1).unwrap();
    var.begin_key(&mut ser);
    ser.serialize_str("field2").unwrap();
    var.begin_value(&mut ser);
    ser.serialize_i32(2).unwrap();
    var.end(&mut ser);

    let mut de = Deserializer::new(ser.into_bytes());
    match de.deserialize_enum_begin().unwrap() {
        bintag::de::VariantHead::Entry { name, counted } => {
            assert_eq!(name, "Struct");
            assert!(counted);
            let fields = de.deserialize_i32_map().unwrap();
            de.deserialize_enum_end(counted).unwrap();
            assert_eq!(
                fields,
                vec![("field1".to_string(), 1), ("field2".to_string(), 2)]
            );
        },
        _ => panic!("Expected the object form"),
    }
}

#[test]
fn a_unit_variant_written_by_the_encoder_reads_back_as_its_name() {
    let mut ser = new_serializer();
    ser.serialize_unit_variant("Unit").unwrap();

    let mut de = Deserializer::new(ser.into_bytes());
    match de.deserialize_enum_begin().unwrap() {
        bintag::de::VariantHead::Unit(name) => assert_eq!(name, "Unit"),
        _ => panic!("Expected a bare name"),
    }
}

#[test]
fn the_cursor_reports_trailing_bytes_after_a_top_level_read() {
    let data = vec![b'T', b'F'];
    let mut de = Deserializer::new(data);
    assert_eq!(de.deserialize_bool().unwrap(), true);
    assert_eq!(de.position(), 1);
    assert!(!de.is_at_end());
}

#[test]
fn a_counted_container_tolerates_a_redundant_closing_delimiter() {
    // a producer that both declares the count and closes the container:
    // the count satisfies the read, and the delimiter is left unconsumed
    let data = vec![b'[', b'#', b'i', 1, b'i', 9, b']'];
    let mut de = Deserializer::new(data);
    assert_eq!(de.deserialize_i8_seq().unwrap(), vec![9i8]);
    assert!(!de.is_at_end());
}
