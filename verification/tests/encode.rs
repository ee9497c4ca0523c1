use bintag::error::Error;
use bintag::ser::{Serializer, SimpleFormatter};

fn new_serializer() -> Serializer {
    Serializer::new(SimpleFormatter::new())
}

#[test]
fn serializing_true_produces_1_byte_big_t_value() {
    let value = true;
    let mut ser = new_serializer();
    ser.serialize_bool(value).unwrap();
    let out = ser.into_bytes();
    assert_eq!(out, vec![b'T']);
}

#[test]
fn serializing_false_produces_1_byte_big_f_value() {
    let value = false;
    let mut ser = new_serializer();
    ser.serialize_bool(value).unwrap();
    let out = ser.into_bytes();
    assert_eq!(out, vec![b'F']);
}

#[test]
fn serializing_u8_produces_2_byte_big_u_value() {
    let value = 255u8;
    let mut ser = new_serializer();
    ser.serialize_u8(value).unwrap();
    let out = ser.into_bytes();
    assert_eq!(out, vec![b'U', value.to_be()]);
}

#[test]
fn serializing_i8_produces_2_byte_small_i_value() {
    let value = 127i8;
    let mut ser = new_serializer();
    ser.serialize_i8(value).unwrap();
    let out = ser.into_bytes();
    assert_eq!(out, vec![b'i', value.to_be() as u8]);
}

#[test]
fn serializing_i16_produces_3_byte_big_i_value() {
    let value = 32767i16;
    let mut ser = new_serializer();
    ser.serialize_i16(value).unwrap();
    let out = ser.into_bytes();

    assert_eq!(out.len(), 3);
    assert_eq!(out[0], b'I');
    assert_eq!(out[1..], value.to_be_bytes());
}

#[test]
fn serializing_i32_produces_5_byte_small_l_value() {
    let value = 2147483647i32;
    let mut ser = new_serializer();
    ser.serialize_i32(value).unwrap();
    let out = ser.into_bytes();

    assert_eq!(out.len(), 5);
    assert_eq!(out[0], b'l');
    assert_eq!(out[1..], value.to_be_bytes());
}

#[test]
fn serializing_i64_produces_9_byte_big_l_value() {
    let value = 9_223_372_036_854_775_807i64;
    let mut ser = new_serializer();
    ser.serialize_i64(value).unwrap();
    let out = ser.into_bytes();

    assert_eq!(out.len(), 9);
    assert_eq!(out[0], b'L');
    assert_eq!(out[1..], value.to_be_bytes());
}

#[test]
fn serializing_str_produces_big_l_string_value() {
    let str = (0..127).map(|_| 'X').collect::<String>();
    let value = str.as_str();
    let mut ser = new_serializer();
    ser.serialize_str(value).unwrap();
    let out = ser.into_bytes();

    assert_eq!(out.len(), 1 + 8 + 1 + 127); // S + L + (size) + 127
    assert_eq!(out[0], b'S');
    assert_eq!(out[1], b'L');
    assert_eq!(out[2..10], 127i64.to_be_bytes());
    assert_eq!(&out[10..], value.as_bytes());
}

#[test]
fn serializing_none_produces_big_z_string_value() {
    let mut ser = new_serializer();
    ser.serialize_none().unwrap();
    let out = ser.into_bytes();

    assert_eq!(out, vec![b'Z']);
}

#[test]
fn serializing_unit_produces_big_n_string_value() {
    let mut ser = new_serializer();
    ser.serialize_unit().unwrap();
    let out = ser.into_bytes();

    assert_eq!(out, vec![b'Z']);
}

#[test]
fn serializing_vec_of_bytes_produces_array_value() {
    let value = b"test".to_vec();
    let mut ser = new_serializer();
    ser.serialize_bytes(value.as_slice()).unwrap();
    let out = ser.into_bytes();

    let len = (value.len() as i64).to_be_bytes();

    assert_eq!(b"[#L", &out[..3]);
    assert_eq!(&len, &out[3..11]);
    assert_eq!(&out[11..], b"UtUeUsUt");
}

#[test]
fn serializing_vec_of_strings_produces_array_value() {
    let value = vec!["one", "two"];
    let mut ser = new_serializer();
    let arr = ser.serialize_seq(Some(value.len())).unwrap();
    ser.serialize_str(value[0]).unwrap();
    ser.serialize_str(value[1]).unwrap();
    arr.end(&mut ser);
    let out = ser.into_bytes();

    assert_eq!(out.len(), 37);

    let len = (value.len() as i64).to_be_bytes();
    let mut span = vec![b'[', b'#', b'L'];
    span.extend_from_slice(&len);
    assert_eq!(out[..11], span);

    let len = (value[0].len() as i64).to_be_bytes();
    let mut span = vec![b'S', b'L'];
    span.extend_from_slice(&len);
    span.extend_from_slice(value[0].as_bytes());
    assert_eq!(out[11..24], span);

    let len = (value[1].len() as i64).to_be_bytes();
    let mut span = vec![b'S', b'L'];
    span.extend_from_slice(&len);
    span.extend_from_slice(value[1].as_bytes());
    assert_eq!(out[24..37], span);
}

#[test]
fn serializing_map_of_strings_to_i32_produces_object_value() {
    let entries = vec![("key1", 1i32), ("key2", 2i32)];
    let mut ser = new_serializer();
    let obj = ser.serialize_map(Some(entries.len())).unwrap();
    for (k, v) in &entries {
        obj.begin_key(&mut ser);
        ser.serialize_str(k).unwrap();
        obj.begin_value(&mut ser);
        ser.serialize_i32(*v).unwrap();
    }
    obj.end(&mut ser);
    let out = ser.into_bytes();

    assert_eq!(out.len(), 47);

    let len = (entries.len() as u64).to_be_bytes();
    let mut span = vec![b'{', b'#', b'L'];
    span.extend_from_slice(&len);
    assert_eq!(out[..11], span);

    // 1st entry
    let len = (entries[0].0.len() as i64).to_be_bytes();
    let mut span = vec![b'L'];
    span.extend_from_slice(&len);
    span.extend_from_slice(entries[0].0.as_bytes());
    assert_eq!(out[11..24], span);

    assert_eq!(out[24], b'l');
    assert_eq!(out[25..29], entries[0].1.to_be_bytes());

    // 2nd entry
    let len = (entries[1].0.len() as i64).to_be_bytes();
    let mut span = vec![b'L'];
    span.extend_from_slice(&len);
    span.extend_from_slice(entries[1].0.as_bytes());
    assert_eq!(out[29..42], span);

    assert_eq!(out[42], b'l');
    assert_eq!(out[43..47], entries[1].1.to_be_bytes());
}

#[test]
fn serializing_map_of_not_string_to_any_produces_error() {
    let mut ser = new_serializer();
    let obj = ser.serialize_map(Some(2)).unwrap();
    obj.begin_key(&mut ser);
    let result = ser.serialize_bool(true);
    match result {
        Err(e) => assert!(matches!(e, Error::InvalidKey)),
        _ => panic!("Expected error"),
    }

    let mut ser = new_serializer();
    let obj = ser.serialize_map(Some(2)).unwrap();
    obj.begin_key(&mut ser);
    let result = ser.serialize_i32(0);
    match result {
        Err(e) => assert!(matches!(e, Error::InvalidKey)),
        _ => panic!("Expected error"),
    }
}

#[test]
fn serializing_simple_struct_produces_object_value() {
    let field1 = 1i32;
    let field2 = "val".to_string();
    let mut ser = new_serializer();
    let obj = ser.serialize_map(Some(2)).unwrap();
    obj.begin_key(&mut ser);
    ser.serialize_str("field1").unwrap();
    obj.begin_value(&mut ser);
    ser.serialize_i32(field1).unwrap();
    obj.begin_key(&mut ser);
    ser.serialize_str("field2").unwrap();
    obj.begin_value(&mut ser);
    ser.serialize_str(field2.as_str()).unwrap();
    obj.end(&mut ser);
    let out = ser.into_bytes();

    assert_eq!(out.len(), 59);

    let len = 2i64.to_be_bytes();
    let mut span = vec![b'{', b'#', b'L'];
    span.extend_from_slice(&len);
    assert_eq!(out[..11], span);

    // 1st field
    let len = ("field1".len() as i64).to_be_bytes();
    let mut span = vec![b'L'];
    span.extend_from_slice(&len);
    span.extend_from_slice("field1".as_bytes());
    assert_eq!(out[11..26], span);

    assert_eq!(out[26], b'l');
    assert_eq!(out[27..31], 1i32.to_be_bytes());

    // 2nd field
    let len = ("field2".len() as i64).to_be_bytes();
    let mut span = vec![b'L'];
    span.extend_from_slice(&len);
    span.extend_from_slice("field2".as_bytes());
    assert_eq!(out[31..46], span);

    assert_eq!(out[46], b'S');
    assert_eq!(out[47], b'L');
    assert_eq!(out[48..56], 3i64.to_be_bytes());
    assert_eq!(&out[56..], b"val");
}

#[test]
fn serializing_char_produces_one_character_string_value() {
    let mut ser = new_serializer();
    ser.serialize_char('A').unwrap();
    let out = ser.into_bytes();

    assert_eq!(out.len(), 11);
    assert_eq!(out[0], b'S');
    assert_eq!(out[1], b'L');
    assert_eq!(out[2..10], 1i64.to_be_bytes());
    assert_eq!(out[10], b'A');
}

#[test]
fn serializing_u16_widens_to_the_i32_encoding() {
    let mut ser = new_serializer();
    ser.serialize_u16(65535u16).unwrap();
    let out = ser.into_bytes();

    assert_eq!(out.len(), 5);
    assert_eq!(out[0], b'l');
    assert_eq!(out[1..], 65535i32.to_be_bytes());
}

#[test]
fn serializing_u32_widens_to_the_i64_encoding() {
    let mut ser = new_serializer();
    ser.serialize_u32(4294967295u32).unwrap();
    let out = ser.into_bytes();

    assert_eq!(out.len(), 9);
    assert_eq!(out[0], b'L');
    assert_eq!(out[1..], 4294967295i64.to_be_bytes());
}

#[test]
fn serializing_u64_produces_decimal_number_value() {
    let mut ser = new_serializer();
    ser.serialize_u64(18446744073709551615u64).unwrap();
    let out = ser.into_bytes();

    let digits = b"18446744073709551615";
    assert_eq!(out[0], b'H');
    assert_eq!(out[1], b'L');
    assert_eq!(out[2..10], (digits.len() as i64).to_be_bytes());
    assert_eq!(&out[10..], digits);
}

#[test]
fn serializing_unit_variant_produces_bare_string() {
    let mut ser = new_serializer();
    ser.serialize_unit_variant("Unit").unwrap();
    let out = ser.into_bytes();

    assert_eq!(out[0], b'S');
    assert_eq!(out[1], b'L');
    assert_eq!(out[2..10], 4i64.to_be_bytes());
    assert_eq!(&out[10..], b"Unit");
}

#[test]
fn serializing_newtype_variant_produces_counted_one_entry_object() {
    let mut ser = new_serializer();
    ser.serialize_newtype_variant("NewType").unwrap();
    ser.serialize_i32(7).unwrap();
    let out = ser.into_bytes();

    let mut expected = vec![b'{', b'#', b'L'];
    expected.extend_from_slice(&1i64.to_be_bytes());
    expected.extend_from_slice(&b'L'.to_be_bytes());
    expected.extend_from_slice(&7i64.to_be_bytes());
    expected.extend_from_slice(b"NewType");
    expected.push(b'l');
    expected.extend_from_slice(&7i32.to_be_bytes());
    assert_eq!(out, expected);
}
