use bintag::de::Deserializer;

#[test]
fn deserializing_open_and_close_bracket_can_produce_empty_vec() {
    let data = b"[]";

    let mut de = Deserializer::new(data.to_vec());
    let value = de.deserialize_i8_seq().unwrap();
    assert_eq!(value, vec![]);
}

#[test]
fn deserializing_open_bracket_with_length_of_0_can_produce_empty_vec() {
    let mut data = vec![b'['];
    data.extend_from_slice(b"#");
    data.extend_from_slice(b"i");
    data.extend_from_slice(&0i8.to_be_bytes());

    let mut de = Deserializer::new(data);
    let value = de.deserialize_i8_seq().unwrap();
    assert_eq!(value, vec![]);
}

#[test]
fn deserializing_open_and_close_bracket_with_small_i_values_can_produce_vec() {
    let mut data = vec![b'['];
    data.extend_from_slice(b"i");
    data.extend_from_slice(&1i8.to_be_bytes());
    data.extend_from_slice(b"i");
    data.extend_from_slice(&2i8.to_be_bytes());
    data.extend_from_slice(b"i");
    data.extend_from_slice(&3i8.to_be_bytes());
    data.extend_from_slice(b"]");

    let mut de = Deserializer::new(data);
    let value = de.deserialize_i8_seq().unwrap();
    assert_eq!(value, vec![1i8, 2i8, 3i8]);
}

#[test]
fn deserializing_open_and_close_bracket_with_strings_of_i_len_can_produce_vec() {
    let mut data = vec![b'['];
    data.extend_from_slice(b"S");
    data.extend_from_slice(b"i");
    data.extend_from_slice(&1i8.to_be_bytes());
    data.extend_from_slice(b"t");
    data.extend_from_slice(b"S");
    data.extend_from_slice(b"i");
    data.extend_from_slice(&2i8.to_be_bytes());
    data.extend_from_slice(b"te");
    data.extend_from_slice(b"S");
    data.extend_from_slice(b"i");
    data.extend_from_slice(&3i8.to_be_bytes());
    data.extend_from_slice(b"tes");
    data.extend_from_slice(b"S");
    data.extend_from_slice(b"i");
    data.extend_from_slice(&4i8.to_be_bytes());
    data.extend_from_slice(b"test");
    data.extend_from_slice(b"]");

    let mut de = Deserializer::new(data);
    let value = de.deserialize_string_seq().unwrap();
    assert_eq!(
        value,
        vec![
            "t".to_string(),
            "te".to_string(),
            "tes".to_string(),
            "test".to_string(),
        ]
    );
}

#[test]
fn deserializing_open_bracket_with_small_i_values_and_length_of_i_can_produce_vec() {
    let mut data = vec![b'['];
    data.extend_from_slice(b"#");
    data.extend_from_slice(b"i");
    data.extend_from_slice(&3i8.to_be_bytes());

    data.extend_from_slice(b"i");
    data.extend_from_slice(&1i8.to_be_bytes());
    data.extend_from_slice(b"i");
    data.extend_from_slice(&2i8.to_be_bytes());
    data.extend_from_slice(b"i");
    data.extend_from_slice(&3i8.to_be_bytes());

    let mut de = Deserializer::new(data);
    let value = de.deserialize_i8_seq().unwrap();
    assert_eq!(value, vec![1i8, 2i8, 3i8]);
}

#[test]
fn deserializing_open_bracket_with_string_values_and_length_of_i_can_produce_vec() {
    let mut data = vec![b'['];
    data.extend_from_slice(b"#");
    data.extend_from_slice(b"i");
    data.extend_from_slice(&4i8.to_be_bytes());

    data.extend_from_slice(b"S");
    data.extend_from_slice(b"i");
    data.extend_from_slice(&1i8.to_be_bytes());
    data.extend_from_slice(b"t");
    data.extend_from_slice(b"S");
    data.extend_from_slice(b"i");
    data.extend_from_slice(&2i8.to_be_bytes());
    data.extend_from_slice(b"te");
    data.extend_from_slice(b"S");
    data.extend_from_slice(b"i");
    data.extend_from_slice(&3i8.to_be_bytes());
    data.extend_from_slice(b"tes");
    data.extend_from_slice(b"S");
    data.extend_from_slice(b"i");
    data.extend_from_slice(&4i8.to_be_bytes());
    data.extend_from_slice(b"test");

    let mut de = Deserializer::new(data);
    let value = de.deserialize_string_seq().unwrap();
    assert_eq!(
        value,
        vec![
            "t".to_string(),
            "te".to_string(),
            "tes".to_string(),
            "test".to_string(),
        ]
    );
}

#[test]
fn deserializing_open_bracket_with_small_i_values_of_type_i_and_of_len_i_can_produce_vec() {
    let mut data = vec![b'['];
    data.extend_from_slice(b"$");
    data.extend_from_slice(b"i");
    data.extend_from_slice(b"#");
    data.extend_from_slice(b"i");
    data.extend_from_slice(&3i8.to_be_bytes());

    data.extend_from_slice(&1i8.to_be_bytes());
    data.extend_from_slice(&2i8.to_be_bytes());
    data.extend_from_slice(&3i8.to_be_bytes());

    let mut de = Deserializer::new(data);
    let value = de.deserialize_i8_seq().unwrap();
    assert_eq!(value, vec![1i8, 2i8, 3i8]);
}

#[test]
fn deserializing_open_bracket_with_string_values_of_type_big_s_and_of_len_i_can_produce_vec() {
    let mut data = vec![b'['];
    data.extend_from_slice(b"$");
    data.extend_from_slice(b"S");
    data.extend_from_slice(b"#");
    data.extend_from_slice(b"i");
    data.extend_from_slice(&4i8.to_be_bytes());

    data.extend_from_slice(b"i");
    data.extend_from_slice(&1i8.to_be_bytes());
    data.extend_from_slice(b"t");
    data.extend_from_slice(b"i");
    data.extend_from_slice(&2i8.to_be_bytes());
    data.extend_from_slice(b"te");
    data.extend_from_slice(b"i");
    data.extend_from_slice(&3i8.to_be_bytes());
    data.extend_from_slice(b"tes");
    data.extend_from_slice(b"i");
    data.extend_from_slice(&4i8.to_be_bytes());
    data.extend_from_slice(b"test");

    let mut de = Deserializer::new(data);
    let value = de.deserialize_string_seq().unwrap();
    assert_eq!(
        value,
        vec![
            "t".to_string(),
            "te".to_string(),
            "tes".to_string(),
            "test".to_string(),
        ]
    );
}

#[test]
fn deserializing_open_bracket_with_big_u_values_of_len_i_can_produce_byte_slice() {
    let mut data = vec![b'['];
    data.extend_from_slice(b"$");
    data.extend_from_slice(b"U");
    data.extend_from_slice(b"#");
    data.extend_from_slice(b"i");
    data.extend_from_slice(&4i8.to_be_bytes());

    data.extend_from_slice(&1u8.to_be_bytes());
    data.extend_from_slice(&2u8.to_be_bytes());
    data.extend_from_slice(&3u8.to_be_bytes());
    data.extend_from_slice(&4u8.to_be_bytes());

    let mut de = Deserializer::new(data);
    let value = de.deserialize_bytes().unwrap();
    assert_eq!(value, &[1u8, 2u8, 3u8, 4u8]);
}

#[test]
fn deserializing_open_and_close_brace_can_produce_empty_map() {
    let data = b"{}";

    let mut de = Deserializer::new(data.to_vec());
    let value = de.deserialize_i8_map().unwrap();
    assert_eq!(value.len(), 0);
}

#[test]
fn deserializing_open_brace_with_length_of_0_can_produce_empty_map() {
    let mut data = vec![b'{'];
    data.extend_from_slice(b"#");
    data.extend_from_slice(b"i");
    data.extend_from_slice(&0i8.to_be_bytes());

    let mut de = Deserializer::new(data);
    let value = de.deserialize_i8_map().unwrap();
    assert_eq!(value.len(), 0);
}

#[test]
fn deserializing_open_and_close_brace_with_small_i_values_can_produce_map() {
    let mut data = vec![b'{'];

    data.extend_from_slice(b"i");
    data.extend_from_slice(&1i8.to_be_bytes());
    data.extend_from_slice(b"t");
    data.extend_from_slice(b"i");
    data.extend_from_slice(&1i8.to_be_bytes());

    data.extend_from_slice(b"i");
    data.extend_from_slice(&4i8.to_be_bytes());
    data.extend_from_slice(b"test");
    data.extend_from_slice(b"i");
    data.extend_from_slice(&4i8.to_be_bytes());

    data.extend_from_slice(b"}");

    let mut de = Deserializer::new(data);
    let value = de.deserialize_i8_map().unwrap();
    assert_eq!(
        value,
        vec![("t".to_string(), 1), ("test".to_string(), 4)]
    );
}

#[test]
fn deserializing_open_and_close_brace_with_strings_of_i_len_can_produce_map() {
    let mut data = vec![b'{'];

    data.extend_from_slice(b"i");
    data.extend_from_slice(&1i8.to_be_bytes());
    data.extend_from_slice(b"t");
    data.extend_from_slice(b"S");
    data.extend_from_slice(b"i");
    data.extend_from_slice(&1i8.to_be_bytes());
    data.extend_from_slice(b"1");

    data.extend_from_slice(b"i");
    data.extend_from_slice(&4i8.to_be_bytes());
    data.extend_from_slice(b"test");
    data.extend_from_slice(b"S");
    data.extend_from_slice(b"i");
    data.extend_from_slice(&1i8.to_be_bytes());
    data.extend_from_slice(b"4");

    data.extend_from_slice(b"}");

    let mut de = Deserializer::new(data);
    let value = de.deserialize_string_map().unwrap();
    assert_eq!(
        value,
        vec![
            ("t".to_string(), "1".to_string()),
            ("test".to_string(), "4".to_string()),
        ]
    );
}

#[test]
fn deserializing_open_brace_with_small_i_values_and_length_of_i_can_produce_map() {
    let mut data = vec![b'{'];
    data.extend_from_slice(b"#");
    data.extend_from_slice(b"i");
    data.extend_from_slice(&2i8.to_be_bytes());

    data.extend_from_slice(b"i");
    data.extend_from_slice(&1i8.to_be_bytes());
    data.extend_from_slice(b"t");
    data.extend_from_slice(b"i");
    data.extend_from_slice(&1i8.to_be_bytes());

    data.extend_from_slice(b"i");
    data.extend_from_slice(&4i8.to_be_bytes());
    data.extend_from_slice(b"test");
    data.extend_from_slice(b"i");
    data.extend_from_slice(&4i8.to_be_bytes());

    let mut de = Deserializer::new(data);
    let value = de.deserialize_i8_map().unwrap();
    assert_eq!(
        value,
        vec![("t".to_string(), 1), ("test".to_string(), 4)]
    );
}

#[test]
fn deserializing_open_brace_with_string_values_and_length_of_i_can_produce_map() {
    let mut data = vec![b'{'];
    data.extend_from_slice(b"#");
    data.extend_from_slice(b"i");
    data.extend_from_slice(&2i8.to_be_bytes());

    data.extend_from_slice(b"i");
    data.extend_from_slice(&1i8.to_be_bytes());
    data.extend_from_slice(b"t");
    data.extend_from_slice(b"S");
    data.extend_from_slice(b"i");
    data.extend_from_slice(&1i8.to_be_bytes());
    data.extend_from_slice(b"1");

    data.extend_from_slice(b"i");
    data.extend_from_slice(&4i8.to_be_bytes());
    data.extend_from_slice(b"test");
    data.extend_from_slice(b"S");
    data.extend_from_slice(b"i");
    data.extend_from_slice(&1i8.to_be_bytes());
    data.extend_from_slice(b"4");

    let mut de = Deserializer::new(data);
    let value = de.deserialize_string_map().unwrap();
    assert_eq!(
        value,
        vec![
            ("t".to_string(), "1".to_string()),
            ("test".to_string(), "4".to_string()),
        ]
    );
}

#[test]
fn deserializing_open_brace_with_small_i_values_of_type_i_and_of_len_i_can_produce_map() {
    let mut data = vec![b'{'];
    data.extend_from_slice(b"$");
    data.extend_from_slice(b"i");
    data.extend_from_slice(b"#");
    data.extend_from_slice(b"i");
    data.extend_from_slice(&2i8.to_be_bytes());

    data.extend_from_slice(b"i");
    data.extend_from_slice(&1i8.to_be_bytes());
    data.extend_from_slice(b"t");
    data.extend_from_slice(&1i8.to_be_bytes());

    data.extend_from_slice(b"i");
    data.extend_from_slice(&4i8.to_be_bytes());
    data.extend_from_slice(b"test");
    data.extend_from_slice(&4i8.to_be_bytes());

    let mut de = Deserializer::new(data);
    let value = de.deserialize_i8_map().unwrap();
    assert_eq!(
        value,
        vec![("t".to_string(), 1), ("test".to_string(), 4)]
    );
}

#[test]
fn deserializing_open_brace_with_string_values_of_type_big_s_and_of_len_i_can_produce_map() {
    let mut data = vec![b'{'];
    data.extend_from_slice(b"$");
    data.extend_from_slice(b"S");
    data.extend_from_slice(b"#");
    data.extend_from_slice(b"i");
    data.extend_from_slice(&2i8.to_be_bytes());

    data.extend_from_slice(b"i");
    data.extend_from_slice(&1i8.to_be_bytes());
    data.extend_from_slice(b"t");
    data.extend_from_slice(b"i");
    data.extend_from_slice(&1i8.to_be_bytes());
    data.extend_from_slice(b"1");

    data.extend_from_slice(b"i");
    data.extend_from_slice(&4i8.to_be_bytes());
    data.extend_from_slice(b"test");
    data.extend_from_slice(b"i");
    data.extend_from_slice(&1i8.to_be_bytes());
    data.extend_from_slice(b"4");

    let mut de = Deserializer::new(data);
    let value = de.deserialize_string_map().unwrap();
    assert_eq!(
        value,
        vec![
            ("t".to_string(), "1".to_string()),
            ("test".to_string(), "4".to_string()),
        ]
    );
}

#[test]
fn framing_strategies_decode_to_the_same_sequence() {
    let delimited = vec![b'[', b'i', 1, b'i', 2, b'i', 3, b']'];
    let counted = vec![b'[', b'#', b'i', 3, b'i', 1, b'i', 2, b'i', 3];
    let typed_counted = vec![b'[', b'$', b'i', b'#', b'i', 3, 1, 2, 3];

    let mut d1 = Deserializer::new(delimited);
    let mut d2 = Deserializer::new(counted);
    let mut d3 = Deserializer::new(typed_counted);
    let a = d1.deserialize_i8_seq().unwrap();
    let b = d2.deserialize_i8_seq().unwrap();
    let c = d3.deserialize_i8_seq().unwrap();

    assert_eq!(a, vec![1i8, 2i8, 3i8]);
    assert_eq!(a, b);
    assert_eq!(b, c);
}
