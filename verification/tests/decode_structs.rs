use bintag::de::{Deserializer, VariantHead};

struct SimpleStruct {
    field1: i32,
    field2: String,
}

struct UniformStruct {
    field1: i32,
    field2: i32,
}

enum SimpleEnum {
    Unit,
    NewType(i32),
    Tuple(i32, i32),
    Struct { field1: i32, field2: i32 },
}

fn read_simple_struct(de: &mut Deserializer) -> SimpleStruct {
    let mut obj = de.deserialize_map().unwrap();
    let mut field1: Option<i32> = None;
    let mut field2: Option<String> = None;
    while let Some(key) = obj.next_key(de).unwrap() {
        obj.next_value_begin(de);
        match key.as_str() {
            "field1" => field1 = Some(de.deserialize_i32().unwrap()),
            "field2" => field2 = Some(de.deserialize_string().unwrap()),
            _ => panic!("unexpected field"),
        }
    }
    SimpleStruct { field1: field1.unwrap(), field2: field2.unwrap() }
}

fn read_uniform_struct(de: &mut Deserializer) -> UniformStruct {
    let mut obj = de.deserialize_map().unwrap();
    let mut field1: Option<i32> = None;
    let mut field2: Option<i32> = None;
    while let Some(key) = obj.next_key(de).unwrap() {
        obj.next_value_begin(de);
        match key.as_str() {
            "field1" => field1 = Some(de.deserialize_i32().unwrap()),
            "field2" => field2 = Some(de.deserialize_i32().unwrap()),
            _ => panic!("unexpected field"),
        }
    }
    UniformStruct { field1: field1.unwrap(), field2: field2.unwrap() }
}

fn read_i32_pair_seq(de: &mut Deserializer) -> (i32, i32) {
    let mut arr = de.deserialize_seq().unwrap();
    let mut items: Vec<i32> = Vec::new();
    loop {
        let more = arr.next_element_begin(de).unwrap();
        if !more {
            break;
        }
        items.push(de.deserialize_i32().unwrap());
        arr.next_element_end(de).unwrap();
    }
    assert_eq!(items.len(), 2);
    (items[0], items[1])
}

fn read_simple_enum(de: &mut Deserializer) -> SimpleEnum {
    match de.deserialize_enum_begin().unwrap() {
        VariantHead::Unit(name) => match name.as_str() {
            "Unit" => SimpleEnum::Unit,
            _ => panic!("unexpected variant"),
        },
        VariantHead::Entry { name, counted } => {
            let value = match name.as_str() {
                "NewType" => SimpleEnum::NewType(de.deserialize_i32().unwrap()),
                "Tuple" => {
                    let (one, two) = read_i32_pair_seq(de);
                    SimpleEnum::Tuple(one, two)
                },
                "Struct" => {
                    let s = read_uniform_struct(de);
                    SimpleEnum::Struct { field1: s.field1, field2: s.field2 }
                },
                _ => panic!("unexpected variant"),
            };
            de.deserialize_enum_end(counted).unwrap();
            value
        },
    }
}

#[test]
fn deserializing_open_and_close_brace_with_mixed_values_can_produce_struct() {
    let mut data = vec![b'{'];

    data.extend_from_slice(b"i");
    data.extend_from_slice(&6i8.to_be_bytes());
    data.extend_from_slice(b"field1");
    data.extend_from_slice(b"l");
    data.extend_from_slice(&1i32.to_be_bytes());

    data.extend_from_slice(b"i");
    data.extend_from_slice(&6i8.to_be_bytes());
    data.extend_from_slice(b"field2");
    data.extend_from_slice(b"S");
    data.extend_from_slice(b"i");
    data.extend_from_slice(&1i8.to_be_bytes());
    data.extend_from_slice(b"6");

    data.extend_from_slice(b"}");

    let mut de = Deserializer::new(data);
    let value = read_simple_struct(&mut de);
    assert_eq!(value.field1, 1i32);
    assert_eq!(value.field2, "6".to_string());
}

#[test]
fn deserializing_open_brace_with_uniform_values_of_len_i_can_produce_struct() {
    let mut data = vec![b'{'];
    data.extend_from_slice(b"$");
    data.extend_from_slice(b"l");
    data.extend_from_slice(b"#");
    data.extend_from_slice(b"i");
    data.extend_from_slice(&2i8.to_be_bytes());

    data.extend_from_slice(b"i");
    data.extend_from_slice(&6i8.to_be_bytes());
    data.extend_from_slice(b"field1");
    data.extend_from_slice(&1i32.to_be_bytes());

    data.extend_from_slice(b"i");
    data.extend_from_slice(&6i8.to_be_bytes());
    data.extend_from_slice(b"field2");
    data.extend_from_slice(&2i32.to_be_bytes());

    let mut de = Deserializer::new(data);
    let value = read_uniform_struct(&mut de);
    assert_eq!(value.field1, 1i32);
    assert_eq!(value.field2, 2i32);
}

#[test]
fn deserializing_open_and_close_brace_with_1_value_can_produce_newtype_variant_of_enum() {
    let mut data = vec![b'{'];

    data.extend_from_slice(b"i");
    data.extend_from_slice(&7i8.to_be_bytes());
    data.extend_from_slice(b"NewType");
    data.extend_from_slice(b"l");
    data.extend_from_slice(&7i32.to_be_bytes());

    data.extend_from_slice(b"}");

    let mut de = Deserializer::new(data);
    let value = read_simple_enum(&mut de);
    match value {
        SimpleEnum::NewType(n) => assert_eq!(n, 7),
        _ => panic!("Expected newtype"),
    }
}

#[test]
fn deserializing_open_brace_with_1_value_can_produce_newtype_variant_of_enum() {
    let mut data = vec![b'{'];
    data.extend_from_slice(b"#");
    data.extend_from_slice(b"i");
    data.extend_from_slice(&1i8.to_be_bytes());

    data.extend_from_slice(b"i");
    data.extend_from_slice(&7i8.to_be_bytes());
    data.extend_from_slice(b"NewType");
    data.extend_from_slice(b"l");
    data.extend_from_slice(&7i32.to_be_bytes());

    let mut de = Deserializer::new(data);
    let value = read_simple_enum(&mut de);
    match value {
        SimpleEnum::NewType(n) => assert_eq!(n, 7),
        _ => panic!("Expected newtype"),
    }
}

#[test]
fn deserializing_open_and_close_brace_with_1_value_can_produce_tuple_variant_of_enum() {
    let mut data = vec![b'{'];

    data.extend_from_slice(b"i");
    data.extend_from_slice(&5i8.to_be_bytes());
    data.extend_from_slice(b"Tuple");

    data.extend_from_slice(b"[");
    data.extend_from_slice(b"l");
    data.extend_from_slice(&1i32.to_be_bytes());
    data.extend_from_slice(b"l");
    data.extend_from_slice(&2i32.to_be_bytes());
    data.extend_from_slice(b"]");

    data.extend_from_slice(b"}");

    let mut de = Deserializer::new(data);
    let value = read_simple_enum(&mut de);
    match value {
        SimpleEnum::Tuple(one, two) => {
            assert_eq!(one, 1);
            assert_eq!(two, 2);
        },
        _ => panic!("Expected tuple"),
    }
}

#[test]
fn deserializing_open_brace_with_1_value_can_produce_tuple_variant_of_enum() {
    let mut data = vec![b'{'];
    data.extend_from_slice(b"#");
    data.extend_from_slice(b"i");
    data.extend_from_slice(&1i8.to_be_bytes());

    data.extend_from_slice(b"i");
    data.extend_from_slice(&5i8.to_be_bytes());
    data.extend_from_slice(b"Tuple");

    data.extend_from_slice(b"[");
    data.extend_from_slice(b"l");
    data.extend_from_slice(&1i32.to_be_bytes());
    data.extend_from_slice(b"l");
    data.extend_from_slice(&2i32.to_be_bytes());
    data.extend_from_slice(b"]");

    let mut de = Deserializer::new(data);
    let value = read_simple_enum(&mut de);
    match value {
        SimpleEnum::Tuple(one, two) => {
            assert_eq!(one, 1);
            assert_eq!(two, 2);
        },
        _ => panic!("Expected tuple"),
    }
}

#[test]
fn deserializing_open_and_close_brace_with_1_value_can_produce_struct_variant_of_enum() {
    let mut data = vec![b'{'];

    data.extend_from_slice(b"i");
    data.extend_from_slice(&6i8.to_be_bytes());
    data.extend_from_slice(b"Struct");

    data.extend_from_slice(b"{");

    data.extend_from_slice(b"i");
    data.extend_from_slice(&6i8.to_be_bytes());
    data.extend_from_slice(b"field1");
    data.extend_from_slice(b"l");
    data.extend_from_slice(&1i32.to_be_bytes());

    data.extend_from_slice(b"i");
    data.extend_from_slice(&6i8.to_be_bytes());
    data.extend_from_slice(b"field2");
    data.extend_from_slice(b"l");
    data.extend_from_slice(&2i32.to_be_bytes());

    data.extend_from_slice(b"}");

    data.extend_from_slice(b"}");

    let mut de = Deserializer::new(data);
    let value = read_simple_enum(&mut de);
    match value {
        SimpleEnum::Struct { field1, field2 } => {
            assert_eq!(field1, 1);
            assert_eq!(field2, 2);
        },
        _ => panic!("Expected struct"),
    }
}

#[test]
fn deserializing_open_brace_with_1_value_can_produce_struct_variant_of_enum() {
    let mut data = vec![b'{'];
    data.extend_from_slice(b"#");
    data.extend_from_slice(b"i");
    data.extend_from_slice(&1i8.to_be_bytes());

    data.extend_from_slice(b"i");
    data.extend_from_slice(&6i8.to_be_bytes());
    data.extend_from_slice(b"Struct");

    data.extend_from_slice(b"{");

    data.extend_from_slice(b"i");
    data.extend_from_slice(&6i8.to_be_bytes());
    data.extend_from_slice(b"field1");
    data.extend_from_slice(b"l");
    data.extend_from_slice(&1i32.to_be_bytes());

    data.extend_from_slice(b"i");
    data.extend_from_slice(&6i8.to_be_bytes());
    data.extend_from_slice(b"field2");
    data.extend_from_slice(b"l");
    data.extend_from_slice(&2i32.to_be_bytes());

    data.extend_from_slice(b"}");

    let mut de = Deserializer::new(data);
    let value = read_simple_enum(&mut de);
    match value {
        SimpleEnum::Struct { field1, field2 } => {
            assert_eq!(field1, 1);
            assert_eq!(field2, 2);
        },
        _ => panic!("Expected struct"),
    }
}

#[test]
fn deserializing_bare_string_can_produce_unit_variant_of_enum() {
    let mut data = vec![b'S', b'i'];
    data.extend_from_slice(&4i8.to_be_bytes());
    data.extend_from_slice(b"Unit");

    let mut de = Deserializer::new(data);
    let value = read_simple_enum(&mut de);
    assert!(matches!(value, SimpleEnum::Unit));
}

#[test]
fn deserializing_record_variant_finds_fields_by_name_in_either_order() {
    let mut data = vec![b'{'];
    data.extend_from_slice(b"i");
    data.extend_from_slice(&6i8.to_be_bytes());
    data.extend_from_slice(b"Struct");
    data.extend_from_slice(b"{");
    data.extend_from_slice(b"i");
    data.extend_from_slice(&6i8.to_be_bytes());
    data.extend_from_slice(b"field2");
    data.extend_from_slice(b"l");
    data.extend_from_slice(&2i32.to_be_bytes());
    data.extend_from_slice(b"i");
    data.extend_from_slice(&6i8.to_be_bytes());
    data.extend_from_slice(b"field1");
    data.extend_from_slice(b"l");
    data.extend_from_slice(&1i32.to_be_bytes());
    data.extend_from_slice(b"}");
    data.extend_from_slice(b"}");

    let mut de = Deserializer::new(data);
    let value = read_simple_enum(&mut de);
    match value {
        SimpleEnum::Struct { field1, field2 } => {
            assert_eq!(field1, 1);
            assert_eq!(field2, 2);
        },
        _ => panic!("Expected struct"),
    }
}
