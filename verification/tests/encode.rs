use nvpair::{
    decode_list, decode_value, encode, from_nvlist, from_nvlist_with, to_nvlist, Deserializer,
    Entry, Error, Field, FieldShape, Kind, NvData, NvEncoding, NvList, NvType, Policy,
    SeqAccessor, Shape, Unsupported, Value, VariantShape,
};

fn field(name: &str, value: Value) -> Field {
    Field { name: name.to_string(), value }
}

fn field_shape(name: &str, shape: Shape) -> FieldShape {
    FieldShape { name: name.to_string(), shape }
}

fn some(v: Value) -> Value {
    Value::Optional(Some(Box::new(v)))
}

fn none() -> Value {
    Value::Optional(None)
}

fn optional(s: Shape) -> Shape {
    Shape::Optional(Box::new(s))
}

#[test]
fn it_works() {
    assert_eq!(2 + 2, 4);
}

#[test]
fn scalars_encode_to_their_tags() {
    assert_eq!(encode(&Value::Unit), Ok(Some(NvData::Bool)));
    assert_eq!(encode(&Value::Bool(true)), Ok(Some(NvData::BoolV(true))));
    assert_eq!(encode(&Value::Byte(7)), Ok(Some(NvData::Byte(7))));
    assert_eq!(encode(&Value::I8(-1)), Ok(Some(NvData::Int8(-1))));
    assert_eq!(encode(&Value::U8(1)), Ok(Some(NvData::Uint8(1))));
    assert_eq!(encode(&Value::I16(-2)), Ok(Some(NvData::Int16(-2))));
    assert_eq!(encode(&Value::U16(2)), Ok(Some(NvData::Uint16(2))));
    assert_eq!(encode(&Value::I32(-3)), Ok(Some(NvData::Int32(-3))));
    assert_eq!(encode(&Value::U32(3)), Ok(Some(NvData::Uint32(3))));
    assert_eq!(encode(&Value::I64(-4)), Ok(Some(NvData::Int64(-4))));
    assert_eq!(encode(&Value::U64(4)), Ok(Some(NvData::Uint64(4))));
    assert_eq!(
        encode(&Value::Str("text".to_string())),
        Ok(Some(NvData::Str("text".to_string())))
    );
}

#[test]
fn absent_value_is_omitted_and_present_value_is_transparent() {
    assert_eq!(encode(&none()), Ok(None));
    assert_eq!(encode(&some(Value::U8(1))), Ok(Some(NvData::Uint8(1))));
    assert_eq!(encode(&some(some(Value::U8(1)))), Ok(Some(NvData::Uint8(1))));
}

#[test]
fn unit_variant_is_its_name() {
    assert_eq!(
        encode(&Value::UnitVariant("On".to_string())),
        Ok(Some(NvData::Str("On".to_string())))
    );
}

#[test]
fn newtype_variant_is_a_list_of_one_entry() {
    let v = Value::NewtypeVariant("Size".to_string(), Box::new(Value::U64(9)));
    let l = to_nvlist(&v).unwrap();
    assert!(l.unique_names());
    assert_eq!(l.len(), 1);
    assert_eq!(l.get(0).name(), "Size");
    assert_eq!(l.get(0).data(), &NvData::Uint64(9));
}

#[test]
fn variants_with_several_fields_are_refused() {
    assert_eq!(
        encode(&Value::TupleVariant("T".to_string(), vec![Value::U8(1), Value::U8(2)])),
        Err(Error::UnsupportedShape(Unsupported::EnumVariant))
    );
    assert_eq!(
        encode(&Value::StructVariant("S".to_string(), vec![field("a", Value::U8(1))])),
        Err(Error::UnsupportedShape(Unsupported::EnumVariant))
    );
}

#[test]
fn array_of_u32() {
    let v = Value::Sequence(vec![Value::U32(1), Value::U32(2), Value::U32(3)]);
    assert_eq!(encode(&v), Ok(Some(NvData::Uint32Array(vec![1, 2, 3]))));
    let rec = Value::Record(vec![field("xs", v)]);
    let l = to_nvlist(&rec).unwrap();
    assert_eq!(l.len(), 1);
    match l.get(0).data() {
        NvData::Uint32Array(a) => assert_eq!(a.len(), 3),
        _ => panic!("Unexpected type"),
    }
}

#[test]
fn arrays_of_every_kind() {
    assert_eq!(
        encode(&Value::Sequence(vec![Value::Byte(1), Value::Byte(2)])),
        Ok(Some(NvData::ByteArray(vec![1, 2])))
    );
    assert_eq!(
        encode(&Value::Sequence(vec![Value::I8(-1)])),
        Ok(Some(NvData::Int8Array(vec![-1])))
    );
    assert_eq!(
        encode(&Value::Sequence(vec![Value::U8(1)])),
        Ok(Some(NvData::Uint8Array(vec![1])))
    );
    assert_eq!(
        encode(&Value::Sequence(vec![Value::I16(-1)])),
        Ok(Some(NvData::Int16Array(vec![-1])))
    );
    assert_eq!(
        encode(&Value::Sequence(vec![Value::U16(1)])),
        Ok(Some(NvData::Uint16Array(vec![1])))
    );
    assert_eq!(
        encode(&Value::Sequence(vec![Value::I32(-1)])),
        Ok(Some(NvData::Int32Array(vec![-1])))
    );
    assert_eq!(
        encode(&Value::Sequence(vec![Value::I64(-1)])),
        Ok(Some(NvData::Int64Array(vec![-1])))
    );
    assert_eq!(
        encode(&Value::Sequence(vec![Value::U64(1)])),
        Ok(Some(NvData::Uint64Array(vec![1])))
    );
    let rec = Value::Record(vec![field("a", Value::U8(1))]);
    let rec2 = Value::Record(vec![field("a", Value::U8(2))]);
    match encode(&Value::Sequence(vec![rec, rec2])) {
        Ok(Some(NvData::NvListArray(ls))) => {
            assert_eq!(ls.len(), 2);
            assert_eq!(ls[0].lookup("a").unwrap().data(), &NvData::Uint8(1));
            assert_eq!(ls[1].lookup("a").unwrap().data(), &NvData::Uint8(2));
        }
        other => panic!("Unexpected {:?}", other),
    }
}

#[test]
fn empty_sequence_is_refused() {
    assert_eq!(
        encode(&Value::Sequence(vec![])),
        Err(Error::UnsupportedShape(Unsupported::EmptySequence))
    );
}

#[test]
fn mixed_sequence_is_refused() {
    let rec = Value::Record(vec![field("a", Value::U8(1))]);
    assert_eq!(
        encode(&Value::Sequence(vec![Value::U32(1), rec])),
        Err(Error::UnsupportedShape(Unsupported::HeterogeneousSequence))
    );
    assert_eq!(
        encode(&Value::Sequence(vec![Value::U32(1), Value::U64(1)])),
        Err(Error::UnsupportedShape(Unsupported::HeterogeneousSequence))
    );
}

#[test]
fn sequences_without_an_array_kind_are_refused() {
    let refused = Err(Error::UnsupportedShape(Unsupported::SequenceElement));
    assert_eq!(encode(&Value::Sequence(vec![Value::Str("a".to_string())])), refused);
    assert_eq!(encode(&Value::Sequence(vec![Value::Bool(true)])), refused);
    assert_eq!(encode(&Value::Sequence(vec![Value::Unit])), refused);
    assert_eq!(encode(&Value::Sequence(vec![none()])), refused);
    assert_eq!(
        encode(&Value::Sequence(vec![Value::Sequence(vec![Value::U8(1)])])),
        refused
    );
}

#[test]
fn an_element_that_fails_comes_before_the_shape_of_the_sequence() {
    let v = Value::Sequence(vec![
        Value::U8(1),
        Value::U16(1),
        Value::Str("a\0b".to_string()),
    ]);
    assert_eq!(encode(&v), Err(Error::TextEncodingError));
}

#[test]
fn option_as_omission() {
    let v = Value::Record(vec![field("a", some(Value::U8(1))), field("b", none())]);
    let l = to_nvlist(&v).unwrap();
    assert!(l.unique_names());
    assert_eq!(l.len(), 1);
    assert_eq!(l.get(0).name(), "a");
    assert_eq!(l.get(0).data(), &NvData::Uint8(1));
    assert!(!l.contains("b"));

    let s = Shape::Record(vec![
        field_shape("a", optional(Shape::U8)),
        field_shape("b", optional(Shape::U8)),
    ]);
    assert_eq!(from_nvlist(&l, &s), Ok(v));
}

#[test]
fn concrete_record() {
    let v = Value::Record(vec![
        field("name", Value::Str("snap1".to_string())),
        field("force", Value::Bool(true)),
        field("count", Value::U32(3)),
    ]);
    let l = to_nvlist(&v).unwrap();
    assert!(l.unique_names());
    assert_eq!(l.len(), 3);
    assert_eq!(l.get(0).name(), "name");
    assert_eq!(l.get(0).data().tag(), NvType::Str);
    assert_eq!(l.get(1).name(), "force");
    assert_eq!(l.get(1).data().tag(), NvType::BoolV);
    assert_eq!(l.get(2).name(), "count");
    assert_eq!(l.get(2).data().tag(), NvType::Uint32);

    // header 16; "name": 24 + 8; "force": 24 + 8; "count": 24 + 8
    let size = l.encoded_size(NvEncoding::Native).unwrap();
    assert_eq!(size, 16 + 32 + 32 + 32);
    assert_eq!(l.encoded_size(NvEncoding::Native).unwrap(), size);
    assert_eq!(l.encoded_size(NvEncoding::Native).unwrap(), size);

    let s = Shape::Record(vec![
        field_shape("name", Shape::Str),
        field_shape("force", Shape::Bool),
        field_shape("count", Shape::U32),
    ]);
    assert_eq!(from_nvlist(&l, &s), Ok(v));
}

#[test]
fn record_with_two_fields_of_one_name_is_refused() {
    let v = Value::Record(vec![field("a", Value::U8(1)), field("a", Value::U8(2))]);
    assert_eq!(to_nvlist(&v), Err(Error::DuplicateName("a".to_string())));
}

#[test]
fn text_with_nul_is_refused() {
    assert_eq!(encode(&Value::Str("a\0".to_string())), Err(Error::TextEncodingError));
    assert_eq!(
        encode(&Value::UnitVariant("\0".to_string())),
        Err(Error::TextEncodingError)
    );
    let v = Value::Record(vec![field("a\0", Value::U8(1))]);
    assert_eq!(to_nvlist(&v), Err(Error::TextEncodingError));
}

#[test]
fn map_keys_must_be_text() {
    let v = Value::Mapping(vec![Entry { key: Value::U8(1), value: Value::U8(2) }]);
    assert_eq!(to_nvlist(&v), Err(Error::UnsupportedShape(Unsupported::MapKey)));
    let v = Value::Mapping(vec![Entry { key: none(), value: Value::U8(2) }]);
    assert_eq!(to_nvlist(&v), Err(Error::UnsupportedShape(Unsupported::MapKey)));
}

#[test]
fn map_round_trip() {
    let v = Value::Mapping(vec![
        Entry { key: Value::Str("one".to_string()), value: Value::U64(1) },
        Entry { key: Value::Str("two".to_string()), value: Value::U64(2) },
    ]);
    let l = to_nvlist(&v).unwrap();
    assert_eq!(l.len(), 2);
    assert_eq!(l.lookup_uint64("two"), Ok(2));
    let s = Shape::Mapping(Box::new(Shape::Str), Box::new(Shape::U64));
    assert_eq!(from_nvlist(&l, &s), Ok(v));
}

#[test]
fn map_with_a_key_twice_is_refused() {
    let v = Value::Mapping(vec![
        Entry { key: Value::Str("k".to_string()), value: Value::U64(1) },
        Entry { key: Value::Str("k".to_string()), value: Value::U64(2) },
    ]);
    assert_eq!(to_nvlist(&v), Err(Error::DuplicateName("k".to_string())));
}

#[test]
fn top_level_must_be_a_list() {
    assert_eq!(
        to_nvlist(&Value::U8(1)),
        Err(Error::UnsupportedShape(Unsupported::TopLevel))
    );
    assert_eq!(to_nvlist(&none()), Err(Error::UnsupportedShape(Unsupported::TopLevel)));
    assert_eq!(
        to_nvlist(&Value::Sequence(vec![Value::U8(1)])),
        Err(Error::UnsupportedShape(Unsupported::TopLevel))
    );
}

#[test]
fn nested_round_trip() {
    let inner_shape = Shape::Record(vec![
        field_shape("id", Shape::I64),
        field_shape("tags", Shape::Sequence(Box::new(Shape::U16))),
        field_shape("note", optional(Shape::Str)),
    ]);
    let mode = Shape::Enum(vec![
        VariantShape { name: "Off".to_string(), payload: None },
        VariantShape { name: "Level".to_string(), payload: Some(Shape::U8) },
    ]);
    let s = Shape::Record(vec![
        field_shape("unit", Shape::Unit),
        field_shape("byte", Shape::Byte),
        field_shape("inner", inner_shape),
        field_shape("mode", mode),
        field_shape("mode2", Shape::Enum(vec![
            VariantShape { name: "Off".to_string(), payload: None },
            VariantShape { name: "Level".to_string(), payload: Some(Shape::U8) },
        ])),
        field_shape("many", Shape::Sequence(Box::new(Shape::Record(vec![
            field_shape("x", Shape::I32),
        ])))),
    ]);
    let v = Value::Record(vec![
        field("unit", Value::Unit),
        field("byte", Value::Byte(255)),
        field(
            "inner",
            Value::Record(vec![
                field("id", Value::I64(-5)),
                field("tags", Value::Sequence(vec![Value::U16(1), Value::U16(65535)])),
                field("note", none()),
            ]),
        ),
        field("mode", Value::UnitVariant("Off".to_string())),
        field("mode2", Value::NewtypeVariant("Level".to_string(), Box::new(Value::U8(3)))),
        field(
            "many",
            Value::Sequence(vec![
                Value::Record(vec![field("x", Value::I32(1))]),
                Value::Record(vec![field("x", Value::I32(-1))]),
            ]),
        ),
    ]);
    let l = to_nvlist(&v).unwrap();
    assert_eq!(from_nvlist(&l, &s), Ok(v));
}

#[test]
fn present_unit_is_read_back_as_absent() {
    let v = Value::Record(vec![field("a", some(Value::Unit))]);
    let l = to_nvlist(&v).unwrap();
    assert_eq!(l.get(0).data(), &NvData::Bool);
    let s = Shape::Record(vec![field_shape("a", optional(Shape::Unit))]);
    assert_eq!(from_nvlist(&l, &s), Ok(Value::Record(vec![field("a", none())])));
}

#[test]
fn unknown_tag_is_rejected() {
    let mut l = NvList::new_unique_names();
    l.insert_data("a", NvData::Unknown).unwrap();
    for shape in [
        Shape::Unit,
        Shape::Bool,
        Shape::U8,
        Shape::Str,
        optional(Shape::U8),
        Shape::Sequence(Box::new(Shape::U8)),
        Shape::Record(vec![]),
    ] {
        let s = Shape::Record(vec![field_shape("a", shape)]);
        assert_eq!(from_nvlist(&l, &s), Err(Error::UnknownTag("a".to_string())));
    }
}

#[test]
fn no_conversion_between_widths() {
    let mut l = NvList::new_unique_names();
    l.insert("n", &5i32).unwrap();
    let s = Shape::Record(vec![field_shape("n", Shape::I64)]);
    assert_eq!(
        from_nvlist(&l, &s),
        Err(Error::TypeMismatch {
            name: "n".to_string(),
            expected: Kind::I64,
            found: NvType::Int32
        })
    );
}

#[test]
fn missing_field() {
    let l = NvList::new_unique_names();
    let s = Shape::Record(vec![field_shape("n", Shape::I64)]);
    assert_eq!(from_nvlist(&l, &s), Err(Error::MissingField("n".to_string())));
}

#[test]
fn entries_that_are_not_asked_for_are_passed_over() {
    let mut l = NvList::new();
    l.insert("n", &5i64).unwrap();
    l.insert("other", "text").unwrap();
    l.insert("n", &6i64).unwrap();
    let s = Shape::Record(vec![field_shape("n", Shape::I64)]);
    assert_eq!(from_nvlist(&l, &s), Ok(Value::Record(vec![field("n", Value::I64(5))])));
}

#[test]
fn top_level_shape_must_read_a_list() {
    let l = NvList::new();
    assert_eq!(
        from_nvlist(&l, &Shape::U8),
        Err(Error::TypeMismatch {
            name: "".to_string(),
            expected: Kind::U8,
            found: NvType::NvList
        })
    );
}

#[test]
fn enum_from_list_and_text() {
    let mode = || {
        Shape::Enum(vec![
            VariantShape { name: "Off".to_string(), payload: None },
            VariantShape { name: "Level".to_string(), payload: Some(Shape::U8) },
        ])
    };
    let mut l = NvList::new_unique_names();
    l.insert("Level", &4u8).unwrap();
    assert_eq!(
        from_nvlist(&l, &mode()),
        Ok(Value::NewtypeVariant("Level".to_string(), Box::new(Value::U8(4))))
    );
    let mut outer = NvList::new_unique_names();
    outer.insert("m", "Off").unwrap();
    outer.insert("bad", "Nope").unwrap();
    outer.insert("unit_as_list", &l).unwrap();
    let s = Shape::Record(vec![field_shape("m", mode())]);
    assert_eq!(
        from_nvlist(&outer, &s),
        Ok(Value::Record(vec![field("m", Value::UnitVariant("Off".to_string()))]))
    );
    let s = Shape::Record(vec![field_shape("bad", mode())]);
    assert_eq!(
        from_nvlist(&outer, &s),
        Err(Error::TypeMismatch {
            name: "bad".to_string(),
            expected: Kind::Enum,
            found: NvType::Str
        })
    );
}

#[test]
fn pulling_entries() {
    let mut l = NvList::new();
    l.insert("a", &1u8).unwrap();
    l.insert("b", "two").unwrap();
    l.insert("c", &3u64).unwrap();
    let mut cursor = Deserializer::from_nvlist(&l);
    assert_eq!(cursor.next_value(&Shape::U8), Err(Error::NotFound));
    assert_eq!(cursor.next_key(), Some("a"));
    assert_eq!(cursor.next_value(&Shape::U8), Ok(Value::U8(1)));
    assert_eq!(cursor.next_value(&Shape::U8), Err(Error::NotFound));
    assert_eq!(cursor.next_key(), Some("b"));
    cursor.skip_value();
    assert_eq!(cursor.next_value(&Shape::Str), Err(Error::NotFound));
    assert_eq!(cursor.next_key(), Some("c"));
    assert_eq!(
        cursor.next_value(&Shape::U8),
        Err(Error::TypeMismatch { name: "c".to_string(), expected: Kind::U8, found: NvType::Uint64 })
    );
    assert_eq!(cursor.next_key(), None);
    assert_eq!(cursor.next_key(), None);
    // the list is as it was, and can be walked again
    let mut again = Deserializer::from_nvlist(&l);
    assert_eq!(again.next_key(), Some("a"));
}

#[test]
fn pulling_elements() {
    let data = NvData::Int16Array(vec![-1, 2]);
    let mut cursor = SeqAccessor::new(&data, "xs").unwrap();
    assert_eq!(cursor.next_element(&Shape::I16), Ok(Some(Value::I16(-1))));
    assert_eq!(
        cursor.next_element(&Shape::I32),
        Err(Error::TypeMismatch { name: "xs".to_string(), expected: Kind::I32, found: NvType::Int16 })
    );
    assert_eq!(cursor.next_element(&Shape::I16), Ok(None));
    assert_eq!(cursor.next_element(&Shape::I16), Ok(None));
    assert!(SeqAccessor::new(&NvData::Int16(1), "x").is_none());

    let mut inner = NvList::new();
    inner.insert("k", &true).unwrap();
    let lists = NvData::from_lists(vec![inner, NvList::new()]);
    let mut cursor = SeqAccessor::new(&lists, "ls").unwrap();
    let shape = Shape::Mapping(Box::new(Shape::Str), Box::new(Shape::Bool));
    assert_eq!(
        cursor.next_element(&shape),
        Ok(Some(Value::Mapping(vec![Entry {
            key: Value::Str("k".to_string()),
            value: Value::Bool(true)
        }])))
    );
    assert_eq!(cursor.next_element(&shape), Ok(Some(Value::Mapping(vec![]))));
    assert_eq!(cursor.next_element(&shape), Ok(None));
}

#[test]
fn decoding_single_values() {
    assert_eq!(decode_value(&NvData::Bool, &Shape::Unit, "f", Policy::Lenient), Ok(Value::Unit));
    assert_eq!(decode_value(&NvData::Bool, &optional(Shape::U8), "f", Policy::Lenient), Ok(none()));
    assert_eq!(decode_value(&NvData::Uint8(1), &optional(Shape::U8), "f", Policy::Lenient), Ok(some(Value::U8(1))));
    assert_eq!(decode_value(&NvData::Byte(1), &Shape::Byte, "f", Policy::Lenient), Ok(Value::Byte(1)));
    assert_eq!(
        decode_value(&NvData::Byte(1), &Shape::U8, "f", Policy::Lenient),
        Err(Error::TypeMismatch { name: "f".to_string(), expected: Kind::U8, found: NvType::Byte })
    );
    assert_eq!(
        decode_value(&NvData::Uint8Array(vec![]), &Shape::Sequence(Box::new(Shape::U8)), "f", Policy::Lenient),
        Ok(Value::Sequence(vec![]))
    );
    assert_eq!(
        decode_value(&NvData::Uint8(1), &Shape::Sequence(Box::new(Shape::U8)), "f", Policy::Lenient),
        Err(Error::TypeMismatch {
            name: "f".to_string(),
            expected: Kind::Sequence,
            found: NvType::Uint8
        })
    );
    assert_eq!(
        decode_value(&NvData::Unknown, &optional(Shape::U8), "f", Policy::Lenient),
        Err(Error::UnknownTag("f".to_string()))
    );
    let l = NvList::new();
    assert_eq!(
        decode_list(&l, &Shape::Str, "f", Policy::Lenient),
        Err(Error::TypeMismatch { name: "f".to_string(), expected: Kind::Str, found: NvType::NvList })
    );
    assert_eq!(decode_list(&l, &optional(Shape::Record(vec![])), "f", Policy::Lenient), Ok(some(Value::Record(vec![]))));
    assert_eq!(
        decode_list(&l, &Shape::Enum(vec![]), "f", Policy::Lenient),
        Err(Error::TypeMismatch { name: "f".to_string(), expected: Kind::Enum, found: NvType::NvList })
    );
}

#[test]
fn strict_reading_refuses_entries_of_no_use() {
    let s = Shape::Record(vec![field_shape("n", Shape::I64)]);

    let mut extra = NvList::new();
    extra.insert("n", &5i64).unwrap();
    extra.insert("other", "text").unwrap();
    assert_eq!(from_nvlist_with(&extra, &s, Policy::Lenient), Ok(Value::Record(vec![field("n", Value::I64(5))])));
    assert_eq!(from_nvlist(&extra, &s), from_nvlist_with(&extra, &s, Policy::Lenient));
    assert_eq!(
        from_nvlist_with(&extra, &s, Policy::Strict),
        Err(Error::Unconsumed("other".to_string()))
    );

    let mut twice = NvList::new();
    twice.insert("n", &5i64).unwrap();
    twice.insert("n", &6i64).unwrap();
    assert_eq!(
        from_nvlist_with(&twice, &s, Policy::Strict),
        Err(Error::Unconsumed("n".to_string()))
    );

    let mode = Shape::Enum(vec![VariantShape { name: "Level".to_string(), payload: Some(Shape::U8) }]);
    let mut two = NvList::new();
    two.insert("Level", &4u8).unwrap();
    two.insert("More", &4u8).unwrap();
    assert_eq!(
        from_nvlist_with(&two, &mode, Policy::Lenient),
        Ok(Value::NewtypeVariant("Level".to_string(), Box::new(Value::U8(4))))
    );
    assert_eq!(
        from_nvlist_with(&two, &mode, Policy::Strict),
        Err(Error::Unconsumed("More".to_string()))
    );

    // the policy reaches the lists inside
    let mut outer = NvList::new();
    outer.insert("r", &extra).unwrap();
    let nested = Shape::Record(vec![field_shape("r", Shape::Record(vec![field_shape("n", Shape::I64)]))]);
    assert!(from_nvlist_with(&outer, &nested, Policy::Lenient).is_ok());
    assert_eq!(
        from_nvlist_with(&outer, &nested, Policy::Strict),
        Err(Error::Unconsumed("other".to_string()))
    );
    let lists = NvData::from_lists(vec![extra.clone()]);
    let mut cursor = SeqAccessor::new_with(&lists, "ls", Policy::Strict).unwrap();
    assert_eq!(cursor.next_element(&s), Err(Error::Unconsumed("other".to_string())));
    let mut cursor = Deserializer::from_nvlist_with(&outer, Policy::Strict);
    assert_eq!(cursor.next_key(), Some("r"));
    assert_eq!(cursor.next_value(&s), Err(Error::Unconsumed("other".to_string())));
}

#[test]
fn strict_reading_gives_back_what_was_written() {
    let v = Value::Record(vec![
        field("a", some(Value::U8(1))),
        field("b", none()),
        field("m", Value::NewtypeVariant("Level".to_string(), Box::new(Value::U8(3)))),
    ]);
    let s = Shape::Record(vec![
        field_shape("a", optional(Shape::U8)),
        field_shape("b", optional(Shape::U8)),
        field_shape("m", Shape::Enum(vec![VariantShape { name: "Level".to_string(), payload: Some(Shape::U8) }])),
    ]);
    let l = to_nvlist(&v).unwrap();
    assert_eq!(from_nvlist_with(&l, &s, Policy::Strict), Ok(v));
}
