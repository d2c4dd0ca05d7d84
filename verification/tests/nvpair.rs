use nvpair::{NvData, NvEncoding, NvList};

#[test]
fn nvpair_new() {
    let a = NvList::new();
    assert!(a.is_empty());
}

#[test]
fn size_empty_native() {
    let a = NvList::new();
    assert_eq!(a.encoded_size(NvEncoding::Native).unwrap(), 16);
}

#[test]
fn add_boolean() {
    let mut a = NvList::new();
    a.add_boolean("hi").unwrap();
    assert_eq!(a.encoded_size(NvEncoding::Native).unwrap(), 40);
    let p = a.first().unwrap();
    assert_eq!(p.name(), "hi");

    assert!(a.contains("hi"));
    assert!(!a.contains("bye"));
}

#[test]
fn iter() {
    let ns = ["one", "two", "three"];
    let mut a = NvList::new();

    for n in ns.iter() {
        a.add_boolean(*n).unwrap();
    }

    let mut ct = 0;
    let mut it = a.iter();
    while let Some(p) = it.next() {
        assert_eq!(p.name(), ns[ct]);
        ct += 1;
    }

    assert_eq!(ct, ns.len());
}

#[test]
fn lookup() {
    let ns = ["one", "two", "three"];
    let mut a = NvList::new_unique_names();

    for n in ns.iter() {
        a.add_boolean(*n).unwrap();
    }

    a.lookup("one").unwrap();
}

#[test]
fn insert() {
    let mut a = NvList::new_unique_names();
    a.insert("bool1", &true).unwrap();
    a.insert("u32", &6u32).unwrap();

    let b1 = a.lookup("bool1").expect("lookup of bool1 failed");

    match b1.data() {
        NvData::BoolV(v) => {
            assert!(*v == true);
        }
        _ => {
            panic!("Unexpected type");
        }
    }

    let u1 = a.lookup("u32").expect("lookup of u32 failed");

    match u1.data() {
        NvData::Uint32(v) => {
            assert!(*v == 6u32);
        }
        _ => {
            panic!("Unexpected type");
        }
    }
}

#[test]
fn insert_cstr() {
    let mut a = NvList::new();

    a.insert("hello", "bye").unwrap();
}

#[test]
fn lookup_nvlist() {
    let mut a = NvList::new();
    let mut b = NvList::new();

    a.insert("foo", "bar").unwrap();
    b.insert("baz", &a).unwrap();

    {
        let nvlr: NvList = b.lookup_nvlist("baz").unwrap();
        nvlr.lookup_string("foo").unwrap();
    }

    {
        let nvlr: NvList = b.lookup_nvlist("baz").unwrap();
        nvlr.lookup_string("foo").unwrap();
    }
}

#[test]
fn insertion_order_and_deep_copy() {
    let mut a = NvList::new();
    a.insert("b", &1u8).unwrap();
    a.insert("a", &2u8).unwrap();
    a.insert("b", &3u8).unwrap();
    let copy = a.clone();
    a.insert("z", &4u8).unwrap();
    assert_eq!(copy.len(), 3);
    assert_eq!(a.len(), 4);
    let names: Vec<&str> = (0..copy.len()).map(|i| copy.get(i).name()).collect();
    assert_eq!(names, vec!["b", "a", "b"]);
    let mut it = copy.iter();
    assert_eq!(it.next().unwrap().data(), &NvData::Uint8(1));
    assert_eq!(it.next().unwrap().data(), &NvData::Uint8(2));
    assert_eq!(it.next().unwrap().data(), &NvData::Uint8(3));
    assert!(it.next().is_none());
    assert_eq!(copy.try_clone().unwrap(), copy);
    assert_eq!(copy.try_to_owned().unwrap(), copy);
    // first match
    assert_eq!(copy.lookup("b").unwrap().data(), &NvData::Uint8(1));
}

#[test]
fn unique_names_refuse_a_second_entry() {
    let mut a = NvList::new_unique_names();
    a.insert("x", &1u8).unwrap();
    assert_eq!(a.insert("x", &2u8), Err(nvpair::Error::DuplicateName("x".to_string())));
    assert_eq!(a.len(), 1);
    assert_eq!(a.lookup("x").unwrap().data(), &NvData::Uint8(1));

    let mut b = NvList::new();
    b.insert("x", &1u8).unwrap();
    b.insert("x", &2u8).unwrap();
    assert_eq!(b.len(), 2);
    assert_eq!(b.get(0).data(), &NvData::Uint8(1));
    assert_eq!(b.get(1).data(), &NvData::Uint8(2));
}

#[test]
fn names_and_text_with_nul_are_refused() {
    let mut a = NvList::new();
    assert_eq!(a.insert("a\0b", &1u8), Err(nvpair::Error::TextEncodingError));
    assert_eq!(a.insert("a", "x\0"), Err(nvpair::Error::TextEncodingError));
    assert_eq!(a.add_boolean("\0"), Err(nvpair::Error::TextEncodingError));
    assert!(a.is_empty());
}

#[test]
fn lookup_misses() {
    let mut a = NvList::new();
    a.insert("n", &1u32).unwrap();
    assert_eq!(a.lookup("m").err(), Some(nvpair::Error::NotFound));
    assert_eq!(a.lookup_uint64("n"), Err(nvpair::Error::NotFound));
    assert_eq!(a.lookup_string("n"), Err(nvpair::Error::NotFound));
    assert_eq!(a.lookup_nvlist("n").err(), Some(nvpair::Error::NotFound));
    assert_eq!(a.lookup_uint64_array("n"), Err(nvpair::Error::NotFound));
    assert_eq!(a.lookup_nvlist_array("n").err(), Some(nvpair::Error::NotFound));
    assert!(a.first().is_some());
    assert!(NvList::new().first().is_none());
}

#[test]
fn typed_lookup_goes_by_name_and_tag() {
    let mut a = NvList::new();
    a.insert("n", &1u32).unwrap();
    a.insert("n", &7u64).unwrap();
    a.insert("n", "seven").unwrap();
    a.insert("n", &[1u64, 2u64][..]).unwrap();
    assert_eq!(a.lookup_uint64("n"), Ok(7));
    assert_eq!(a.lookup_string("n"), Ok("seven".to_string()));
    assert_eq!(a.lookup_uint64_array("n"), Ok(vec![1, 2]));
    let inner = a.clone();
    a.insert_data("n", NvData::from_lists(vec![inner.clone(), NvList::new()])).unwrap();
    let ls = a.lookup_nvlist_array("n").unwrap();
    assert_eq!(ls.len(), 2);
    assert_eq!(ls[0], inner);
    assert!(ls[1].is_empty());
}

#[test]
fn data_views() {
    assert_eq!(NvData::Str("s".to_string()).as_str(), Some("s"));
    assert_eq!(NvData::Str("s".to_string()).as_string(), Some("s".to_string()));
    assert_eq!(NvData::Uint8(1).as_str(), None);
    assert_eq!(NvData::Uint8(1).as_string(), None);
    assert!(NvData::Uint8(1).as_list().is_none());
    let l = NvList::new_unique_names();
    assert_eq!(NvData::from_list(l.clone()).as_list(), Some(&l));
    let mut a = NvList::new();
    a.insert("k", &()).unwrap();
    let p = a.first().unwrap();
    assert_eq!(p.tuple(), ("k", &NvData::Bool));
}

#[test]
fn sizes() {
    let mut a = NvList::new();
    assert_eq!(a.encoded_size(NvEncoding::Xdr).unwrap(), 20);
    a.add_boolean("hi").unwrap();
    // 20 for the entry's fixed words, 4 for the name
    assert_eq!(a.encoded_size(NvEncoding::Xdr).unwrap(), 20 + 24);
    a.insert("text", "hello").unwrap();
    // native: name 16 + 5 -> 24, value 6 -> 8
    assert_eq!(a.encoded_size(NvEncoding::Native).unwrap(), 40 + 32);
    // xdr: 20 + 4 for the name, 4 + 8 for the text
    assert_eq!(a.encoded_size(NvEncoding::Xdr).unwrap(), 44 + 36);
    a.insert("ns", &[1u16, 2, 3][..]).unwrap();
    // native: name 16 + 3 -> 24, value 6 -> 8
    assert_eq!(a.encoded_size(NvEncoding::Native).unwrap(), 72 + 32);
    // xdr: 20 + 4 for the name, 4 + 3 * 4 for the array
    assert_eq!(a.encoded_size(NvEncoding::Xdr).unwrap(), 80 + 40);

    let mut outer = NvList::new();
    outer.insert("in", &a).unwrap();
    // native: name 16 + 3 -> 24, list header 24, the entries of the inner list and 4 behind them
    assert_eq!(outer.encoded_size(NvEncoding::Native).unwrap(), 16 + 48 + (104 - 16) + 4);
    // xdr: 20 + 4 for the name, then the inner list with 16 around its entries
    assert_eq!(outer.encoded_size(NvEncoding::Xdr).unwrap(), 20 + 24 + (120 - 20) + 16);
}

#[test]
fn size_of_a_list_with_an_unknown_value() {
    let mut inner = NvList::new();
    inner.insert_data("deep", NvData::Unknown).unwrap();
    let mut a = NvList::new();
    a.insert("n", &1u8).unwrap();
    a.insert_data("ls", NvData::from_lists(vec![NvList::new(), inner])).unwrap();
    a.insert_data("late", NvData::Unknown).unwrap();
    assert_eq!(
        a.encoded_size(NvEncoding::Native),
        Err(nvpair::Error::UnknownTag("deep".to_string()))
    );
}

#[test]
fn size_beyond_the_limit() {
    let mut a = NvList::new();
    a.insert_data("big", NvData::Uint8Array(vec![0u8; 1 << 29])).unwrap();
    // four bytes for each element in the portable form
    assert_eq!(a.encoded_size(NvEncoding::Xdr), Err(nvpair::Error::TooLarge));
    // one byte for each in the native form: 16 + 24 + 2^29
    assert_eq!(a.encoded_size(NvEncoding::Native), Ok(16 + 24 + (1 << 29)));
}

#[test]
fn depth_of_lists() {
    let flat = NvList::new();
    assert!(flat.deeper_than(0));
    assert!(!flat.deeper_than(1));
    let mut two = NvList::new();
    two.insert("n", &1u8).unwrap();
    two.insert("in", &flat).unwrap();
    assert!(two.deeper_than(1));
    assert!(!two.deeper_than(2));
    let mut three = NvList::new();
    three.insert_data("ls", NvData::from_lists(vec![flat.clone(), two.clone()])).unwrap();
    three.insert("in", &flat).unwrap();
    assert!(three.deeper_than(2));
    assert!(!three.deeper_than(3));
    assert!(!three.deeper_than(usize::MAX));
}

#[test]
fn insert_every_kind() {
    let mut a = NvList::new();
    a.insert("bool", &false).unwrap();
    a.insert("i8", &-8i8).unwrap();
    a.insert("u8", &8u8).unwrap();
    a.insert("i16", &-16i16).unwrap();
    a.insert("u16", &16u16).unwrap();
    a.insert("i32", &-32i32).unwrap();
    a.insert("u32", &32u32).unwrap();
    a.insert("i64", &-64i64).unwrap();
    a.insert("u64", &64u64).unwrap();
    a.insert("i8s", &[-8i8][..]).unwrap();
    a.insert("u8s", &[8u8][..]).unwrap();
    a.insert("i16s", &[-16i16][..]).unwrap();
    a.insert("u16s", &[16u16][..]).unwrap();
    a.insert("i32s", &[-32i32][..]).unwrap();
    a.insert("u32s", &[32u32][..]).unwrap();
    a.insert("i64s", &[-64i64][..]).unwrap();
    a.insert("u64s", &[64u64][..]).unwrap();
    a.insert("str", "text").unwrap();
    a.insert("ref", &"text").unwrap();
    a.insert("string", &"text".to_string()).unwrap();
    a.insert("unit", &()).unwrap();
    a.insert("data", &NvData::Byte(1)).unwrap();
    let inner = a.clone();
    a.insert("list", &inner).unwrap();
    let expected = vec![
        ("bool", NvData::BoolV(false)),
        ("i8", NvData::Int8(-8)),
        ("u8", NvData::Uint8(8)),
        ("i16", NvData::Int16(-16)),
        ("u16", NvData::Uint16(16)),
        ("i32", NvData::Int32(-32)),
        ("u32", NvData::Uint32(32)),
        ("i64", NvData::Int64(-64)),
        ("u64", NvData::Uint64(64)),
        ("i8s", NvData::Int8Array(vec![-8])),
        ("u8s", NvData::Uint8Array(vec![8])),
        ("i16s", NvData::Int16Array(vec![-16])),
        ("u16s", NvData::Uint16Array(vec![16])),
        ("i32s", NvData::Int32Array(vec![-32])),
        ("u32s", NvData::Uint32Array(vec![32])),
        ("i64s", NvData::Int64Array(vec![-64])),
        ("u64s", NvData::Uint64Array(vec![64])),
        ("str", NvData::Str("text".to_string())),
        ("ref", NvData::Str("text".to_string())),
        ("string", NvData::Str("text".to_string())),
        ("unit", NvData::Bool),
        ("data", NvData::Byte(1)),
        ("list", NvData::from_list(inner)),
    ];
    assert_eq!(a.len(), expected.len());
    for (i, (name, data)) in expected.iter().enumerate() {
        assert_eq!(a.get(i).name(), *name);
        assert_eq!(a.get(i).data(), data);
        assert_eq!(a.get(i).data().tag(), data.tag());
    }
    assert_eq!(NvData::Unknown.tag(), nvpair::NvType::Unknown);
    assert_eq!(a.get(22).data().lists(), None);
    let lists = NvData::from_lists(vec![NvList::new()]);
    assert_eq!(lists.lists().map(|l| l.len()), Some(1));
    assert_eq!(lists.tag(), nvpair::NvType::NvListArray);
}
