use nvpair::{
    DataSetType, Defer, DmuReplayRecord, DrrError, DrrType, ErrorList, HoldList, NvEncoding, NvList,
    PoolInitializeFunc, PoolTrimFunc, SendFlags, WaitActivity,
};

#[test]
fn raw_numbers() {
    assert_eq!(NvEncoding::Native.as_raw(), 0);
    assert_eq!(NvEncoding::Xdr.as_raw(), 1);
    assert_eq!(DataSetType::Zfs.as_raw(), 2);
    assert_eq!(DataSetType::Zvol.as_raw(), 3);
    assert_eq!(PoolInitializeFunc::Start.as_raw(), 0);
    assert_eq!(PoolInitializeFunc::Cancel.as_raw(), 1);
    assert_eq!(PoolInitializeFunc::Suspend.as_raw(), 2);
    assert_eq!(PoolTrimFunc::Start.as_raw(), 0);
    assert_eq!(PoolTrimFunc::Cancel.as_raw(), 1);
    assert_eq!(PoolTrimFunc::Suspend.as_raw(), 2);
    assert_eq!(WaitActivity::Discard.as_raw(), 0);
    assert_eq!(WaitActivity::Resliver.as_raw(), 5);
    assert_eq!(WaitActivity::Trim.as_raw(), 7);
    assert_eq!(DrrType::Begin.as_raw(), 0);
    assert_eq!(DrrType::End.as_raw(), 5);
    assert_eq!(DrrType::Redact.as_raw(), 10);
}

#[test]
fn send_flags_bits() {
    assert_eq!(SendFlags::default().bits(), 0);
    let all = SendFlags { embed_data: true, large_block: true, compress: true, raw: true };
    assert_eq!(all.bits(), 15);
    let some = SendFlags { embed_data: true, large_block: false, compress: true, raw: false };
    assert_eq!(some.bits(), 5);
    let raw = SendFlags { embed_data: false, large_block: false, compress: false, raw: true };
    assert_eq!(raw.bits(), 8);
    assert_eq!(u32::from(raw), 8);
    let large = SendFlags { embed_data: false, large_block: true, compress: false, raw: false };
    assert_eq!(u32::from(large), 2);
}

#[test]
fn defer_as_bool() {
    assert_eq!(Defer::default(), Defer::No);
    assert!(!Defer::No.as_bool());
    assert!(Defer::Yes.as_bool());
    assert!(bool::from(Defer::Yes));
    assert!(!bool::from(Defer::No));
}

#[test]
fn error_list_walk() {
    let mut nv = NvList::new();
    nv.insert("pool/a@s", &2i32).unwrap();
    nv.insert("pool/b@s", &17i32).unwrap();
    let errors = ErrorList::from(nv);
    assert!(errors.is_well_formed());
    let mut it = errors.iter();
    assert_eq!(it.next(), Some(("pool/a@s", 2)));
    assert_eq!(it.next(), Some(("pool/b@s", 17)));
    assert_eq!(it.next(), None);
    assert_eq!(it.next(), None);
}

#[test]
fn error_list_of_another_shape() {
    let mut nv = NvList::new();
    nv.insert("pool/a@s", &2i32).unwrap();
    nv.insert("pool/b@s", &17u64).unwrap();
    let errors = ErrorList::from(nv);
    assert!(!errors.is_well_formed());
}

#[test]
fn hold_list_walk() {
    let mut nv = NvList::new();
    nv.insert("keep", &1600000000u64).unwrap();
    let holds = HoldList::new(nv);
    assert!(holds.is_well_formed());
    let mut it = holds.iter();
    assert_eq!(it.next(), Some(("keep", 1600000000)));
    assert_eq!(it.next(), None);
    let nv = holds.into_nvlist();
    assert_eq!(nv.lookup_uint64("keep"), Ok(1600000000));
}

#[test]
fn replay_record_from_bytes() {
    let short = [0u8; 311];
    assert_eq!(DmuReplayRecord::from_bytes(&short), Err(DrrError::Truncated));

    let mut begin = [0u8; 320];
    begin[8] = 0xaa;
    begin[311] = 0xbb;
    let rec = DmuReplayRecord::from_bytes(&begin).unwrap();
    assert!(!rec.byte_swap());
    assert_eq!(rec.raw().drr_type(), 0);
    assert_eq!(rec.raw().payload_len(), 0);
    assert_eq!(rec.raw().content().len(), 304);
    assert_eq!(rec.raw().content()[0], 0xaa);
    assert_eq!(rec.raw().content()[303], 0xbb);

    let mut end = [0u8; 312];
    end[0..4].copy_from_slice(&5u32.to_ne_bytes());
    assert_eq!(
        DmuReplayRecord::from_bytes(&end),
        Err(DrrError::NotBeginType { found_type: 5 })
    );
}

#[test]
fn replay_record_from_parts() {
    let rec = DmuReplayRecord::from_parts(0, 7, vec![1, 2, 3]).unwrap();
    assert_eq!(rec.raw().payload_len(), 7);
    assert_eq!(rec.raw().content(), &vec![1, 2, 3]);
    assert_eq!(
        DmuReplayRecord::from_parts(3, 7, vec![]),
        Err(DrrError::NotBeginType { found_type: 3 })
    );
}
