use nvpair::command::split;
use nvpair::request::{
    bookmark_list, hold_list, name_in_buffer, release_list, snapshot_list, sync_args,
};
use nvpair::{Error, NvData, NvList, Zfs};

#[test]
fn basic_new() {
    let _ = Zfs::new();
}

#[test]
fn zfs() {
    let _ = Zfs::default();
}

#[test]
fn command_name() {
    assert_eq!(Zfs::new().command(), "zfs");
    assert_eq!(Zfs::default().command(), "zfs");
    assert_eq!(Zfs::with_command(None).command(), "zfs");
    assert_eq!(Zfs::with_command(Some("/sbin/zfs".to_string())).command(), "/sbin/zfs");
    assert_eq!(Zfs::new().list_arguments(), vec!["list", "-pH", "-o", "name"]);
}

#[test]
fn split_bytes() {
    assert_eq!(split(b"", b'\n'), vec![b"".to_vec()]);
    assert_eq!(split(b"a", b'\n'), vec![b"a".to_vec()]);
    assert_eq!(split(b"a\nbc\n", b'\n'), vec![b"a".to_vec(), b"bc".to_vec(), b"".to_vec()]);
    assert_eq!(split(b"\n\n", b'\n'), vec![b"".to_vec(), b"".to_vec(), b"".to_vec()]);
}

#[test]
fn parse_list_output() {
    let out = b"pool\t1\npool/fs\t2\n";
    let parsed = Zfs::parse_list(out);
    assert_eq!(
        parsed,
        vec![
            vec![b"pool".to_vec(), b"1".to_vec()],
            vec![b"pool/fs".to_vec(), b"2".to_vec()],
            vec![b"".to_vec()],
        ]
    );
}

#[test]
fn snapshot_request() {
    let l = snapshot_list(&vec!["p/a@1".to_string(), "p/b@1".to_string(), "p/a@1".to_string()])
        .unwrap();
    assert!(!l.unique_names());
    assert_eq!(l.len(), 3);
    assert_eq!(l.get(0).tuple(), ("p/a@1", &NvData::Bool));
    assert_eq!(l.get(1).tuple(), ("p/b@1", &NvData::Bool));
    assert_eq!(l.get(2).tuple(), ("p/a@1", &NvData::Bool));
    assert_eq!(snapshot_list(&vec!["ok".to_string(), "a\0".to_string()]), Err(Error::TextEncodingError));
    assert_eq!(snapshot_list(&vec![]), Ok(NvList::new()));
}

#[test]
fn hold_and_bookmark_requests() {
    let pairs = vec![
        ("p/a@1".to_string(), "keep".to_string()),
        ("p/b@1".to_string(), "keep2".to_string()),
    ];
    let l = hold_list(&pairs).unwrap();
    assert_eq!(l.len(), 2);
    assert_eq!(l.get(0).tuple(), ("p/a@1", &NvData::Str("keep".to_string())));
    assert_eq!(l.get(1).tuple(), ("p/b@1", &NvData::Str("keep2".to_string())));
    assert_eq!(bookmark_list(&pairs), Ok(l));
    assert_eq!(
        hold_list(&vec![("a".to_string(), "\0".to_string())]),
        Err(Error::TextEncodingError)
    );
}

#[test]
fn release_request() {
    let holds = vec![
        ("p/a@1".to_string(), vec!["h1".to_string(), "h2".to_string()]),
        ("p/b@1".to_string(), vec![]),
    ];
    let l = release_list(&holds).unwrap();
    assert_eq!(l.len(), 2);
    let inner = l.lookup_nvlist("p/a@1").unwrap();
    assert_eq!(inner.len(), 2);
    assert_eq!(inner.get(0).tuple(), ("h1", &NvData::Bool));
    assert_eq!(inner.get(1).tuple(), ("h2", &NvData::Bool));
    assert!(l.lookup_nvlist("p/b@1").unwrap().is_empty());
    assert_eq!(
        release_list(&vec![("a".to_string(), vec!["\0".to_string()])]),
        Err(Error::TextEncodingError)
    );
}

#[test]
fn sync_request() {
    let l = sync_args(true);
    assert!(l.unique_names());
    assert_eq!(l.len(), 1);
    assert_eq!(l.get(0).tuple(), ("force", &NvData::BoolV(true)));
    assert_eq!(sync_args(false).get(0).data(), &NvData::BoolV(false));
}

#[test]
fn name_left_in_buffer() {
    assert_eq!(name_in_buffer(b"pool/fs@snap\0\0\0"), Some(b"pool/fs@snap".to_vec()));
    assert_eq!(name_in_buffer(b"\0abc"), Some(vec![]));
    assert_eq!(name_in_buffer(b"abc"), None);
    assert_eq!(name_in_buffer(b""), None);
}
