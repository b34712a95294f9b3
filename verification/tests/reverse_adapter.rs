use delta_fs::{
    ForeignError, ForeignFile, ForeignFs, ForeignTime, StoreError, WrappedPyArrowStore,
};

fn empty_fs() -> ForeignFs {
    ForeignFs { files: Vec::new(), clock_ns: 5, broken: false }
}

#[test]
fn reverse_put_then_get_roundtrip() {
    let store = WrappedPyArrowStore::new("root");
    assert_eq!(store.root, "root");
    let mut fs = empty_fs();
    store.put(&mut fs, &String::from("data/blob"), b"payload".to_vec()).unwrap();
    let body = store.get(&fs, &String::from("data/blob")).unwrap();
    assert_eq!(body, b"payload".to_vec());
}

#[test]
fn reverse_get_missing_is_not_found() {
    let store = WrappedPyArrowStore::new("r");
    let fs = empty_fs();
    assert_eq!(store.get(&fs, &String::from("nope")), Err(StoreError::NotFound));
}

#[test]
fn reverse_head_maps_nanosecond_times() {
    let store = WrappedPyArrowStore::new("r");
    let mut fs = empty_fs();
    fs.clock_ns = 1234;
    store.put(&mut fs, &String::from("f"), vec![1, 2, 3]).unwrap();
    let meta = store.head(&fs, &String::from("f")).unwrap();
    assert_eq!(meta.location, "f");
    assert_eq!(meta.size, 3);
    assert_eq!(meta.mtime_ns, 1234);
}

#[test]
fn reverse_head_maps_whole_second_times() {
    let store = WrappedPyArrowStore::new("r");
    let mut fs = empty_fs();
    fs.files.push(ForeignFile {
        path: String::from("old"),
        data: vec![7],
        mtime: ForeignTime::Seconds(5),
    });
    let meta = store.head(&fs, &String::from("old")).unwrap();
    assert_eq!(meta.mtime_ns, 5_000_000_000);
}

#[test]
fn reverse_head_rejects_unrepresentable_times() {
    let store = WrappedPyArrowStore::new("r");
    let mut fs = empty_fs();
    fs.files.push(ForeignFile {
        path: String::from("far"),
        data: vec![],
        mtime: ForeignTime::Seconds(10_000_000_000),
    });
    assert!(matches!(
        store.head(&fs, &String::from("far")),
        Err(StoreError::BackendGeneric { .. })
    ));
}

#[test]
fn reverse_newer_write_shadows_older_file() {
    let store = WrappedPyArrowStore::new("r");
    let mut fs = empty_fs();
    store.put(&mut fs, &String::from("f"), b"first".to_vec()).unwrap();
    store.put(&mut fs, &String::from("f"), b"second".to_vec()).unwrap();
    assert_eq!(store.get(&fs, &String::from("f")).unwrap(), b"second".to_vec());
}

#[test]
fn reverse_broken_filesystem_is_a_generic_failure() {
    let store = WrappedPyArrowStore::new("r");
    let mut fs = empty_fs();
    fs.broken = true;
    assert!(matches!(
        store.put(&mut fs, &String::from("f"), vec![1]),
        Err(StoreError::BackendGeneric { .. })
    ));
    assert!(matches!(
        store.get(&fs, &String::from("f")),
        Err(StoreError::BackendGeneric { .. })
    ));
    assert!(matches!(
        store.head(&fs, &String::from("f")),
        Err(StoreError::BackendGeneric { .. })
    ));
}

#[test]
fn reverse_error_translation() {
    assert_eq!(
        delta_fs::store_error_from_foreign(ForeignError::NotFound),
        StoreError::NotFound
    );
    assert_eq!(
        delta_fs::store_error_from_foreign(ForeignError::NotImplemented),
        StoreError::NotImplemented
    );
    assert!(matches!(
        delta_fs::store_error_from_foreign(ForeignError::Other),
        StoreError::BackendGeneric { .. }
    ));
}

#[test]
fn reverse_unscoped_operations_are_capability_gaps() {
    let store = WrappedPyArrowStore::new("r");
    let p = String::from("p");
    assert_eq!(store.delete(&p), Err(StoreError::NotImplemented));
    assert_eq!(store.list(&p), Err(StoreError::NotImplemented));
    assert_eq!(store.list_with_delimiter(&p).err(), Some(StoreError::NotImplemented));
    assert_eq!(store.get_range(&p, 0, 1), Err(StoreError::NotImplemented));
    assert_eq!(store.copy(&p, &p), Err(StoreError::NotImplemented));
    assert_eq!(store.copy_if_not_exists(&p, &p), Err(StoreError::NotImplemented));
    assert_eq!(store.rename_if_not_exists(&p, &p), Err(StoreError::NotImplemented));
    assert_eq!(store.put_multipart(&p), Err(StoreError::NotImplemented));
    assert_eq!(store.abort_multipart(&p, 0), Err(StoreError::NotImplemented));
}

#[test]
fn reverse_chunked_read_reassembles_large_bodies() {
    let store = WrappedPyArrowStore::new("r");
    let mut fs = empty_fs();
    // larger than one 5 MiB chunk, so the read loop runs more than once
    let big: Vec<u8> = (0..6 * 1024 * 1024u32).map(|i| (i % 251) as u8).collect();
    store.put(&mut fs, &String::from("big"), big.clone()).unwrap();
    assert_eq!(store.get(&fs, &String::from("big")).unwrap(), big);
}
