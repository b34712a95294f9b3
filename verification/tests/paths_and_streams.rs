use delta_fs::{ObjectInputFile, ObjectOutputStream, SeekFrom, StoreError, StoreState};

fn key(s: &str) -> String {
    String::from(s)
}

#[test]
fn normalize_keeps_trailing_separator() {
    assert_eq!(delta_fs::normalize("a/b/").unwrap(), "a/b/");
    assert_eq!(delta_fs::normalize("/a/b").unwrap(), "a/b");
    assert_eq!(delta_fs::normalize("a/b").unwrap(), "a/b");
    assert_eq!(delta_fs::normalize("").unwrap(), "");
    assert_eq!(delta_fs::normalize("/").unwrap(), "/");
}

#[test]
fn normalize_rejects_malformed_paths() {
    assert_eq!(delta_fs::normalize("a//b"), Err(StoreError::InvalidPath));
    assert_eq!(delta_fs::normalize("."), Err(StoreError::InvalidPath));
    assert_eq!(delta_fs::normalize(".."), Err(StoreError::InvalidPath));
    assert_eq!(delta_fs::normalize("a/./b"), Err(StoreError::InvalidPath));
    assert_eq!(delta_fs::normalize("a/../b"), Err(StoreError::InvalidPath));
    assert_eq!(delta_fs::normalize("a//"), Err(StoreError::InvalidPath));
}

#[test]
fn normalize_is_idempotent() {
    for p in ["a/b/", "/a/b", "x", "", "/", "deep/er/est/"] {
        let once = delta_fs::normalize(p).unwrap();
        let twice = delta_fs::normalize(&once).unwrap();
        assert_eq!(once, twice);
    }
}

#[test]
fn read_stream_seek_and_clamped_read() {
    let mut store = StoreState::new();
    store.put(&key("f"), b"hello".to_vec()).unwrap();
    let mut r = ObjectInputFile::try_new(&store, key("f")).unwrap();
    assert_eq!(r.size().unwrap(), 5);

    // read() after seek(0, end) returns empty bytes
    assert_eq!(r.seek(0, SeekFrom::End).unwrap(), 5);
    assert_eq!(r.read(None, &store).unwrap(), Vec::<u8>::new());

    // read(10) at cursor N-3 returns exactly 3 bytes and lands on N
    assert_eq!(r.seek(2, SeekFrom::Start).unwrap(), 2);
    assert_eq!(r.read(Some(10), &store).unwrap(), b"llo".to_vec());
    assert_eq!(r.tell().unwrap(), 5);

    // seek(-1, start) fails with InvalidSeek
    assert_eq!(r.seek(-1, SeekFrom::Start), Err(StoreError::InvalidSeek));
    // ... and past the end as well
    assert_eq!(r.seek(1, SeekFrom::End), Err(StoreError::InvalidSeek));
    // relative seeks may be negative while staying in bounds
    assert_eq!(r.seek(-2, SeekFrom::Current).unwrap(), 3);
    assert_eq!(r.read(None, &store).unwrap(), b"lo".to_vec());
}

#[test]
fn read_stream_missing_object_fails_at_open() {
    let store = StoreState::new();
    assert!(matches!(
        ObjectInputFile::try_new(&store, key("absent")),
        Err(StoreError::NotFound)
    ));
}

#[test]
fn read_stream_closed_operations_fail() {
    let mut store = StoreState::new();
    store.put(&key("f"), vec![1, 2, 3]).unwrap();
    let mut r = ObjectInputFile::try_new(&store, key("f")).unwrap();
    r.close();
    assert_eq!(r.tell(), Err(StoreError::ClosedStreamError));
    assert_eq!(r.size(), Err(StoreError::ClosedStreamError));
    assert_eq!(r.seek(0, SeekFrom::Start), Err(StoreError::ClosedStreamError));
    assert_eq!(r.read(None, &store), Err(StoreError::ClosedStreamError));
    // close is idempotent
    r.close();
}

#[test]
fn read_stream_capability_gaps() {
    let mut store = StoreState::new();
    store.put(&key("f"), vec![9]).unwrap();
    let r = ObjectInputFile::try_new(&store, key("f")).unwrap();
    assert!(r.readable());
    assert!(r.seekable());
    assert!(!r.writable());
    assert!(!r.isatty());
    assert_eq!(r.mode(), "rb");
    assert_eq!(r.fileno(), Err(StoreError::NotImplemented));
    assert_eq!(r.truncate(), Err(StoreError::NotImplemented));
    assert_eq!(r.readline(None), Err(StoreError::NotImplemented));
    assert_eq!(r.readlines(None), Err(StoreError::NotImplemented));
}

#[test]
fn write_stream_chunks_become_one_object() {
    let mut store = StoreState::new();
    store.set_clock(7);
    let mut w = ObjectOutputStream::try_new(&mut store, key("out/obj")).unwrap();
    assert_eq!(w.write(&b"ab".to_vec(), &mut store).unwrap(), 2);
    assert_eq!(w.write(&b"cd".to_vec(), &mut store).unwrap(), 2);
    assert_eq!(w.tell().unwrap(), 4);
    w.flush(&mut store).unwrap();
    w.close(&mut store).unwrap();
    assert_eq!(store.get(&key("out/obj")).unwrap(), b"abcd".to_vec());
    let meta = store.head(&key("out/obj")).unwrap();
    assert_eq!(meta.size, 4);
    assert_eq!(meta.mtime_ns, 7);
    // closing again after success is a no-op
    w.close(&mut store).unwrap();
}

#[test]
fn write_stream_failure_aborts_session_and_leaves_no_object() {
    let mut store = StoreState::new();
    let mut w = ObjectOutputStream::try_new(&mut store, key("part")).unwrap();
    assert_eq!(w.write(&b"ab".to_vec(), &mut store).unwrap(), 2);
    store.arm_fault(0);
    let err = w.write(&b"cd".to_vec(), &mut store);
    assert!(matches!(err, Err(StoreError::BackendGeneric { .. })));
    // the multipart session is gone and no object exists at the path
    assert_eq!(store.sessions.len(), 0);
    assert_eq!(store.head(&key("part")), Err(StoreError::NotFound));
    // the stream is terminal: further operations are stream misuse
    assert_eq!(w.write(&b"ef".to_vec(), &mut store), Err(StoreError::ClosedStreamError));
    assert_eq!(w.close(&mut store), Err(StoreError::ClosedStreamError));
}

#[test]
fn write_stream_failed_close_aborts() {
    let mut store = StoreState::new();
    let mut w = ObjectOutputStream::try_new(&mut store, key("c")).unwrap();
    w.write(&b"xy".to_vec(), &mut store).unwrap();
    store.arm_fault(0);
    assert!(matches!(w.close(&mut store), Err(StoreError::BackendGeneric { .. })));
    assert_eq!(store.sessions.len(), 0);
    store.clear_fault();
    assert_eq!(store.head(&key("c")), Err(StoreError::NotFound));
}

#[test]
fn write_stream_capability_gaps() {
    let mut store = StoreState::new();
    let w = ObjectOutputStream::try_new(&mut store, key("w")).unwrap();
    assert!(!w.readable());
    assert!(!w.seekable());
    assert!(w.writable());
    assert!(!w.isatty());
    assert_eq!(w.mode(), "wb");
    assert_eq!(w.size(), Err(StoreError::NotImplemented));
    assert_eq!(w.seek(0, 0), Err(StoreError::NotImplemented));
    assert_eq!(w.read(None), Err(StoreError::NotImplemented));
    assert_eq!(w.fileno(), Err(StoreError::NotImplemented));
    assert_eq!(w.truncate(), Err(StoreError::NotImplemented));
    assert_eq!(w.readline(None), Err(StoreError::NotImplemented));
    assert_eq!(w.readlines(None), Err(StoreError::NotImplemented));
}

#[test]
fn errors_report_transience() {
    assert!(StoreError::BackendGeneric { cause: String::from("x") }.is_transient());
    assert!(StoreError::RuntimeUnavailable.is_transient());
    assert!(!StoreError::NotFound.is_transient());
    assert!(!StoreError::InvalidPath.is_transient());
    assert!(!StoreError::ClosedStreamError.is_transient());
    assert!(!StoreError::InvalidSeek.is_transient());
    assert!(!StoreError::NotImplemented.is_transient());
}
