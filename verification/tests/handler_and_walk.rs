use delta_fs::{DeltaFileSystemHandler, FileKind, StoreError};

fn handler_with(keys: &[(&str, &[u8])]) -> DeltaFileSystemHandler {
    let mut h = DeltaFileSystemHandler::new("memory://table");
    for (k, body) in keys {
        h.store.put(&String::from(*k), body.to_vec()).unwrap();
    }
    h
}

#[test]
fn handler_basics() {
    let h = DeltaFileSystemHandler::new("memory://t");
    assert_eq!(h.get_type_name(), "object-store");
    assert_eq!(h.normalize_path("/a/b/").unwrap(), "a/b/");
    assert_eq!(h.normalize_path("a//b"), Err(StoreError::InvalidPath));
    assert!(h.equals(&DeltaFileSystemHandler::new("memory://t")));
    assert!(!h.equals(&DeltaFileSystemHandler::new("memory://other")));
    assert_eq!(h.create_dir("anything", true), Ok(()));
}

#[test]
fn stat_missing_path_is_not_found() {
    let h = handler_with(&[("elsewhere/x", b"1")]);
    let info = h.stat("no/such/key").unwrap();
    assert_eq!(info.kind, FileKind::NotFound);
    assert_eq!(info.size, None);
    assert_eq!(info.mtime_ns, None);
}

#[test]
fn stat_reports_files_with_metadata() {
    let mut h = DeltaFileSystemHandler::new("memory://t");
    h.store.set_clock(99);
    h.store.put(&String::from("dir/file"), b"abc".to_vec()).unwrap();
    let info = h.stat("dir/file").unwrap();
    assert_eq!(info.kind, FileKind::File);
    assert_eq!(info.path, "dir/file");
    assert_eq!(info.size, Some(3));
    assert_eq!(info.mtime_ns, Some(99));
}

#[test]
fn stat_directory_shadows_same_named_object() {
    // an object at "a" AND objects below "a": the directory wins
    let h = handler_with(&[("a", b"object-at-a"), ("a/child", b"x")]);
    let info = h.stat("a").unwrap();
    assert_eq!(info.kind, FileKind::Directory);
    assert_eq!(info.size, None);
}

#[test]
fn stat_invalid_path_is_rejected() {
    let h = handler_with(&[]);
    assert_eq!(h.stat("a//b").map(|i| i.kind), Err(StoreError::InvalidPath));
}

#[test]
fn stat_batch_stats_each_path() {
    let h = handler_with(&[("a/1", b"x"), ("b", b"yy")]);
    let paths = vec![String::from("a"), String::from("b"), String::from("c")];
    let infos = h.get_file_info(&paths).unwrap();
    assert_eq!(infos.len(), 3);
    assert_eq!(infos[0].kind, FileKind::Directory);
    assert_eq!(infos[1].kind, FileKind::File);
    assert_eq!(infos[2].kind, FileKind::NotFound);
}

#[test]
fn walk_recursive_lists_each_key_once() {
    let h = handler_with(&[("a/1", b"x"), ("a/2", b"y"), ("a/b/3", b"z")]);
    let listing = delta_fs::walk_tree(&h.store, &String::from("a"), true).unwrap();
    let mut locs: Vec<String> = listing.objects.iter().map(|m| m.location.clone()).collect();
    locs.sort();
    assert_eq!(locs, vec!["a/1".to_string(), "a/2".to_string(), "a/b/3".to_string()]);
    // no duplicates, and the synthetic directory was discovered
    assert_eq!(listing.objects.len(), 3);
    let prefixes: Vec<String> = listing.common_prefixes.clone();
    assert_eq!(prefixes, vec!["a/b".to_string()]);
}

#[test]
fn walk_non_recursive_is_one_level() {
    let h = handler_with(&[("a/1", b"x"), ("a/2", b"y"), ("a/b/3", b"z")]);
    let listing = delta_fs::walk_tree(&h.store, &String::from("a"), false).unwrap();
    let locs: Vec<String> = listing.objects.iter().map(|m| m.location.clone()).collect();
    assert_eq!(locs, vec!["a/1".to_string(), "a/2".to_string()]);
    assert_eq!(listing.common_prefixes, vec!["a/b".to_string()]);
}

#[test]
fn walk_missing_base_is_not_found() {
    let h = handler_with(&[("a/1", b"x")]);
    assert!(matches!(
        delta_fs::walk_tree(&h.store, &String::from("zzz"), true),
        Err(StoreError::NotFound)
    ));
}

#[test]
fn selector_lists_directories_then_files() {
    let h = handler_with(&[("d/1", b"x"), ("d/2/deep", b"y")]);
    let infos = h.get_file_info_selector("d", false, false).unwrap();
    assert_eq!(infos.len(), 2);
    assert_eq!(infos[0].kind, FileKind::Directory);
    assert_eq!(infos[0].path, "d/2");
    assert_eq!(infos[1].kind, FileKind::File);
    assert_eq!(infos[1].path, "d/1");
    assert_eq!(infos[1].size, Some(1));

    let recursive = h.get_file_info_selector("d", false, true).unwrap();
    let files: Vec<&str> = recursive
        .iter()
        .filter(|i| i.kind == FileKind::File)
        .map(|i| i.path.as_str())
        .collect();
    assert!(files.contains(&"d/1"));
    assert!(files.contains(&"d/2/deep"));
}

#[test]
fn selector_tolerates_missing_base_only_when_allowed() {
    let h = handler_with(&[("present/x", b"1")]);
    assert_eq!(h.get_file_info_selector("absent", true, true).unwrap().len(), 0);
    assert!(matches!(
        h.get_file_info_selector("absent", false, true),
        Err(StoreError::NotFound)
    ));
}

#[test]
fn copy_move_delete_single_objects() {
    let mut h = handler_with(&[("src", b"body")]);
    h.copy_file("src", "dst").unwrap();
    assert_eq!(h.store.get(&String::from("dst")).unwrap(), b"body".to_vec());
    assert_eq!(h.store.get(&String::from("src")).unwrap(), b"body".to_vec());

    h.move_file("dst", "moved").unwrap();
    assert_eq!(h.store.get(&String::from("moved")).unwrap(), b"body".to_vec());
    assert_eq!(h.store.get(&String::from("dst")), Err(StoreError::NotFound));

    h.delete_file("moved").unwrap();
    assert_eq!(h.store.get(&String::from("moved")), Err(StoreError::NotFound));

    // deleting or copying what is not there is an error, not a no-op
    assert_eq!(h.delete_file("moved"), Err(StoreError::NotFound));
    assert_eq!(h.copy_file("moved", "x"), Err(StoreError::NotFound));
    assert_eq!(h.move_file("moved", "x"), Err(StoreError::NotFound));
}

#[test]
fn delete_dir_removes_the_subtree_and_nothing_else() {
    let mut h = handler_with(&[("p/1", b"a"), ("p/2", b"b"), ("p/d/3", b"c"), ("q/x", b"keep")]);
    h.delete_dir("p").unwrap();
    assert_eq!(h.stat("p").unwrap().kind, FileKind::NotFound);
    assert_eq!(h.store.get(&String::from("q/x")).unwrap(), b"keep".to_vec());
    // deleting a prefix with nothing under it is a no-op
    h.delete_dir("p").unwrap();
}

#[test]
fn delete_dir_interrupted_leaves_remainder_intact() {
    let mut h = handler_with(&[("p/1", b"a"), ("p/2", b"b"), ("p/3", b"c"), ("q/x", b"keep")]);
    // the walk's listings are fault-free reads; the third delete fails
    h.store.arm_fault(2);
    assert!(matches!(h.delete_dir("p"), Err(StoreError::BackendGeneric { .. })));
    h.store.clear_fault();
    // two of the three objects are gone, the rest of the tree intact
    let remaining = delta_fs::walk_tree(&h.store, &String::from("p"), true)
        .map(|l| l.objects.len())
        .unwrap_or(0);
    assert_eq!(remaining, 1);
    assert_eq!(h.store.get(&String::from("q/x")).unwrap(), b"keep".to_vec());
    // finishing the job succeeds once the backend recovers
    h.delete_dir("p").unwrap();
    assert_eq!(h.stat("p").unwrap().kind, FileKind::NotFound);
}

#[test]
fn backend_fault_surfaces_as_generic_error() {
    let mut h = handler_with(&[("a/1", b"x")]);
    h.store.arm_fault(0);
    assert!(matches!(h.stat("a"), Err(StoreError::BackendGeneric { .. })));
    assert!(matches!(
        h.get_file_info_selector("a", false, true),
        Err(StoreError::BackendGeneric { .. })
    ));
    h.store.clear_fault();
    assert_eq!(h.stat("a").unwrap().kind, FileKind::Directory);
}

#[test]
fn multipart_sessions_commit_independently() {
    let mut h = DeltaFileSystemHandler::new("memory://t");
    let s1 = h.store.put_multipart(&String::from("one")).unwrap();
    let s2 = h.store.put_multipart(&String::from("two")).unwrap();
    h.store.append_part(s1, &b"11".to_vec()).unwrap();
    h.store.append_part(s2, &b"22".to_vec()).unwrap();
    h.store.abort_multipart(s2);
    h.store.complete_multipart(s1).unwrap();
    assert_eq!(h.store.get(&String::from("one")).unwrap(), b"11".to_vec());
    assert_eq!(h.store.get(&String::from("two")), Err(StoreError::NotFound));
    assert_eq!(h.store.append_part(s2, &b"late".to_vec()), Err(StoreError::NotFound));
}

#[test]
fn handler_open_read_and_write_handles() {
    let mut h = DeltaFileSystemHandler::new("memory://t");
    let mut w = h.open_output_stream("dir/file").unwrap();
    w.write(&b"abcd".to_vec(), &mut h.store).unwrap();
    w.close(&mut h.store).unwrap();

    let mut r = h.open_input_file("dir/file").unwrap();
    assert_eq!(r.size().unwrap(), 4);
    assert_eq!(r.read(Some(2), &h.store).unwrap(), b"ab".to_vec());
    assert_eq!(r.read(None, &h.store).unwrap(), b"cd".to_vec());

    assert!(matches!(h.open_input_file("missing"), Err(StoreError::NotFound)));
    assert!(matches!(h.open_input_file("a//b"), Err(StoreError::InvalidPath)));
}
