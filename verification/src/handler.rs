//! The filesystem-style entry point: routes stat, copy, move, delete and
//! listing calls to backend operations over the flat namespace.
//!
//! A path with a directory-like listing is a directory even when an
//! object with the very same key exists: directories shadow files.  A
//! path with nothing beneath it and no object at the exact key does not
//! exist.

use vstd::prelude::*;

use crate::errors::StoreError;
use crate::paths::{core_of, normalize, parse_key, path_valid, under};
use crate::store::StoreState;
use crate::walker::{
    base_occupied, lemma_listing_decides_occupied, obj_witnessed, seq_has_meta, walk_objects_ok,
    walk_prefixes_ok, walk_tree,
};

verus! {

/// What a stat found at a path.
#[derive(Clone, Copy, Debug, PartialEq, Eq, Structural)]
pub enum FileKind {
    File,
    Directory,
    NotFound,
}

/// The file-info record surfaced to the host.
pub struct FileInfo {
    pub path: String,
    pub kind: FileKind,
    pub size: Option<usize>,
    pub mtime_ns: Option<i64>,
}

/// What a stat of `key` must report: a directory whenever anything lies
/// below the key, else a file if an object sits at the exact key, else
/// nothing.
pub open spec fn stat_kind(s: StoreState, key: Seq<char>) -> FileKind {
    if base_occupied(s, key) {
        FileKind::Directory
    } else if s.contains_key(key) {
        FileKind::File
    } else {
        FileKind::NotFound
    }
}

/// `info` is the correct stat answer for the path `p`.
pub open spec fn stat_info_ok(s: StoreState, p: Seq<char>, info: FileInfo) -> bool {
    &&& info.path@ == core_of(p)
    &&& info.kind == stat_kind(s, core_of(p))
    &&& info.kind is File ==> (info.size matches Some(sz) && sz == s.data_of(core_of(p)).len()) && (
    info.mtime_ns matches Some(mn) && mn as int == s.mtime_of(core_of(p)))
    &&& !(info.kind is File) ==> info.size is None && info.mtime_ns is None
}

/// `infos` is one level (or, recursively, the whole subtree) of listing
/// `base`: first the synthetic directories, then the objects, each
/// faithfully reported.
pub open spec fn selector_infos_ok(
    s: StoreState,
    base: Seq<char>,
    recursive: bool,
    infos: Seq<FileInfo>,
) -> bool {
    exists|ps: Seq<String>, ms: Seq<crate::store::ObjectMeta>|
        {
            &&& #[trigger] selector_shape(infos, ps, ms)
            &&& if recursive {
                walk_prefixes_ok(s, base, ps) && walk_objects_ok(s, base, ms)
            } else {
                s.lists_prefixes_of(base, ps) && crate::store::metas_match(
                    ms,
                    s.direct_children(base),
                )
            }
        }
}

/// `infos` is the directory records for `ps` followed by the file
/// records for `ms`.
pub open spec fn selector_shape(
    infos: Seq<FileInfo>,
    ps: Seq<String>,
    ms: Seq<crate::store::ObjectMeta>,
) -> bool {
    &&& infos.len() == ps.len() + ms.len()
    &&& forall|a: int|
        0 <= a < ps.len() ==> (#[trigger] infos[a]).kind is Directory && infos[a].path@ == ps[a]@
            && infos[a].size is None && infos[a].mtime_ns is None
    &&& forall|b: int|
        0 <= b < ms.len() ==> (#[trigger] infos[ps.len() + b]).kind is File && infos[ps.len()
            + b].path@ == ms[b].location@ && infos[ps.len() + b].size == Some(ms[b].size)
            && infos[ps.len() + b].mtime_ns == Some(ms[b].mtime_ns)
}

/// The handler: a backend state reached by a storage location
/// identifier.  The identifier is resolved outside this crate; here it
/// only identifies the backend for structural equality.
pub struct DeltaFileSystemHandler {
    pub store: StoreState,
    pub table_uri: String,
}

impl DeltaFileSystemHandler {
    pub open spec fn wf(self) -> bool {
        self.store.wf()
    }

    /// A handler over a fresh, empty backend.
    pub fn new(table_uri: &str) -> (r: DeltaFileSystemHandler)
        ensures
            r.wf(),
            r.store.objects@.len() == 0,
            r.store.sessions@.len() == 0,
            r.store.fault_in is None,
            r.table_uri@ == table_uri@,
    {
        DeltaFileSystemHandler { store: StoreState::new(), table_uri: String::from_str(table_uri) }
    }

    /// The kind of filesystem this handler presents.
    pub fn get_type_name(&self) -> (r: String)
        ensures
            r@ == "object-store"@,
    {
        String::from_str("object-store")
    }

    /// Parses and re-serializes a path, keeping a trailing separator.
    pub fn normalize_path(&self, path: &str) -> (r: Result<String, StoreError>)
        ensures
            r is Ok <==> path_valid(path@),
            r matches Ok(p) ==> p@ == crate::paths::normal_form(path@),
            r matches Err(e) ==> e == StoreError::InvalidPath,
    {
        normalize(path)
    }

    /// Structural equality of backend configuration.
    pub fn equals(&self, other: &DeltaFileSystemHandler) -> (r: bool)
        ensures
            r == (self.table_uri@ == other.table_uri@),
    {
        self.table_uri == other.table_uri
    }

    /// Creating a directory is a no-op: the backend has no directory
    /// entities.
    pub fn create_dir(&self, _path: &str, _recursive: bool) -> (r: Result<(), StoreError>)
        ensures
            r == Ok::<(), StoreError>(()),
    {
        Ok(())
    }

    /// Copies a single object in one backend call.
    pub fn copy_file(&mut self, src: &str, dest: &str) -> (r: Result<(), StoreError>)
        requires
            old(self).wf(),
        ensures
            final(self).wf(),
            final(self).table_uri == old(self).table_uri,
            !path_valid(src@) || !path_valid(dest@) ==> r == Err::<(), StoreError>(
                StoreError::InvalidPath,
            ) && final(self).store == old(self).store,
            path_valid(src@) && path_valid(dest@) && old(self).store.fault_now() ==> (r matches Err(
                e,
            ) && e is BackendGeneric),
            path_valid(src@) && path_valid(dest@) && !old(self).store.fault_now() && !old(self).store.contains_key(core_of(src@)) ==> r == Err::<(), StoreError>(
                StoreError::NotFound,
            ) && final(self).store.objects == old(self).store.objects,
            path_valid(src@) && path_valid(dest@) && !old(self).store.fault_now() && old(self).store.contains_key(core_of(src@)) ==> {
                &&& r == Ok::<(), StoreError>(())
                &&& final(self).store.contains_key(core_of(dest@))
                &&& final(self).store.data_of(core_of(dest@)) == old(self).store.data_of(
                    core_of(src@),
                )
                &&& forall|k: Seq<char>|
                    k != core_of(dest@) ==> (#[trigger] final(self).store.contains_key(k)) == old(self).store.contains_key(k)
                &&& forall|k: Seq<char>|
                    k != core_of(dest@) && old(self).store.contains_key(k) ==> (#[trigger] final(self).store.data_of(k)) == old(self).store.data_of(k)
            },
    {
        let src_key = match parse_key(src) {
            Ok(k) => k,
            Err(e) => {
                return Err(e);
            },
        };
        let dst_key = match parse_key(dest) {
            Ok(k) => k,
            Err(e) => {
                return Err(e);
            },
        };
        self.store.copy(&src_key, &dst_key)
    }

    /// Moves a single object in one backend call.
    pub fn move_file(&mut self, src: &str, dest: &str) -> (r: Result<(), StoreError>)
        requires
            old(self).wf(),
        ensures
            final(self).wf(),
            final(self).table_uri == old(self).table_uri,
            !path_valid(src@) || !path_valid(dest@) ==> r == Err::<(), StoreError>(
                StoreError::InvalidPath,
            ) && final(self).store == old(self).store,
            path_valid(src@) && path_valid(dest@) && old(self).store.fault_now() ==> (r matches Err(
                e,
            ) && e is BackendGeneric),
            path_valid(src@) && path_valid(dest@) && !old(self).store.fault_now() && !old(self).store.contains_key(core_of(src@)) ==> r == Err::<(), StoreError>(
                StoreError::NotFound,
            ) && final(self).store.objects == old(self).store.objects,
            path_valid(src@) && path_valid(dest@) && !old(self).store.fault_now() && old(self).store.contains_key(core_of(src@)) && core_of(src@) != core_of(dest@) ==> {
                &&& r == Ok::<(), StoreError>(())
                &&& final(self).store.contains_key(core_of(dest@))
                &&& !final(self).store.contains_key(core_of(src@))
                &&& final(self).store.data_of(core_of(dest@)) == old(self).store.data_of(
                    core_of(src@),
                )
                &&& forall|k: Seq<char>|
                    k != core_of(dest@) && k != core_of(src@) ==> (#[trigger] final(self).store.contains_key(k)) == old(self).store.contains_key(k)
            },
            path_valid(src@) && path_valid(dest@) && !old(self).store.fault_now() && old(self).store.contains_key(core_of(src@)) && core_of(src@) == core_of(dest@) ==> r == Ok::<
                (),
                StoreError,
            >(()) && final(self).store.objects == old(self).store.objects,
    {
        let src_key = match parse_key(src) {
            Ok(k) => k,
            Err(e) => {
                return Err(e);
            },
        };
        let dst_key = match parse_key(dest) {
            Ok(k) => k,
            Err(e) => {
                return Err(e);
            },
        };
        self.store.rename(&src_key, &dst_key)
    }

    /// Deletes a single object; a missing object is an error the caller
    /// must catch if it wants idempotent deletes.
    pub fn delete_file(&mut self, path: &str) -> (r: Result<(), StoreError>)
        requires
            old(self).wf(),
        ensures
            final(self).wf(),
            final(self).table_uri == old(self).table_uri,
            !path_valid(path@) ==> r == Err::<(), StoreError>(StoreError::InvalidPath) && final(self).store == old(self).store,
            path_valid(path@) && old(self).store.fault_now() ==> (r matches Err(e)
                && e is BackendGeneric),
            path_valid(path@) && !old(self).store.fault_now() && !old(self).store.contains_key(
                core_of(path@),
            ) ==> r == Err::<(), StoreError>(StoreError::NotFound) && final(self).store.objects
                == old(self).store.objects,
            path_valid(path@) && !old(self).store.fault_now() && old(self).store.contains_key(
                core_of(path@),
            ) ==> {
                &&& r == Ok::<(), StoreError>(())
                &&& !final(self).store.contains_key(core_of(path@))
                &&& forall|k: Seq<char>|
                    k != core_of(path@) ==> (#[trigger] final(self).store.contains_key(k)) == old(self).store.contains_key(k)
                &&& forall|k: Seq<char>|
                    k != core_of(path@) && old(self).store.contains_key(k) ==> (#[trigger] final(self).store.data_of(k)) == old(self).store.data_of(k)
            },
    {
        let key = match parse_key(path) {
            Ok(k) => k,
            Err(e) => {
                return Err(e);
            },
        };
        self.store.delete(&key)
    }

    /// Stats one path: a non-recursive listing decides directory-ness,
    /// and only an empty listing falls back to a point lookup, whose
    /// not-found answer means "does not exist" rather than an error.
    pub fn stat(&self, path: &str) -> (r: Result<FileInfo, StoreError>)
        requires
            self.wf(),
        ensures
            !path_valid(path@) ==> r == Err::<FileInfo, StoreError>(StoreError::InvalidPath),
            path_valid(path@) && self.store.fault_now() ==> (r matches Err(e)
                && e is BackendGeneric),
            path_valid(path@) && !self.store.fault_now() ==> (r matches Ok(info) && stat_info_ok(
                self.store,
                path@,
                info,
            )),
    {
        let key = match parse_key(path) {
            Ok(k) => k,
            Err(e) => {
                return Err(e);
            },
        };
        let listed = match self.store.list_with_delimiter(&key) {
            Ok(l) => l,
            Err(e) => {
                return Err(e);
            },
        };
        proof {
            lemma_listing_decides_occupied(
                self.store,
                key@,
                listed.objects@,
                listed.common_prefixes@,
            );
        }
        if listed.objects.len() == 0 && listed.common_prefixes.len() == 0 {
            match self.store.head(&key) {
                Ok(meta) => Ok(
                    FileInfo {
                        path: meta.location,
                        kind: FileKind::File,
                        size: Some(meta.size),
                        mtime_ns: Some(meta.mtime_ns),
                    },
                ),
                Err(StoreError::NotFound) => Ok(
                    FileInfo { path: key, kind: FileKind::NotFound, size: None, mtime_ns: None },
                ),
                Err(e) => Err(e),
            }
        } else {
            Ok(FileInfo { path: key, kind: FileKind::Directory, size: None, mtime_ns: None })
        }
    }

    /// Stats each path independently; the first failure aborts the batch.
    pub fn get_file_info(&self, paths: &Vec<String>) -> (r: Result<Vec<FileInfo>, StoreError>)
        requires
            self.wf(),
        ensures
            (forall|i: int| 0 <= i < paths@.len() ==> path_valid(#[trigger] paths@[i]@))
                && !self.store.fault_now() ==> (r matches Ok(infos) && infos@.len() == paths@.len()
                && (forall|i: int|
                0 <= i < paths@.len() ==> stat_info_ok(self.store, paths@[i]@, #[trigger] infos@[i]))),
            r is Err ==> (exists|i: int| 0 <= i < paths@.len() && !path_valid(#[trigger] paths@[i]@))
                || self.store.fault_now(),
    {
        let mut infos: Vec<FileInfo> = Vec::new();
        let mut i: usize = 0;
        while i < paths.len()
            invariant
                self.wf(),
                0 <= i <= paths@.len(),
                infos@.len() == i,
                forall|q: int|
                    0 <= q < i ==> stat_info_ok(self.store, paths@[q]@, #[trigger] infos@[q]),
                forall|q: int| 0 <= q < i ==> path_valid(#[trigger] paths@[q]@),
                i > 0 ==> !self.store.fault_now(),
            decreases paths@.len() - i,
        {
            match self.stat(paths[i].as_str()) {
                Ok(info) => {
                    infos.push(info);
                },
                Err(e) => {
                    return Err(e);
                },
            }
            i += 1;
        }
        Ok(infos)
    }

    /// Lists a base path, recursively or one level deep; a base that does
    /// not exist is tolerated only when the caller allows it.
    pub fn get_file_info_selector(
        &self,
        base_dir: &str,
        allow_not_found: bool,
        recursive: bool,
    ) -> (r: Result<Vec<FileInfo>, StoreError>)
        requires
            self.wf(),
        ensures
            !path_valid(base_dir@) ==> r == Err::<Vec<FileInfo>, StoreError>(
                StoreError::InvalidPath,
            ),
            path_valid(base_dir@) && self.store.fault_now() ==> (r matches Err(e)
                && e is BackendGeneric),
            path_valid(base_dir@) && !self.store.fault_now() && !base_occupied(
                self.store,
                core_of(base_dir@),
            ) && allow_not_found ==> (r matches Ok(infos) && infos@.len() == 0),
            path_valid(base_dir@) && !self.store.fault_now() && !base_occupied(
                self.store,
                core_of(base_dir@),
            ) && !allow_not_found ==> r == Err::<Vec<FileInfo>, StoreError>(StoreError::NotFound),
            path_valid(base_dir@) && !self.store.fault_now() && base_occupied(
                self.store,
                core_of(base_dir@),
            ) ==> (r matches Ok(infos) && selector_infos_ok(
                self.store,
                core_of(base_dir@),
                recursive,
                infos@,
            )),
    {
        let key = match parse_key(base_dir) {
            Ok(k) => k,
            Err(e) => {
                return Err(e);
            },
        };
        let listing = match walk_tree(&self.store, &key, recursive) {
            Ok(l) => l,
            Err(e) => {
                let not_found = match &e {
                    StoreError::NotFound => true,
                    _ => false,
                };
                if not_found && allow_not_found {
                    return Ok(Vec::new());
                }
                return Err(e);
            },
        };
        let mut infos: Vec<FileInfo> = Vec::new();
        let mut a: usize = 0;
        while a < listing.common_prefixes.len()
            invariant
                0 <= a <= listing.common_prefixes@.len(),
                infos@.len() == a,
                forall|q: int|
                    0 <= q < a ==> (#[trigger] infos@[q]).kind is Directory && infos@[q].path@
                        == listing.common_prefixes@[q]@ && infos@[q].size is None
                        && infos@[q].mtime_ns is None,
            decreases listing.common_prefixes@.len() - a,
        {
            infos.push(
                FileInfo {
                    path: listing.common_prefixes[a].clone(),
                    kind: FileKind::Directory,
                    size: None,
                    mtime_ns: None,
                },
            );
            a += 1;
        }
        let np = listing.common_prefixes.len();
        let mut b: usize = 0;
        while b < listing.objects.len()
            invariant
                0 <= b <= listing.objects@.len(),
                np == listing.common_prefixes@.len(),
                infos@.len() == np + b,
                forall|q: int|
                    0 <= q < np ==> (#[trigger] infos@[q]).kind is Directory && infos@[q].path@
                        == listing.common_prefixes@[q]@ && infos@[q].size is None
                        && infos@[q].mtime_ns is None,
                forall|q: int|
                    0 <= q < b ==> (#[trigger] infos@[np + q]).kind is File && infos@[np + q].path@
                        == listing.objects@[q].location@ && infos@[np + q].size == Some(
                        listing.objects@[q].size,
                    ) && infos@[np + q].mtime_ns == Some(listing.objects@[q].mtime_ns),
            decreases listing.objects@.len() - b,
        {
            let m = &listing.objects[b];
            infos.push(
                FileInfo {
                    path: m.location.clone(),
                    kind: FileKind::File,
                    size: Some(m.size),
                    mtime_ns: Some(m.mtime_ns),
                },
            );
            b += 1;
        }
        proof {
            assert(selector_shape(infos@, listing.common_prefixes@, listing.objects@));
        }
        Ok(infos)
    }

    /// Opens a seekable read handle on the object at `path`.
    pub fn open_input_file(&self, path: &str) -> (r: Result<
        crate::read_stream::ObjectInputFile,
        StoreError,
    >)
        requires
            self.wf(),
        ensures
            !path_valid(path@) ==> r == Err::<crate::read_stream::ObjectInputFile, StoreError>(
                StoreError::InvalidPath,
            ),
            path_valid(path@) && self.store.fault_now() ==> (r matches Err(e)
                && e is BackendGeneric),
            path_valid(path@) && !self.store.fault_now() && !self.store.contains_key(
                core_of(path@),
            ) ==> r == Err::<crate::read_stream::ObjectInputFile, StoreError>(StoreError::NotFound),
            path_valid(path@) && !self.store.fault_now() && self.store.contains_key(
                core_of(path@),
            ) ==> (r matches Ok(f) && f.wf() && f.path@ == core_of(path@) && f.content_length
                == self.store.data_of(core_of(path@)).len() && f.pos == 0 && !f.closed),
    {
        let key = match parse_key(path) {
            Ok(k) => k,
            Err(e) => {
                return Err(e);
            },
        };
        crate::read_stream::ObjectInputFile::try_new(&self.store, key)
    }

    /// Opens a sequential write handle: a fresh multipart session for the
    /// object at `path`.
    pub fn open_output_stream(&mut self, path: &str) -> (r: Result<
        crate::write_stream::ObjectOutputStream,
        StoreError,
    >)
        requires
            old(self).wf(),
            old(self).store.next_session_id < u64::MAX,
        ensures
            final(self).wf(),
            final(self).table_uri == old(self).table_uri,
            final(self).store.objects == old(self).store.objects,
            final(self).store.clock_ns == old(self).store.clock_ns,
            !path_valid(path@) ==> r == Err::<crate::write_stream::ObjectOutputStream, StoreError>(
                StoreError::InvalidPath,
            ) && final(self).store == old(self).store,
            path_valid(path@) && old(self).store.fault_now() ==> (r matches Err(e)
                && e is BackendGeneric) && final(self).store.sessions == old(self).store.sessions,
            path_valid(path@) && !old(self).store.fault_now() ==> (r matches Ok(w) && w.wf()
                && w.owns_session(final(self).store) && w.path@ == core_of(path@)
                && w.state == crate::write_stream::StreamState::Open && w.pos == 0 && final(self).store.session_parts(
                w.session_id,
            ) == Seq::<u8>::empty()),
    {
        let key = match parse_key(path) {
            Ok(k) => k,
            Err(e) => {
                return Err(e);
            },
        };
        crate::write_stream::ObjectOutputStream::try_new(&mut self.store, key)
    }

    /// Deletes every object below the prefix, one delete per object; the
    /// walk is not atomic, but objects outside the prefix are never
    /// touched, and an interruption leaves the remainder intact.
    pub fn delete_dir(&mut self, path: &str) -> (r: Result<(), StoreError>)
        requires
            old(self).wf(),
        ensures
            final(self).wf(),
            final(self).table_uri == old(self).table_uri,
            final(self).store.sessions == old(self).store.sessions,
            final(self).store.clock_ns == old(self).store.clock_ns,
            !path_valid(path@) ==> r == Err::<(), StoreError>(StoreError::InvalidPath) && final(self).store == old(self).store,
            path_valid(path@) ==> forall|k: Seq<char>|
                !under(k, core_of(path@)) ==> (#[trigger] final(self).store.contains_key(k)) == old(self).store.contains_key(k),
            path_valid(path@) ==> forall|k: Seq<char>|
                !under(k, core_of(path@)) && old(self).store.contains_key(k) ==> (#[trigger] final(self).store.data_of(k)) == old(self).store.data_of(k) && final(self).store.mtime_of(k)
                    == old(self).store.mtime_of(k),
            path_valid(path@) ==> forall|k: Seq<char>|
                old(self).store.contains_key(k) && (#[trigger] final(self).store.contains_key(k))
                    ==> final(self).store.data_of(k) == old(self).store.data_of(k),
            path_valid(path@) ==> forall|k: Seq<char>|
                !old(self).store.contains_key(k) ==> !(#[trigger] final(self).store.contains_key(
                    k,
                )),
            path_valid(path@) && old(self).store.fault_in is None ==> r == Ok::<(), StoreError>(()),
            path_valid(path@) && r == Ok::<(), StoreError>(()) ==> forall|k: Seq<char>|
                under(k, core_of(path@)) ==> !(#[trigger] final(self).store.contains_key(k)),
    {
        let key = match parse_key(path) {
            Ok(k) => k,
            Err(e) => {
                return Err(e);
            },
        };
        let ghost s0 = self.store;
        let listing = match walk_tree(&self.store, &key, true) {
            Ok(l) => l,
            Err(e) => {
                let not_found = match &e {
                    StoreError::NotFound => true,
                    _ => false,
                };
                if not_found {
                    proof {
                        assert(self.store == old(self).store);
                        assert forall|k: Seq<char>| under(k, key@) implies !(
                        #[trigger] self.store.contains_key(k)) by {
                            if self.store.contains_key(k) {
                                let j = self.store.idx_of(k);
                                assert(under(self.store.objects@[j].key@, key@));
                                assert(base_occupied(self.store, key@));
                            }
                        }
                    }
                    return Ok(());
                }
                proof {
                    assert(self.store == old(self).store);
                    assert(self.store.fault_now());
                }
                return Err(e);
            },
        };
        let objs = listing.objects;
        let mut i: usize = 0;
        while i < objs.len()
            invariant
                self.wf(),
                key@ == core_of(path@),
                path_valid(path@),
                walk_objects_ok(s0, key@, objs@),
                self.table_uri == old(self).table_uri,
                self.store.sessions == old(self).store.sessions,
                self.store.clock_ns == old(self).store.clock_ns,
                s0 == old(self).store,
                0 <= i <= objs@.len(),
                forall|k: Seq<char>|
                    !under(k, key@) ==> (#[trigger] self.store.contains_key(k)) == s0.contains_key(
                        k,
                    ),
                forall|k: Seq<char>|
                    !under(k, key@) && s0.contains_key(k) ==> (#[trigger] self.store.data_of(k))
                        == s0.data_of(k) && self.store.mtime_of(k) == s0.mtime_of(k),
                forall|k: Seq<char>|
                    s0.contains_key(k) && (#[trigger] self.store.contains_key(k))
                        ==> self.store.data_of(k) == s0.data_of(k) && self.store.mtime_of(k)
                        == s0.mtime_of(k),
                forall|k: Seq<char>|
                    !s0.contains_key(k) ==> !(#[trigger] self.store.contains_key(k)),
                forall|a: int|
                    0 <= a < i ==> !(#[trigger] self.store.contains_key(objs@[a].location@)),
                forall|a: int|
                    i <= a < objs@.len() ==> (#[trigger] self.store.contains_key(
                        objs@[a].location@,
                    )),
                s0.fault_in is None ==> self.store.fault_in is None,
            decreases objs@.len() - i,
        {
            let ghost pre = self.store;
            match self.store.delete(&objs[i].location) {
                Ok(_) => {
                    proof {
                        let dk = objs@[i as int].location@;
                        assert(obj_witnessed(s0, key@, objs@[i as int]));
                        let j = choose|j: int|
                            0 <= j < s0.objects@.len() && under(#[trigger] s0.objects@[j].key@, key@)
                                && crate::store::meta_matches(objs@[i as int], s0.objects@[j]);
                        assert(under(dk, key@));
                        assert forall|k: Seq<char>| !under(k, key@) implies (
                        #[trigger] self.store.contains_key(k)) == s0.contains_key(k) by {
                            assert(k != dk);
                            assert(self.store.contains_key(k) == pre.contains_key(k));
                        }
                        assert forall|k: Seq<char>|
                            !under(k, key@) && s0.contains_key(k) implies (
                        #[trigger] self.store.data_of(k)) == s0.data_of(k) && self.store.mtime_of(k)
                            == s0.mtime_of(k) by {
                            assert(k != dk);
                            assert(pre.contains_key(k));
                            assert(self.store.data_of(k) == pre.data_of(k));
                            assert(self.store.mtime_of(k) == pre.mtime_of(k));
                        }
                        assert forall|k: Seq<char>|
                            s0.contains_key(k) && (#[trigger] self.store.contains_key(k)) implies
                            self.store.data_of(k) == s0.data_of(k) && self.store.mtime_of(k)
                            == s0.mtime_of(k) by {
                            assert(k != dk);
                            assert(pre.contains_key(k));
                            assert(self.store.data_of(k) == pre.data_of(k));
                            assert(self.store.mtime_of(k) == pre.mtime_of(k));
                        }
                        assert forall|k: Seq<char>|
                            !s0.contains_key(k) implies !(#[trigger] self.store.contains_key(
                            k,
                        )) by {
                            if k != dk {
                                assert(self.store.contains_key(k) == pre.contains_key(k));
                            }
                        }
                        assert forall|a: int| 0 <= a < i + 1 implies !(
                        #[trigger] self.store.contains_key(objs@[a].location@)) by {
                            if a < i {
                                if objs@[a].location@ != dk {
                                    assert(self.store.contains_key(objs@[a].location@)
                                        == pre.contains_key(objs@[a].location@));
                                }
                            }
                        }
                        assert forall|a: int| i + 1 <= a < objs@.len() implies (
                        #[trigger] self.store.contains_key(objs@[a].location@)) by {
                            assert(objs@[a].location@ != dk);
                            assert(self.store.contains_key(objs@[a].location@) == pre.contains_key(
                                objs@[a].location@,
                            ));
                        }
                    }
                },
                Err(e) => {
                    proof {
                        assert(pre.fault_now());
                        assert(self.store.objects == pre.objects);
                        assert forall|k: Seq<char>| !under(k, key@) implies (
                        #[trigger] self.store.contains_key(k)) == s0.contains_key(k) by {
                            assert(self.store.contains_key(k) == pre.contains_key(k));
                        }
                        assert forall|k: Seq<char>|
                            !under(k, key@) && s0.contains_key(k) implies (
                        #[trigger] self.store.data_of(k)) == s0.data_of(k) && self.store.mtime_of(k)
                            == s0.mtime_of(k) by {
                            assert(self.store.data_of(k) == pre.data_of(k));
                            assert(self.store.mtime_of(k) == pre.mtime_of(k));
                        }
                        assert forall|k: Seq<char>|
                            s0.contains_key(k) && (#[trigger] self.store.contains_key(k)) implies
                            self.store.data_of(k) == s0.data_of(k) by {
                            assert(self.store.contains_key(k) == pre.contains_key(k));
                            assert(self.store.data_of(k) == pre.data_of(k));
                        }
                        assert forall|k: Seq<char>|
                            !s0.contains_key(k) implies !(#[trigger] self.store.contains_key(
                            k,
                        )) by {
                            assert(self.store.contains_key(k) == pre.contains_key(k));
                        }
                    }
                    return Err(e);
                },
            }
            i += 1;
        }
        proof {
            assert forall|k: Seq<char>| under(k, key@) implies !(
            #[trigger] self.store.contains_key(k)) by {
                if s0.contains_key(k) {
                    let j = s0.idx_of(k);
                    assert(s0.objects@[j].key@ == k);
                    assert(seq_has_meta(objs@, k));
                    let a = choose|a: int|
                        0 <= a < objs@.len() && (#[trigger] objs@[a].location@) == k;
                    assert(!self.store.contains_key(objs@[a].location@));
                }
            }
        }
        Ok(())
    }
}

} // verus!
