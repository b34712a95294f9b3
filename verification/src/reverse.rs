//! The reverse adapter: an arbitrary foreign synchronous filesystem
//! presented as an implementation of the storage backend contract.
//!
//! Only basic read, write and stat are in scope; every other backend
//! operation is a capability gap.  Foreign errors are translated into the
//! backend taxonomy: a foreign not-found becomes `NotFound`, a foreign
//! not-implemented becomes `NotImplemented`, anything else is wrapped as
//! a generic backend failure.

use vstd::prelude::*;

use crate::errors::StoreError;
use crate::store::{clone_bytes, ObjectMeta};

verus! {

/// How a foreign filesystem reports a modification time: whole seconds or
/// nanoseconds, whichever it has.
#[derive(Clone, Copy, Debug, PartialEq, Eq, Structural)]
pub enum ForeignTime {
    Seconds(i64),
    Nanos(i64),
}

/// One foreign file.
pub struct ForeignFile {
    pub path: String,
    pub data: Vec<u8>,
    pub mtime: ForeignTime,
}

/// What a foreign call reports when it fails.
#[derive(Clone, Copy, Debug, PartialEq, Eq, Structural)]
pub enum ForeignError {
    NotFound,
    NotImplemented,
    Other,
}

/// The foreign filesystem: files looked up front-first (a newer entry
/// shadows an older one with the same path), plus a switch that makes
/// every foreign call fail, for exercising the translation paths.
pub struct ForeignFs {
    pub files: Vec<ForeignFile>,
    pub clock_ns: i64,
    pub broken: bool,
}

/// First-match lookup in the foreign file list.
pub open spec fn f_lookup(s: Seq<ForeignFile>, p: Seq<char>) -> Option<ForeignFile>
    decreases s.len(),
{
    if s.len() == 0 {
        Option::None
    } else if s[0].path@ == p {
        Option::Some(s[0])
    } else {
        f_lookup(s.drop_first(), p)
    }
}

/// The backend timestamp a foreign time stands for, in nanoseconds.
pub open spec fn mtime_ns_of(t: ForeignTime) -> int {
    match t {
        ForeignTime::Seconds(s) => s * 1_000_000_000,
        ForeignTime::Nanos(n) => n as int,
    }
}

/// Whether that timestamp fits the backend's signed nanosecond count.
pub open spec fn mtime_fits(t: ForeignTime) -> bool {
    match t {
        ForeignTime::Seconds(s) => -9_223_372_036 <= s <= 9_223_372_036,
        ForeignTime::Nanos(_) => true,
    }
}

/// A blocking foreign read handle: a finite, single-pass byte source.
pub struct ForeignInput {
    pub data: Vec<u8>,
    pub pos: usize,
}

/// A blocking foreign write handle: bytes buffered until `close`.
pub struct ForeignOutput {
    pub path: String,
    pub buf: Vec<u8>,
}

impl ForeignFs {
    /// Opens a foreign file for reading.
    pub fn open_input_stream(&self, path: &String) -> (r: Result<ForeignInput, ForeignError>)
        ensures
            self.broken ==> r == Err::<ForeignInput, ForeignError>(ForeignError::Other),
            !self.broken && f_lookup(self.files@, path@) is None ==> r == Err::<
                ForeignInput,
                ForeignError,
            >(ForeignError::NotFound),
            !self.broken ==> (f_lookup(self.files@, path@) matches Some(f) ==> (r matches Ok(h)
                && h.data@ == f.data@ && h.pos == 0)),
    {
        if self.broken {
            return Err(ForeignError::Other);
        }
        match self.find(path) {
            Some(i) => Ok(ForeignInput { data: clone_bytes(&self.files[i].data), pos: 0 }),
            None => Err(ForeignError::NotFound),
        }
    }

    /// Opens a foreign file for writing; the file appears at `close`.
    pub fn open_output_stream(&self, path: &String) -> (r: Result<ForeignOutput, ForeignError>)
        ensures
            self.broken ==> r == Err::<ForeignOutput, ForeignError>(ForeignError::Other),
            !self.broken ==> (r matches Ok(h) && h.path@ == path@ && h.buf@ == Seq::<u8>::empty()),
    {
        if self.broken {
            return Err(ForeignError::Other);
        }
        Ok(ForeignOutput { path: path.clone(), buf: Vec::new() })
    }

    /// Retrieves a foreign file's info record.
    pub fn get_file_info(&self, path: &String) -> (r: Result<ForeignFile, ForeignError>)
        ensures
            self.broken ==> r == Err::<ForeignFile, ForeignError>(ForeignError::Other),
            !self.broken && f_lookup(self.files@, path@) is None ==> r == Err::<
                ForeignFile,
                ForeignError,
            >(ForeignError::NotFound),
            !self.broken ==> (f_lookup(self.files@, path@) matches Some(f) ==> (r matches Ok(g)
                && g.path@ == f.path@ && g.data@ == f.data@ && g.mtime == f.mtime)),
    {
        if self.broken {
            return Err(ForeignError::Other);
        }
        match self.find(path) {
            Some(i) => {
                let f = &self.files[i];
                Ok(
                    ForeignFile {
                        path: f.path.clone(),
                        data: clone_bytes(&f.data),
                        mtime: f.mtime,
                    },
                )
            },
            None => Err(ForeignError::NotFound),
        }
    }

    /// Index of the first entry at `path`, matching `f_lookup`.
    fn find(&self, path: &String) -> (r: Option<usize>)
        ensures
            match r {
                Some(i) => 0 <= i < self.files@.len() && f_lookup(self.files@, path@) == Some(
                    self.files@[i as int],
                ),
                None => f_lookup(self.files@, path@) is None,
            },
    {
        let mut i: usize = 0;
        proof {
            assert(self.files@.skip(0) =~= self.files@);
        }
        while i < self.files.len()
            invariant
                0 <= i <= self.files@.len(),
                f_lookup(self.files@, path@) == f_lookup(self.files@.skip(i as int), path@),
            decreases self.files@.len() - i,
        {
            proof {
                assert(self.files@.skip(i as int)[0] == self.files@[i as int]);
                assert(self.files@.skip(i as int).drop_first() =~= self.files@.skip(i + 1));
            }
            if self.files[i].path == *path {
                return Some(i);
            }
            i += 1;
        }
        None
    }

    /// Commits a written file at the front of the list, shadowing any
    /// older entry with the same path; the clock stamps it.
    fn commit(&mut self, path: String, buf: Vec<u8>)
        ensures
            final(self).files@.len() == old(self).files@.len() + 1,
            final(self).files@[0].path@ == path@,
            final(self).files@[0].data@ == buf@,
            final(self).files@[0].mtime == ForeignTime::Nanos(old(self).clock_ns),
            forall|i: int|
                0 <= i < old(self).files@.len() ==> #[trigger] final(self).files@[i + 1] == old(
                    self,
                ).files@[i],
            final(self).clock_ns == old(self).clock_ns,
            final(self).broken == old(self).broken,
            f_lookup(final(self).files@, path@) matches Some(f) && f.data@ == buf@,
            forall|p: Seq<char>|
                p != path@ ==> #[trigger] f_lookup(final(self).files@, p) == f_lookup(
                    old(self).files@,
                    p,
                ),
    {
        let entry = ForeignFile { path, data: buf, mtime: ForeignTime::Nanos(self.clock_ns) };
        self.files.insert(0, entry);
        proof {
            assert(self.files@.drop_first() =~= old(self).files@);
        }
    }
}

impl ForeignInput {
    /// A blocking bounded read: the next `n` bytes, fewer at the end,
    /// empty once exhausted.
    pub fn read(&mut self, n: usize) -> (r: Vec<u8>)
        requires
            old(self).pos <= old(self).data@.len(),
        ensures
            final(self).data == old(self).data,
            final(self).pos == if old(self).pos + n <= old(self).data@.len() {
                old(self).pos + n
            } else {
                old(self).data@.len() as int
            },
            r@ == old(self).data@.subrange(old(self).pos as int, final(self).pos as int),
    {
        let end = if n <= self.data.len() - self.pos {
            self.pos + n
        } else {
            self.data.len()
        };
        let mut out: Vec<u8> = Vec::new();
        let mut p = self.pos;
        while p < end
            invariant
                self.pos <= p <= end <= self.data@.len(),
                out@ == self.data@.subrange(self.pos as int, p as int),
            decreases end - p,
        {
            out.push(self.data[p]);
            proof {
                assert(out@ =~= self.data@.subrange(self.pos as int, p + 1));
            }
            p += 1;
        }
        self.pos = end;
        out
    }
}

impl ForeignOutput {
    /// A blocking write: the whole body is appended to the buffer.
    pub fn write(&mut self, data: &Vec<u8>)
        ensures
            final(self).path == old(self).path,
            final(self).buf@ == old(self).buf@ + data@,
    {
        let mut q: usize = 0;
        while q < data.len()
            invariant
                0 <= q <= data@.len(),
                self.path == old(self).path,
                self.buf@ == old(self).buf@ + data@.take(q as int),
            decreases data@.len() - q,
        {
            self.buf.push(data[q]);
            proof {
                assert(self.buf@ =~= old(self).buf@ + data@.take(q + 1));
            }
            q += 1;
        }
        proof {
            assert(data@.take(data@.len() as int) =~= data@);
        }
    }

    /// Closing the handle commits the buffered bytes as the file body.
    pub fn close(self, fs: &mut ForeignFs)
        ensures
            f_lookup(final(fs).files@, self.path@) matches Some(f) && f.data@ == self.buf@
                && f.mtime == ForeignTime::Nanos(old(fs).clock_ns),
            forall|p: Seq<char>|
                p != self.path@ ==> #[trigger] f_lookup(final(fs).files@, p) == f_lookup(
                    old(fs).files@,
                    p,
                ),
            final(fs).clock_ns == old(fs).clock_ns,
            final(fs).broken == old(fs).broken,
    {
        let ForeignOutput { path, buf } = self;
        fs.commit(path, buf);
    }
}

/// Translates a foreign failure into the backend taxonomy.
/// A foreign not-found is a genuine absence, a foreign not-implemented a
/// capability gap; anything else is wrapped with its cause.
pub fn store_error_from_foreign(e: ForeignError) -> (r: StoreError)
    ensures
        e is NotFound ==> r == StoreError::NotFound,
        e is NotImplemented ==> r == StoreError::NotImplemented,
        e is Other ==> r is BackendGeneric,
{
    match e {
        ForeignError::NotFound => StoreError::NotFound,
        ForeignError::NotImplemented => StoreError::NotImplemented,
        ForeignError::Other => StoreError::BackendGeneric {
            cause: String::from_str("foreign filesystem failure"),
        },
    }
}

/// A foreign filesystem masquerading as the storage backend.
pub struct WrappedPyArrowStore {
    pub root: String,
}

impl WrappedPyArrowStore {
    /// Wraps the foreign filesystem rooted at `root`.
    pub fn new(root: &str) -> (r: WrappedPyArrowStore)
        ensures
            r.root@ == root@,
    {
        WrappedPyArrowStore { root: String::from_str(root) }
    }

    /// Writes a whole object: open, write the full body, close.
    pub fn put(&self, fs: &mut ForeignFs, location: &String, bytes: Vec<u8>) -> (r: Result<
        (),
        StoreError,
    >)
        ensures
            old(fs).broken ==> (r matches Err(e) && e is BackendGeneric) && *final(fs) == *old(fs),
            !old(fs).broken ==> {
                &&& r == Ok::<(), StoreError>(())
                &&& f_lookup(final(fs).files@, location@) matches Some(f) && f.data@ == bytes@
                &&& forall|p: Seq<char>|
                    p != location@ ==> #[trigger] f_lookup(final(fs).files@, p) == f_lookup(
                        old(fs).files@,
                        p,
                    )
            },
    {
        let mut out = match fs.open_output_stream(location) {
            Ok(h) => h,
            Err(fe) => {
                return Err(store_error_from_foreign(fe));
            },
        };
        out.write(&bytes);
        proof {
            assert(out.buf@ =~= bytes@);
        }
        out.close(fs);
        Ok(())
    }

    /// Reads a whole object as a finite sequence of bounded blocking
    /// reads, concatenated until the source is exhausted.
    pub fn get(&self, fs: &ForeignFs, location: &String) -> (r: Result<Vec<u8>, StoreError>)
        ensures
            fs.broken ==> (r matches Err(e) && e is BackendGeneric),
            !fs.broken && f_lookup(fs.files@, location@) is None ==> r == Err::<
                Vec<u8>,
                StoreError,
            >(StoreError::NotFound),
            !fs.broken ==> (f_lookup(fs.files@, location@) matches Some(f) ==> (r matches Ok(d)
                && d@ == f.data@)),
    {
        let mut h = match fs.open_input_stream(location) {
            Ok(h) => h,
            Err(fe) => {
                return Err(store_error_from_foreign(fe));
            },
        };
        let mut out: Vec<u8> = Vec::new();
        loop
            invariant
                h.pos <= h.data@.len(),
                out@ == h.data@.take(h.pos as int),
                !fs.broken,
                f_lookup(fs.files@, location@) matches Some(fl) && h.data@ == fl.data@,
            ensures
                f_lookup(fs.files@, location@) matches Some(fl) && h.data@ == fl.data@,
                h.pos == h.data@.len(),
                out@ == h.data@.take(h.pos as int),
            decreases h.data@.len() - h.pos,
        {
            let ghost prev = h.pos;
            let mut chunk = h.read(5 * 1024 * 1024);
            if chunk.len() == 0 {
                proof {
                    assert(h.pos == prev);
                    assert(h.pos == h.data@.len());
                }
                break ;
            }
            out.append(&mut chunk);
            proof {
                assert(out@ =~= h.data@.take(h.pos as int));
            }
        }
        proof {
            assert(h.data@.take(h.data@.len() as int) =~= h.data@);
        }
        Ok(out)
    }

    /// Maps a foreign info record into backend metadata, converting the
    /// foreign modification time (seconds or nanoseconds) into the
    /// backend's nanosecond stamp.
    pub fn head(&self, fs: &ForeignFs, location: &String) -> (r: Result<ObjectMeta, StoreError>)
        ensures
            fs.broken ==> (r matches Err(e) && e is BackendGeneric),
            !fs.broken && f_lookup(fs.files@, location@) is None ==> r == Err::<
                ObjectMeta,
                StoreError,
            >(StoreError::NotFound),
            !fs.broken ==> (f_lookup(fs.files@, location@) matches Some(f) ==> (!mtime_fits(
                f.mtime,
            ) ==> (r matches Err(e) && e is BackendGeneric))),
            !fs.broken ==> (f_lookup(fs.files@, location@) matches Some(f) ==> (mtime_fits(f.mtime)
                ==> (r matches Ok(m) && m.location@ == f.path@ && m.size == f.data@.len()
                && m.mtime_ns as int == mtime_ns_of(f.mtime)))),
    {
        let info = match fs.get_file_info(location) {
            Ok(g) => g,
            Err(fe) => {
                return Err(store_error_from_foreign(fe));
            },
        };
        let mtime_ns: i64 = match info.mtime {
            ForeignTime::Nanos(n) => n,
            ForeignTime::Seconds(s) => {
                if s < -9_223_372_036 || s > 9_223_372_036 {
                    return Err(
                        StoreError::BackendGeneric {
                            cause: String::from_str("modification time out of range"),
                        },
                    );
                }
                s * 1_000_000_000
            },
        };
        Ok(ObjectMeta { location: info.path, size: info.data.len(), mtime_ns })
    }

    /// Deleting is out of the adapter's scope.
    pub fn delete(&self, _location: &String) -> (r: Result<(), StoreError>)
        ensures
            r == Err::<(), StoreError>(StoreError::NotImplemented),
    {
        Err(StoreError::NotImplemented)
    }

    /// Flat listing is out of the adapter's scope.
    pub fn list(&self, _prefix: &String) -> (r: Result<Vec<ObjectMeta>, StoreError>)
        ensures
            r == Err::<Vec<ObjectMeta>, StoreError>(StoreError::NotImplemented),
    {
        Err(StoreError::NotImplemented)
    }

    /// Delimiter listing is out of the adapter's scope.
    pub fn list_with_delimiter(&self, _prefix: &String) -> (r: Result<
        crate::store::ListResult,
        StoreError,
    >)
        ensures
            r == Err::<crate::store::ListResult, StoreError>(StoreError::NotImplemented),
    {
        Err(StoreError::NotImplemented)
    }

    /// Range reads are out of the adapter's scope.
    pub fn get_range(&self, _location: &String, _start: usize, _end: usize) -> (r: Result<
        Vec<u8>,
        StoreError,
    >)
        ensures
            r == Err::<Vec<u8>, StoreError>(StoreError::NotImplemented),
    {
        Err(StoreError::NotImplemented)
    }

    /// Copying is out of the adapter's scope.
    pub fn copy(&self, _from: &String, _to: &String) -> (r: Result<(), StoreError>)
        ensures
            r == Err::<(), StoreError>(StoreError::NotImplemented),
    {
        Err(StoreError::NotImplemented)
    }

    /// Conditional copying is out of the adapter's scope.
    pub fn copy_if_not_exists(&self, _from: &String, _to: &String) -> (r: Result<(), StoreError>)
        ensures
            r == Err::<(), StoreError>(StoreError::NotImplemented),
    {
        Err(StoreError::NotImplemented)
    }

    /// Conditional renaming is out of the adapter's scope.
    pub fn rename_if_not_exists(&self, _from: &String, _to: &String) -> (r: Result<(), StoreError>)
        ensures
            r == Err::<(), StoreError>(StoreError::NotImplemented),
    {
        Err(StoreError::NotImplemented)
    }

    /// Multipart uploads are out of the adapter's scope.
    pub fn put_multipart(&self, _location: &String) -> (r: Result<u64, StoreError>)
        ensures
            r == Err::<u64, StoreError>(StoreError::NotImplemented),
    {
        Err(StoreError::NotImplemented)
    }

    /// Multipart aborts are out of the adapter's scope.
    pub fn abort_multipart(&self, _location: &String, _multipart_id: u64) -> (r: Result<
        (),
        StoreError,
    >)
        ensures
            r == Err::<(), StoreError>(StoreError::NotImplemented),
    {
        Err(StoreError::NotImplemented)
    }
}

} // verus!
