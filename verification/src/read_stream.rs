//! A seekable, read-only file handle over one stored object.
//!
//! The content length is fetched once at construction; a cursor moves
//! inside `[0, content_length]` and every read maps to exactly one
//! clamped range fetch.  After `close`, every operation but `close`
//! itself fails with the stream-misuse error.

use vstd::prelude::*;

use crate::errors::StoreError;
use crate::store::StoreState;

verus! {

/// Where a seek offset is measured from.
#[derive(Clone, Copy, Debug, PartialEq, Eq, Structural)]
pub enum SeekFrom {
    Start,
    Current,
    End,
}

/// A read-only random-access handle on the object at `path`.
pub struct ObjectInputFile {
    pub path: String,
    pub content_length: i64,
    pub pos: i64,
    pub closed: bool,
}

impl ObjectInputFile {
    /// Cursor within bounds, and bounds small enough for the machine.
    pub open spec fn wf(self) -> bool {
        &&& 0 <= self.pos <= self.content_length
        &&& self.content_length <= usize::MAX
    }

    /// The absolute position a seek asks for.
    pub open spec fn seek_target(self, offset: int, whence: SeekFrom) -> int {
        match whence {
            SeekFrom::Start => offset,
            SeekFrom::Current => self.pos + offset,
            SeekFrom::End => self.content_length + offset,
        }
    }

    /// The number of bytes a read request will return at the current
    /// cursor: the request clamped to what remains; no request or a
    /// negative one reads to the end.
    pub open spec fn read_len(self, nbytes: Option<i64>) -> int {
        match nbytes {
            Some(n) => if n < 0 {
                self.content_length - self.pos
            } else if n <= self.content_length - self.pos {
                n as int
            } else {
                self.content_length - self.pos
            },
            None => self.content_length - self.pos,
        }
    }

    /// Opens the object at `path`, fetching its length up front so a
    /// missing object fails here and not at the first read.
    /// Relies on the backend's point lookup.
    pub fn try_new(store: &StoreState, path: String) -> (r: Result<ObjectInputFile, StoreError>)
        requires
            store.wf(),
        ensures
            store.fault_now() ==> (r matches Err(e) && e is BackendGeneric),
            !store.fault_now() && !store.contains_key(path@) ==> r == Err::<
                ObjectInputFile,
                StoreError,
            >(StoreError::NotFound),
            !store.fault_now() && store.contains_key(path@) ==> (r matches Ok(f) && f.wf()
                && f.path@ == path@ && f.content_length == store.data_of(path@).len() && f.pos == 0
                && !f.closed),
    {
        match store.head(&path) {
            Ok(meta) => {
                proof {
                    assert(meta.size <= i64::MAX);
                }
                Ok(
                    ObjectInputFile {
                        path,
                        content_length: meta.size as i64,
                        pos: 0,
                        closed: false,
                    },
                )
            },
            Err(e) => Err(e),
        }
    }

    /// Closing is idempotent and never fails.
    pub fn close(&mut self)
        ensures
            *final(self) == (ObjectInputFile { closed: true, ..*old(self) }),
    {
        self.closed = true;
    }

    pub fn isatty(&self) -> (r: bool)
        ensures
            r == false,
    {
        false
    }

    pub fn readable(&self) -> (r: bool)
        ensures
            r == true,
    {
        true
    }

    pub fn seekable(&self) -> (r: bool)
        ensures
            r == true,
    {
        true
    }

    pub fn writable(&self) -> (r: bool)
        ensures
            r == false,
    {
        false
    }

    /// The current cursor.
    pub fn tell(&self) -> (r: Result<i64, StoreError>)
        ensures
            self.closed ==> r == Err::<i64, StoreError>(StoreError::ClosedStreamError),
            !self.closed ==> r == Ok::<i64, StoreError>(self.pos),
    {
        if self.closed {
            return Err(StoreError::ClosedStreamError);
        }
        Ok(self.pos)
    }

    /// The object's size, as fetched at construction.
    pub fn size(&self) -> (r: Result<i64, StoreError>)
        ensures
            self.closed ==> r == Err::<i64, StoreError>(StoreError::ClosedStreamError),
            !self.closed ==> r == Ok::<i64, StoreError>(self.content_length),
    {
        if self.closed {
            return Err(StoreError::ClosedStreamError);
        }
        Ok(self.content_length)
    }

    /// Moves the cursor.  Any target outside `[0, content_length]` is an
    /// invalid seek and leaves the cursor where it was.
    pub fn seek(&mut self, offset: i64, whence: SeekFrom) -> (r: Result<i64, StoreError>)
        requires
            old(self).wf(),
        ensures
            final(self).wf(),
            old(self).closed ==> r == Err::<i64, StoreError>(StoreError::ClosedStreamError)
                && *final(self) == *old(self),
            !old(self).closed && !(0 <= old(self).seek_target(offset as int, whence) <= old(self).content_length) ==> r == Err::<i64, StoreError>(StoreError::InvalidSeek) && *final(self) == *old(self),
            !old(self).closed && 0 <= old(self).seek_target(offset as int, whence) <= old(self).content_length ==> r == Ok::<i64, StoreError>(
                old(self).seek_target(offset as int, whence) as i64,
            ) && *final(self) == (ObjectInputFile {
                pos: old(self).seek_target(offset as int, whence) as i64,
                ..*old(self)
            }),
    {
        if self.closed {
            return Err(StoreError::ClosedStreamError);
        }
        let target: Option<i64> = match whence {
            SeekFrom::Start => Some(offset),
            SeekFrom::Current => self.pos.checked_add(offset),
            SeekFrom::End => self.content_length.checked_add(offset),
        };
        match target {
            Some(t) => {
                if t < 0 || t > self.content_length {
                    return Err(StoreError::InvalidSeek);
                }
                self.pos = t;
                Ok(t)
            },
            None => {
                proof {
                    let tgt = old(self).seek_target(offset as int, whence);
                    assert(tgt > i64::MAX || tgt < i64::MIN);
                }
                Err(StoreError::InvalidSeek)
            },
        }
    }

    /// Reads the requested bytes, clamped to the end of the object, in
    /// one range fetch, and advances the cursor by what was read.
    /// Reading at the very end returns empty bytes, not an error.
    pub fn read(&mut self, nbytes: Option<i64>, store: &StoreState) -> (r: Result<
        Vec<u8>,
        StoreError,
    >)
        requires
            old(self).wf(),
            store.wf(),
        ensures
            final(self).wf(),
            old(self).closed ==> r == Err::<Vec<u8>, StoreError>(StoreError::ClosedStreamError)
                && *final(self) == *old(self),
            !old(self).closed && old(self).read_len(nbytes) == 0 ==> (r matches Ok(d) && d@
                == Seq::<u8>::empty()) && *final(self) == *old(self),
            !old(self).closed && old(self).read_len(nbytes) != 0 ==> {
                let start = old(self).pos as int;
                let end = start + old(self).read_len(nbytes);
                &&& store.fault_now() ==> (r matches Err(e) && e is BackendGeneric) && *final(self)
                    == *old(self)
                &&& !store.fault_now() && !store.contains_key(old(self).path@) ==> r == Err::<
                    Vec<u8>,
                    StoreError,
                >(StoreError::NotFound) && *final(self) == *old(self)
                &&& !store.fault_now() && store.contains_key(old(self).path@) && end > store.data_of(
                    old(self).path@,
                ).len() ==> (r matches Err(e) && e is BackendGeneric) && *final(self) == *old(self)
                &&& !store.fault_now() && store.contains_key(old(self).path@) && end
                    <= store.data_of(old(self).path@).len() ==> (r matches Ok(d) && d@
                    == store.data_of(old(self).path@).subrange(start, end)) && *final(self) == (
                ObjectInputFile { pos: end as i64, ..*old(self) })
            },
    {
        if self.closed {
            return Err(StoreError::ClosedStreamError);
        }
        let remaining = self.content_length - self.pos;
        let want: i64 = match nbytes {
            Some(n) => if n < 0 {
                remaining
            } else if n <= remaining {
                n
            } else {
                remaining
            },
            None => remaining,
        };
        if want == 0 {
            return Ok(Vec::new());
        }
        let start = self.pos as usize;
        let end = (self.pos + want) as usize;
        match store.get_range(&self.path, start, end) {
            Ok(d) => {
                self.pos = self.pos + want;
                Ok(d)
            },
            Err(e) => Err(e),
        }
    }

    /// A file descriptor is a capability this handle does not have.
    pub fn fileno(&self) -> (r: Result<i64, StoreError>)
        ensures
            r == Err::<i64, StoreError>(StoreError::NotImplemented),
    {
        Err(StoreError::NotImplemented)
    }

    /// Truncation is a capability a read-only handle does not have.
    pub fn truncate(&self) -> (r: Result<(), StoreError>)
        ensures
            r == Err::<(), StoreError>(StoreError::NotImplemented),
    {
        Err(StoreError::NotImplemented)
    }

    /// Line-oriented reading is a capability this handle does not have.
    pub fn readline(&self, _size: Option<i64>) -> (r: Result<Vec<u8>, StoreError>)
        ensures
            r == Err::<Vec<u8>, StoreError>(StoreError::NotImplemented),
    {
        Err(StoreError::NotImplemented)
    }

    /// Line-oriented reading is a capability this handle does not have.
    pub fn readlines(&self, _hint: Option<i64>) -> (r: Result<Vec<Vec<u8>>, StoreError>)
        ensures
            r == Err::<Vec<Vec<u8>>, StoreError>(StoreError::NotImplemented),
    {
        Err(StoreError::NotImplemented)
    }

    /// The handle's mode string.
    pub fn mode(&self) -> (r: String)
        ensures
            r@ == "rb"@,
    {
        String::from_str("rb")
    }
}

} // verus!
