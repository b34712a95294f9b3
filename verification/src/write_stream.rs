//! A sequential, write-only file handle backed by a multipart upload.
//!
//! The session is created at construction and owned by exactly one
//! handle.  It moves from `Open` to `Committed` on a successful close, or
//! to `Aborted` when any write, flush or close fails: the session is then
//! aborted best-effort before the error surfaces, and no operation is
//! valid afterwards.

use vstd::prelude::*;

use crate::errors::StoreError;
use crate::paths::valid_key;
use crate::store::StoreState;

verus! {

/// The lifecycle of a write handle's multipart session.
#[derive(Clone, Copy, Debug, PartialEq, Eq, Structural)]
pub enum StreamState {
    Open,
    Committed,
    Aborted,
}

/// A write-only sequential handle uploading to the object at `path`.
pub struct ObjectOutputStream {
    pub path: String,
    pub session_id: u64,
    pub pos: i64,
    pub state: StreamState,
}

impl ObjectOutputStream {
    /// The byte count never runs backwards.
    pub open spec fn wf(self) -> bool {
        0 <= self.pos
    }

    /// The handle still owns an open session in `store`.
    pub open spec fn owns_session(self, store: StoreState) -> bool {
        self.state is Open ==> store.has_session(self.session_id) && store.session_key(
            self.session_id,
        ) == self.path@
    }

    /// Opens a multipart session for `path`.
    pub fn try_new(store: &mut StoreState, path: String) -> (r: Result<
        ObjectOutputStream,
        StoreError,
    >)
        requires
            old(store).wf(),
            valid_key(path@),
            old(store).next_session_id < u64::MAX,
        ensures
            final(store).wf(),
            final(store).objects == old(store).objects,
            final(store).clock_ns == old(store).clock_ns,
            final(store).fault_in == StoreState::fault_step(old(store).fault_in),
            old(store).fault_now() ==> (r matches Err(e) && e is BackendGeneric) && final(store).sessions == old(store).sessions,
            !old(store).fault_now() ==> (r matches Ok(w) && w.wf() && w.owns_session(*final(store))
                && w.path@ == path@ && w.session_id == old(store).next_session_id && w.pos == 0
                && w.state is Open && final(store).session_parts(w.session_id)
                == Seq::<u8>::empty() && (forall|id: u64|
                id != w.session_id ==> (#[trigger] final(store).has_session(id)) == old(store).has_session(id)) && (forall|id: u64|
                id != w.session_id && old(store).has_session(id) ==> (#[trigger] final(store).session_key(id)) == old(store).session_key(id) && final(store).session_parts(id)
                    == old(store).session_parts(id))),
    {
        match store.put_multipart(&path) {
            Ok(id) => Ok(ObjectOutputStream { path, session_id: id, pos: 0, state: StreamState::Open }),
            Err(e) => Err(e),
        }
    }

    /// Appends bytes to the session.  On success the whole input is
    /// accepted; on failure the session is aborted before the error
    /// surfaces, and nothing already acknowledged may be assumed kept.
    #[verifier::rlimit(50)]
    pub fn write(&mut self, data: &Vec<u8>, store: &mut StoreState) -> (r: Result<i64, StoreError>)
        requires
            old(self).wf(),
            old(store).wf(),
            old(self).owns_session(*old(store)),
            old(self).pos + data@.len() <= i64::MAX,
        ensures
            final(self).wf(),
            final(store).wf(),
            final(self).owns_session(*final(store)),
            final(store).objects == old(store).objects,
            final(store).clock_ns == old(store).clock_ns,
            final(self).path == old(self).path,
            final(self).session_id == old(self).session_id,
            old(self).state is Open ==> final(store).fault_in == StoreState::fault_step(
                old(store).fault_in,
            ),
            !(old(self).state is Open) ==> r == Err::<i64, StoreError>(
                StoreError::ClosedStreamError,
            ) && *final(self) == *old(self) && *final(store) == *old(store),
            old(self).state is Open && old(store).fault_now() ==> {
                &&& r matches Err(e) && e is BackendGeneric
                &&& final(self).state is Aborted
                &&& !final(store).has_session(old(self).session_id)
                &&& forall|id: u64|
                    id != old(self).session_id ==> (#[trigger] final(store).has_session(id)) == old(store).has_session(id)
            },
            old(self).state is Open && !old(store).fault_now() ==> r == Ok::<i64, StoreError>(
                data@.len() as i64,
            ),
            old(self).state is Open && !old(store).fault_now() ==> final(self).state is Open,
            old(self).state is Open && !old(store).fault_now() ==> final(self).pos == old(self).pos
                + data@.len(),
            old(self).state is Open && !old(store).fault_now() ==> final(store).session_parts(
                old(self).session_id,
            ) == old(store).session_parts(old(self).session_id) + data@,
            old(self).state is Open && !old(store).fault_now() ==> forall|id: u64|
                id != old(self).session_id ==> (#[trigger] final(store).has_session(id)) == old(store).has_session(id),
            old(self).state is Open && !old(store).fault_now() ==> forall|id: u64|
                id != old(self).session_id && old(store).has_session(id) ==> (#[trigger] final(store).session_key(id)) == old(store).session_key(id),
            old(self).state is Open && !old(store).fault_now() ==> forall|id: u64|
                id != old(self).session_id && old(store).has_session(id) ==> (#[trigger] final(store).session_parts(id)) == old(store).session_parts(id),
    {
        match self.state {
            StreamState::Open => {},
            _ => {
                return Err(StoreError::ClosedStreamError);
            },
        }
        match store.append_part(self.session_id, data) {
            Ok(_) => {
                self.pos = self.pos + data.len() as i64;
                proof {
                    assert forall|id: u64| id != self.session_id implies (
                    #[trigger] store.has_session(id)) == old(store).has_session(id) by {}
                    assert forall|id: u64|
                        id != self.session_id && old(store).has_session(id) implies (
                    #[trigger] store.session_key(id)) == old(store).session_key(id) by {}
                    assert forall|id: u64|
                        id != self.session_id && old(store).has_session(id) implies (
                    #[trigger] store.session_parts(id)) == old(store).session_parts(id) by {
                        assert(store.session_key(id) == old(store).session_key(id));
                    }
                }
                Ok(data.len() as i64)
            },
            Err(e) => {
                proof {
                    assert(old(store).fault_now());
                }
                store.abort_multipart(self.session_id);
                self.state = StreamState::Aborted;
                Err(e)
            },
        }
    }

    /// Forces buffered bytes into the session; in this adapter nothing is
    /// buffered, so a flush is an empty append with the same
    /// abort-on-failure behaviour as `write`.
    pub fn flush(&mut self, store: &mut StoreState) -> (r: Result<(), StoreError>)
        requires
            old(self).wf(),
            old(store).wf(),
            old(self).owns_session(*old(store)),
        ensures
            final(self).wf(),
            final(store).wf(),
            final(self).owns_session(*final(store)),
            final(store).objects == old(store).objects,
            final(store).clock_ns == old(store).clock_ns,
            old(self).state is Open ==> final(store).fault_in == StoreState::fault_step(
                old(store).fault_in,
            ),
            !(old(self).state is Open) ==> r == Err::<(), StoreError>(
                StoreError::ClosedStreamError,
            ) && *final(self) == *old(self) && *final(store) == *old(store),
            old(self).state is Open && old(store).fault_now() ==> {
                &&& r matches Err(e) && e is BackendGeneric
                &&& final(self).state is Aborted
                &&& !final(store).has_session(old(self).session_id)
            },
            old(self).state is Open && !old(store).fault_now() ==> {
                &&& r == Ok::<(), StoreError>(())
                &&& *final(self) == *old(self)
                &&& final(store).session_parts(old(self).session_id) == old(store).session_parts(
                    old(self).session_id,
                )
                &&& forall|id: u64|
                    id != old(self).session_id ==> (#[trigger] final(store).has_session(id)) == old(store).has_session(id)
            },
    {
        match self.state {
            StreamState::Open => {},
            _ => {
                return Err(StoreError::ClosedStreamError);
            },
        }
        let nothing: Vec<u8> = Vec::new();
        match store.append_part(self.session_id, &nothing) {
            Ok(_) => {
                proof {
                    assert(old(store).session_parts(old(self).session_id) + nothing@ =~= old(store).session_parts(old(self).session_id));
                }
                Ok(())
            },
            Err(e) => {
                store.abort_multipart(self.session_id);
                self.state = StreamState::Aborted;
                Err(e)
            },
        }
    }

    /// Finalizes the session: on success the accumulated bytes become the
    /// stored object and the handle is committed; closing again is then a
    /// no-op.  A failed commit aborts the session, and closing an aborted
    /// handle is a stream-misuse error.
    pub fn close(&mut self, store: &mut StoreState) -> (r: Result<(), StoreError>)
        requires
            old(self).wf(),
            old(store).wf(),
            old(self).owns_session(*old(store)),
        ensures
            final(self).wf(),
            final(store).wf(),
            final(self).owns_session(*final(store)),
            final(store).clock_ns == old(store).clock_ns,
            old(self).state is Open ==> final(store).fault_in == StoreState::fault_step(
                old(store).fault_in,
            ),
            old(self).state is Committed ==> r == Ok::<(), StoreError>(()) && *final(self) == *old(self) && *final(store) == *old(store),
            old(self).state is Aborted ==> r == Err::<(), StoreError>(
                StoreError::ClosedStreamError,
            ) && *final(self) == *old(self) && *final(store) == *old(store),
            old(self).state is Open && (old(store).fault_now() || old(store).session_parts(
                old(self).session_id,
            ).len() > i64::MAX) ==> {
                &&& r matches Err(e) && e is BackendGeneric
                &&& final(self).state is Aborted
                &&& !final(store).has_session(old(self).session_id)
                &&& final(store).objects == old(store).objects
            },
            old(self).state is Open && !old(store).fault_now() && old(store).session_parts(
                old(self).session_id,
            ).len() <= i64::MAX ==> {
                &&& r == Ok::<(), StoreError>(())
                &&& final(self).state is Committed
                &&& !final(store).has_session(old(self).session_id)
                &&& final(store).contains_key(old(self).path@)
                &&& final(store).data_of(old(self).path@) == old(store).session_parts(
                    old(self).session_id,
                )
                &&& final(store).mtime_of(old(self).path@) == old(store).clock_ns as int
                &&& forall|k: Seq<char>|
                    k != old(self).path@ ==> (#[trigger] final(store).contains_key(k)) == old(store).contains_key(k)
                &&& forall|k: Seq<char>|
                    k != old(self).path@ && old(store).contains_key(k) ==> (#[trigger] final(store).data_of(k)) == old(store).data_of(k) && final(store).mtime_of(k) == old(store).mtime_of(k)
            },
    {
        match self.state {
            StreamState::Committed => {
                return Ok(());
            },
            StreamState::Aborted => {
                return Err(StoreError::ClosedStreamError);
            },
            StreamState::Open => {},
        }
        match store.complete_multipart(self.session_id) {
            Ok(_) => {
                self.state = StreamState::Committed;
                Ok(())
            },
            Err(e) => {
                store.abort_multipart(self.session_id);
                self.state = StreamState::Aborted;
                Err(e)
            },
        }
    }

    pub fn isatty(&self) -> (r: bool)
        ensures
            r == false,
    {
        false
    }

    pub fn readable(&self) -> (r: bool)
        ensures
            r == false,
    {
        false
    }

    pub fn seekable(&self) -> (r: bool)
        ensures
            r == false,
    {
        false
    }

    pub fn writable(&self) -> (r: bool)
        ensures
            r == true,
    {
        true
    }

    /// The number of bytes written so far.
    pub fn tell(&self) -> (r: Result<i64, StoreError>)
        ensures
            !(self.state is Open) ==> r == Err::<i64, StoreError>(StoreError::ClosedStreamError),
            self.state is Open ==> r == Ok::<i64, StoreError>(self.pos),
    {
        match self.state {
            StreamState::Open => Ok(self.pos),
            _ => Err(StoreError::ClosedStreamError),
        }
    }

    /// A write-only handle has no size to report.
    pub fn size(&self) -> (r: Result<i64, StoreError>)
        ensures
            !(self.state is Open) ==> r == Err::<i64, StoreError>(StoreError::ClosedStreamError),
            self.state is Open ==> r == Err::<i64, StoreError>(StoreError::NotImplemented),
    {
        match self.state {
            StreamState::Open => Err(StoreError::NotImplemented),
            _ => Err(StoreError::ClosedStreamError),
        }
    }

    /// Seeking is a capability a sequential writer does not have.
    pub fn seek(&self, _offset: i64, _whence: i64) -> (r: Result<i64, StoreError>)
        ensures
            !(self.state is Open) ==> r == Err::<i64, StoreError>(StoreError::ClosedStreamError),
            self.state is Open ==> r == Err::<i64, StoreError>(StoreError::NotImplemented),
    {
        match self.state {
            StreamState::Open => Err(StoreError::NotImplemented),
            _ => Err(StoreError::ClosedStreamError),
        }
    }

    /// Reading is a capability a write-only handle does not have.
    pub fn read(&self, _nbytes: Option<i64>) -> (r: Result<Vec<u8>, StoreError>)
        ensures
            !(self.state is Open) ==> r == Err::<Vec<u8>, StoreError>(
                StoreError::ClosedStreamError,
            ),
            self.state is Open ==> r == Err::<Vec<u8>, StoreError>(StoreError::NotImplemented),
    {
        match self.state {
            StreamState::Open => Err(StoreError::NotImplemented),
            _ => Err(StoreError::ClosedStreamError),
        }
    }

    pub fn fileno(&self) -> (r: Result<i64, StoreError>)
        ensures
            r == Err::<i64, StoreError>(StoreError::NotImplemented),
    {
        Err(StoreError::NotImplemented)
    }

    pub fn truncate(&self) -> (r: Result<(), StoreError>)
        ensures
            r == Err::<(), StoreError>(StoreError::NotImplemented),
    {
        Err(StoreError::NotImplemented)
    }

    pub fn readline(&self, _size: Option<i64>) -> (r: Result<Vec<u8>, StoreError>)
        ensures
            r == Err::<Vec<u8>, StoreError>(StoreError::NotImplemented),
    {
        Err(StoreError::NotImplemented)
    }

    pub fn readlines(&self, _hint: Option<i64>) -> (r: Result<Vec<Vec<u8>>, StoreError>)
        ensures
            r == Err::<Vec<Vec<u8>>, StoreError>(StoreError::NotImplemented),
    {
        Err(StoreError::NotImplemented)
    }

    /// The handle's mode string.
    pub fn mode(&self) -> (r: String)
        ensures
            r@ == "wb"@,
    {
        String::from_str("wb")
    }
}

} // verus!

