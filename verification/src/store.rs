//! A model of the flat object store that the adapter runs against.
//!
//! The backend offers get/put/list/delete/copy on opaque keys plus a
//! multipart upload session protocol.  The model keeps objects and open
//! sessions in memory, and exposes a fault switch so the abort-on-failure
//! paths of the adapter can be exercised and verified: an armed fault makes
//! the chosen backend call fail with a transient error, the way a real
//! backend may fail at any point.

use vstd::prelude::*;

use crate::errors::StoreError;
use crate::paths::{child_prefix, direct_child, find_sep, is_under, under, valid_key};

verus! {

/// One stored object: a normalized key, its body, and its modification
/// time in nanoseconds.
pub struct ObjectEntry {
    pub key: String,
    pub data: Vec<u8>,
    pub mtime_ns: i64,
}

/// A snapshot of one object's metadata, as stat/list calls report it.
#[derive(Clone, Debug, PartialEq, Eq)]
pub struct ObjectMeta {
    pub location: String,
    pub size: usize,
    pub mtime_ns: i64,
}

/// One level of a directory listing: objects directly inside the prefix,
/// and the synthetic subdirectories inferred from the delimiter.
pub struct ListResult {
    pub objects: Vec<ObjectMeta>,
    pub common_prefixes: Vec<String>,
}

/// An open multipart upload session: bytes accepted so far for a key.
pub struct UploadSession {
    pub id: u64,
    pub key: String,
    pub parts: Vec<u8>,
}

/// The backend state: stored objects, open upload sessions, a clock for
/// modification stamps, and the fault switch.
pub struct StoreState {
    pub objects: Vec<ObjectEntry>,
    pub sessions: Vec<UploadSession>,
    pub next_session_id: u64,
    pub clock_ns: i64,
    pub fault_in: Option<u64>,
}

/// Some entry of `s` holds key `k`.
pub open spec fn objs_contain(s: Seq<ObjectEntry>, k: Seq<char>) -> bool {
    exists|i: int| 0 <= i < s.len() && s[i].key@ == k
}

/// The index of the entry holding `k` (unique when keys are unique).
pub open spec fn objs_idx(s: Seq<ObjectEntry>, k: Seq<char>) -> int {
    choose|i: int| 0 <= i < s.len() && s[i].key@ == k
}

/// Unique, well-formed keys and bounded bodies.
pub open spec fn objs_wf(s: Seq<ObjectEntry>) -> bool {
    &&& forall|i: int| 0 <= i < s.len() ==> valid_key(#[trigger] s[i].key@)
    &&& forall|i: int| 0 <= i < s.len() ==> (#[trigger] s[i].data@.len()) <= i64::MAX
    &&& forall|i: int, j: int|
        0 <= i < j < s.len() ==> (#[trigger] s[i].key@) != (#[trigger] s[j].key@)
}

/// Some session in `s` has id `id`.
pub open spec fn sess_contain(s: Seq<UploadSession>, id: u64) -> bool {
    exists|i: int| 0 <= i < s.len() && s[i].id == id
}

/// The index of the session with `id` (unique when ids are unique).
pub open spec fn sess_idx(s: Seq<UploadSession>, id: u64) -> int {
    choose|i: int| 0 <= i < s.len() && s[i].id == id
}

/// Unique ids below the allocator, and well-formed target keys.
pub open spec fn sessions_wf(s: Seq<UploadSession>, next_id: u64) -> bool {
    &&& forall|i: int| 0 <= i < s.len() ==> (#[trigger] s[i].id) < next_id
    &&& forall|i: int, j: int|
        0 <= i < j < s.len() ==> (#[trigger] s[i].id) != (#[trigger] s[j].id)
    &&& forall|i: int| 0 <= i < s.len() ==> valid_key(#[trigger] s[i].key@)
}

impl StoreState {
    /// Keys unique and well formed, session ids unique and below the
    /// allocator, bodies small enough for a signed byte count.
    pub open spec fn wf(self) -> bool {
        objs_wf(self.objects@) && sessions_wf(self.sessions@, self.next_session_id)
    }

    /// Some object is stored at key `k`.
    pub open spec fn contains_key(self, k: Seq<char>) -> bool {
        objs_contain(self.objects@, k)
    }

    /// The index of the object stored at `k` (unique under `wf`).
    pub open spec fn idx_of(self, k: Seq<char>) -> int {
        objs_idx(self.objects@, k)
    }

    /// The body of the object stored at `k`.
    pub open spec fn data_of(self, k: Seq<char>) -> Seq<u8> {
        self.objects@[self.idx_of(k)].data@
    }

    /// The modification stamp of the object stored at `k`.
    pub open spec fn mtime_of(self, k: Seq<char>) -> int {
        self.objects@[self.idx_of(k)].mtime_ns as int
    }

    /// The armed fault fires on the very next backend call.
    pub open spec fn fault_now(self) -> bool {
        self.fault_in == Some(0u64)
    }

    /// How the fault counter moves past one backend call.
    pub open spec fn fault_step(f: Option<u64>) -> Option<u64> {
        match f {
            Option::None => Option::None,
            Option::Some(j) => if j == 0 {
                Option::None
            } else {
                Option::Some((j - 1) as u64)
            },
        }
    }

    /// An upload session with this id is open.
    pub open spec fn has_session(self, id: u64) -> bool {
        sess_contain(self.sessions@, id)
    }

    /// The index of the open session with this id (unique under `wf`).
    pub open spec fn session_idx(self, id: u64) -> int {
        sess_idx(self.sessions@, id)
    }

    /// The key the session uploads to.
    pub open spec fn session_key(self, id: u64) -> Seq<char> {
        self.sessions@[self.session_idx(id)].key@
    }

    /// The bytes the session has accepted so far.
    pub open spec fn session_parts(self, id: u64) -> Seq<u8> {
        self.sessions@[self.session_idx(id)].parts@
    }
}

/// With unique keys, any index holding `k` is the index `idx_of(k)`
/// resolves to.
pub proof fn lemma_entry_lookup(s: StoreState, i: int)
    requires
        s.wf(),
        0 <= i < s.objects@.len(),
    ensures
        s.contains_key(s.objects@[i].key@),
        s.idx_of(s.objects@[i].key@) == i,
{
    let k = s.objects@[i].key@;
    assert(s.contains_key(k));
    let j = s.idx_of(k);
    assert(0 <= j < s.objects@.len() && s.objects@[j].key@ == k);
}

/// With unique ids, any index holding session `id` is the index
/// `session_idx(id)` resolves to.
pub proof fn lemma_session_lookup(s: StoreState, i: int)
    requires
        s.wf(),
        0 <= i < s.sessions@.len(),
    ensures
        s.has_session(s.sessions@[i].id),
        s.session_idx(s.sessions@[i].id) == i,
{
    let id = s.sessions@[i].id;
    assert(s.has_session(id));
    let j = s.session_idx(id);
    assert(0 <= j < s.sessions@.len() && s.sessions@[j].id == id);
}

/// The error every injected fault surfaces as.
pub fn backend_fault() -> (r: StoreError)
    ensures
        r is BackendGeneric,
{
    StoreError::BackendGeneric { cause: String::from_str("transient backend failure") }
}

/// Copies a byte buffer element by element.
pub fn clone_bytes(v: &Vec<u8>) -> (r: Vec<u8>)
    ensures
        r@ == v@,
{
    let mut out: Vec<u8> = Vec::new();
    let mut i: usize = 0;
    while i < v.len()
        invariant
            0 <= i <= v@.len(),
            out@ == v@.take(i as int),
        decreases v@.len() - i,
    {
        out.push(v[i]);
        proof {
            assert(out@ =~= v@.take(i + 1));
        }
        i += 1;
    }
    proof {
        assert(v@.take(v@.len() as int) =~= v@);
    }
    out
}

impl StoreState {
    /// An empty backend with the clock at zero.
    pub fn new() -> (r: StoreState)
        ensures
            r.wf(),
            r.objects@.len() == 0,
            r.sessions@.len() == 0,
            r.next_session_id == 0,
            r.clock_ns == 0,
            r.fault_in is None,
    {
        StoreState {
            objects: Vec::new(),
            sessions: Vec::new(),
            next_session_id: 0,
            clock_ns: 0,
            fault_in: None,
        }
    }

    /// Arms a fault: the backend call after the next `after` fault-counted
    /// calls fails.
    pub fn arm_fault(&mut self, after: u64)
        ensures
            *final(self) == (StoreState { fault_in: Some(after), ..*old(self) }),
    {
        self.fault_in = Some(after);
    }

    /// Disarms any pending fault.
    pub fn clear_fault(&mut self)
        ensures
            *final(self) == (StoreState { fault_in: None, ..*old(self) }),
    {
        self.fault_in = None;
    }

    /// Moves the backend clock.
    pub fn set_clock(&mut self, now_ns: i64)
        ensures
            *final(self) == (StoreState { clock_ns: now_ns, ..*old(self) }),
    {
        self.clock_ns = now_ns;
    }

    /// Consumes one step of the fault counter; returns whether the current
    /// call must fail.
    fn fault_gate(&mut self) -> (r: bool)
        ensures
            r == old(self).fault_now(),
            *final(self) == (StoreState {
                fault_in: StoreState::fault_step(old(self).fault_in),
                ..*old(self)
            }),
    {
        match self.fault_in {
            Some(j) => {
                if j == 0 {
                    self.fault_in = None;
                    true
                } else {
                    self.fault_in = Some(j - 1);
                    false
                }
            },
            None => false,
        }
    }

    /// Index of the entry stored at `key`, if any.
    fn find_index(&self, key: &String) -> (r: Option<usize>)
        ensures
            match r {
                Some(i) => 0 <= i < self.objects@.len() && self.objects@[i as int].key@ == key@,
                None => !self.contains_key(key@),
            },
    {
        let mut i: usize = 0;
        while i < self.objects.len()
            invariant
                0 <= i <= self.objects@.len(),
                forall|q: int| 0 <= q < i ==> (#[trigger] self.objects@[q].key@) != key@,
            decreases self.objects@.len() - i,
        {
            if self.objects[i].key == *key {
                return Some(i);
            }
            i += 1;
        }
        None
    }

    /// Point lookup: the metadata of the object stored exactly at `key`.
    /// Relied on by `stat` to tell a plain file from nothing at all.
    pub fn head(&self, key: &String) -> (r: Result<ObjectMeta, StoreError>)
        requires
            self.wf(),
        ensures
            self.fault_now() ==> (r matches Err(e) && e is BackendGeneric),
            !self.fault_now() && self.contains_key(key@) ==> (r matches Ok(m) && m.location@
                == key@ && m.size == self.data_of(key@).len() && m.mtime_ns as int
                == self.mtime_of(key@)),
            !self.fault_now() && !self.contains_key(key@) ==> r == Err::<ObjectMeta, StoreError>(
                StoreError::NotFound,
            ),
    {
        if self.fault_now_exec() {
            return Err(backend_fault());
        }
        match self.find_index(key) {
            Some(i) => {
                proof {
                    lemma_entry_lookup(*self, i as int);
                }
                let e = &self.objects[i];
                Ok(ObjectMeta { location: e.key.clone(), size: e.data.len(), mtime_ns: e.mtime_ns })
            },
            None => Err(StoreError::NotFound),
        }
    }

    /// Whether the armed fault fires on the current call (read-only calls
    /// do not consume the counter).
    fn fault_now_exec(&self) -> (r: bool)
        ensures
            r == self.fault_now(),
    {
        match self.fault_in {
            Some(j) => j == 0,
            None => false,
        }
    }

    /// The whole body of the object at `key`.
    pub fn get(&self, key: &String) -> (r: Result<Vec<u8>, StoreError>)
        requires
            self.wf(),
        ensures
            self.fault_now() ==> (r matches Err(e) && e is BackendGeneric),
            !self.fault_now() && self.contains_key(key@) ==> (r matches Ok(d) && d@
                == self.data_of(key@)),
            !self.fault_now() && !self.contains_key(key@) ==> r == Err::<Vec<u8>, StoreError>(
                StoreError::NotFound,
            ),
    {
        if self.fault_now_exec() {
            return Err(backend_fault());
        }
        match self.find_index(key) {
            Some(i) => {
                proof {
                    lemma_entry_lookup(*self, i as int);
                }
                Ok(clone_bytes(&self.objects[i].data))
            },
            None => Err(StoreError::NotFound),
        }
    }

    /// Range fetch: the bytes of `[start, end)` of the object at `key`.
    /// A range outside the object is a backend error, not a short read.
    pub fn get_range(&self, key: &String, start: usize, end: usize) -> (r: Result<
        Vec<u8>,
        StoreError,
    >)
        requires
            self.wf(),
        ensures
            self.fault_now() ==> (r matches Err(e) && e is BackendGeneric),
            !self.fault_now() && !self.contains_key(key@) ==> r == Err::<Vec<u8>, StoreError>(
                StoreError::NotFound,
            ),
            !self.fault_now() && self.contains_key(key@) && !(start <= end <= self.data_of(
                key@,
            ).len()) ==> (r matches Err(e) && e is BackendGeneric),
            !self.fault_now() && self.contains_key(key@) && start <= end <= self.data_of(
                key@,
            ).len() ==> (r matches Ok(d) && d@ == self.data_of(key@).subrange(
                start as int,
                end as int,
            )),
    {
        if self.fault_now_exec() {
            return Err(backend_fault());
        }
        match self.find_index(key) {
            Some(i) => {
                proof {
                    lemma_entry_lookup(*self, i as int);
                }
                let e = &self.objects[i];
                if !(start <= end && end <= e.data.len()) {
                    return Err(
                        StoreError::BackendGeneric {
                            cause: String::from_str("range outside object"),
                        },
                    );
                }
                let mut out: Vec<u8> = Vec::new();
                let mut p: usize = start;
                while p < end
                    invariant
                        start <= p <= end <= e.data@.len(),
                        0 <= i < self.objects@.len(),
                        *e == self.objects@[i as int],
                        out@ == e.data@.subrange(start as int, p as int),
                    decreases end - p,
                {
                    out.push(e.data[p]);
                    proof {
                        assert(out@ =~= e.data@.subrange(start as int, p + 1));
                    }
                    p += 1;
                }
                Ok(out)
            },
            None => Err(StoreError::NotFound),
        }
    }

    /// Stores `data` at `key` without touching the fault counter: the
    /// shared tail of `put`, `copy`, `rename` and multipart commit.
    fn put_object(&mut self, key: &String, data: Vec<u8>, mtime_ns: i64)
        requires
            old(self).wf(),
            valid_key(key@),
            data@.len() <= i64::MAX,
        ensures
            final(self).wf(),
            final(self).sessions == old(self).sessions,
            final(self).next_session_id == old(self).next_session_id,
            final(self).clock_ns == old(self).clock_ns,
            final(self).fault_in == old(self).fault_in,
            final(self).contains_key(key@),
            final(self).data_of(key@) == data@,
            final(self).mtime_of(key@) == mtime_ns as int,
            forall|k: Seq<char>|
                k != key@ ==> final(self).contains_key(k) == old(self).contains_key(k),
            forall|k: Seq<char>|
                k != key@ && old(self).contains_key(k) ==> final(self).data_of(k) == old(self).data_of(k) && final(self).mtime_of(k) == old(self).mtime_of(k),
    {
        let entry = ObjectEntry { key: key.clone(), data, mtime_ns };
        let ghost pre = *self;
        match self.find_index(key) {
            Some(i) => {
                self.objects[i] = entry;
                proof {
                    assert(pre.objects@ == old(self).objects@);
                    assert forall|k: Seq<char>| k != key@ implies self.contains_key(k) == old(self).contains_key(k) by {
                        lemma_contains_after_update(pre, *self, i as int, key@, k);
                        assert(pre.contains_key(k) == old(self).contains_key(k));
                    }
                    assert forall|k: Seq<char>| k != key@ && old(self).contains_key(k) implies self
                        .data_of(k) == old(self).data_of(k) && self.mtime_of(k) == old(self).mtime_of(k) by {
                        assert(pre.contains_key(k) == old(self).contains_key(k));
                        lemma_entry_unchanged_after_update(pre, *self, i as int, key@, k);
                        assert(pre.data_of(k) == old(self).data_of(k));
                        assert(pre.mtime_of(k) == old(self).mtime_of(k));
                    }
                    lemma_entry_lookup(*self, i as int);
                }
            },
            None => {
                self.objects.push(entry);
                proof {
                    assert(pre.objects@ == old(self).objects@);
                    let n = pre.objects@.len() as int;
                    lemma_entry_lookup(*self, n);
                    assert forall|k: Seq<char>| k != key@ implies self.contains_key(k) == old(self).contains_key(k) by {
                        assert(pre.contains_key(k) == old(self).contains_key(k));
                        if pre.contains_key(k) {
                            let j = pre.idx_of(k);
                            assert(self.objects@[j].key@ == k);
                        }
                        if self.contains_key(k) {
                            let j = self.idx_of(k);
                            assert(j < n);
                            assert(pre.objects@[j].key@ == k);
                        }
                    }
                    assert forall|k: Seq<char>| k != key@ && old(self).contains_key(k) implies self
                        .data_of(k) == old(self).data_of(k) && self.mtime_of(k) == old(self).mtime_of(k) by {
                        assert(pre.contains_key(k) == old(self).contains_key(k));
                        let j = pre.idx_of(k);
                        lemma_entry_lookup(pre, j);
                        assert(self.objects@[j].key@ == k);
                        lemma_entry_lookup(*self, j);
                        assert(pre.data_of(k) == old(self).data_of(k));
                        assert(pre.mtime_of(k) == old(self).mtime_of(k));
                    }
                }
            },
        }
    }

    /// Stores `data` at `key`, replacing any object already there; the
    /// clock stamps the modification time.
    pub fn put(&mut self, key: &String, data: Vec<u8>) -> (r: Result<(), StoreError>)
        requires
            old(self).wf(),
            valid_key(key@),
            data@.len() <= i64::MAX,
        ensures
            final(self).wf(),
            final(self).sessions == old(self).sessions,
            final(self).next_session_id == old(self).next_session_id,
            final(self).clock_ns == old(self).clock_ns,
            final(self).fault_in == StoreState::fault_step(old(self).fault_in),
            old(self).fault_now() ==> {
                &&& r matches Err(e) && e is BackendGeneric
                &&& final(self).objects == old(self).objects
            },
            !old(self).fault_now() ==> {
                &&& r == Ok::<(), StoreError>(())
                &&& final(self).contains_key(key@)
                &&& final(self).data_of(key@) == data@
                &&& final(self).mtime_of(key@) == old(self).clock_ns as int
                &&& forall|k: Seq<char>|
                    k != key@ ==> final(self).contains_key(k) == old(self).contains_key(k)
                &&& forall|k: Seq<char>|
                    k != key@ && old(self).contains_key(k) ==> final(self).data_of(k) == old(self).data_of(k) && final(self).mtime_of(k) == old(self).mtime_of(k)
            },
    {
        if self.fault_gate() {
            return Err(backend_fault());
        }
        let ghost mid = *self;
        let now = self.clock_ns;
        self.put_object(key, data, now);
        proof {
            assert(mid.objects@ == old(self).objects@);
            assert forall|k: Seq<char>| k != key@ implies self.contains_key(k) == old(self).contains_key(k) by {
                assert(mid.contains_key(k) == old(self).contains_key(k));
            }
            assert forall|k: Seq<char>| k != key@ && old(self).contains_key(k) implies self.data_of(
                k,
            ) == old(self).data_of(k) && self.mtime_of(k) == old(self).mtime_of(k) by {
                assert(mid.contains_key(k) == old(self).contains_key(k));
                assert(mid.data_of(k) == old(self).data_of(k));
                assert(mid.mtime_of(k) == old(self).mtime_of(k));
            }
        }
        Ok(())
    }

    /// Copies the object at `src` to `dst` in one backend call; the copy
    /// gets a fresh modification stamp.
    pub fn copy(&mut self, src: &String, dst: &String) -> (r: Result<(), StoreError>)
        requires
            old(self).wf(),
            valid_key(dst@),
        ensures
            final(self).wf(),
            final(self).sessions == old(self).sessions,
            final(self).next_session_id == old(self).next_session_id,
            final(self).clock_ns == old(self).clock_ns,
            final(self).fault_in == StoreState::fault_step(old(self).fault_in),
            old(self).fault_now() ==> {
                &&& r matches Err(e) && e is BackendGeneric
                &&& final(self).objects == old(self).objects
            },
            !old(self).fault_now() && !old(self).contains_key(src@) ==> {
                &&& r == Err::<(), StoreError>(StoreError::NotFound)
                &&& final(self).objects == old(self).objects
            },
            !old(self).fault_now() && old(self).contains_key(src@) ==> {
                &&& r == Ok::<(), StoreError>(())
                &&& final(self).contains_key(dst@)
                &&& final(self).data_of(dst@) == old(self).data_of(src@)
                &&& final(self).mtime_of(dst@) == old(self).clock_ns as int
                &&& forall|k: Seq<char>|
                    k != dst@ ==> final(self).contains_key(k) == old(self).contains_key(k)
                &&& forall|k: Seq<char>|
                    k != dst@ && old(self).contains_key(k) ==> final(self).data_of(k) == old(self).data_of(k) && final(self).mtime_of(k) == old(self).mtime_of(k)
            },
    {
        if self.fault_gate() {
            return Err(backend_fault());
        }
        let ghost mid = *self;
        let body = match self.find_index(src) {
            Some(i) => {
                proof {
                    lemma_entry_lookup(*self, i as int);
                }
                clone_bytes(&self.objects[i].data)
            },
            None => {
                return Err(StoreError::NotFound);
            },
        };
        let now = self.clock_ns;
        self.put_object(dst, body, now);
        proof {
            assert(mid.objects@ == old(self).objects@);
            assert forall|k: Seq<char>| k != dst@ implies self.contains_key(k) == old(self).contains_key(k) by {
                assert(mid.contains_key(k) == old(self).contains_key(k));
            }
            assert forall|k: Seq<char>| k != dst@ && old(self).contains_key(k) implies self.data_of(
                k,
            ) == old(self).data_of(k) && self.mtime_of(k) == old(self).mtime_of(k) by {
                assert(mid.contains_key(k) == old(self).contains_key(k));
                assert(mid.data_of(k) == old(self).data_of(k));
                assert(mid.mtime_of(k) == old(self).mtime_of(k));
            }
            assert(mid.data_of(src@) == old(self).data_of(src@));
        }
        Ok(())
    }

    /// Moves the object at `src` to `dst` in one backend call: the copy
    /// lands, then the source entry goes.
    pub fn rename(&mut self, src: &String, dst: &String) -> (r: Result<(), StoreError>)
        requires
            old(self).wf(),
            valid_key(dst@),
        ensures
            final(self).wf(),
            final(self).sessions == old(self).sessions,
            final(self).next_session_id == old(self).next_session_id,
            final(self).clock_ns == old(self).clock_ns,
            final(self).fault_in == StoreState::fault_step(old(self).fault_in),
            old(self).fault_now() ==> {
                &&& r matches Err(e) && e is BackendGeneric
                &&& final(self).objects == old(self).objects
            },
            !old(self).fault_now() && !old(self).contains_key(src@) ==> {
                &&& r == Err::<(), StoreError>(StoreError::NotFound)
                &&& final(self).objects == old(self).objects
            },
            !old(self).fault_now() && old(self).contains_key(src@) && src@ == dst@ ==> {
                &&& r == Ok::<(), StoreError>(())
                &&& final(self).objects == old(self).objects
            },
            !old(self).fault_now() && old(self).contains_key(src@) && src@ != dst@ ==> {
                &&& r == Ok::<(), StoreError>(())
                &&& final(self).contains_key(dst@)
                &&& !final(self).contains_key(src@)
                &&& final(self).data_of(dst@) == old(self).data_of(src@)
                &&& final(self).mtime_of(dst@) == old(self).clock_ns as int
                &&& forall|k: Seq<char>|
                    k != dst@ && k != src@ ==> final(self).contains_key(k) == old(self).contains_key(k)
                &&& forall|k: Seq<char>|
                    k != dst@ && k != src@ && old(self).contains_key(k) ==> final(self).data_of(k)
                        == old(self).data_of(k) && final(self).mtime_of(k) == old(self).mtime_of(k)
            },
    {
        if self.fault_gate() {
            return Err(backend_fault());
        }
        let ghost mid = *self;
        let body = match self.find_index(src) {
            Some(i) => {
                proof {
                    lemma_entry_lookup(*self, i as int);
                }
                clone_bytes(&self.objects[i].data)
            },
            None => {
                return Err(StoreError::NotFound);
            },
        };
        if *src == *dst {
            return Ok(());
        }
        let now = self.clock_ns;
        self.put_object(dst, body, now);
        let ghost mid2 = *self;
        match self.find_index(src) {
            Some(i) => {
                self.objects.remove(i);
                proof {
                    lemma_remove_preserves(mid2, *self, i as int, src@);
                }
            },
            None => {
                proof {
                    assert(mid.contains_key(src@));
                    assert(mid2.contains_key(src@));
                    assert(false);
                }
            },
        }
        proof {
            assert(mid.objects@ == old(self).objects@);
            assert(mid2.contains_key(dst@) && mid2.data_of(dst@) == old(self).data_of(src@));
            assert(dst@ != src@);
            assert(self.contains_key(dst@) == mid2.contains_key(dst@));
            assert(self.data_of(dst@) == mid2.data_of(dst@));
            assert(self.mtime_of(dst@) == mid2.mtime_of(dst@));
            assert forall|k: Seq<char>| k != dst@ && k != src@ implies self.contains_key(k) == old(self).contains_key(k) by {
                assert(mid.contains_key(k) == old(self).contains_key(k));
                assert(mid2.contains_key(k) == mid.contains_key(k));
                assert(self.contains_key(k) == mid2.contains_key(k));
            }
            assert forall|k: Seq<char>| k != dst@ && k != src@ && old(self).contains_key(
                k,
            ) implies self.data_of(k) == old(self).data_of(k) && self.mtime_of(k) == old(self).mtime_of(k) by {
                assert(mid.contains_key(k) == old(self).contains_key(k));
                assert(mid.data_of(k) == old(self).data_of(k));
                assert(mid.mtime_of(k) == old(self).mtime_of(k));
                assert(mid2.data_of(k) == mid.data_of(k));
                assert(mid2.mtime_of(k) == mid.mtime_of(k));
                assert(self.data_of(k) == mid2.data_of(k));
                assert(self.mtime_of(k) == mid2.mtime_of(k));
            }
        }
        Ok(())
    }

    /// Removes the object at `key`; deleting a missing object is an error
    /// the caller must handle.
    pub fn delete(&mut self, key: &String) -> (r: Result<(), StoreError>)
        requires
            old(self).wf(),
        ensures
            final(self).wf(),
            final(self).sessions == old(self).sessions,
            final(self).next_session_id == old(self).next_session_id,
            final(self).clock_ns == old(self).clock_ns,
            final(self).fault_in == StoreState::fault_step(old(self).fault_in),
            old(self).fault_now() ==> {
                &&& r matches Err(e) && e is BackendGeneric
                &&& final(self).objects == old(self).objects
            },
            !old(self).fault_now() && !old(self).contains_key(key@) ==> {
                &&& r == Err::<(), StoreError>(StoreError::NotFound)
                &&& final(self).objects == old(self).objects
            },
            !old(self).fault_now() && old(self).contains_key(key@) ==> {
                &&& r == Ok::<(), StoreError>(())
                &&& !final(self).contains_key(key@)
                &&& forall|k: Seq<char>|
                    k != key@ ==> final(self).contains_key(k) == old(self).contains_key(k)
                &&& forall|k: Seq<char>|
                    k != key@ && old(self).contains_key(k) ==> final(self).data_of(k) == old(self).data_of(k) && final(self).mtime_of(k) == old(self).mtime_of(k)
            },
    {
        if self.fault_gate() {
            return Err(backend_fault());
        }
        let ghost pre = *self;
        match self.find_index(key) {
            Some(i) => {
                self.objects.remove(i);
                proof {
                    lemma_remove_preserves(pre, *self, i as int, key@);
                }
                Ok(())
            },
            None => Err(StoreError::NotFound),
        }
    }
}

impl StoreState {
    /// Index of the open session with `id`, if any.
    fn find_session(&self, id: u64) -> (r: Option<usize>)
        ensures
            match r {
                Some(i) => 0 <= i < self.sessions@.len() && self.sessions@[i as int].id == id,
                None => !self.has_session(id),
            },
    {
        let mut i: usize = 0;
        while i < self.sessions.len()
            invariant
                0 <= i <= self.sessions@.len(),
                forall|q: int| 0 <= q < i ==> (#[trigger] self.sessions@[q].id) != id,
            decreases self.sessions@.len() - i,
        {
            if self.sessions[i].id == id {
                return Some(i);
            }
            i += 1;
        }
        None
    }

    /// Opens a multipart upload session for `key` and hands back its id.
    pub fn put_multipart(&mut self, key: &String) -> (r: Result<u64, StoreError>)
        requires
            old(self).wf(),
            valid_key(key@),
            old(self).next_session_id < u64::MAX,
        ensures
            final(self).wf(),
            final(self).objects == old(self).objects,
            final(self).clock_ns == old(self).clock_ns,
            final(self).fault_in == StoreState::fault_step(old(self).fault_in),
            old(self).fault_now() ==> {
                &&& r matches Err(e) && e is BackendGeneric
                &&& final(self).sessions == old(self).sessions
                &&& final(self).next_session_id == old(self).next_session_id
            },
            !old(self).fault_now() ==> {
                &&& r == Ok::<u64, StoreError>(old(self).next_session_id)
                &&& final(self).next_session_id == old(self).next_session_id + 1
                &&& final(self).has_session(old(self).next_session_id)
                &&& final(self).session_key(old(self).next_session_id) == key@
                &&& final(self).session_parts(old(self).next_session_id) == Seq::<u8>::empty()
                &&& forall|id: u64|
                    id != old(self).next_session_id ==> (#[trigger] final(self).has_session(id))
                        == old(self).has_session(id)
                &&& forall|id: u64|
                    id != old(self).next_session_id && old(self).has_session(id) ==> (
                    #[trigger] final(self).session_key(id)) == old(self).session_key(id) && final(self).session_parts(id) == old(self).session_parts(id)
            },
    {
        if self.fault_gate() {
            return Err(backend_fault());
        }
        let ghost mid = *self;
        let id = self.next_session_id;
        self.next_session_id = id + 1;
        self.sessions.push(UploadSession { id, key: key.clone(), parts: Vec::new() });
        proof {
            let n = mid.sessions@.len() as int;
            lemma_session_lookup(*self, n);
            assert forall|other: u64| other != id implies (#[trigger] self.has_session(other))
                == old(self).has_session(other) by {
                assert(mid.has_session(other) == old(self).has_session(other));
                if mid.has_session(other) {
                    let j = sess_idx(mid.sessions@, other);
                    assert(self.sessions@[j].id == other);
                }
                if self.has_session(other) {
                    let j = sess_idx(self.sessions@, other);
                    assert(j < n);
                    assert(mid.sessions@[j].id == other);
                }
            }
            assert forall|other: u64| other != id && old(self).has_session(other) implies (
            #[trigger] self.session_key(other)) == old(self).session_key(other)
                && self.session_parts(other) == old(self).session_parts(other) by {
                assert(mid.has_session(other) == old(self).has_session(other));
                let j = sess_idx(mid.sessions@, other);
                lemma_session_lookup(mid, j);
                assert(self.sessions@[j].id == other);
                lemma_session_lookup(*self, j);
                assert(mid.session_key(other) == old(self).session_key(other));
                assert(mid.session_parts(other) == old(self).session_parts(other));
            }
        }
        Ok(id)
    }

    /// Appends bytes to the open session `id`, in caller order.
    pub fn append_part(&mut self, id: u64, data: &Vec<u8>) -> (r: Result<(), StoreError>)
        requires
            old(self).wf(),
        ensures
            final(self).wf(),
            final(self).objects == old(self).objects,
            final(self).next_session_id == old(self).next_session_id,
            final(self).clock_ns == old(self).clock_ns,
            final(self).fault_in == StoreState::fault_step(old(self).fault_in),
            old(self).fault_now() ==> {
                &&& r matches Err(e) && e is BackendGeneric
                &&& final(self).sessions == old(self).sessions
            },
            !old(self).fault_now() && !old(self).has_session(id) ==> {
                &&& r == Err::<(), StoreError>(StoreError::NotFound)
                &&& final(self).sessions == old(self).sessions
            },
            !old(self).fault_now() && old(self).has_session(id) ==> r == Ok::<(), StoreError>(()),
            !old(self).fault_now() && old(self).has_session(id) ==> final(self).has_session(id),
            !old(self).fault_now() && old(self).has_session(id) ==> final(self).session_key(id)
                == old(self).session_key(id),
            !old(self).fault_now() && old(self).has_session(id) ==> final(self).session_parts(id)
                == old(self).session_parts(id) + data@,
            !old(self).fault_now() && old(self).has_session(id) ==> forall|other: u64|
                other != id ==> (#[trigger] final(self).has_session(other)) == old(self).has_session(other),
            !old(self).fault_now() && old(self).has_session(id) ==> forall|other: u64|
                other != id && old(self).has_session(other) ==> (#[trigger] final(self).session_key(other)) == old(self).session_key(other),
            !old(self).fault_now() && old(self).has_session(id) ==> forall|other: u64|
                other != id && old(self).has_session(other) ==> (#[trigger] final(self).session_parts(other)) == old(self).session_parts(other),
    {
        if self.fault_gate() {
            return Err(backend_fault());
        }
        let ghost mid = *self;
        match self.find_session(id) {
            Some(i) => {
                proof {
                    lemma_session_lookup(*self, i as int);
                }
                let mut parts = clone_bytes(&self.sessions[i].parts);
                let mut q: usize = 0;
                while q < data.len()
                    invariant
                        0 <= q <= data@.len(),
                        parts@ == mid.session_parts(id) + data@.take(q as int),
                    decreases data@.len() - q,
                {
                    parts.push(data[q]);
                    proof {
                        assert(parts@ =~= mid.session_parts(id) + data@.take(q + 1));
                    }
                    q += 1;
                }
                proof {
                    assert(data@.take(data@.len() as int) =~= data@);
                }
                let key = self.sessions[i].key.clone();
                self.sessions[i] = UploadSession { id, key, parts };
                proof {
                    lemma_session_lookup(*self, i as int);
                    assert forall|other: u64| other != id implies (#[trigger] self.has_session(
                        other,
                    )) == old(self).has_session(other) by {
                        assert(mid.has_session(other) == old(self).has_session(other));
                        lemma_session_update_bridge(mid, *self, i as int, id, other);
                    }
                    assert forall|other: u64| other != id && old(self).has_session(other) implies (
                    #[trigger] self.session_key(other)) == old(self).session_key(other)
                        && self.session_parts(other) == old(self).session_parts(other) by {
                        assert(mid.has_session(other) == old(self).has_session(other));
                        lemma_session_update_bridge(mid, *self, i as int, id, other);
                        assert(mid.session_key(other) == old(self).session_key(other));
                        assert(mid.session_parts(other) == old(self).session_parts(other));
                    }
                    assert forall|other: u64| other != id && old(self).has_session(other) implies (
                    #[trigger] self.session_parts(other)) == old(self).session_parts(other) by {
                        assert(self.session_key(other) == old(self).session_key(other));
                    }
                }
                Ok(())
            },
            None => Err(StoreError::NotFound),
        }
    }

    /// Commits the open session `id`: its bytes become the object at the
    /// session's key, and the session closes.
    pub fn complete_multipart(&mut self, id: u64) -> (r: Result<(), StoreError>)
        requires
            old(self).wf(),
        ensures
            final(self).wf(),
            final(self).next_session_id == old(self).next_session_id,
            final(self).clock_ns == old(self).clock_ns,
            final(self).fault_in == StoreState::fault_step(old(self).fault_in),
            old(self).fault_now() ==> {
                &&& r matches Err(e) && e is BackendGeneric
                &&& final(self).sessions == old(self).sessions
                &&& final(self).objects == old(self).objects
            },
            !old(self).fault_now() && !old(self).has_session(id) ==> {
                &&& r == Err::<(), StoreError>(StoreError::NotFound)
                &&& final(self).sessions == old(self).sessions
                &&& final(self).objects == old(self).objects
            },
            !old(self).fault_now() && old(self).has_session(id) && old(self).session_parts(id).len()
                > i64::MAX ==> {
                &&& r matches Err(e) && e is BackendGeneric
                &&& final(self).sessions == old(self).sessions
                &&& final(self).objects == old(self).objects
            },
            !old(self).fault_now() && old(self).has_session(id) && old(self).session_parts(id).len()
                <= i64::MAX ==> {
                &&& r == Ok::<(), StoreError>(())
                &&& !final(self).has_session(id)
                &&& forall|other: u64|
                    other != id ==> (#[trigger] final(self).has_session(other)) == old(self).has_session(other)
                &&& forall|other: u64|
                    other != id && old(self).has_session(other) ==> (#[trigger] final(self).session_key(other)) == old(self).session_key(other) && final(self).session_parts(other) == old(self).session_parts(other)
                &&& final(self).contains_key(old(self).session_key(id))
                &&& final(self).data_of(old(self).session_key(id)) == old(self).session_parts(id)
                &&& final(self).mtime_of(old(self).session_key(id)) == old(self).clock_ns as int
                &&& forall|k: Seq<char>|
                    k != old(self).session_key(id) ==> (#[trigger] final(self).contains_key(k))
                        == old(self).contains_key(k)
                &&& forall|k: Seq<char>|
                    k != old(self).session_key(id) && old(self).contains_key(k) ==> (
                    #[trigger] final(self).data_of(k)) == old(self).data_of(k) && final(self).mtime_of(k) == old(self).mtime_of(k)
            },
    {
        if self.fault_gate() {
            return Err(backend_fault());
        }
        let ghost mid = *self;
        match self.find_session(id) {
            Some(i) => {
                proof {
                    lemma_session_lookup(*self, i as int);
                }
                if self.sessions[i].parts.len() as u64 > i64::MAX as u64 {
                    proof {
                        assert(old(self).session_parts(id) == self.sessions@[i as int].parts@);
                    }
                    return Err(
                        StoreError::BackendGeneric {
                            cause: String::from_str("upload too large to commit"),
                        },
                    );
                }
                proof {
                    assert(old(self).session_parts(id) == self.sessions@[i as int].parts@);
                    assert(old(self).session_key(id) == self.sessions@[i as int].key@);
                }
                let key = self.sessions[i].key.clone();
                let parts = clone_bytes(&self.sessions[i].parts);
                self.sessions.remove(i);
                proof {
                    lemma_session_remove_preserves(mid, *self, i as int, id);
                }
                let ghost mid2 = *self;
                let now = self.clock_ns;
                self.put_object(&key, parts, now);
                proof {
                    assert(mid.objects@ == old(self).objects@);
                    assert(mid2.objects@ == old(self).objects@);
                    assert(self.sessions@ == mid2.sessions@);
                    assert(mid.sessions@ == old(self).sessions@);
                    assert forall|k: Seq<char>| k != mid.session_key(id) implies (
                    #[trigger] self.contains_key(k)) == old(self).contains_key(k) by {
                        assert(mid2.contains_key(k) == old(self).contains_key(k));
                    }
                    assert forall|k: Seq<char>| k != mid.session_key(id) && old(self).contains_key(
                        k,
                    ) implies (#[trigger] self.data_of(k)) == old(self).data_of(k)
                        && self.mtime_of(k) == old(self).mtime_of(k) by {
                        assert(mid2.contains_key(k) == old(self).contains_key(k));
                        assert(mid2.data_of(k) == old(self).data_of(k));
                        assert(mid2.mtime_of(k) == old(self).mtime_of(k));
                    }
                    assert forall|other: u64| other != id implies (#[trigger] self.has_session(
                        other,
                    )) == old(self).has_session(other) by {
                        assert(self.has_session(other) == mid2.has_session(other));
                        assert(mid2.has_session(other) == mid.has_session(other));
                    }
                    assert forall|other: u64| other != id && old(self).has_session(other) implies (
                    #[trigger] self.session_key(other)) == old(self).session_key(other)
                        && self.session_parts(other) == old(self).session_parts(other) by {
                        assert(mid.has_session(other));
                        assert(mid2.session_key(other) == mid.session_key(other));
                        assert(mid2.session_parts(other) == mid.session_parts(other));
                    }
                }
                Ok(())
            },
            None => Err(StoreError::NotFound),
        }
    }

    /// Best-effort cleanup: closes and discards the session `id` if it is
    /// still open.  Objects are never touched, and the fault counter is
    /// left alone so a pending fault stays aimed at real backend calls.
    pub fn abort_multipart(&mut self, id: u64)
        requires
            old(self).wf(),
        ensures
            final(self).wf(),
            final(self).objects == old(self).objects,
            final(self).next_session_id == old(self).next_session_id,
            final(self).clock_ns == old(self).clock_ns,
            final(self).fault_in == old(self).fault_in,
            !final(self).has_session(id),
            forall|other: u64|
                other != id ==> (#[trigger] final(self).has_session(other)) == old(self).has_session(other),
            forall|other: u64|
                other != id && old(self).has_session(other) ==> (#[trigger] final(self).session_key(other)) == old(self).session_key(other) && final(self).session_parts(other) == old(self).session_parts(other),
    {
        match self.find_session(id) {
            Some(i) => {
                proof {
                    lemma_session_lookup(*self, i as int);
                }
                self.sessions.remove(i);
                proof {
                    lemma_session_remove_preserves(*old(self), *self, i as int, id);
                }
            },
            None => {},
        }
    }
}

/// After replacing the session at `i` (whose id is `id`) by another
/// session with the same id, every other id maps as before.
proof fn lemma_session_update_bridge(
    pre: StoreState,
    post: StoreState,
    i: int,
    id: u64,
    other: u64,
)
    requires
        pre.wf(),
        0 <= i < pre.sessions@.len(),
        pre.sessions@[i].id == id,
        post.sessions@ == pre.sessions@.update(i, post.sessions@[i]),
        post.sessions@[i].id == id,
        other != id,
    ensures
        post.has_session(other) == pre.has_session(other),
        pre.has_session(other) ==> post.session_key(other) == pre.session_key(other)
            && post.session_parts(other) == pre.session_parts(other),
{
    if pre.has_session(other) {
        let j = sess_idx(pre.sessions@, other);
        assert(0 <= j < pre.sessions@.len() && pre.sessions@[j].id == other);
        assert(j != i);
        assert(post.sessions@[j].id == other);
        lemma_session_lookup_seq(pre.sessions@, j);
        lemma_session_lookup_seq_post(pre, post, j, other);
    }
    if post.has_session(other) {
        let j = sess_idx(post.sessions@, other);
        assert(j != i);
        assert(pre.sessions@[j].id == other);
    }
}

/// Helper: a witness index pins down `sess_idx` under unique ids.
proof fn lemma_session_lookup_seq(s: Seq<UploadSession>, i: int)
    requires
        forall|a: int, b: int| 0 <= a < b < s.len() ==> (#[trigger] s[a].id) != (#[trigger] s[b].id),
        0 <= i < s.len(),
    ensures
        sess_contain(s, s[i].id),
        sess_idx(s, s[i].id) == i,
{
    let id = s[i].id;
    assert(sess_contain(s, id));
    let j = sess_idx(s, id);
    assert(0 <= j < s.len() && s[j].id == id);
}

/// Helper: the same witness transfers the lookup to the updated state.
proof fn lemma_session_lookup_seq_post(pre: StoreState, post: StoreState, j: int, other: u64)
    requires
        pre.wf(),
        0 <= j < post.sessions@.len(),
        post.sessions@[j].id == other,
        post.sessions@.len() == pre.sessions@.len(),
        forall|a: int, b: int|
            0 <= a < b < post.sessions@.len() ==> (#[trigger] post.sessions@[a].id) != (
            #[trigger] post.sessions@[b].id),
        pre.sessions@[j] == post.sessions@[j],
    ensures
        post.has_session(other),
        post.session_idx(other) == j,
        post.session_key(other) == pre.sessions@[j].key@,
        post.session_parts(other) == pre.sessions@[j].parts@,
{
    lemma_session_lookup_seq(post.sessions@, j);
}

/// Removing the session at `i` removes exactly its id and keeps every
/// other session intact.
proof fn lemma_session_remove_preserves(pre: StoreState, post: StoreState, i: int, id: u64)
    requires
        pre.wf(),
        0 <= i < pre.sessions@.len(),
        pre.sessions@[i].id == id,
        post.sessions@ == pre.sessions@.remove(i),
        post.objects == pre.objects,
        post.next_session_id == pre.next_session_id,
    ensures
        post.wf(),
        !post.has_session(id),
        forall|other: u64|
            other != id ==> (#[trigger] post.has_session(other)) == pre.has_session(other),
        forall|other: u64|
            other != id && pre.has_session(other) ==> (#[trigger] post.session_key(other))
                == pre.session_key(other) && post.session_parts(other) == pre.session_parts(other),
{
    assert(post.sessions@.len() == pre.sessions@.len() - 1);
    assert forall|j: int| 0 <= j < post.sessions@.len() implies post.sessions@[j] == pre.sessions@[
        if j < i {
            j
        } else {
            j + 1
        }
    ] by {}
    assert(post.wf());
    if post.has_session(id) {
        let j = sess_idx(post.sessions@, id);
        let j0 = if j < i {
            j
        } else {
            j + 1
        };
        assert(pre.sessions@[j0].id == id);
        assert(j0 != i);
        assert(false);
    }
    assert forall|other: u64| other != id implies (#[trigger] post.has_session(other))
        == pre.has_session(other) by {
        if pre.has_session(other) {
            let j = sess_idx(pre.sessions@, other);
            assert(j != i);
            let j1 = if j < i {
                j
            } else {
                j - 1
            };
            assert(post.sessions@[j1].id == other);
        }
        if post.has_session(other) {
            let j = sess_idx(post.sessions@, other);
            let j0 = if j < i {
                j
            } else {
                j + 1
            };
            assert(pre.sessions@[j0].id == other);
        }
    }
    assert forall|other: u64| other != id && pre.has_session(other) implies (
    #[trigger] post.session_key(other)) == pre.session_key(other) && post.session_parts(other)
        == pre.session_parts(other) by {
        let j = pre.session_idx(other);
        lemma_session_lookup(pre, j);
        assert(j != i);
        let j1 = if j < i {
            j
        } else {
            j - 1
        };
        assert(post.sessions@[j1].id == other);
        lemma_session_lookup_seq(post.sessions@, j1);
    }
}

/// Some entry before `bound` witnesses the synthetic directory `cp`
/// one level below `p`.
pub open spec fn prefix_witnessed(s: Seq<ObjectEntry>, p: Seq<char>, cp: Seq<char>, bound: int) -> bool {
    exists|j: int|
        0 <= j < bound && under(#[trigger] s[j].key@, p) && !direct_child(s[j].key@, p) && cp
            == child_prefix(s[j].key@, p)
}

/// Some element of `ps` views to `t`.
pub open spec fn seq_has_str(ps: Seq<String>, t: Seq<char>) -> bool {
    exists|a: int| 0 <= a < ps.len() && (#[trigger] ps[a]@) == t
}

/// A witness below one bound is a witness below any larger bound.
proof fn lemma_witness_mono(s: Seq<ObjectEntry>, p: Seq<char>, cp: Seq<char>, b1: int, b2: int)
    requires
        prefix_witnessed(s, p, cp, b1),
        b1 <= b2 <= s.len(),
    ensures
        prefix_witnessed(s, p, cp, b2),
{
    let j = choose|j: int|
        0 <= j < b1 && under(#[trigger] s[j].key@, p) && !direct_child(s[j].key@, p) && cp
            == child_prefix(s[j].key@, p);
    assert(0 <= j < b2 && under(s[j].key@, p) && !direct_child(s[j].key@, p) && cp == child_prefix(
        s[j].key@,
        p,
    ));
}

/// Membership survives a push.
proof fn lemma_has_str_push(ps: Seq<String>, x: String, t: Seq<char>)
    requires
        seq_has_str(ps, t),
    ensures
        seq_has_str(ps.push(x), t),
{
    let a = choose|a: int| 0 <= a < ps.len() && (#[trigger] ps[a]@) == t;
    assert(ps.push(x)[a]@ == t);
}

/// `m` reports exactly the entry `e`.
pub open spec fn meta_matches(m: ObjectMeta, e: ObjectEntry) -> bool {
    &&& m.location@ == e.key@
    &&& m.size == e.data@.len()
    &&& m.mtime_ns == e.mtime_ns
}

/// `ms` reports exactly the entries `es`, in order.
pub open spec fn metas_match(ms: Seq<ObjectMeta>, es: Seq<ObjectEntry>) -> bool {
    &&& ms.len() == es.len()
    &&& forall|q: int| 0 <= q < ms.len() ==> meta_matches(#[trigger] ms[q], es[q])
}

impl StoreState {
    /// The entries that are objects directly inside `p`, in store order.
    pub open spec fn direct_children(self, p: Seq<char>) -> Seq<ObjectEntry> {
        self.objects@.filter(|e: ObjectEntry| direct_child(e.key@, p))
    }

    /// `ps` is exactly the set of synthetic subdirectories one level below
    /// `p`: no duplicates, each witnessed by a deeper key, and every deeper
    /// key's first-level prefix present.
    pub open spec fn lists_prefixes_of(self, p: Seq<char>, ps: Seq<String>) -> bool {
        &&& forall|a: int, b: int| 0 <= a < b < ps.len() ==> (#[trigger] ps[a]@) != (#[trigger] ps[b]@)
        &&& forall|a: int|
            0 <= a < ps.len() ==> prefix_witnessed(
                self.objects@,
                p,
                #[trigger] ps[a]@,
                self.objects@.len() as int,
            )
        &&& forall|j: int|
            0 <= j < self.objects@.len() && under(#[trigger] self.objects@[j].key@, p)
                && !direct_child(self.objects@[j].key@, p) ==> seq_has_str(
                ps,
                child_prefix(self.objects@[j].key@, p),
            )
    }

    /// One level of a directory listing at `prefix`: the objects directly
    /// inside it and the synthetic subdirectories inferred from the
    /// delimiter.  An object stored exactly at `prefix` is not listed:
    /// the prefix is treated as a directory.
    #[verifier::rlimit(60)]
    pub fn list_with_delimiter(&self, prefix: &String) -> (r: Result<ListResult, StoreError>)
        requires
            self.wf(),
        ensures
            self.fault_now() ==> (r matches Err(e) && e is BackendGeneric),
            !self.fault_now() ==> (r matches Ok(l) && metas_match(
                l.objects@,
                self.direct_children(prefix@),
            ) && self.lists_prefixes_of(prefix@, l.common_prefixes@)),
    {
        if self.fault_now_exec() {
            return Err(backend_fault());
        }
        let ghost pred = |e: ObjectEntry| direct_child(e.key@, prefix@);
        let plen = prefix.as_str().unicode_len();
        let mut objects: Vec<ObjectMeta> = Vec::new();
        let mut prefixes: Vec<String> = Vec::new();
        let mut i: usize = 0;
        proof {
            reveal(Seq::filter);
        }
        while i < self.objects.len()
            invariant
                self.wf(),
                0 <= i <= self.objects@.len(),
                plen == prefix@.len(),
                pred == (|e: ObjectEntry| direct_child(e.key@, prefix@)),
                metas_match(objects@, self.objects@.take(i as int).filter(pred)),
                forall|a: int, b: int|
                    0 <= a < b < prefixes@.len() ==> (#[trigger] prefixes@[a]@) != (
                    #[trigger] prefixes@[b]@),
                forall|a: int|
                    0 <= a < prefixes@.len() ==> prefix_witnessed(
                        self.objects@,
                        prefix@,
                        #[trigger] prefixes@[a]@,
                        i as int,
                    ),
                forall|j: int|
                    0 <= j < i && under(#[trigger] self.objects@[j].key@, prefix@)
                        && !direct_child(self.objects@[j].key@, prefix@) ==> seq_has_str(
                        prefixes@,
                        child_prefix(self.objects@[j].key@, prefix@),
                    ),
            decreases self.objects@.len() - i,
        {
            let ghost done = self.objects@.take(i as int);
            let e = &self.objects[i];
            proof {
                reveal(Seq::filter);
                assert(self.objects@.take(i + 1).drop_last() =~= done);
                assert(self.objects@.take(i + 1).last() == self.objects@[i as int]);
            }
            let klen = e.key.as_str().unicode_len();
            if is_under(&e.key, prefix) {
                let b: usize = if plen == 0 {
                    0
                } else {
                    proof {
                        assert(e.key@.len() > plen + 1);
                    }
                    plen + 1
                };
                let fs = find_sep(&e.key, b);
                if fs == klen {
                    proof {
                        assert(direct_child(e.key@, prefix@));
                    }
                    objects.push(
                        ObjectMeta {
                            location: e.key.clone(),
                            size: e.data.len(),
                            mtime_ns: e.mtime_ns,
                        },
                    );
                    proof {
                        assert(self.objects@.take(i + 1).filter(pred) =~= done.filter(pred).push(
                            self.objects@[i as int],
                        ));
                        assert forall|a: int| 0 <= a < prefixes@.len() implies prefix_witnessed(
                            self.objects@,
                            prefix@,
                            #[trigger] prefixes@[a]@,
                            i + 1,
                        ) by {
                            lemma_witness_mono(
                                self.objects@,
                                prefix@,
                                prefixes@[a]@,
                                i as int,
                                i + 1,
                            );
                        }
                    }
                } else {
                    proof {
                        assert(!direct_child(e.key@, prefix@));
                        assert(self.objects@.take(i + 1).filter(pred) =~= done.filter(pred));
                        crate::paths::lemma_first_slash_from(e.key@, b as int);
                    }
                    let cp_str = e.key.as_str().substring_char(0, fs);
                    let cp = String::from_str(cp_str);
                    proof {
                        assert(cp@ =~= child_prefix(e.key@, prefix@));
                    }
                    if !vec_contains_string(&prefixes, &cp) {
                        let ghost old_ps = prefixes@;
                        prefixes.push(cp);
                        proof {
                            assert(prefix_witnessed(self.objects@, prefix@, cp@, i + 1));
                            assert forall|a: int| 0 <= a < prefixes@.len() implies prefix_witnessed(
                                self.objects@,
                                prefix@,
                                #[trigger] prefixes@[a]@,
                                i + 1,
                            ) by {
                                if a < old_ps.len() {
                                    assert(prefixes@[a]@ == old_ps[a]@);
                                    lemma_witness_mono(
                                        self.objects@,
                                        prefix@,
                                        old_ps[a]@,
                                        i as int,
                                        i + 1,
                                    );
                                } else {
                                    assert(prefixes@[a]@ == cp@);
                                }
                            }
                            assert forall|j: int|
                                0 <= j < i + 1 && under(
                                    #[trigger] self.objects@[j].key@,
                                    prefix@,
                                ) && !direct_child(self.objects@[j].key@, prefix@) implies seq_has_str(
                                prefixes@,
                                child_prefix(self.objects@[j].key@, prefix@),
                            ) by {
                                if j < i {
                                    lemma_has_str_push(
                                        old_ps,
                                        cp,
                                        child_prefix(self.objects@[j].key@, prefix@),
                                    );
                                } else {
                                    assert(prefixes@[old_ps.len() as int]@ == cp@);
                                }
                            }
                        }
                    } else {
                        proof {
                            assert forall|a: int| 0 <= a < prefixes@.len() implies prefix_witnessed(
                                self.objects@,
                                prefix@,
                                #[trigger] prefixes@[a]@,
                                i + 1,
                            ) by {
                                lemma_witness_mono(
                                    self.objects@,
                                    prefix@,
                                    prefixes@[a]@,
                                    i as int,
                                    i + 1,
                                );
                            }
                            assert(seq_has_str(prefixes@, child_prefix(e.key@, prefix@)));
                        }
                    }
                }
            } else {
                proof {
                    assert(!direct_child(e.key@, prefix@));
                    assert(self.objects@.take(i + 1).filter(pred) =~= done.filter(pred));
                    assert forall|a: int| 0 <= a < prefixes@.len() implies prefix_witnessed(
                        self.objects@,
                        prefix@,
                        #[trigger] prefixes@[a]@,
                        i + 1,
                    ) by {
                        lemma_witness_mono(self.objects@, prefix@, prefixes@[a]@, i as int, i + 1);
                    }
                }
            }
            i += 1;
        }
        proof {
            assert(self.objects@.take(self.objects@.len() as int) =~= self.objects@);
        }
        Ok(ListResult { objects, common_prefixes: prefixes })
    }
}

/// Whether some element of `v` views to the same string as `x`.
pub(crate) fn vec_contains_string(v: &Vec<String>, x: &String) -> (r: bool)
    ensures
        r == exists|a: int| 0 <= a < v@.len() && (#[trigger] v@[a]@) == x@,
{
    let mut i: usize = 0;
    while i < v.len()
        invariant
            0 <= i <= v@.len(),
            forall|a: int| 0 <= a < i ==> (#[trigger] v@[a]@) != x@,
        decreases v@.len() - i,
    {
        if v[i] == *x {
            return true;
        }
        i += 1;
    }
    false
}

/// After replacing the entry at `i` (whose key is `key`), every other key
/// maps as before.
proof fn lemma_contains_after_update(
    pre: StoreState,
    post: StoreState,
    i: int,
    key: Seq<char>,
    k: Seq<char>,
)
    requires
        pre.wf(),
        0 <= i < pre.objects@.len(),
        pre.objects@[i].key@ == key,
        post.objects@ == pre.objects@.update(i, post.objects@[i]),
        post.objects@[i].key@ == key,
        k != key,
    ensures
        post.contains_key(k) == pre.contains_key(k),
{
    if pre.contains_key(k) {
        let j = pre.idx_of(k);
        assert(j != i);
        assert(post.objects@[j].key@ == k);
    }
    if post.contains_key(k) {
        let j = post.idx_of(k);
        assert(j != i);
        assert(pre.objects@[j].key@ == k);
    }
}

/// After replacing the entry at `i` (whose key is `key`), every other
/// stored object keeps its body and stamp.
proof fn lemma_entry_unchanged_after_update(
    pre: StoreState,
    post: StoreState,
    i: int,
    key: Seq<char>,
    k: Seq<char>,
)
    requires
        pre.wf(),
        post.wf(),
        0 <= i < pre.objects@.len(),
        pre.objects@[i].key@ == key,
        post.objects@ == pre.objects@.update(i, post.objects@[i]),
        post.objects@[i].key@ == key,
        k != key,
        pre.contains_key(k),
    ensures
        post.contains_key(k),
        post.data_of(k) == pre.data_of(k),
        post.mtime_of(k) == pre.mtime_of(k),
{
    let j = pre.idx_of(k);
    assert(0 <= j < pre.objects@.len() && pre.objects@[j].key@ == k);
    assert(j != i);
    assert(post.objects@[j].key@ == k);
    lemma_entry_lookup(post, j);
    lemma_entry_lookup(pre, j);
}

/// Removing the entry at `i` removes exactly its key and keeps every other
/// object intact.
proof fn lemma_remove_preserves(pre: StoreState, post: StoreState, i: int, key: Seq<char>)
    requires
        pre.wf(),
        0 <= i < pre.objects@.len(),
        pre.objects@[i].key@ == key,
        post.objects@ == pre.objects@.remove(i),
        post.sessions == pre.sessions,
        post.next_session_id == pre.next_session_id,
    ensures
        post.wf(),
        !post.contains_key(key),
        forall|k: Seq<char>| k != key ==> (#[trigger] post.contains_key(k)) == pre.contains_key(k),
        forall|k: Seq<char>|
            k != key && pre.contains_key(k) ==> (#[trigger] post.data_of(k)) == pre.data_of(k)
                && post.mtime_of(k) == pre.mtime_of(k),
{
    assert(post.objects@.len() == pre.objects@.len() - 1);
    assert forall|j: int| 0 <= j < post.objects@.len() implies post.objects@[j] == pre.objects@[
        if j < i {
            j
        } else {
            j + 1
        }
    ] by {}
    assert(post.wf());
    if post.contains_key(key) {
        let j = post.idx_of(key);
        let j0 = if j < i {
            j
        } else {
            j + 1
        };
        assert(pre.objects@[j0].key@ == key);
        assert(j0 != i);
        assert(false);
    }
    assert forall|k: Seq<char>| k != key implies (#[trigger] post.contains_key(k))
        == pre.contains_key(k) by {
        if pre.contains_key(k) {
            let j = pre.idx_of(k);
            assert(j != i);
            let j1 = if j < i {
                j
            } else {
                j - 1
            };
            assert(post.objects@[j1].key@ == k);
        }
        if post.contains_key(k) {
            let j = post.idx_of(k);
            let j0 = if j < i {
                j
            } else {
                j + 1
            };
            assert(pre.objects@[j0].key@ == k);
        }
    }
    assert forall|k: Seq<char>| k != key && pre.contains_key(k) implies (#[trigger] post.data_of(k))
        == pre.data_of(k) && post.mtime_of(k) == pre.mtime_of(k) by {
        let j = pre.idx_of(k);
        lemma_entry_lookup(pre, j);
        assert(j != i);
        let j1 = if j < i {
            j
        } else {
            j - 1
        };
        assert(post.objects@[j1].key@ == k);
        lemma_entry_lookup(post, j1);
    }
}

} // verus!
