//! A verified model of a filesystem adapter over a flat object store.
//!
//! The backend offers only get/put/list/delete/copy on opaque keys; this
//! crate reconciles that with a POSIX-like file interface: directory
//! emulation over prefixes, seekable read handles, sequential multipart
//! write handles, and a reverse adapter that presents a foreign
//! synchronous filesystem as the same storage contract.

mod errors;
mod handler;
mod paths;
mod store;
mod read_stream;
mod reverse;
mod walker;
mod write_stream;

pub use errors::StoreError;
pub use handler::{DeltaFileSystemHandler, FileInfo, FileKind};
pub use paths::{normalize, parse_key};
pub use read_stream::{ObjectInputFile, SeekFrom};
pub use reverse::{store_error_from_foreign, ForeignError, ForeignFile, ForeignFs, ForeignInput, ForeignOutput, ForeignTime, WrappedPyArrowStore};
pub use store::{ListResult, ObjectEntry, ObjectMeta, StoreState, UploadSession};
pub use walker::walk_tree;
pub use write_stream::{ObjectOutputStream, StreamState};
