//! The error taxonomy shared by every component of the adapter.

use vstd::prelude::*;

verus! {

/// A typed error, so callers can tell "resource absent" from "operation
/// unsupported" from "stream misuse" from "transient backend failure".
#[derive(Clone, Debug, PartialEq, Eq)]
pub enum StoreError {
    /// The given path cannot be parsed into a normalized key.
    InvalidPath,
    /// No object (or, for the reverse adapter, no foreign file) at the key.
    NotFound,
    /// An operation other than `close` was applied to a closed stream.
    ClosedStreamError,
    /// A seek would have placed the cursor outside `[0, content_length]`.
    InvalidSeek,
    /// The operation is a capability gap, not a structural failure.
    NotImplemented,
    /// The shared runtime is unavailable or shutting down.
    RuntimeUnavailable,
    /// A backend failure, wrapped with its cause for diagnostics.
    BackendGeneric { cause: String },
}

impl StoreError {
    /// True for the variants a caller may meaningfully retry on.
    pub fn is_transient(&self) -> (r: bool)
        ensures
            r == (self is BackendGeneric || self is RuntimeUnavailable),
    {
        match self {
            StoreError::BackendGeneric { .. } => true,
            StoreError::RuntimeUnavailable => true,
            _ => false,
        }
    }
}

} // verus!
