//! Failure taxonomy.
//!
//! Every lower-level failure of the emplacement side is flattened into
//! [`EmplacerError`], with identifying context carried as text; failures
//! surfaced to a sandboxed guest through the capability surface are
//! [`CapabilityError`] values.

use vstd::prelude::*;

verus! {

/// A failure of the emplacement cache or of the backends underneath it.
#[derive(Debug)]
pub enum EmplacerError {
    /// Bad cache root or invalid source descriptor.
    Configuration(String),
    /// Connectivity failure, remote not-found, or a missing local-mirror file;
    /// both backend shapes flatten their native failures into this variant.
    Backend(String),
    /// Disk failure while materializing an invoice or a blob.
    CacheWrite(String),
    /// Malformed or unparsable cached invoice.
    Invoice(String),
}

/// A failure returned to a guest through the virtual filesystem surface.
#[derive(Debug)]
pub enum CapabilityError {
    /// The opened name is not in the socket table; indistinguishable to the
    /// guest from a missing filesystem entry.
    NotFound(String),
    /// The operation lies outside the byte-stream surface (positional or
    /// capacity operations on a socket, any mutation of the fixed directory).
    Unsupported,
}

impl Clone for EmplacerError {
    fn clone(&self) -> (r: Self)
        ensures
            r == *self,
    {
        match self {
            EmplacerError::Configuration(s) => EmplacerError::Configuration(s.clone()),
            EmplacerError::Backend(s) => EmplacerError::Backend(s.clone()),
            EmplacerError::CacheWrite(s) => EmplacerError::CacheWrite(s.clone()),
            EmplacerError::Invoice(s) => EmplacerError::Invoice(s.clone()),
        }
    }
}

} // verus!
