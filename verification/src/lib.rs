//! Core of a WebAssembly serverless gateway's trust boundary.
//!
//! Two subsystems share one pattern: present a narrow, safe interface to
//! sandboxed code while real, fallible I/O happens underneath.
//!
//! * A content-addressed package emplacement cache: versioned invoices are
//!   resolved into handlers, and each handler's module and asset blobs are
//!   materialized on local disk exactly once, deduplicated by content digest.
//! * A virtual socket capability layer: a fixed, read-only name table whose
//!   entries, when opened, become live byte streams with a restricted I/O
//!   surface.
//!
//! The decision logic of both lives here, verified; the surrounding
//! asynchronous file and network plumbing drives it from outside.

pub mod emplacer;
pub mod error;
pub mod invoice;
pub mod request;
pub mod socksville;
pub mod wasm_module;
