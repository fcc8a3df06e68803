//! Sources of raw module bytes for the execution engine.

use vstd::prelude::*;

use std::sync::Arc;

verus! {

/// Where a handler's module bytes come from. Today always an in-memory,
/// shared, read-only blob that the emplacement cache produced; abstracted so
/// other sources can appear without changing the execution layer.
#[derive(Clone, Debug)]
pub enum WasmModuleSource {
    Blob(Arc<Vec<u8>>),
}

} // verus!
