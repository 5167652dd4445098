//! The boundary to the native inference backend: its errors, its parameters,
//! and the checks on adapter files that need no backend.

pub mod error;
pub mod lora;
pub mod types;

use vstd::prelude::*;

pub use error::FfiError;
pub use lora::{estimate_lora_vram, validate_lora_header, LoRAState};
pub use types::{ContextParams, LoadParams};

verus! {

/// Brings the native backend up. This build links no native backend, so the
/// call always fails with [`FfiError::BackendInit`].
pub fn initialize_backend() -> (r: Result<(), FfiError>)
    ensures
        r == Err::<(), FfiError>(FfiError::BackendInit),
{
    Err(FfiError::BackendInit)
}

/// Whether the native backend is up, which it never is in this build.
pub fn is_backend_initialized() -> (r: bool)
    ensures
        !r,
{
    false
}

} // verus!
