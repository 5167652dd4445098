//! Models and adapters as the engine sees them.

pub mod lora_loader;

use vstd::prelude::*;

pub use lora_loader::{LoraLoader, LoraMetadata, ModelError};

use crate::ffi::{FfiError, LoadParams};
use crate::vram::pool::Model;
use std::sync::Arc;

verus! {

/// What the engine asks of the inference backend. The engine promises
/// nothing about what an implementation returns, and decides only by the
/// result of each call.
pub trait ModelProvider {
    /// Loads the model file at `path`.
    fn load(&self, path: &str, params: LoadParams) -> Result<Model, FfiError>;

    /// Applies the adapter file at `lora_path` to a loaded model.
    fn apply_lora(&self, model: &Arc<Model>, lora_path: &str) -> Result<(), FfiError>;

    /// Takes the active adapter off a loaded model.
    fn remove_lora(&self, model: &Arc<Model>) -> Result<(), FfiError>;

    /// The adapter file that a loaded model carries, as the backend has it.
    fn current_lora(&self, model: &Arc<Model>) -> Option<String>;
}

} // verus!
