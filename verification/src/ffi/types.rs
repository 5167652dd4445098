use vstd::prelude::*;

verus! {

/// How a model is to be loaded.
#[derive(Debug, Clone, Copy, PartialEq, Eq)]
pub struct LoadParams {
    pub n_gpu_layers: i32,
    pub main_gpu: i32,
    pub use_mmap: bool,
    pub use_mlock: bool,
}

impl Default for LoadParams {
    fn default() -> (r: Self)
        ensures
            r == (LoadParams { n_gpu_layers: 0, main_gpu: 0, use_mmap: true, use_mlock: false }),
    {
        Self { n_gpu_layers: 0, main_gpu: 0, use_mmap: true, use_mlock: false }
    }
}

/// How an inference context is to be set up.
#[derive(Debug, Clone, Copy, PartialEq, Eq)]
pub struct ContextParams {
    pub n_ctx: u32,
    pub n_batch: u32,
    pub n_threads: u32,
}

impl Default for ContextParams {
    fn default() -> (r: Self)
        ensures
            r == (ContextParams { n_ctx: 4096, n_batch: 512, n_threads: 4 }),
    {
        Self { n_ctx: 4096, n_batch: 512, n_threads: 4 }
    }
}

} // verus!
