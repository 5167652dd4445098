use vstd::prelude::*;
use vstd::string::StringExecFns;

use crate::types::decimal::{decimal, print_decimal};

verus! {

/// What the backend, or the bookkeeping around it, can refuse.
#[derive(Debug, PartialEq, Eq)]
pub enum FfiError {
    /// No model file at this path, or no resident model under this id.
    ModelNotFound(String),
    /// The file is not in a format that can be loaded.
    InvalidGguf(String),
    GpuInitFailed { reason: String, raw_code: Option<i32> },
    /// An adapter needs `requested` bytes where only `available` are free.
    OutOfMemory { requested: usize, available: usize },
    Internal(String),
    InvalidParameter(String),
    /// The native backend could not be brought up.
    BackendInit,
}

/// Mathematical model of an [`FfiError`].
pub enum FfiErrorView {
    ModelNotFound(Seq<char>),
    InvalidGguf(Seq<char>),
    GpuInitFailed { reason: Seq<char>, raw_code: Option<i32> },
    OutOfMemory { requested: usize, available: usize },
    Internal(Seq<char>),
    InvalidParameter(Seq<char>),
    BackendInit,
}

impl View for FfiError {
    type V = FfiErrorView;

    open spec fn view(&self) -> FfiErrorView {
        match self {
            FfiError::ModelNotFound(p) => FfiErrorView::ModelNotFound(p@),
            FfiError::InvalidGguf(m) => FfiErrorView::InvalidGguf(m@),
            FfiError::GpuInitFailed { reason, raw_code } => FfiErrorView::GpuInitFailed {
                reason: reason@,
                raw_code: *raw_code,
            },
            FfiError::OutOfMemory { requested, available } => FfiErrorView::OutOfMemory {
                requested: *requested,
                available: *available,
            },
            FfiError::Internal(m) => FfiErrorView::Internal(m@),
            FfiError::InvalidParameter(m) => FfiErrorView::InvalidParameter(m@),
            FfiError::BackendInit => FfiErrorView::BackendInit,
        }
    }
}

impl FfiErrorView {
    /// The error as a line of text.
    pub open spec fn message(self) -> Seq<char> {
        match self {
            FfiErrorView::ModelNotFound(p) => "模型文件不存在: "@ + p,
            FfiErrorView::InvalidGguf(m) => "GGUF格式无效: "@ + m,
            FfiErrorView::GpuInitFailed { reason, .. } => "GPU初始化失败: "@ + reason,
            FfiErrorView::OutOfMemory { requested, available } => "内存不足: 请求"@ + decimal(
                requested as nat,
            ) + "MB，可用"@ + decimal(available as nat) + "MB"@,
            FfiErrorView::Internal(m) => "FFI内部错误: "@ + m,
            FfiErrorView::InvalidParameter(m) => "无效参数: "@ + m,
            FfiErrorView::BackendInit => "后端初始化失败"@,
        }
    }
}

impl FfiError {
    /// The error as a line of text.
    pub fn to_string(&self) -> (r: String)
        ensures
            r@ == self@.message(),
    {
        match self {
            FfiError::ModelNotFound(p) => String::from_str("模型文件不存在: ").concat(p.as_str()),
            FfiError::InvalidGguf(m) => String::from_str("GGUF格式无效: ").concat(m.as_str()),
            FfiError::GpuInitFailed { reason, .. } => String::from_str("GPU初始化失败: ").concat(
                reason.as_str(),
            ),
            FfiError::OutOfMemory { requested, available } => {
                let mut msg = String::from_str("内存不足: 请求");
                let wanted = print_decimal(*requested as u64);
                msg.append(wanted.as_str());
                msg.append("MB，可用");
                let free = print_decimal(*available as u64);
                msg.append(free.as_str());
                msg.append("MB");
                msg
            },
            FfiError::Internal(m) => String::from_str("FFI内部错误: ").concat(m.as_str()),
            FfiError::InvalidParameter(m) => String::from_str("无效参数: ").concat(m.as_str()),
            FfiError::BackendInit => String::from_str("后端初始化失败"),
        }
    }
}

impl Clone for FfiError {
    fn clone(&self) -> (r: Self)
        ensures
            r@ == self@,
    {
        match self {
            FfiError::ModelNotFound(p) => FfiError::ModelNotFound(p.clone()),
            FfiError::InvalidGguf(m) => FfiError::InvalidGguf(m.clone()),
            FfiError::GpuInitFailed { reason, raw_code } => FfiError::GpuInitFailed {
                reason: reason.clone(),
                raw_code: *raw_code,
            },
            FfiError::OutOfMemory { requested, available } => FfiError::OutOfMemory {
                requested: *requested,
                available: *available,
            },
            FfiError::Internal(m) => FfiError::Internal(m.clone()),
            FfiError::InvalidParameter(m) => FfiError::InvalidParameter(m.clone()),
            FfiError::BackendInit => FfiError::BackendInit,
        }
    }
}

} // verus!
