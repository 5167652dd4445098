use std::time::Duration;
use vstd::prelude::*;
use vstd::string::StringExecFns;

use crate::ffi::error::{FfiError, FfiErrorView};
use crate::model::lora_loader::{estimated_vram, LoraLoader};

verus! {

/// The adapter that a model carries, and how long applying it took.
pub struct LoRAState {
    pub active_lora: Option<String>,
    pub apply_time: Duration,
}

/// Whether the bytes begin with the four letters `GGUF`.
pub open spec fn starts_with_gguf(header: Seq<u8>) -> bool {
    header.len() >= 4 && header[0] == 0x47 && header[1] == 0x47 && header[2] == 0x55 && header[3]
        == 0x46
}

/// What is wrong with a file that has this beginning and this extension, if
/// anything. A file whose first eight bytes could not be read is damaged;
/// another is supported where it begins with `GGUF` or is named `.bin`.
pub open spec fn lora_header_fault(header: Seq<u8>, extension: Option<Seq<char>>) -> Option<
    FfiErrorView,
> {
    if header.len() < 8 {
        Some(FfiErrorView::InvalidGguf("文件损坏"@))
    } else if starts_with_gguf(header) || extension == Some("bin"@) {
        None
    } else {
        Some(FfiErrorView::InvalidGguf("不支持格式"@))
    }
}

/// The extension of a file name as contracts speak of it.
pub open spec fn extension_view(extension: Option<&str>) -> Option<Seq<char>> {
    match extension {
        Some(e) => Some(e@),
        None => None,
    }
}

/// Checks the beginning of an adapter file. `header` is what could be read
/// of the file's first eight bytes, `extension` the extension of its name.
pub fn validate_lora_header(header: &[u8], extension: Option<&str>) -> (r: Result<(), FfiError>)
    ensures
        match r {
            Ok(()) => lora_header_fault(header@, extension_view(extension)) is None,
            Err(e) => lora_header_fault(header@, extension_view(extension)) == Some(e@),
        },
{
    if header.len() < 8 {
        return Err(FfiError::InvalidGguf(String::from_str("文件损坏")));
    }
    let is_gguf = header[0] == 0x47 && header[1] == 0x47 && header[2] == 0x55 && header[3] == 0x46;
    let is_bin = match extension {
        Some(e) => {
            let wanted = String::from_str("bin");
            let given = String::from_str(e);
            given == wanted
        },
        None => false,
    };
    if !is_gguf && !is_bin {
        return Err(FfiError::InvalidGguf(String::from_str("不支持格式")));
    }
    Ok(())
}

/// The memory that an adapter file of `file_size` bytes is expected to take.
pub fn estimate_lora_vram(file_size: usize) -> (r: usize)
    ensures
        r == estimated_vram(file_size),
{
    LoraLoader::estimate_vram(file_size)
}

} // verus!
