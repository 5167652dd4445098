use vstd::prelude::*;
use vstd::string::StringExecFns;

verus! {

/// Why an adapter file was refused.
#[derive(Debug, PartialEq, Eq)]
pub enum ModelError {
    /// The file could not be read; the text says why.
    Io(String),
    InvalidGguf,
    VersionIncompatible,
    CorruptedFile,
}

impl ModelError {
    /// The error as a line of text.
    pub open spec fn message(&self) -> Seq<char> {
        match self {
            ModelError::Io(why) => "I/O 错误: "@ + why@,
            ModelError::InvalidGguf => "文件不是有效的 GGUF LoRA 文件"@,
            ModelError::VersionIncompatible => "版本不兼容: 要求 3.0+"@,
            ModelError::CorruptedFile => "文件损坏或格式错误"@,
        }
    }

    /// The error as a line of text.
    pub fn to_string(&self) -> (r: String)
        ensures
            r@ == self.message(),
    {
        match self {
            ModelError::Io(why) => String::from_str("I/O 错误: ").concat(why.as_str()),
            ModelError::InvalidGguf => String::from_str("文件不是有效的 GGUF LoRA 文件"),
            ModelError::VersionIncompatible => String::from_str("版本不兼容: 要求 3.0+"),
            ModelError::CorruptedFile => String::from_str("文件损坏或格式错误"),
        }
    }
}

/// What the header of an adapter file says.
#[derive(Debug, PartialEq, Eq)]
pub struct LoraMetadata {
    pub tensor_count: usize,
    /// The version field as it stands in the file: the bits of a 32-bit float.
    pub version: u32,
    pub estimated_vram: usize,
}

/// Checks on adapter files.
pub struct LoraLoader;

/// Four bytes read as a little-endian number.
pub open spec fn le_u32(b0: u8, b1: u8, b2: u8, b3: u8) -> int {
    b0 as int + 256 * (b1 as int) + 65536 * (b2 as int) + 16777216 * (b3 as int)
}

/// `GGUF`, read as a little-endian number.
pub const GGUF_MAGIC: u32 = 0x46554747;

/// Whether a version field, the bits of a 32-bit float, is not below 3.0.
/// That holds of the positive floats from 3.0 up, infinity included, and of
/// every bit pattern that is not a number.
pub open spec fn version_accepted(bits: u32) -> bool {
    (0x40400000 <= bits <= 0x7FFFFFFF) || bits > 0xFF800000
}

/// Six fifths of the file size, rounded down, and no more than `usize::MAX`.
pub open spec fn estimated_vram(file_size: usize) -> usize {
    if file_size + file_size / 5 <= usize::MAX {
        (file_size + file_size / 5) as usize
    } else {
        usize::MAX
    }
}

/// What `validate` decides about a file of `file_size` bytes that begins
/// with `header`.
pub open spec fn validated(header: Seq<u8>, file_size: usize) -> Result<LoraMetadata, ModelError> {
    if header.len() < 16 {
        Err(ModelError::CorruptedFile)
    } else if le_u32(header[0], header[1], header[2], header[3]) != GGUF_MAGIC {
        Err(ModelError::InvalidGguf)
    } else if !version_accepted(le_u32(header[4], header[5], header[6], header[7]) as u32) {
        Err(ModelError::VersionIncompatible)
    } else {
        Ok(
            LoraMetadata {
                tensor_count: le_u32(header[8], header[9], header[10], header[11]) as usize,
                version: le_u32(header[4], header[5], header[6], header[7]) as u32,
                estimated_vram: estimated_vram(file_size),
            },
        )
    }
}

fn read_le_u32(b0: u8, b1: u8, b2: u8, b3: u8) -> (r: u32)
    ensures
        r == le_u32(b0, b1, b2, b3),
{
    let low: u32 = b0 as u32 + 256 * (b1 as u32);
    let high: u32 = b2 as u32 + 256 * (b3 as u32);
    low + 65536 * high
}

impl LoraLoader {
    /// Reads the header of an adapter file. `header` is what could be read
    /// of the file's first 1024 bytes, `file_size` the length of the file.
    /// Fewer than 16 bytes make a damaged file; then the magic number has to
    /// be `GGUF` and the version at least 3.0.
    pub fn validate(header: &[u8], file_size: usize) -> (r: Result<LoraMetadata, ModelError>)
        ensures
            r == validated(header@, file_size),
    {
        if header.len() < 16 {
            return Err(ModelError::CorruptedFile);
        }
        let magic = read_le_u32(header[0], header[1], header[2], header[3]);
        if magic != GGUF_MAGIC {
            return Err(ModelError::InvalidGguf);
        }
        let version = read_le_u32(header[4], header[5], header[6], header[7]);
        if !((0x40400000 <= version && version <= 0x7FFFFFFF) || version > 0xFF800000) {
            return Err(ModelError::VersionIncompatible);
        }
        let tensor_count = read_le_u32(header[8], header[9], header[10], header[11]) as usize;
        let estimated_vram = Self::estimate_vram(file_size);
        Ok(LoraMetadata { tensor_count, version, estimated_vram })
    }

    /// The memory that an adapter file of `file_size` bytes is expected to
    /// take: a fifth more than the file.
    pub fn estimate_vram(file_size: usize) -> (r: usize)
        ensures
            r == estimated_vram(file_size),
    {
        let fifth = file_size / 5;
        if file_size <= usize::MAX - fifth {
            file_size + fifth
        } else {
            usize::MAX
        }
    }
}

} // verus!
