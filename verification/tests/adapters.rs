use microflow::ffi::{
    estimate_lora_vram, initialize_backend, is_backend_initialized, validate_lora_header,
    ContextParams, FfiError, LoadParams,
};
use microflow::model::{LoraLoader, LoraMetadata, ModelError};
use microflow::types::decimal::print_decimal;

#[test]
fn estimate_matches_the_float_formula() {
    for n in [0usize, 1, 4, 5, 9, 10, 417, 1000, 1 << 20, 123_456_789, 1 << 40] {
        assert_eq!(LoraLoader::estimate_vram(n), (n as f64 * 1.2) as usize);
        assert_eq!(estimate_lora_vram(n), LoraLoader::estimate_vram(n));
    }
    assert_eq!(LoraLoader::estimate_vram(417), 500);
    assert_eq!(LoraLoader::estimate_vram(usize::MAX), usize::MAX);
    assert_eq!(
        LoraLoader::estimate_vram(usize::MAX),
        (usize::MAX as f64 * 1.2) as usize
    );
}

fn header_with(magic: &[u8; 4], version: f32, tensors: u32) -> Vec<u8> {
    let mut h = Vec::new();
    h.extend_from_slice(magic);
    h.extend_from_slice(&version.to_le_bytes());
    h.extend_from_slice(&tensors.to_le_bytes());
    h.extend_from_slice(&[0u8; 4]);
    h
}

#[test]
fn loader_reads_the_header() {
    let h = header_with(b"GGUF", 3.0, 42);
    assert_eq!(
        LoraLoader::validate(&h, 1000),
        Ok(LoraMetadata {
            tensor_count: 42,
            version: 3.0f32.to_bits(),
            estimated_vram: 1200,
        })
    );
    let h = header_with(b"GGUF", 3.5, 0x01020304);
    let meta = LoraLoader::validate(&h, 5).unwrap();
    assert_eq!(meta.tensor_count, 0x01020304);
    assert_eq!(f32::from_bits(meta.version), 3.5);
    assert_eq!(meta.estimated_vram, 6);
}

#[test]
fn loader_refuses_damaged_foreign_and_old_files() {
    assert_eq!(
        LoraLoader::validate(&[0x47, 0x47, 0x55, 0x46], 10),
        Err(ModelError::CorruptedFile)
    );
    assert_eq!(
        LoraLoader::validate(&header_with(b"GGUF", 3.0, 1)[..15], 10),
        Err(ModelError::CorruptedFile)
    );
    assert_eq!(
        LoraLoader::validate(&header_with(b"GGML", 3.0, 1), 10),
        Err(ModelError::InvalidGguf)
    );
    assert_eq!(
        LoraLoader::validate(&header_with(b"GGUF", 2.9, 1), 10),
        Err(ModelError::VersionIncompatible)
    );
}

#[test]
fn version_check_agrees_with_float_comparison() {
    let samples: [f32; 14] = [
        0.0,
        -0.0,
        1.0,
        2.9999998,
        3.0,
        3.0000002,
        100.0,
        f32::MAX,
        f32::INFINITY,
        f32::NEG_INFINITY,
        -3.0,
        -100.0,
        f32::MIN_POSITIVE,
        f32::NAN,
    ];
    for v in samples {
        let refused = v < 3.0;
        let got = LoraLoader::validate(&header_with(b"GGUF", v, 1), 10);
        assert_eq!(
            got == Err(ModelError::VersionIncompatible),
            refused,
            "version {}",
            v
        );
    }
    // A version field that is not a number, with the sign bit set.
    let mut h = header_with(b"GGUF", 3.0, 1);
    h[4..8].copy_from_slice(&0xFFC0_0000u32.to_le_bytes());
    assert!(f32::from_bits(0xFFC0_0000).is_nan());
    assert!(LoraLoader::validate(&h, 10).is_ok());
}

#[test]
fn header_check_accepts_gguf_and_bin() {
    let gguf = [0x47, 0x47, 0x55, 0x46, 0, 0, 0, 0];
    let zip = [0x50, 0x4B, 0x03, 0x04, 0, 0, 0, 0];
    assert_eq!(validate_lora_header(&gguf, None), Ok(()));
    assert_eq!(validate_lora_header(&gguf, Some("txt")), Ok(()));
    assert_eq!(validate_lora_header(&zip, Some("bin")), Ok(()));
    assert_eq!(
        validate_lora_header(&zip, Some("safetensors")),
        Err(FfiError::InvalidGguf("不支持格式".to_string()))
    );
    assert_eq!(
        validate_lora_header(&zip, Some("BIN")),
        Err(FfiError::InvalidGguf("不支持格式".to_string()))
    );
    assert_eq!(
        validate_lora_header(&gguf[..7], Some("bin")),
        Err(FfiError::InvalidGguf("文件损坏".to_string()))
    );
    assert_eq!(
        validate_lora_header(&[], None),
        Err(FfiError::InvalidGguf("文件损坏".to_string()))
    );
}

#[test]
fn backend_is_never_up_without_a_native_library() {
    assert!(!is_backend_initialized());
    assert_eq!(initialize_backend(), Err(FfiError::BackendInit));
    assert!(!is_backend_initialized());
}

#[test]
fn parameter_defaults() {
    let p = LoadParams::default();
    assert_eq!(p.n_gpu_layers, 0);
    assert_eq!(p.main_gpu, 0);
    assert!(p.use_mmap);
    assert!(!p.use_mlock);
    let c = ContextParams::default();
    assert_eq!((c.n_ctx, c.n_batch, c.n_threads), (4096, 512, 4));
}

#[test]
fn model_errors_as_text() {
    assert_eq!(
        ModelError::Io("denied".to_string()).to_string(),
        "I/O 错误: denied"
    );
    assert_eq!(
        ModelError::InvalidGguf.to_string(),
        "文件不是有效的 GGUF LoRA 文件"
    );
    assert_eq!(
        ModelError::VersionIncompatible.to_string(),
        "版本不兼容: 要求 3.0+"
    );
    assert_eq!(ModelError::CorruptedFile.to_string(), "文件损坏或格式错误");
}

#[test]
fn numbers_print_in_decimal() {
    for n in [0u64, 7, 10, 42, 100, 999, 1000, 65535, u64::MAX] {
        assert_eq!(print_decimal(n), n.to_string());
    }
}
