use microflow::ffi::{FfiError, LoadParams};
use microflow::model::ModelProvider;
use microflow::types::ModelId;
use microflow::vram::{LruCache, Model, VramPool};
use microflow::workflow::nodes::LoRASwitchNode;
use microflow::workflow::ExecutionContext;
use std::cell::RefCell;
use std::sync::Arc;

fn create_test_model(id: &str, name: &str) -> (ModelId, Arc<Model>) {
    let model_id = ModelId(id.to_string());
    let model = Arc::new(Model {
        id: model_id.clone(),
        name: name.to_string(),
        size: 1024 * 1024,
        version: "1.0.0".to_string(),
    });
    (model_id, model)
}

#[test]
fn test_vram_pool_empty() {
    let mut pool = VramPool::new(2);

    assert_eq!(pool.capacity(), 2);
    assert_eq!(pool.usage(), 0);
    assert_eq!(pool.get_slot_status(), vec![None, None]);

    let model_id = ModelId("non-existent".to_string());
    assert!(pool.get(&model_id).is_none());
}

#[test]
fn test_vram_pool_basic_insert() {
    let mut pool = VramPool::new(2);

    let (model_id1, model1) = create_test_model("model1", "Model 1");
    assert!(pool.insert(model_id1.clone(), model1).is_ok());

    assert_eq!(pool.usage(), 1);
    let slot_status = pool.get_slot_status();
    assert!(slot_status.contains(&Some(model_id1.clone())));

    assert!(pool.get(&model_id1).is_some());
}

#[test]
fn test_vram_pool_full() {
    let mut pool = VramPool::new(2);

    let (model_id1, model1) = create_test_model("model1", "Model 1");
    assert!(pool.insert(model_id1.clone(), model1).is_ok());

    let (model_id2, model2) = create_test_model("model2", "Model 2");
    assert!(pool.insert(model_id2.clone(), model2).is_ok());

    assert_eq!(pool.usage(), 2);
    let slot_status = pool.get_slot_status();
    assert!(slot_status.contains(&Some(model_id1.clone())));
    assert!(slot_status.contains(&Some(model_id2.clone())));

    assert!(pool.get(&model_id1).is_some());
    assert!(pool.get(&model_id2).is_some());
}

#[test]
fn test_vram_pool_lru_eviction() {
    let mut pool = VramPool::new(2);

    let (model_id1, model1) = create_test_model("model1", "Model 1");
    assert!(pool.insert(model_id1.clone(), model1).is_ok());

    let (model_id2, model2) = create_test_model("model2", "Model 2");
    assert!(pool.insert(model_id2.clone(), model2).is_ok());

    assert!(pool.get(&model_id1).is_some());

    let (model_id3, model3) = create_test_model("model3", "Model 3");
    assert!(pool.insert(model_id3.clone(), model3).is_ok());

    assert_eq!(pool.usage(), 2);
    let slot_status = pool.get_slot_status();
    assert!(slot_status.contains(&Some(model_id1.clone())));
    assert!(slot_status.contains(&Some(model_id3.clone())));
    assert!(!slot_status.contains(&Some(model_id2.clone())));

    assert!(pool.get(&model_id1).is_some());
    assert!(pool.get(&model_id3).is_some());
    assert!(pool.get(&model_id2).is_none());
}

#[test]
fn test_vram_pool_duplicate_insert() {
    let mut pool = VramPool::new(2);

    let (model_id1, model1) = create_test_model("model1", "Model 1");
    assert!(pool.insert(model_id1.clone(), model1).is_ok());

    let (model_id2, model2) = create_test_model("model2", "Model 2");
    assert!(pool.insert(model_id2.clone(), model2).is_ok());

    let (_, model1_new) = create_test_model("model1", "Model 1 Updated");
    assert!(pool.insert(model_id1.clone(), model1_new).is_ok());

    assert_eq!(pool.usage(), 2);
    let slot_status = pool.get_slot_status();
    assert!(slot_status.contains(&Some(model_id1.clone())));
    assert!(slot_status.contains(&Some(model_id2.clone())));

    assert!(pool.get(&model_id1).is_some());
    assert!(pool.get(&model_id2).is_some());
}

#[test]
fn test_vram_pool_evict() {
    let mut pool = VramPool::new(2);

    let (model_id1, model1) = create_test_model("model1", "Model 1");
    assert!(pool.insert(model_id1.clone(), model1).is_ok());

    let (model_id2, model2) = create_test_model("model2", "Model 2");
    assert!(pool.insert(model_id2.clone(), model2).is_ok());

    let evicted_id = pool.evict();
    assert!(evicted_id.is_some());

    assert_eq!(pool.usage(), 1);
    let slot_status = pool.get_slot_status();
    assert_eq!(slot_status.iter().filter(|id| id.is_some()).count(), 1);
}

#[test]
fn test_vram_pool_slot_management() {
    let mut pool = VramPool::new(2);

    let (model_id1, model1) = create_test_model("model1", "Model 1");
    assert!(pool.insert(model_id1.clone(), model1).is_ok());

    let slot_status = pool.get_slot_status();
    assert!(slot_status.contains(&Some(model_id1.clone())));

    let (model_id2, model2) = create_test_model("model2", "Model 2");
    assert!(pool.insert(model_id2.clone(), model2).is_ok());

    let slot_status = pool.get_slot_status();
    assert!(slot_status.contains(&Some(model_id1.clone())));
    assert!(slot_status.contains(&Some(model_id2.clone())));

    let (model_id3, model3) = create_test_model("model3", "Model 3");
    assert!(pool.insert(model_id3.clone(), model3).is_ok());

    let slot_status = pool.get_slot_status();
    assert!(!slot_status.contains(&Some(model_id1.clone())));
    assert!(slot_status.contains(&Some(model_id2.clone())));
    assert!(slot_status.contains(&Some(model_id3.clone())));
}

/// A backend that answers from a script and writes down what it was asked.
struct ScriptedBackend {
    sizes: Vec<(String, usize)>,
    fail_apply: bool,
    fail_remove: bool,
    calls: RefCell<Vec<String>>,
    loaded: RefCell<Vec<(String, String)>>,
}

impl ScriptedBackend {
    fn new() -> Self {
        ScriptedBackend {
            sizes: Vec::new(),
            fail_apply: false,
            fail_remove: false,
            calls: RefCell::new(Vec::new()),
            loaded: RefCell::new(Vec::new()),
        }
    }

    fn with_file(mut self, path: &str, size: usize) -> Self {
        self.sizes.push((path.to_string(), size));
        self
    }

    fn calls(&self) -> Vec<String> {
        self.calls.borrow().clone()
    }
}

impl ModelProvider for ScriptedBackend {
    fn load(&self, path: &str, _params: LoadParams) -> Result<Model, FfiError> {
        self.calls.borrow_mut().push(format!("load {}", path));
        for (known, size) in &self.sizes {
            if known == path {
                return Ok(Model {
                    id: ModelId(path.to_string()),
                    name: path.to_string(),
                    size: *size,
                    version: "1".to_string(),
                });
            }
        }
        Err(FfiError::ModelNotFound(path.to_string()))
    }

    fn apply_lora(&self, model: &Arc<Model>, lora_path: &str) -> Result<(), FfiError> {
        self.calls
            .borrow_mut()
            .push(format!("apply {} {}", model.name, lora_path));
        if self.fail_apply {
            Err(FfiError::Internal("backend refused".to_string()))
        } else {
            let mut loaded = self.loaded.borrow_mut();
            loaded.retain(|(name, _)| name != &model.name);
            loaded.push((model.name.clone(), lora_path.to_string()));
            Ok(())
        }
    }

    fn remove_lora(&self, model: &Arc<Model>) -> Result<(), FfiError> {
        self.calls
            .borrow_mut()
            .push(format!("remove {}", model.name));
        if self.fail_remove {
            Err(FfiError::Internal("cannot unload".to_string()))
        } else {
            self.loaded
                .borrow_mut()
                .retain(|(name, _)| name != &model.name);
            Ok(())
        }
    }

    fn current_lora(&self, model: &Arc<Model>) -> Option<String> {
        self.loaded
            .borrow()
            .iter()
            .find(|(name, _)| name == &model.name)
            .map(|(_, path)| path.clone())
    }
}

fn id(s: &str) -> ModelId {
    ModelId(s.to_string())
}

const GGUF: [u8; 8] = [0x47, 0x47, 0x55, 0x46, 3, 0, 0, 0];

#[test]
fn least_recently_used_model_leaves_on_load() {
    let backend = ScriptedBackend::new()
        .with_file("m1.gguf", 10)
        .with_file("m2.gguf", 20)
        .with_file("m3.gguf", 30);
    let mut pool = VramPool::new(2);
    let params = LoadParams::default();
    assert!(pool.get_or_load(&backend, id("m1"), "m1.gguf", params).is_ok());
    assert!(pool.get_or_load(&backend, id("m2"), "m2.gguf", params).is_ok());
    assert_eq!(pool.get_slot_status(), vec![Some(id("m1")), Some(id("m2"))]);

    assert!(pool.get(&id("m1")).is_some());

    let m3 = pool.get_or_load(&backend, id("m3"), "m3.gguf", params).unwrap();
    assert_eq!(m3.size, 30);
    assert_eq!(pool.get_slot_status(), vec![Some(id("m1")), Some(id("m3"))]);
    assert_eq!(pool.usage(), 2);
    assert!(pool.get(&id("m2")).is_none());
    assert_eq!(
        backend.calls(),
        vec!["load m1.gguf", "load m2.gguf", "load m3.gguf"]
    );
}

#[test]
fn resident_model_is_not_loaded_again() {
    let backend = ScriptedBackend::new().with_file("m1.gguf", 10);
    let mut pool = VramPool::new(1);
    let params = LoadParams::default();
    let first = pool.get_or_load(&backend, id("m1"), "m1.gguf", params).unwrap();
    let second = pool.get_or_load(&backend, id("m1"), "elsewhere", params).unwrap();
    assert!(Arc::ptr_eq(&first, &second));
    assert_eq!(backend.calls(), vec!["load m1.gguf"]);
}

#[test]
fn failed_load_hands_on_the_error_after_making_room() {
    let backend = ScriptedBackend::new().with_file("m1.gguf", 10);
    let mut pool = VramPool::new(1);
    let params = LoadParams::default();
    assert!(pool.get_or_load(&backend, id("m1"), "m1.gguf", params).is_ok());
    let r = pool.get_or_load(&backend, id("m2"), "missing.gguf", params);
    assert_eq!(
        r.err(),
        Some(FfiError::ModelNotFound("missing.gguf".to_string()))
    );
    assert_eq!(pool.usage(), 0);
    assert_eq!(pool.get_slot_status(), vec![None]);
}

#[test]
fn evicted_model_with_adapter_is_unloaded_first() {
    let backend = ScriptedBackend::new()
        .with_file("m1.gguf", 10)
        .with_file("m2.gguf", 20);
    let mut pool = VramPool::new(1);
    let params = LoadParams::default();
    assert!(pool.get_or_load(&backend, id("m1"), "m1.gguf", params).is_ok());
    assert!(pool
        .apply_adapter(&backend, &id("m1"), "a.gguf", &GGUF, Some("gguf"), 5)
        .is_ok());
    assert!(pool.get_or_load(&backend, id("m2"), "m2.gguf", params).is_ok());
    assert_eq!(
        backend.calls(),
        vec![
            "load m1.gguf",
            "apply m1.gguf a.gguf",
            "remove m1.gguf",
            "load m2.gguf"
        ]
    );
    assert_eq!(pool.get_slot_status(), vec![Some(id("m2"))]);
}

#[test]
fn adapter_beyond_budget_is_refused() {
    let backend = ScriptedBackend::new().with_file("base.gguf", 700);
    let mut pool = VramPool::with_budget(2, 1000);
    let params = LoadParams::default();
    assert!(pool
        .get_or_load(&backend, id("base"), "base.gguf", params)
        .is_ok());
    assert_eq!(pool.available_bytes(), 300);

    // 417 bytes on disk are estimated at 500 in memory.
    let r = pool.apply_adapter(&backend, &id("base"), "big.gguf", &GGUF, Some("gguf"), 417);
    assert_eq!(
        r,
        Err(FfiError::OutOfMemory {
            requested: 500,
            available: 300
        })
    );
    assert_eq!(pool.available_bytes(), 300);
    assert_eq!(backend.calls(), vec!["load base.gguf"]);

    // An adapter that fits is applied and counted.
    assert!(pool
        .apply_adapter(&backend, &id("base"), "small.gguf", &GGUF, Some("gguf"), 100)
        .is_ok());
    assert_eq!(pool.available_bytes(), 180);

    // The refusal leaves the adapter that is applied in place.
    let r = pool.apply_adapter(&backend, &id("base"), "big.gguf", &GGUF, Some("gguf"), 417);
    assert_eq!(
        r,
        Err(FfiError::OutOfMemory {
            requested: 500,
            available: 180
        })
    );
    assert_eq!(pool.available_bytes(), 180);
}

#[test]
fn failed_switch_leaves_no_adapter() {
    let mut backend = ScriptedBackend::new().with_file("base.gguf", 700);
    let mut pool = VramPool::with_budget(1, 1000);
    let params = LoadParams::default();
    assert!(pool
        .get_or_load(&backend, id("base"), "base.gguf", params)
        .is_ok());
    assert!(pool
        .apply_adapter(&backend, &id("base"), "old.gguf", &GGUF, Some("gguf"), 100)
        .is_ok());
    assert_eq!(pool.available_bytes(), 180);

    backend.fail_apply = true;
    let r = pool.switch_adapter(&backend, &id("base"), "new.gguf", &GGUF, Some("gguf"), 50);
    assert_eq!(
        r,
        Err(FfiError::Internal(
            "adapter apply failed, rolled back".to_string()
        ))
    );
    // Neither the old adapter nor the new one is counted any more.
    assert_eq!(pool.available_bytes(), 300);
    // Nothing is left to take off.
    backend.calls.borrow_mut().clear();
    assert_eq!(pool.remove_adapter(&backend, &id("base")), Ok(()));
    assert!(backend.calls().is_empty());
}

#[test]
fn failed_removal_keeps_the_record() {
    let mut backend = ScriptedBackend::new().with_file("base.gguf", 700);
    let mut pool = VramPool::with_budget(1, 1000);
    let params = LoadParams::default();
    assert!(pool
        .get_or_load(&backend, id("base"), "base.gguf", params)
        .is_ok());
    assert!(pool
        .apply_adapter(&backend, &id("base"), "old.gguf", &GGUF, Some("gguf"), 100)
        .is_ok());
    backend.fail_remove = true;
    assert_eq!(
        pool.remove_adapter(&backend, &id("base")),
        Err(FfiError::Internal("cannot unload".to_string()))
    );
    assert_eq!(pool.available_bytes(), 180);
    backend.fail_remove = false;
    assert_eq!(pool.remove_adapter(&backend, &id("base")), Ok(()));
    assert_eq!(pool.available_bytes(), 300);
}

#[test]
fn adapter_operations_need_a_resident_model() {
    let backend = ScriptedBackend::new();
    let mut pool = VramPool::new(1);
    let missing = FfiError::ModelNotFound("ghost".to_string());
    assert_eq!(
        pool.apply_adapter(&backend, &id("ghost"), "a.gguf", &GGUF, None, 1),
        Err(missing.clone())
    );
    assert_eq!(
        pool.remove_adapter(&backend, &id("ghost")),
        Err(missing.clone())
    );
    assert_eq!(
        pool.switch_adapter(&backend, &id("ghost"), "a.gguf", &GGUF, None, 1),
        Err(missing)
    );
    assert!(backend.calls().is_empty());
}

#[test]
fn adapter_header_is_checked_before_the_backend_is_asked() {
    let backend = ScriptedBackend::new().with_file("base.gguf", 1);
    let mut pool = VramPool::new(1);
    assert!(pool
        .get_or_load(&backend, id("base"), "base.gguf", LoadParams::default())
        .is_ok());
    let junk = [0u8; 8];
    assert_eq!(
        pool.apply_adapter(&backend, &id("base"), "a.txt", &junk, Some("txt"), 1),
        Err(FfiError::InvalidGguf("不支持格式".to_string()))
    );
    assert_eq!(
        pool.apply_adapter(&backend, &id("base"), "a.gguf", &GGUF[..4], Some("gguf"), 1),
        Err(FfiError::InvalidGguf("文件损坏".to_string()))
    );
    assert!(pool
        .apply_adapter(&backend, &id("base"), "a.bin", &junk, Some("bin"), 1)
        .is_ok());
    assert_eq!(backend.calls(), vec!["load base.gguf", "apply base.gguf a.bin"]);
}

#[test]
fn finish_functions_settle_by_the_outcome() {
    let mut pool = VramPool::with_budget(2, 100);
    let base = pool
        .finish_load(
            id("base"),
            Ok(Model {
                id: id("base"),
                name: "base".to_string(),
                size: 40,
                version: "1".to_string(),
            }),
        )
        .unwrap();
    assert_eq!(base.size, 40);
    assert_eq!(
        pool.finish_load(id("x"), Err(FfiError::Internal("io".to_string())))
            .err(),
        Some(FfiError::Internal("io".to_string()))
    );
    assert_eq!(pool.usage(), 1);
    let took = std::time::Duration::from_millis(5);
    assert_eq!(pool.finish_apply(&id("base"), "a", 10, Ok(()), took), Ok(()));
    assert_eq!(pool.available_bytes(), 50);
    assert_eq!(
        pool.finish_remove(&id("base"), Err(FfiError::BackendInit)),
        Err(FfiError::BackendInit)
    );
    assert_eq!(pool.available_bytes(), 50);
    assert_eq!(pool.finish_remove(&id("base"), Ok(())), Ok(()));
    assert_eq!(pool.available_bytes(), 60);
    assert_eq!(
        pool.finish_apply(&id("base"), "b", 10, Err(FfiError::BackendInit), took),
        Err(FfiError::Internal(
            "adapter apply failed, rolled back".to_string()
        ))
    );
    assert_eq!(pool.available_bytes(), 60);
}

#[test]
fn budget_counts_every_resident_model() {
    let mut pool = VramPool::with_budget(3, 100);
    let (a, model_a) = create_test_model("a", "A");
    assert!(pool.insert(a, model_a).is_ok());
    // One model of a megabyte is already beyond a budget of 100 bytes.
    assert_eq!(pool.available_bytes(), 0);
    let unlimited = VramPool::new(3);
    assert_eq!(unlimited.available_bytes(), usize::MAX);
}

#[test]
fn cache_evicts_in_order_of_use() {
    let mut cache: LruCache<ModelId, u32> = LruCache::new(2);
    assert!(cache.is_empty());
    assert_eq!(cache.insert(id("a"), 1), None);
    assert_eq!(cache.insert(id("b"), 2), None);
    assert_eq!(cache.len(), 2);
    assert_eq!(cache.get(&id("a")), Some(&1));
    assert_eq!(cache.insert(id("c"), 3), None);
    assert!(cache.contains_key(&id("a")));
    assert!(!cache.contains_key(&id("b")));
    assert!(cache.contains_key(&id("c")));
    // Storing under a key that is held replaces the value and gives nothing back.
    assert_eq!(cache.insert(id("a"), 10), None);
    assert_eq!(cache.peek(&id("a")), Some(&10));
    assert_eq!(cache.evict_oldest(), Some(id("c")));
    assert_eq!(cache.evict_oldest(), Some(id("a")));
    assert_eq!(cache.evict_oldest(), None);
    assert_eq!(cache.get(&id("a")), None);
}

#[test]
fn cache_of_no_capacity_holds_one_item() {
    let mut cache: LruCache<ModelId, u32> = LruCache::new(0);
    assert_eq!(cache.insert(id("a"), 1), None);
    assert_eq!(cache.len(), 1);
    assert_eq!(cache.insert(id("b"), 2), None);
    assert_eq!(cache.len(), 1);
    assert!(cache.contains_key(&id("b")));
    assert_eq!(cache.peek_oldest(), Some((&id("b"), &2)));
}

#[test]
fn evicted_slot_is_reused_first() {
    let mut pool = VramPool::new(3);
    for name in ["a", "b", "c"] {
        let (model_id, model) = create_test_model(name, name);
        assert!(pool.insert(model_id, model).is_ok());
    }
    assert_eq!(pool.evict(), Some(id("a")));
    assert_eq!(
        pool.get_slot_status(),
        vec![None, Some(id("b")), Some(id("c"))]
    );
    let (d, model_d) = create_test_model("d", "d");
    assert!(pool.insert(d, model_d).is_ok());
    assert_eq!(
        pool.get_slot_status(),
        vec![Some(id("d")), Some(id("b")), Some(id("c"))]
    );
    assert_eq!(pool.evict(), Some(id("b")));
    assert_eq!(pool.evict(), Some(id("c")));
    assert_eq!(pool.evict(), Some(id("d")));
    assert_eq!(pool.evict(), None);
}

#[test]
fn adapter_state_is_kept_with_the_time_it_took() {
    let backend = ScriptedBackend::new().with_file("base.gguf", 1);
    let mut pool = VramPool::new(1);
    assert!(pool.lora_state(&id("base")).is_none());
    assert!(pool
        .get_or_load(&backend, id("base"), "base.gguf", LoadParams::default())
        .is_ok());
    assert!(pool.lora_state(&id("base")).is_none());
    assert!(pool
        .apply_adapter(&backend, &id("base"), "a.gguf", &GGUF, None, 10)
        .is_ok());
    let state = pool.lora_state(&id("base")).unwrap();
    assert_eq!(state.active_lora, Some("a.gguf".to_string()));
    assert!(state.apply_time < std::time::Duration::from_secs(60));
    assert_eq!(pool.remove_adapter(&backend, &id("base")), Ok(()));
    assert!(pool.lora_state(&id("base")).is_none());
}

#[test]
fn errors_as_text() {
    assert_eq!(
        FfiError::ModelNotFound("/m.gguf".to_string()).to_string(),
        "模型文件不存在: /m.gguf"
    );
    assert_eq!(
        FfiError::InvalidGguf("x".to_string()).to_string(),
        "GGUF格式无效: x"
    );
    assert_eq!(
        FfiError::GpuInitFailed {
            reason: "no device".to_string(),
            raw_code: Some(-1)
        }
        .to_string(),
        "GPU初始化失败: no device"
    );
    assert_eq!(
        FfiError::OutOfMemory {
            requested: 500,
            available: 300
        }
        .to_string(),
        "内存不足: 请求500MB，可用300MB"
    );
    assert_eq!(
        FfiError::OutOfMemory {
            requested: 0,
            available: 18446744073709551615u64 as usize
        }
        .to_string(),
        format!("内存不足: 请求0MB，可用{}MB", 18446744073709551615u64 as usize)
    );
    assert_eq!(
        FfiError::Internal("i".to_string()).to_string(),
        "FFI内部错误: i"
    );
    assert_eq!(
        FfiError::InvalidParameter("p".to_string()).to_string(),
        "无效参数: p"
    );
    assert_eq!(FfiError::BackendInit.to_string(), "后端初始化失败");
    assert_eq!(FfiError::BackendInit.clone(), FfiError::BackendInit);
}

#[test]
fn switch_refused_after_a_failed_removal_leaves_no_adapter() {
    let mut backend = ScriptedBackend::new().with_file("base.gguf", 700);
    let mut pool = VramPool::with_budget(1, 1000);
    assert!(pool
        .get_or_load(&backend, id("base"), "base.gguf", LoadParams::default())
        .is_ok());
    assert!(pool
        .apply_adapter(&backend, &id("base"), "old.gguf", &GGUF, Some("gguf"), 100)
        .is_ok());
    assert_eq!(pool.available_bytes(), 180);

    // The backend cannot take the old adapter off, and the new file is
    // refused for its header before the backend is asked to apply it.
    backend.fail_remove = true;
    backend.calls.borrow_mut().clear();
    let junk = [0u8; 8];
    let r = pool.switch_adapter(&backend, &id("base"), "new.txt", &junk, Some("txt"), 50);
    assert_eq!(r, Err(FfiError::InvalidGguf("不支持格式".to_string())));
    assert_eq!(backend.calls(), vec!["remove base.gguf"]);
    assert!(pool.lora_state(&id("base")).is_none());
    assert_eq!(pool.available_bytes(), 300);
    assert!(pool.get(&id("base")).is_some());

    // The same where the new adapter is beyond the budget: what is free is
    // counted without the old adapter.
    backend.fail_remove = false;
    assert!(pool
        .apply_adapter(&backend, &id("base"), "old.gguf", &GGUF, Some("gguf"), 100)
        .is_ok());
    backend.fail_remove = true;
    let r = pool.switch_adapter(&backend, &id("base"), "big.gguf", &GGUF, Some("gguf"), 417);
    assert_eq!(
        r,
        Err(FfiError::OutOfMemory {
            requested: 500,
            available: 300
        })
    );
    assert!(pool.lora_state(&id("base")).is_none());
}

#[test]
fn switch_asks_the_backend_for_this_model_and_this_file() {
    let backend = ScriptedBackend::new().with_file("base.gguf", 1);
    let mut pool = VramPool::new(1);
    assert!(pool
        .get_or_load(&backend, id("base"), "base.gguf", LoadParams::default())
        .is_ok());
    assert_eq!(
        pool.switch_adapter(&backend, &id("base"), "a.gguf", &GGUF, None, 10),
        Ok(())
    );
    assert_eq!(
        pool.switch_adapter(&backend, &id("base"), "b.gguf", &GGUF, None, 10),
        Ok(())
    );
    assert_eq!(
        backend.calls(),
        vec![
            "load base.gguf",
            "apply base.gguf a.gguf",
            "remove base.gguf",
            "apply base.gguf b.gguf"
        ]
    );
    let handle = pool.get(&id("base")).unwrap();
    assert_eq!(backend.current_lora(&handle), Some("b.gguf".to_string()));
    assert_eq!(
        pool.lora_state(&id("base")).unwrap().active_lora,
        Some("b.gguf".to_string())
    );
}

#[test]
fn refused_adapter_leaves_the_recorded_time() {
    let backend = ScriptedBackend::new().with_file("base.gguf", 700);
    let mut pool = VramPool::with_budget(1, 1000);
    assert!(pool
        .get_or_load(&backend, id("base"), "base.gguf", LoadParams::default())
        .is_ok());
    let took = std::time::Duration::from_millis(1234);
    assert_eq!(
        pool.finish_apply(&id("base"), "old.gguf", 100, Ok(()), took),
        Ok(())
    );
    let before = pool.lora_state(&id("base")).unwrap();
    assert_eq!(before.active_lora, Some("old.gguf".to_string()));
    assert_eq!(before.apply_time, took);

    let r = pool.apply_adapter(&backend, &id("base"), "big.gguf", &GGUF, Some("gguf"), 417);
    assert_eq!(
        r,
        Err(FfiError::OutOfMemory {
            requested: 500,
            available: 200
        })
    );
    let after = pool.lora_state(&id("base")).unwrap();
    assert_eq!(after.active_lora, before.active_lora);
    assert_eq!(after.apply_time, before.apply_time);
    assert_eq!(backend.calls(), vec!["load base.gguf"]);
}

#[test]
fn switch_node_says_true_or_leaves_no_adapter() {
    let mut backend = ScriptedBackend::new().with_file("base.gguf", 700);
    let mut ctx = ExecutionContext::new();
    ctx.vram_pool = VramPool::with_budget(2, 1000);
    assert!(ctx
        .vram_pool
        .get_or_load(&backend, id("base"), "base.gguf", LoadParams::default())
        .is_ok());

    let node = LoRASwitchNode::new("base", "a.gguf");
    assert_eq!(
        node.execute(&mut ctx, &backend, &GGUF, Some("gguf"), 100),
        Ok(true)
    );
    assert_eq!(
        ctx.vram_pool.lora_state(&id("base")).unwrap().active_lora,
        Some("a.gguf".to_string())
    );

    // The header of the new file is refused.
    let other = LoRASwitchNode::new("base", "b.txt");
    assert_eq!(
        other.execute(&mut ctx, &backend, &[0u8; 8], Some("txt"), 100),
        Err(FfiError::InvalidGguf("不支持格式".to_string()))
    );
    assert!(ctx.vram_pool.lora_state(&id("base")).is_none());
    assert!(ctx.vram_pool.get(&id("base")).is_some());

    // The new file is beyond the budget.
    assert_eq!(
        node.execute(&mut ctx, &backend, &GGUF, Some("gguf"), 100),
        Ok(true)
    );
    assert_eq!(
        node.execute(&mut ctx, &backend, &GGUF, Some("gguf"), 417),
        Err(FfiError::OutOfMemory {
            requested: 500,
            available: 300
        })
    );
    assert!(ctx.vram_pool.lora_state(&id("base")).is_none());

    // The backend fails to apply the new file.
    assert_eq!(
        node.execute(&mut ctx, &backend, &GGUF, Some("gguf"), 100),
        Ok(true)
    );
    backend.fail_apply = true;
    assert_eq!(
        node.execute(&mut ctx, &backend, &GGUF, Some("gguf"), 100),
        Err(FfiError::Internal(
            "adapter apply failed, rolled back".to_string()
        ))
    );
    assert!(ctx.vram_pool.lora_state(&id("base")).is_none());
    assert!(ctx.vram_pool.get(&id("base")).is_some());

    // A model that is not resident has nothing to switch.
    let stray = LoRASwitchNode::new("ghost", "a.gguf");
    assert_eq!(
        stray.execute(&mut ctx, &backend, &GGUF, Some("gguf"), 1),
        Err(FfiError::ModelNotFound("ghost".to_string()))
    );
}
