use std::sync::Arc;
use std::time::Duration;
use vstd::prelude::*;
use vstd::string::StringExecFns;

use crate::ffi::error::{FfiError, FfiErrorView};
use crate::ffi::lora::{
    estimate_lora_vram, extension_view, lora_header_fault, validate_lora_header, LoRAState,
};
use crate::ffi::types::LoadParams;
use crate::model::ModelProvider;
use crate::model::lora_loader::estimated_vram;
use crate::types::time::{clock_elapsed, clock_start};
use crate::types::{Error, ModelId};
use crate::vram::lru::{lemma_oldest_is_first_minimum, oldest_of, LruCache, LruView};

verus! {

/// A loaded model.
pub struct Model {
    pub id: ModelId,
    pub name: String,
    /// The size of the model in bytes.
    pub size: usize,
    pub version: String,
}

/// One place for a resident model.
pub struct Slot {
    pub model_id: Option<ModelId>,
    pub model: Option<Arc<Model>>,
    /// The tick of the pool's clock at which the slot was last used.
    pub last_access: u64,
    /// The adapter that the model carries, by the path it was loaded from.
    pub active_lora: Option<String>,
    /// The memory that the adapter is expected to take, in bytes.
    pub lora_size: usize,
    /// How long applying the adapter took.
    pub lora_apply_time: Option<Duration>,
}

/// What the pool's cache holds for a resident model: the shared handle, and
/// the slot the model lives in.
pub struct Resident {
    pub model: Arc<Model>,
    pub slot: usize,
}

/// Mathematical model of a [`Slot`].
pub struct SlotView {
    pub model_id: Option<Seq<char>>,
    pub model: Option<Arc<Model>>,
    pub last_access: u64,
    pub active_lora: Option<Seq<char>>,
    pub lora_size: usize,
    pub lora_apply_time: Option<Duration>,
}

impl View for Slot {
    type V = SlotView;

    open spec fn view(&self) -> SlotView {
        SlotView {
            model_id: match self.model_id {
                Some(id) => Some(id@),
                None => None,
            },
            model: self.model,
            last_access: self.last_access,
            active_lora: match self.active_lora {
                Some(path) => Some(path@),
                None => None,
            },
            lora_size: self.lora_size,
            lora_apply_time: self.lora_apply_time,
        }
    }
}

impl SlotView {
    /// A slot that holds nothing, last used at `tick`.
    pub open spec fn vacant(tick: u64) -> SlotView {
        SlotView {
            model_id: None,
            model: None,
            last_access: tick,
            active_lora: None,
            lora_size: 0,
            lora_apply_time: None,
        }
    }

    /// A slot that holds `model` under `key` with no adapter, last used at
    /// `tick`.
    pub open spec fn holding(key: Seq<char>, model: Arc<Model>, tick: u64) -> SlotView {
        SlotView {
            model_id: Some(key),
            model: Some(model),
            last_access: tick,
            active_lora: None,
            lora_size: 0,
            lora_apply_time: None,
        }
    }

    /// Whether the record of the adapter hangs together: a slot without an
    /// adapter counts no bytes and holds no time for one, and a slot with an
    /// adapter holds the time that applying it took.
    pub open spec fn consistent(self) -> bool {
        &&& self.active_lora is None ==> self.lora_size == 0 && self.lora_apply_time is None
        &&& self.active_lora is Some ==> self.lora_apply_time is Some
    }

    /// The bytes that the slot's model and its adapter take.
    pub open spec fn bytes(self) -> nat {
        match self.model {
            Some(m) => (m.size + self.lora_size) as nat,
            None => 0,
        }
    }

    /// This slot, last used at `tick`.
    pub open spec fn used_at(self, tick: u64) -> SlotView {
        SlotView { last_access: tick, ..self }
    }

    /// This slot with the adapter `lora` of `size` bytes, or with none.
    pub open spec fn with_lora(
        self,
        lora: Option<Seq<char>>,
        size: usize,
        apply_time: Option<Duration>,
    ) -> SlotView {
        SlotView { active_lora: lora, lora_size: size, lora_apply_time: apply_time, ..self }
    }
}

/// The number of slots among the first `n` that hold a model.
pub open spec fn occupied_upto(slots: Seq<SlotView>, n: int) -> nat
    decreases n,
{
    if n <= 0 {
        0
    } else {
        occupied_upto(slots, n - 1) + if slots[n - 1].model_id is Some {
            1nat
        } else {
            0nat
        }
    }
}

/// The bytes that the first `n` slots take, models and adapters together.
pub open spec fn bytes_upto(slots: Seq<SlotView>, n: int) -> nat
    decreases n,
{
    if n <= 0 {
        0
    } else {
        bytes_upto(slots, n - 1) + slots[n - 1].bytes()
    }
}

/// Mathematical model of a [`VramPool`]: its slots, and the cache that
/// orders the resident models by use.
pub struct PoolView {
    pub capacity: usize,
    /// The bytes that models and adapters together may take. It is checked
    /// when an adapter is applied.
    pub byte_budget: usize,
    pub slots: Seq<SlotView>,
    pub cache: LruView<Seq<char>, Resident>,
}

impl PoolView {
    /// Whether a model is resident under `key`.
    pub open spec fn resident(self, key: Seq<char>) -> bool {
        self.cache.contains(key)
    }

    /// The slot of the model that is resident under `key`.
    pub open spec fn slot_of(self, key: Seq<char>) -> int {
        self.cache.entries[self.cache.index_of(key)].value.slot as int
    }

    /// The handle of the model that is resident under `key`.
    pub open spec fn model_of(self, key: Seq<char>) -> Arc<Model> {
        self.cache.entries[self.cache.index_of(key)].value.model
    }

    /// Whether slot `i` is the first that holds nothing.
    pub open spec fn is_first_empty(self, i: int) -> bool {
        &&& 0 <= i < self.slots.len()
        &&& self.slots[i].model_id is None
        &&& forall|j: int| 0 <= j < i ==> (#[trigger] self.slots[j]).model_id is Some
    }

    /// The first slot that holds nothing.
    pub open spec fn first_empty(self) -> int {
        choose|i: int| self.is_first_empty(i)
    }

    /// The pool has as many slots as its capacity says. Its cache is well
    /// formed and holds exactly the models that sit in the slots, each with
    /// the slot it sits in; slot and cache agree on the handle and on the
    /// tick of the last use. A slot without a model has no adapter, and the
    /// record of every slot's adapter hangs together.
    pub open spec fn wf(self) -> bool {
        &&& self.slots.len() == self.capacity
        &&& self.cache.capacity == self.capacity
        &&& self.cache.wf()
        &&& self.cache.entries.len() == occupied_upto(self.slots, self.slots.len() as int)
        &&& forall|i: int|
            0 <= i < self.cache.entries.len() ==> {
                let e = #[trigger] self.cache.entries[i];
                &&& e.value.slot < self.slots.len()
                &&& self.slots[e.value.slot as int].model_id == Some(e.key)
                &&& self.slots[e.value.slot as int].model == Some(e.value.model)
                &&& self.slots[e.value.slot as int].last_access == e.tick
            }
        &&& forall|s: int|
            0 <= s < self.slots.len() ==> match (#[trigger] self.slots[s]).model_id {
                Some(key) => self.cache.contains(key) && self.slot_of(key) == s
                    && self.slots[s].model is Some,
                None => self.slots[s].model is None && self.slots[s].active_lora is None,
            }
        &&& forall|s: int| 0 <= s < self.slots.len() ==> (#[trigger] self.slots[s]).consistent()
    }

    /// The pool after the model under `key` was used.
    pub open spec fn touched(self, key: Seq<char>) -> PoolView {
        PoolView {
            slots: self.slots.update(
                self.slot_of(key),
                self.slots[self.slot_of(key)].used_at(self.cache.clock),
            ),
            cache: self.cache.touched(self.cache.index_of(key)),
            ..self
        }
    }

    /// The pool without its least recently used model: the model leaves the
    /// cache, and its slot is left holding nothing.
    pub open spec fn evicted(self) -> PoolView {
        if self.cache.entries.len() == 0 {
            self
        } else {
            PoolView {
                slots: self.slots.update(
                    self.cache.entries[oldest_of(self.cache.entries)].value.slot as int,
                    SlotView::vacant(self.cache.clock),
                ),
                cache: self.cache.without_oldest(),
                ..self
            }
        }
    }

    /// The pool after `model` took the place of the handle that was
    /// resident under `key`. The model counts as used, and the record of an
    /// adapter is dropped with the old handle.
    pub open spec fn replaced(self, key: Seq<char>, model: Arc<Model>) -> PoolView {
        PoolView {
            slots: self.slots.update(
                self.slot_of(key),
                SlotView::holding(key, model, self.cache.clock),
            ),
            cache: self.cache.put(key, Resident { model, slot: self.slot_of(key) as usize }),
            ..self
        }
    }

    /// The pool after `model` moved into the first empty slot under the new
    /// name `key`.
    pub open spec fn admitted(self, key: Seq<char>, model: Arc<Model>) -> PoolView {
        PoolView {
            slots: self.slots.update(
                self.first_empty(),
                SlotView::holding(key, model, self.cache.clock),
            ),
            cache: self.cache.put(key, Resident { model, slot: self.first_empty() as usize }),
            ..self
        }
    }

    /// The pool after `model` was inserted under `key`: a resident model is
    /// replaced; a new one is admitted, after the least recently used model
    /// has left a pool that was full.
    pub open spec fn inserted(self, key: Seq<char>, model: Arc<Model>) -> PoolView {
        if self.resident(key) {
            self.replaced(key, model)
        } else if self.cache.entries.len() >= self.capacity {
            self.evicted().admitted(key, model)
        } else {
            self.admitted(key, model)
        }
    }

    /// The bytes that the resident models and their adapters take.
    pub open spec fn used_bytes(self) -> nat {
        bytes_upto(self.slots, self.slots.len() as int)
    }

    /// The bytes that are left of the budget.
    pub open spec fn available(self) -> nat {
        if self.byte_budget >= self.used_bytes() {
            (self.byte_budget - self.used_bytes()) as nat
        } else {
            0
        }
    }
}

/// Changing one slot changes the count of occupied slots by what the slot
/// gained or lost.
pub proof fn lemma_occupied_update(slots: Seq<SlotView>, i: int, slot: SlotView, n: int)
    requires
        0 <= i < slots.len(),
        0 <= n <= slots.len(),
    ensures
        occupied_upto(slots.update(i, slot), n) == if i < n {
            occupied_upto(slots, n) - (if slots[i].model_id is Some {
                1int
            } else {
                0int
            }) + (if slot.model_id is Some {
                1int
            } else {
                0int
            })
        } else {
            occupied_upto(slots, n) as int
        },
        i < n && slots[i].model_id is Some ==> occupied_upto(slots, n) >= 1,
    decreases n,
{
    if n > 0 {
        lemma_occupied_update(slots, i, slot, n - 1);
    }
}

/// Where fewer slots are occupied than there are, one holds nothing, and
/// one of those is the first.
pub proof fn lemma_empty_slot_exists(slots: Seq<SlotView>, n: int) -> (i: int)
    requires
        0 <= n <= slots.len(),
        occupied_upto(slots, n) < n,
    ensures
        0 <= i < n,
        slots[i].model_id is None,
        forall|j: int| 0 <= j < i ==> (#[trigger] slots[j]).model_id is Some,
    decreases n,
{
    lemma_occupied_bound(slots, n - 1);
    if occupied_upto(slots, n - 1) < n - 1 {
        lemma_empty_slot_exists(slots, n - 1)
    } else {
        lemma_all_occupied(slots, n - 1);
        n - 1
    }
}

/// No more slots are occupied than there are.
pub proof fn lemma_occupied_bound(slots: Seq<SlotView>, n: int)
    requires
        0 <= n <= slots.len(),
    ensures
        occupied_upto(slots, n) <= n,
    decreases n,
{
    if n > 0 {
        lemma_occupied_bound(slots, n - 1);
    }
}

/// Where as many slots are occupied as there are, each is.
pub proof fn lemma_all_occupied(slots: Seq<SlotView>, n: int)
    requires
        0 <= n <= slots.len(),
        occupied_upto(slots, n) == n,
    ensures
        forall|j: int| 0 <= j < n ==> (#[trigger] slots[j]).model_id is Some,
    decreases n,
{
    if n > 0 {
        lemma_occupied_bound(slots, n - 1);
        lemma_all_occupied(slots, n - 1);
    }
}

/// Changing the adapter of one slot changes the bytes in use by the
/// difference of the two slots.
pub proof fn lemma_bytes_update(slots: Seq<SlotView>, i: int, slot: SlotView, n: int)
    requires
        0 <= i < slots.len(),
        0 <= n <= slots.len(),
    ensures
        bytes_upto(slots.update(i, slot), n) == if i < n {
            bytes_upto(slots, n) - slots[i].bytes() + slot.bytes()
        } else {
            bytes_upto(slots, n) as int
        },
        i < n ==> bytes_upto(slots, n) >= slots[i].bytes(),
    decreases n,
{
    if n > 0 {
        lemma_bytes_update(slots, i, slot, n - 1);
    }
}

impl PoolView {
    /// In a well-formed pool the model cached at position `i` is resident
    /// under its key, and that key leads back to position `i` and its slot.
    pub proof fn lemma_entry(self, i: int)
        requires
            self.wf(),
            0 <= i < self.cache.entries.len(),
        ensures
            self.resident(self.cache.entries[i].key),
            self.cache.index_of(self.cache.entries[i].key) == i,
            self.slot_of(self.cache.entries[i].key) == self.cache.entries[i].value.slot,
            self.model_of(self.cache.entries[i].key) == self.cache.entries[i].value.model,
            0 <= self.slot_of(self.cache.entries[i].key) < self.slots.len(),
    {
        let key = self.cache.entries[i].key;
        assert(self.cache.holds_at(i, key));
        self.cache.lemma_index_of(i, key);
    }

    /// A resident model has a place in the cache and a slot that holds it.
    pub proof fn lemma_resident(self, key: Seq<char>)
        requires
            self.wf(),
            self.resident(key),
        ensures
            self.cache.holds_at(self.cache.index_of(key), key),
            0 <= self.slot_of(key) < self.slots.len(),
            self.slots[self.slot_of(key)].model_id == Some(key),
            self.slots[self.slot_of(key)].model == Some(self.model_of(key)),
    {
        let i = self.cache.index_of(key);
        assert(self.cache.holds_at(i, key));
        self.lemma_entry(i);
    }

    /// Using a resident model keeps the pool well formed.
    pub proof fn lemma_touched_wf(self, key: Seq<char>)
        requires
            self.wf(),
            self.resident(key),
        ensures
            self.touched(key).wf(),
            self.touched(key).cache.entries.len() == self.cache.entries.len(),
            forall|k: Seq<char>| self.touched(key).resident(k) <==> self.resident(k),
    {
        self.lemma_resident(key);
        let idx = self.cache.index_of(key);
        let s0 = self.slot_of(key);
        let after = self.touched(key);
        assert forall|k: Seq<char>| after.resident(k) <==> self.resident(k) by {
            if self.resident(k) {
                let j = self.cache.index_of(k);
                assert(self.cache.holds_at(j, k));
                assert(after.cache.holds_at(j, k));
            }
            if after.resident(k) {
                let j = after.cache.index_of(k);
                assert(after.cache.holds_at(j, k));
                assert(self.cache.holds_at(j, k));
            }
        }
        lemma_occupied_update(
            self.slots,
            s0,
            self.slots[s0].used_at(self.cache.clock),
            self.slots.len() as int,
        );
        assert forall|i: int, j: int| 0 <= i < j < after.cache.entries.len() implies (
        #[trigger] after.cache.entries[i]).key != (#[trigger] after.cache.entries[j]).key by {
            assert(self.cache.entries[i].key != self.cache.entries[j].key);
        }
        assert forall|i: int| 0 <= i < after.cache.entries.len() implies (
        #[trigger] after.cache.entries[i]).tick < after.cache.clock || after.cache.clock
            == u64::MAX by {
            assert(self.cache.entries[i].tick < self.cache.clock || self.cache.clock == u64::MAX);
        }
        assert(after.cache.wf());
        assert forall|i: int| 0 <= i < after.cache.entries.len() implies {
            let e = #[trigger] after.cache.entries[i];
            &&& e.value.slot < after.slots.len()
            &&& after.slots[e.value.slot as int].model_id == Some(e.key)
            &&& after.slots[e.value.slot as int].model == Some(e.value.model)
            &&& after.slots[e.value.slot as int].last_access == e.tick
        } by {
            let e = self.cache.entries[i];
            self.lemma_entry(i);
            if i != idx {
                assert(e.key != self.cache.entries[idx].key);
            }
        }
        assert forall|s: int| 0 <= s < after.slots.len() implies match (
        #[trigger] after.slots[s]).model_id {
            Some(k) => after.cache.contains(k) && after.slot_of(k) == s && after.slots[s].model
                is Some,
            None => after.slots[s].model is None && after.slots[s].active_lora is None,
        } by {
            match self.slots[s].model_id {
                Some(k) => {
                    let j = self.cache.index_of(k);
                    assert(self.cache.holds_at(j, k));
                    assert(after.cache.holds_at(j, k));
                    after.cache.lemma_index_of(j, k);
                },
                None => {},
            }
        }
        assert forall|s: int| 0 <= s < after.slots.len() implies (
        #[trigger] after.slots[s]).consistent() by {
            assert(self.slots[s].consistent());
        }
    }

    /// Dropping the least recently used model keeps the pool well formed
    /// and leaves one model fewer resident.
    pub proof fn lemma_evicted_wf(self)
        requires
            self.wf(),
        ensures
            self.evicted().wf(),
            self.cache.entries.len() > 0 ==> self.evicted().cache.entries.len()
                == self.cache.entries.len() - 1,
            self.cache.entries.len() > 0 ==> !self.evicted().resident(
                self.cache.entries[oldest_of(self.cache.entries)].key,
            ),
            forall|k: Seq<char>|
                self.cache.entries.len() > 0 && k != self.cache.entries[oldest_of(
                    self.cache.entries,
                )].key ==> (self.evicted().resident(k) <==> self.resident(k)),
    {
        if self.cache.entries.len() > 0 {
            lemma_oldest_is_first_minimum(self.cache.entries);
            let o = oldest_of(self.cache.entries);
            let victim = self.cache.entries[o];
            let vs = victim.value.slot as int;
            let after = self.evicted();
            self.lemma_entry(o);
            lemma_occupied_update(
                self.slots,
                vs,
                SlotView::vacant(self.cache.clock),
                self.slots.len() as int,
            );
            assert forall|i: int, j: int| 0 <= i < j < after.cache.entries.len() implies (
            #[trigger] after.cache.entries[i]).key != (#[trigger] after.cache.entries[j]).key by {
                let a = if i < o { i } else { i + 1 };
                let b = if j < o { j } else { j + 1 };
                assert(self.cache.entries[a].key != self.cache.entries[b].key);
            }
            assert forall|i: int| 0 <= i < after.cache.entries.len() implies (
            #[trigger] after.cache.entries[i]).tick < after.cache.clock || after.cache.clock
                == u64::MAX by {
                let a = if i < o { i } else { i + 1 };
                assert(self.cache.entries[a].tick < self.cache.clock || self.cache.clock
                    == u64::MAX);
            }
            assert(after.cache.wf());
            assert forall|i: int| 0 <= i < after.cache.entries.len() implies {
                let e = #[trigger] after.cache.entries[i];
                &&& e.value.slot < after.slots.len()
                &&& after.slots[e.value.slot as int].model_id == Some(e.key)
                &&& after.slots[e.value.slot as int].model == Some(e.value.model)
                &&& after.slots[e.value.slot as int].last_access == e.tick
            } by {
                let a = if i < o { i } else { i + 1 };
                self.lemma_entry(a);
                if a < o {
                    assert(self.cache.entries[a].key != self.cache.entries[o].key);
                } else {
                    assert(self.cache.entries[o].key != self.cache.entries[a].key);
                }
            }
            assert forall|s: int| 0 <= s < after.slots.len() implies match (
            #[trigger] after.slots[s]).model_id {
                Some(k) => after.cache.contains(k) && after.slot_of(k) == s
                    && after.slots[s].model is Some,
                None => after.slots[s].model is None && after.slots[s].active_lora is None,
            } by {
                if s != vs {
                    match self.slots[s].model_id {
                        Some(k) => {
                            let j = self.cache.index_of(k);
                            assert(self.cache.holds_at(j, k));
                            let jj = if j < o { j } else { j - 1 };
                            assert(after.cache.holds_at(jj, k));
                            after.cache.lemma_index_of(jj, k);
                        },
                        None => {},
                    }
                }
            }
            assert forall|s: int| 0 <= s < after.slots.len() implies (
        #[trigger] after.slots[s]).consistent() by {
            assert(self.slots[s].consistent());
        }
            assert(!after.resident(victim.key)) by {
                if after.resident(victim.key) {
                    let j = after.cache.index_of(victim.key);
                    assert(after.cache.holds_at(j, victim.key));
                    let a = if j < o { j } else { j + 1 };
                    if a < o {
                        assert(self.cache.entries[a].key != self.cache.entries[o].key);
                    } else {
                        assert(self.cache.entries[o].key != self.cache.entries[a].key);
                    }
                }
            }
            assert forall|k: Seq<char>| k != victim.key implies (after.resident(k)
                <==> self.resident(k)) by {
                if self.resident(k) {
                    let j = self.cache.index_of(k);
                    assert(self.cache.holds_at(j, k));
                    let jj = if j < o { j } else { j - 1 };
                    assert(after.cache.holds_at(jj, k));
                }
                if after.resident(k) {
                    let j = after.cache.index_of(k);
                    assert(after.cache.holds_at(j, k));
                    let a = if j < o { j } else { j + 1 };
                    assert(self.cache.holds_at(a, k));
                }
            }
        }
    }

    /// A pool with a free slot stays well formed when a new model moves in,
    /// and the model is resident afterwards.
    pub proof fn lemma_admitted_wf(self, key: Seq<char>, model: Arc<Model>)
        requires
            self.wf(),
            !self.resident(key),
            self.cache.entries.len() < self.capacity,
        ensures
            self.is_first_empty(self.first_empty()),
            self.admitted(key, model).wf(),
            self.admitted(key, model).cache.entries.len() == self.cache.entries.len() + 1,
            self.admitted(key, model).resident(key),
            self.admitted(key, model).model_of(key) == model,
            forall|k: Seq<char>| self.resident(k) ==> self.admitted(key, model).resident(k),
    {
        let n = self.slots.len() as int;
        let witness = lemma_empty_slot_exists(self.slots, n);
        assert(self.is_first_empty(witness));
        let f = self.first_empty();
        let after = self.admitted(key, model);
        let len = self.cache.entries.len() as int;
        lemma_occupied_update(
            self.slots,
            f,
            SlotView::holding(key, model, self.cache.clock),
            n,
        );
        assert(after.cache.entries.len() == len + 1);
        assert forall|i: int, j: int| 0 <= i < j < after.cache.entries.len() implies (
        #[trigger] after.cache.entries[i]).key != (#[trigger] after.cache.entries[j]).key by {
            if j == len {
                assert(!self.cache.holds_at(i, key));
            } else {
                assert(self.cache.entries[i].key != self.cache.entries[j].key);
            }
        }
        assert forall|i: int| 0 <= i < after.cache.entries.len() implies (
        #[trigger] after.cache.entries[i]).tick < after.cache.clock || after.cache.clock
            == u64::MAX by {
            if i < len {
                assert(self.cache.entries[i].tick < self.cache.clock || self.cache.clock
                    == u64::MAX);
            }
        }
        assert(after.cache.wf());
        assert(after.cache.holds_at(len, key));
        after.cache.lemma_index_of(len, key);
        assert forall|i: int| 0 <= i < after.cache.entries.len() implies {
            let e = #[trigger] after.cache.entries[i];
            &&& e.value.slot < after.slots.len()
            &&& after.slots[e.value.slot as int].model_id == Some(e.key)
            &&& after.slots[e.value.slot as int].model == Some(e.value.model)
            &&& after.slots[e.value.slot as int].last_access == e.tick
        } by {
            if i < len {
                self.lemma_entry(i);
            }
        }
        assert forall|s: int| 0 <= s < after.slots.len() implies match (
        #[trigger] after.slots[s]).model_id {
            Some(k) => after.cache.contains(k) && after.slot_of(k) == s && after.slots[s].model
                is Some,
            None => after.slots[s].model is None && after.slots[s].active_lora is None,
        } by {
            if s != f {
                match self.slots[s].model_id {
                    Some(k) => {
                        let j = self.cache.index_of(k);
                        assert(self.cache.holds_at(j, k));
                        assert(after.cache.holds_at(j, k));
                        after.cache.lemma_index_of(j, k);
                    },
                    None => {},
                }
            }
        }
        assert forall|s: int| 0 <= s < after.slots.len() implies (
        #[trigger] after.slots[s]).consistent() by {
            assert(self.slots[s].consistent());
        }
        assert forall|k: Seq<char>| self.resident(k) implies after.resident(k) by {
            let j = self.cache.index_of(k);
            assert(self.cache.holds_at(j, k));
            assert(after.cache.holds_at(j, k));
        }
    }

    /// Replacing the handle of a resident model keeps the pool well formed.
    pub proof fn lemma_replaced_wf(self, key: Seq<char>, model: Arc<Model>)
        requires
            self.wf(),
            self.resident(key),
        ensures
            self.replaced(key, model).wf(),
            self.replaced(key, model).cache.entries.len() == self.cache.entries.len(),
            self.replaced(key, model).resident(key),
            self.replaced(key, model).model_of(key) == model,
    {
        self.lemma_resident(key);
        let idx = self.cache.index_of(key);
        let s0 = self.slot_of(key);
        let after = self.replaced(key, model);
        lemma_occupied_update(
            self.slots,
            s0,
            SlotView::holding(key, model, self.cache.clock),
            self.slots.len() as int,
        );
        assert forall|i: int, j: int| 0 <= i < j < after.cache.entries.len() implies (
        #[trigger] after.cache.entries[i]).key != (#[trigger] after.cache.entries[j]).key by {
            assert(self.cache.entries[i].key != self.cache.entries[j].key);
        }
        assert forall|i: int| 0 <= i < after.cache.entries.len() implies (
        #[trigger] after.cache.entries[i]).tick < after.cache.clock || after.cache.clock
            == u64::MAX by {
            assert(self.cache.entries[i].tick < self.cache.clock || self.cache.clock == u64::MAX);
        }
        assert(after.cache.wf());
        assert(after.cache.holds_at(idx, key));
        after.cache.lemma_index_of(idx, key);
        assert forall|i: int| 0 <= i < after.cache.entries.len() implies {
            let e = #[trigger] after.cache.entries[i];
            &&& e.value.slot < after.slots.len()
            &&& after.slots[e.value.slot as int].model_id == Some(e.key)
            &&& after.slots[e.value.slot as int].model == Some(e.value.model)
            &&& after.slots[e.value.slot as int].last_access == e.tick
        } by {
            self.lemma_entry(i);
            if i != idx {
                assert(self.cache.entries[i].key != self.cache.entries[idx].key);
            }
        }
        assert forall|s: int| 0 <= s < after.slots.len() implies match (
        #[trigger] after.slots[s]).model_id {
            Some(k) => after.cache.contains(k) && after.slot_of(k) == s && after.slots[s].model
                is Some,
            None => after.slots[s].model is None && after.slots[s].active_lora is None,
        } by {
            match self.slots[s].model_id {
                Some(k) => {
                    let j = self.cache.index_of(k);
                    assert(self.cache.holds_at(j, k));
                    assert(after.cache.holds_at(j, k));
                    after.cache.lemma_index_of(j, k);
                },
                None => {},
            }
        }
        assert forall|s: int| 0 <= s < after.slots.len() implies (
        #[trigger] after.slots[s]).consistent() by {
            assert(self.slots[s].consistent());
        }
    }

    /// Inserting a model keeps a pool with at least one slot well formed
    /// and within its capacity, and makes the model resident.
    pub proof fn lemma_inserted_wf(self, key: Seq<char>, model: Arc<Model>)
        requires
            self.wf(),
            self.capacity > 0,
        ensures
            self.inserted(key, model).wf(),
            self.inserted(key, model).cache.entries.len() <= self.capacity,
            self.inserted(key, model).resident(key),
            self.inserted(key, model).model_of(key) == model,
    {
        lemma_occupied_bound(self.slots, self.slots.len() as int);
        if self.resident(key) {
            self.lemma_replaced_wf(key, model);
        } else if self.cache.entries.len() >= self.capacity {
            self.lemma_evicted_wf();
            let base = self.evicted();
            assert(!base.resident(key)) by {
                let victim = self.cache.entries[oldest_of(self.cache.entries)].key;
                if key != victim {
                    assert(base.resident(key) <==> self.resident(key));
                }
            }
            base.lemma_admitted_wf(key, model);
        } else {
            self.lemma_admitted_wf(key, model);
        }
    }
}

/// Whether the backend has answered a request to take the adapter off
/// `model`.
pub open spec fn removal_answered<P: ModelProvider>(provider: &P, model: Arc<Model>) -> bool {
    exists|outcome: Result<(), FfiError>|
        call_ensures(P::remove_lora, (provider, &model), outcome)
}

/// Whether `outcome` and `apply_time` explain what applying the adapter
/// file at `lora_path`, of `size` estimated bytes, has made of the pool
/// `before` and what the caller was told. The backend was asked to apply
/// this file to the model under `key` and has answered with `outcome`,
/// which took `apply_time`; the pool and what the caller is told follow
/// from that as [`PoolView::applied`] and [`PoolView::apply_result`] say;
/// and after a failure the backend was asked to take the adapter off
/// again.
pub open spec fn apply_explained<P: ModelProvider>(
    provider: &P,
    before: PoolView,
    after: PoolView,
    told: Result<(), FfiErrorView>,
    key: Seq<char>,
    lora_path: &str,
    size: usize,
    outcome: Result<(), FfiError>,
    apply_time: Duration,
) -> bool {
    &&& call_ensures(P::apply_lora, (provider, &before.model_of(key), lora_path), outcome)
    &&& told == PoolView::apply_result(outcome is Ok)
    &&& after == before.applied(key, lora_path@, size, apply_time, outcome is Ok)
    &&& outcome is Err ==> removal_answered(provider, before.model_of(key))
}

/// Whether `removed`, `applied` and `apply_time` explain what a switch to
/// the adapter file at `new_path` has made of the pool `before`, in which
/// a model is resident under `key`, and what the caller was told.
///
/// Where the model carried an adapter, the backend was asked to take it off
/// this model and has answered with `removed`; the slot records no adapter
/// from then on, whatever the answer. Where the new file was not refused,
/// the backend was asked to apply it to this model and has answered with
/// `applied`, which took `apply_time`, and after a failure it was asked to
/// take the adapter off again. The pool and what the caller is told follow
/// from that as [`PoolView::switched`] says.
pub open spec fn switch_explained<P: ModelProvider>(
    provider: &P,
    before: PoolView,
    after: PoolView,
    told: Result<(), FfiErrorView>,
    key: Seq<char>,
    new_path: &str,
    header: Seq<u8>,
    extension: Option<Seq<char>>,
    file_size: usize,
    removed: Result<(), FfiError>,
    applied: Result<(), FfiError>,
    apply_time: Duration,
) -> bool {
    &&& before.lora_of(key) is Some ==> call_ensures(
        P::remove_lora,
        (provider, &before.model_of(key)),
        removed,
    )
    &&& before.unloaded(key).apply_fault(key, header, extension, file_size) is None ==> {
        &&& call_ensures(P::apply_lora, (provider, &before.model_of(key), new_path), applied)
        &&& applied is Err ==> removal_answered(provider, before.model_of(key))
    }
    &&& (after, told) == before.switched(
        key,
        new_path@,
        header,
        extension,
        file_size,
        apply_time,
        applied is Ok,
    )
}

/// An optional text as contracts speak of it.
pub open spec fn text_view(text: Option<String>) -> Option<Seq<char>> {
    match text {
        Some(t) => Some(t@),
        None => None,
    }
}

/// The outcome of an adapter operation as contracts speak of it.
pub open spec fn outcome_view(r: Result<(), FfiError>) -> Result<(), FfiErrorView> {
    match r {
        Ok(()) => Ok(()),
        Err(e) => Err(e@),
    }
}

impl PoolView {
    /// The adapter that the model under `key` carries.
    pub open spec fn lora_of(self, key: Seq<char>) -> Option<Seq<char>> {
        self.slots[self.slot_of(key)].active_lora
    }

    /// The time that applying the adapter of the model under `key` took.
    pub open spec fn lora_time_of(self, key: Seq<char>) -> Option<Duration> {
        self.slots[self.slot_of(key)].lora_apply_time
    }

    /// The pool after the slot of the model under `key` has recorded the
    /// adapter `lora` of `size` bytes and the time that applying it took,
    /// or none.
    pub open spec fn with_lora(
        self,
        key: Seq<char>,
        lora: Option<Seq<char>>,
        size: usize,
        apply_time: Option<Duration>,
    ) -> PoolView {
        PoolView {
            slots: self.slots.update(
                self.slot_of(key),
                self.slots[self.slot_of(key)].with_lora(lora, size, apply_time),
            ),
            ..self
        }
    }

    /// The pool after the slot of the model under `key` has been left
    /// without a record of an adapter.
    pub open spec fn cleared(self, key: Seq<char>) -> PoolView {
        self.with_lora(key, None, 0, None)
    }

    /// Why an adapter cannot be applied, as far as the pool can tell
    /// without the backend. The model has to be resident; the file's header
    /// has to pass; and the adapter's estimated size has to fit into the
    /// bytes that are left of the budget.
    pub open spec fn apply_fault(
        self,
        key: Seq<char>,
        header: Seq<u8>,
        extension: Option<Seq<char>>,
        file_size: usize,
    ) -> Option<FfiErrorView> {
        if !self.resident(key) {
            Some(FfiErrorView::ModelNotFound(key))
        } else if lora_header_fault(header, extension) is Some {
            lora_header_fault(header, extension)
        } else if estimated_vram(file_size) > self.available() {
            Some(
                FfiErrorView::OutOfMemory {
                    requested: estimated_vram(file_size),
                    available: self.available() as usize,
                },
            )
        } else {
            None
        }
    }

    /// The pool after the backend was asked to apply the adapter at `path`
    /// to the model under `key`, which took `apply_time`. Where the backend
    /// succeeded the slot records the adapter, its size and the time; where
    /// it failed the slot records none, whatever it recorded before.
    pub open spec fn applied(
        self,
        key: Seq<char>,
        path: Seq<char>,
        size: usize,
        apply_time: Duration,
        ok: bool,
    ) -> PoolView {
        if ok {
            self.with_lora(key, Some(path), size, Some(apply_time))
        } else {
            self.cleared(key)
        }
    }

    /// What applying an adapter returns once the backend has answered.
    pub open spec fn apply_result(ok: bool) -> Result<(), FfiErrorView> {
        if ok {
            Ok(())
        } else {
            Err(FfiErrorView::Internal("adapter apply failed, rolled back"@))
        }
    }

    /// The pool after the backend was asked to take the adapter off the
    /// model under `key`: the record is cleared where the backend succeeded.
    pub open spec fn removed(self, key: Seq<char>, ok: bool) -> PoolView {
        if ok {
            self.cleared(key)
        } else {
            self
        }
    }

    /// The pool once a switch of adapters has done with the old adapter of
    /// the model under `key`: the slot records none, whether or not the
    /// backend managed to take it off.
    pub open spec fn unloaded(self, key: Seq<char>) -> PoolView {
        if self.lora_of(key) is Some {
            self.cleared(key)
        } else {
            self
        }
    }

    /// The pool, and what the caller is told, after a switch to the adapter
    /// at `path` on the model under `key`, which is resident. The old
    /// adapter is off the record first. Then the new file is refused for
    /// the reasons that [`PoolView::apply_fault`] gives, or the backend is
    /// asked to apply it: `applied_ok` says whether it managed to, and
    /// `apply_time` how long it took.
    pub open spec fn switched(
        self,
        key: Seq<char>,
        path: Seq<char>,
        header: Seq<u8>,
        extension: Option<Seq<char>>,
        file_size: usize,
        apply_time: Duration,
        applied_ok: bool,
    ) -> (PoolView, Result<(), FfiErrorView>) {
        match self.unloaded(key).apply_fault(key, header, extension, file_size) {
            Some(fault) => (self.unloaded(key), Err(fault)),
            None => (
                self.unloaded(key).applied(
                    key,
                    path,
                    estimated_vram(file_size),
                    apply_time,
                    applied_ok,
                ),
                PoolView::apply_result(applied_ok),
            ),
        }
    }

    /// Whether the least recently used model carries an adapter.
    pub open spec fn oldest_has_lora(self) -> bool {
        self.cache.entries.len() > 0 && self.slots[self.cache.entries[oldest_of(
            self.cache.entries,
        )].value.slot as int].active_lora is Some
    }

    /// The handle of the least recently used model.
    pub open spec fn oldest_model(self) -> Arc<Model> {
        self.cache.entries[oldest_of(self.cache.entries)].value.model
    }

    /// The pool from which a model can be loaded into a free slot: this
    /// pool, without its least recently used model where it was full.
    pub open spec fn with_room(self) -> PoolView {
        if self.cache.entries.len() >= self.capacity {
            self.evicted()
        } else {
            self
        }
    }

    /// A change to the adapter record of a resident model keeps the pool
    /// well formed and leaves the cache alone.
    pub proof fn lemma_with_lora_wf(
        self,
        key: Seq<char>,
        lora: Option<Seq<char>>,
        size: usize,
        apply_time: Option<Duration>,
    )
        requires
            self.wf(),
            self.resident(key),
            lora is None ==> size == 0,
            lora is Some <==> apply_time is Some,
        ensures
            self.with_lora(key, lora, size, apply_time).wf(),
            self.with_lora(key, lora, size, apply_time).cache == self.cache,
            self.with_lora(key, lora, size, apply_time).capacity == self.capacity,
            self.with_lora(key, lora, size, apply_time).byte_budget == self.byte_budget,
            self.with_lora(key, lora, size, apply_time).lora_of(key) == lora,
            self.with_lora(key, lora, size, apply_time).lora_time_of(key) == apply_time,
            self.with_lora(key, lora, size, apply_time).slot_of(key) == self.slot_of(key),
            self.with_lora(key, lora, size, apply_time).model_of(key) == self.model_of(key),
            forall|k: Seq<char>|
                self.with_lora(key, lora, size, apply_time).resident(k) <==> self.resident(k),
    {
        self.lemma_resident(key);
        let s0 = self.slot_of(key);
        let after = self.with_lora(key, lora, size, apply_time);
        lemma_occupied_update(
            self.slots,
            s0,
            self.slots[s0].with_lora(lora, size, apply_time),
            self.slots.len() as int,
        );
        assert forall|i: int| 0 <= i < after.cache.entries.len() implies {
            let e = #[trigger] after.cache.entries[i];
            &&& e.value.slot < after.slots.len()
            &&& after.slots[e.value.slot as int].model_id == Some(e.key)
            &&& after.slots[e.value.slot as int].model == Some(e.value.model)
            &&& after.slots[e.value.slot as int].last_access == e.tick
        } by {
            self.lemma_entry(i);
        }
        assert forall|s: int| 0 <= s < after.slots.len() implies match (
        #[trigger] after.slots[s]).model_id {
            Some(k) => after.cache.contains(k) && after.slot_of(k) == s && after.slots[s].model
                is Some,
            None => after.slots[s].model is None && after.slots[s].active_lora is None,
        } by {
            assert(self.slots[s].model_id is Some ==> self.cache.contains(
                self.slots[s].model_id->0,
            ));
        }
        assert forall|s: int| 0 <= s < after.slots.len() implies (
        #[trigger] after.slots[s]).consistent() by {
            assert(self.slots[s].consistent());
        }
    }
}

impl PoolView {
    /// A well-formed pool holds no more models than its capacity.
    pub proof fn lemma_within_capacity(self)
        requires
            self.wf(),
        ensures
            self.cache.entries.len() <= self.capacity,
    {
        lemma_occupied_bound(self.slots, self.slots.len() as int);
    }

    /// A pool that has made room holds fewer models than its capacity, as
    /// long as it has a slot at all; and it holds no model that was not
    /// resident before.
    pub proof fn lemma_with_room(self, key: Seq<char>)
        requires
            self.wf(),
            self.capacity > 0,
            !self.resident(key),
        ensures
            self.with_room().wf(),
            self.with_room().cache.entries.len() < self.capacity,
            !self.with_room().resident(key),
    {
        self.lemma_within_capacity();
        if self.cache.entries.len() >= self.capacity {
            self.lemma_evicted_wf();
            let victim = self.cache.entries[oldest_of(self.cache.entries)].key;
            if key != victim {
                assert(self.evicted().resident(key) <==> self.resident(key));
            }
        }
    }

    /// The model that was used last is not the next to leave: in a pool
    /// that holds another model, and whose clock has not run out, the least
    /// recently used model is not the one that was just used.
    pub proof fn lemma_used_model_is_not_oldest(self, used: Seq<char>)
        requires
            self.wf(),
            self.resident(used),
            self.cache.entries.len() >= 2,
            self.cache.clock < u64::MAX,
        ensures
            self.touched(used).evicted().resident(used),
    {
        self.lemma_resident(used);
        self.lemma_touched_wf(used);
        let after = self.touched(used);
        let idx = self.cache.index_of(used);
        lemma_oldest_is_first_minimum(after.cache.entries);
        let o = oldest_of(after.cache.entries);
        let other = if idx == 0 { 1int } else { 0int };
        assert(self.cache.entries[other].tick < self.cache.clock);
        assert(after.cache.entries[other].tick < after.cache.entries[idx].tick);
        assert(after.cache.entries[o].tick <= after.cache.entries[other].tick);
        assert(o != idx);
        assert(after.cache.holds_at(idx, used));
        if idx < o {
            assert(after.cache.entries[idx].key != after.cache.entries[o].key);
        } else {
            assert(after.cache.entries[o].key != after.cache.entries[idx].key);
        }
        after.lemma_evicted_wf();
        assert(after.evicted().resident(used) <==> after.resident(used));
    }

    /// In a pool of two or more slots whose clock has not run out, a model
    /// that was just used is still resident after any one model was
    /// inserted.
    pub proof fn lemma_used_model_survives_insert(
        self,
        used: Seq<char>,
        key: Seq<char>,
        model: Arc<Model>,
    )
        requires
            self.wf(),
            self.capacity >= 2,
            self.resident(used),
            self.cache.clock < u64::MAX,
        ensures
            self.touched(used).inserted(key, model).resident(used),
    {
        self.lemma_resident(used);
        self.lemma_touched_wf(used);
        let after = self.touched(used);
        let idx = self.cache.index_of(used);
        assert(after.cache.holds_at(idx, used));
        if after.resident(key) {
            after.lemma_replaced_wf(key, model);
            after.lemma_resident(key);
            let next = after.replaced(key, model);
            assert(next.cache.holds_at(idx, used));
        } else if after.cache.entries.len() >= after.capacity {
            self.lemma_used_model_is_not_oldest(used);
            after.lemma_with_room(key);
            assert(after.with_room() == after.evicted());
            after.evicted().lemma_admitted_wf(key, model);
            assert(after.evicted().resident(used));
        } else {
            after.lemma_admitted_wf(key, model);
            assert(after.resident(used));
        }
    }

    /// A switch of adapters that fails leaves the model without an adapter,
    /// whatever it carried before and whatever made the switch fail: the
    /// file's header, the budget, or the backend. A switch that succeeds
    /// leaves the model with the new adapter.
    pub proof fn lemma_failed_switch_leaves_no_adapter(
        self,
        key: Seq<char>,
        path: Seq<char>,
        header: Seq<u8>,
        extension: Option<Seq<char>>,
        file_size: usize,
        apply_time: Duration,
        applied_ok: bool,
    )
        requires
            self.wf(),
            self.resident(key),
        ensures
            ({
                let (after, told) = self.switched(
                    key,
                    path,
                    header,
                    extension,
                    file_size,
                    apply_time,
                    applied_ok,
                );
                &&& after.wf()
                &&& after.resident(key)
                &&& told is Err ==> after.lora_of(key) is None
                &&& told is Ok ==> after.lora_of(key) == Some(path)
            }),
    {
        self.lemma_resident(key);
        if self.lora_of(key) is Some {
            self.lemma_with_lora_wf(key, None, 0, None);
        }
        let mid = self.unloaded(key);
        assert(mid.lora_of(key) is None);
        mid.lemma_with_lora_wf(key, None, 0, None);
        mid.lemma_with_lora_wf(key, Some(path), estimated_vram(file_size), Some(apply_time));
    }

    /// Recording an adapter changes the bytes in use by the difference
    /// between the new adapter and the one that was recorded before.
    pub proof fn lemma_lora_bytes(
        self,
        key: Seq<char>,
        lora: Option<Seq<char>>,
        size: usize,
        apply_time: Option<Duration>,
    )
        requires
            self.wf(),
            self.resident(key),
        ensures
            self.with_lora(key, lora, size, apply_time).used_bytes() == self.used_bytes()
                - self.slots[self.slot_of(key)].lora_size + size,
            self.used_bytes() >= self.slots[self.slot_of(key)].lora_size,
    {
        self.lemma_resident(key);
        let s0 = self.slot_of(key);
        lemma_bytes_update(
            self.slots,
            s0,
            self.slots[s0].with_lora(lora, size, apply_time),
            self.slots.len() as int,
        );
    }

    /// A pool that is within its budget stays within it when an adapter is
    /// applied: the adapter is refused unless it fits into what is left.
    pub proof fn lemma_applied_within_budget(
        self,
        key: Seq<char>,
        path: Seq<char>,
        header: Seq<u8>,
        extension: Option<Seq<char>>,
        file_size: usize,
        apply_time: Duration,
        ok: bool,
    )
        requires
            self.wf(),
            self.used_bytes() <= self.byte_budget,
            self.apply_fault(key, header, extension, file_size) is None,
        ensures
            self.applied(key, path, estimated_vram(file_size), apply_time, ok).used_bytes()
                <= self.byte_budget,
    {
        self.lemma_lora_bytes(key, Some(path), estimated_vram(file_size), Some(apply_time));
        self.lemma_lora_bytes(key, None, 0, None);
    }

    /// An adapter whose estimated size is beyond the bytes that are left is
    /// refused with both numbers, provided the model is resident and the
    /// file's header passes.
    pub proof fn lemma_out_of_memory(
        self,
        key: Seq<char>,
        header: Seq<u8>,
        extension: Option<Seq<char>>,
        file_size: usize,
    )
        requires
            self.resident(key),
            lora_header_fault(header, extension) is None,
            estimated_vram(file_size) > self.available(),
        ensures
            self.apply_fault(key, header, extension, file_size) == Some(
                FfiErrorView::OutOfMemory {
                    requested: estimated_vram(file_size),
                    available: self.available() as usize,
                },
            ),
    {
    }
}

/// The handle of a model as one more holder gets it: `Arc::clone` of the
/// standard library, which hands out a pointer to the same allocation.
#[verifier::external_body]
fn share(model: &Arc<Model>) -> (r: Arc<Model>)
    ensures
        r == *model,
{
    Arc::clone(model)
}

/// A pool of resident models. It holds at most `capacity` of them; a new
/// model pushes out the one that was not used for the longest time.
pub struct VramPool {
    capacity: usize,
    byte_budget: usize,
    slots: Vec<Slot>,
    lru: LruCache<ModelId, Resident>,
}

impl View for VramPool {
    type V = PoolView;

    closed spec fn view(&self) -> PoolView {
        PoolView {
            capacity: self.capacity,
            byte_budget: self.byte_budget,
            slots: self.slots@.map_values(|s: Slot| s@),
            cache: self.lru@,
        }
    }
}

impl VramPool {
    /// A pool of `capacity` empty slots, with no limit on bytes.
    pub fn new(capacity: usize) -> (r: Self)
        ensures
            r@.wf(),
            r@.capacity == capacity,
            r@.byte_budget == usize::MAX,
            r@.cache == LruView::<Seq<char>, Resident>::empty(capacity),
            r@.slots == Seq::new(capacity as nat, |i: int| SlotView::vacant(0)),
    {
        Self::with_budget(capacity, usize::MAX)
    }

    /// A pool of `capacity` empty slots whose models and adapters together
    /// are meant to stay within `byte_budget` bytes.
    pub fn with_budget(capacity: usize, byte_budget: usize) -> (r: Self)
        ensures
            r@.wf(),
            r@.capacity == capacity,
            r@.byte_budget == byte_budget,
            r@.cache == LruView::<Seq<char>, Resident>::empty(capacity),
            r@.slots == Seq::new(capacity as nat, |i: int| SlotView::vacant(0)),
    {
        let mut slots: Vec<Slot> = Vec::new();
        let mut i: usize = 0;
        while i < capacity
            invariant
                i <= capacity,
                slots@.len() == i,
                forall|j: int| 0 <= j < i ==> (#[trigger] slots@[j])@ == SlotView::vacant(0),
            decreases capacity - i,
        {
            slots.push(
                Slot {
                    model_id: None,
                    model: None,
                    last_access: 0,
                    active_lora: None,
                    lora_size: 0,
                    lora_apply_time: None,
                },
            );
            i = i + 1;
        }
        let r = Self { capacity, byte_budget, slots, lru: LruCache::new(capacity) };
        proof {
            assert(r@.slots =~= Seq::new(capacity as nat, |i: int| SlotView::vacant(0)));
            Self::lemma_vacant_count(r@.slots, capacity as int);
        }
        r
    }

    proof fn lemma_vacant_count(slots: Seq<SlotView>, n: int)
        requires
            0 <= n <= slots.len(),
            forall|j: int| 0 <= j < n ==> (#[trigger] slots[j]).model_id is None,
        ensures
            occupied_upto(slots, n) == 0,
        decreases n,
    {
        if n > 0 {
            Self::lemma_vacant_count(slots, n - 1);
        }
    }

    /// The handle of the model under `model_id`, which then counts as used;
    /// `None`, and no change, where no such model is resident.
    pub fn get(&mut self, model_id: &ModelId) -> (r: Option<Arc<Model>>)
        requires
            old(self)@.wf(),
        ensures
            final(self)@.wf(),
            old(self)@.resident(model_id@) ==> r == Some(old(self)@.model_of(model_id@))
                && final(self)@ == old(self)@.touched(model_id@),
            !old(self)@.resident(model_id@) ==> r is None && final(self)@ == old(self)@,
    {
        let now = self.lru.clock();
        let hit = match self.lru.get(model_id) {
            Some(resident) => Some((resident.slot, share(&resident.model))),
            None => None,
        };
        match hit {
            Some((at, model)) => {
                proof {
                    old(self)@.lemma_resident(model_id@);
                    old(self)@.lemma_touched_wf(model_id@);
                }
                let slot = &mut self.slots[at];
                slot.last_access = now;
                proof {
                    assert(self@.slots =~= old(self)@.touched(model_id@).slots);
                }
                Some(model)
            },
            None => None,
        }
    }

    /// Drops the least recently used model and gives back its id; `None`
    /// for a pool without models.
    pub fn evict(&mut self) -> (r: Option<ModelId>)
        requires
            old(self)@.wf(),
        ensures
            final(self)@.wf(),
            final(self)@ == old(self)@.evicted(),
            old(self)@.cache.entries.len() == 0 ==> r is None,
            old(self)@.cache.entries.len() > 0 ==> (r matches Some(id) && id@
                == old(self)@.cache.entries[oldest_of(old(self)@.cache.entries)].key),
    {
        let now = self.lru.clock();
        match self.lru.evict_oldest() {
            Some(id) => {
                proof {
                    lemma_oldest_is_first_minimum(old(self)@.cache.entries);
                    old(self)@.lemma_entry(oldest_of(old(self)@.cache.entries));
                    old(self)@.lemma_evicted_wf();
                }
                self.remove_from_slot(&id, now);
                proof {
                    let before = old(self)@;
                    let vs = before.slot_of(id@);
                    assert forall|s: int| 0 <= s < before.slots.len() implies (
                    #[trigger] before.slots[s]).model_id == Some(id@) <==> s == vs by {
                        if before.slots[s].model_id == Some(id@) {
                            assert(before.slot_of(id@) == s);
                        }
                    }
                    assert forall|s: int| 0 <= s < before.slots.len() implies (
                    #[trigger] self@.slots[s]) == before.evicted().slots[s] by {
                        assert(old(self).slots@[s]@ == before.slots[s]);
                        if s == vs {
                            assert forall|t: int| 0 <= t < s implies (
                            #[trigger] old(self).slots@[t])@.model_id != Some(id@) by {
                                assert(old(self).slots@[t]@ == before.slots[t]);
                            }
                        }
                    }
                    assert(self@.slots =~= before.evicted().slots);
                }
                Some(id)
            },
            None => None,
        }
    }

    /// Empties the slot that holds the model under `model_id`, if there is
    /// one; the first such slot, should there be more.
    fn remove_from_slot(&mut self, model_id: &ModelId, now: u64)
        ensures
            final(self).capacity == old(self).capacity,
            final(self).byte_budget == old(self).byte_budget,
            final(self).lru == old(self).lru,
            final(self).slots@.len() == old(self).slots@.len(),
            forall|s: int|
                0 <= s < old(self).slots@.len() ==> (#[trigger] final(self).slots@[s])@ == if (
                old(self).slots@[s]@.model_id == Some(model_id@) && forall|t: int|
                    0 <= t < s ==> (#[trigger] old(self).slots@[t])@.model_id != Some(model_id@)) {
                    SlotView::vacant(now)
                } else {
                    old(self).slots@[s]@
                },
    {
        let mut i: usize = 0;
        while i < self.slots.len()
            invariant
                i <= self.slots.len(),
                *self == *old(self),
                forall|t: int|
                    0 <= t < i ==> (#[trigger] old(self).slots@[t])@.model_id != Some(model_id@),
            decreases self.slots.len() - i,
        {
            let found = match &self.slots[i].model_id {
                Some(id) => id.same(model_id),
                None => false,
            };
            if found {
                let slot = &mut self.slots[i];
                slot.model_id = None;
                slot.model = None;
                slot.last_access = now;
                slot.active_lora = None;
                slot.lora_size = 0;
                slot.lora_apply_time = None;
                return ;
            }
            i = i + 1;
        }
    }

    /// The first slot that holds nothing.
    fn find_empty_slot(&self) -> (r: Option<usize>)
        ensures
            match r {
                Some(i) => self@.is_first_empty(i as int),
                None => forall|j: int|
                    0 <= j < self@.slots.len() ==> (#[trigger] self@.slots[j]).model_id is Some,
            },
    {
        let mut i: usize = 0;
        while i < self.slots.len()
            invariant
                i <= self.slots.len(),
                forall|j: int| 0 <= j < i ==> (#[trigger] self@.slots[j]).model_id is Some,
            decreases self.slots.len() - i,
        {
            if self.slots[i].model_id.is_none() {
                assert(self@.slots[i as int].model_id is None);
                return Some(i);
            }
            i = i + 1;
        }
        None
    }

    /// Makes `model` resident under `model_id`. A model that is resident
    /// under this id gives way to the new handle. Otherwise the model moves
    /// into the first empty slot, after the least recently used model has
    /// left a pool that was full. The pool has to have a slot at all.
    pub fn insert(&mut self, model_id: ModelId, model: Arc<Model>) -> (r: Result<(), Error>)
        requires
            old(self)@.wf(),
            old(self)@.capacity > 0,
        ensures
            final(self)@.wf(),
            final(self)@ == old(self)@.inserted(model_id@, model),
            r is Ok,
    {
        proof {
            old(self)@.lemma_inserted_wf(model_id@, model);
            lemma_occupied_bound(old(self)@.slots, old(self)@.slots.len() as int);
        }
        let now = self.lru.clock();
        let known = match self.lru.peek(&model_id) {
            Some(resident) => Some(resident.slot),
            None => None,
        };
        match known {
            Some(at) => {
                proof {
                    old(self)@.lemma_resident(model_id@);
                }
                let ghost key = model_id@;
                let id_copy = model_id.clone();
                let slot = &mut self.slots[at];
                slot.model_id = Some(id_copy);
                slot.model = Some(share(&model));
                slot.last_access = now;
                slot.active_lora = None;
                slot.lora_size = 0;
                slot.lora_apply_time = None;
                let _ = self.lru.insert(model_id, Resident { model, slot: at });
                proof {
                    assert(self@.slots =~= old(self)@.replaced(key, model).slots);
                }
                Ok(())
            },
            None => {
                if self.lru.len() >= self.capacity {
                    let _ = self.evict();
                }
                let ghost base = self@;
                proof {
                    old(self)@.lemma_evicted_wf();
                    assert(!base.resident(model_id@)) by {
                        if base != old(self)@ {
                            let victim = old(self)@.cache.entries[oldest_of(
                                old(self)@.cache.entries,
                            )].key;
                            if model_id@ != victim {
                                assert(base.resident(model_id@) <==> old(self)@.resident(
                                    model_id@,
                                ));
                            }
                        }
                    }
                    base.lemma_admitted_wf(model_id@, model);
                }
                match self.find_empty_slot() {
                    Some(at) => {
                        let id_copy = model_id.clone();
                        let slot = &mut self.slots[at];
                        slot.model_id = Some(id_copy);
                        slot.model = Some(share(&model));
                        slot.last_access = now;
                        slot.active_lora = None;
                        slot.lora_size = 0;
                        slot.lora_apply_time = None;
                        let ghost key = model_id@;
                        let _ = self.lru.insert(model_id, Resident { model, slot: at });
                        proof {
                            assert(base.is_first_empty(at as int));
                            assert(base.first_empty() == at) by {
                                let f = base.first_empty();
                                assert(base.is_first_empty(f));
                                if f < at {
                                    assert(base.slots[f].model_id is Some);
                                } else if at < f {
                                    assert(base.slots[at as int].model_id is Some);
                                }
                            }
                            assert(self@.slots =~= base.admitted(key, model).slots);
                        }
                        Ok(())
                    },
                    None => {
                        proof {
                            assert(base.slots[base.first_empty()].model_id is Some);
                        }
                        Ok(())
                    },
                }
            },
        }
    }

    /// The bytes that are left of the budget once the resident models and
    /// their adapters are counted.
    pub fn available_bytes(&self) -> (r: usize)
        ensures
            r == self@.available(),
    {
        let mut left: usize = self.byte_budget;
        let mut i: usize = 0;
        while i < self.slots.len()
            invariant
                i <= self.slots.len(),
                left as int == if self.byte_budget >= bytes_upto(self@.slots, i as int) {
                    self.byte_budget - bytes_upto(self@.slots, i as int)
                } else {
                    0
                },
            decreases self.slots.len() - i,
        {
            let slot = &self.slots[i];
            assert(self@.slots[i as int] == slot@);
            match &slot.model {
                Some(m) => {
                    left = if left >= m.size {
                        left - m.size
                    } else {
                        0
                    };
                    left = if left >= slot.lora_size {
                        left - slot.lora_size
                    } else {
                        0
                    };
                },
                None => {},
            }
            i = i + 1;
        }
        left
    }

    /// Settles a request to take the adapter off the model under
    /// `model_id`, once the backend has answered with `outcome`: the record
    /// is cleared where the backend succeeded, and the backend's error is
    /// handed on where it failed.
    pub fn finish_remove(&mut self, model_id: &ModelId, outcome: Result<(), FfiError>) -> (r:
        Result<(), FfiError>)
        requires
            old(self)@.wf(),
            old(self)@.resident(model_id@),
        ensures
            final(self)@.wf(),
            final(self)@ == old(self)@.removed(model_id@, outcome is Ok),
            r == outcome,
    {
        if outcome.is_ok() {
            self.record_lora(model_id, None, 0, None);
        }
        outcome
    }

    /// Settles a request to apply the adapter at `lora_path`, of `size`
    /// estimated bytes, to the model under `model_id`, once the backend has
    /// answered with `outcome`. Success is recorded with `apply_time`, the
    /// time it took; after a failure the slot records no adapter.
    pub fn finish_apply(
        &mut self,
        model_id: &ModelId,
        lora_path: &str,
        size: usize,
        outcome: Result<(), FfiError>,
        apply_time: Duration,
    ) -> (r: Result<(), FfiError>)
        requires
            old(self)@.wf(),
            old(self)@.resident(model_id@),
        ensures
            final(self)@.wf(),
            final(self)@ == old(self)@.applied(
                model_id@,
                lora_path@,
                size,
                apply_time,
                outcome is Ok,
            ),
            outcome_view(r) == PoolView::apply_result(outcome is Ok),
    {
        match outcome {
            Ok(()) => {
                let path = String::from_str(lora_path);
                self.record_lora(model_id, Some(path), size, Some(apply_time));
                Ok(())
            },
            Err(_) => {
                self.record_lora(model_id, None, 0, None);
                Err(FfiError::Internal(String::from_str("adapter apply failed, rolled back")))
            },
        }
    }

    /// Writes the adapter record of the model under `model_id`.
    fn record_lora(
        &mut self,
        model_id: &ModelId,
        lora: Option<String>,
        size: usize,
        apply_time: Option<Duration>,
    )
        requires
            old(self)@.wf(),
            old(self)@.resident(model_id@),
            lora is None ==> size == 0,
            lora is Some <==> apply_time is Some,
        ensures
            final(self)@.wf(),
            final(self)@ == old(self)@.with_lora(model_id@, text_view(lora), size, apply_time),
    {
        let ghost lora_view = text_view(lora);
        proof {
            old(self)@.lemma_resident(model_id@);
            old(self)@.lemma_with_lora_wf(model_id@, lora_view, size, apply_time);
        }
        let at = match self.lru.peek(model_id) {
            Some(resident) => resident.slot,
            None => 0,
        };
        let slot = &mut self.slots[at];
        slot.active_lora = lora;
        slot.lora_size = size;
        slot.lora_apply_time = apply_time;
        proof {
            assert(self@.slots =~= old(self)@.with_lora(
                model_id@,
                lora_view,
                size,
                apply_time,
            ).slots);
        }
    }

    /// The adapter that the model under `model_id` carries, with the time
    /// that applying it took; `None` for a model without an adapter, and
    /// where no such model is resident.
    pub fn lora_state(&self, model_id: &ModelId) -> (r: Option<LoRAState>)
        requires
            self@.wf(),
        ensures
            match r {
                Some(state) => {
                    &&& self@.resident(model_id@)
                    &&& state.active_lora is Some
                    &&& text_view(state.active_lora) == self@.lora_of(model_id@)
                    &&& Some(state.apply_time) == self@.lora_time_of(model_id@)
                },
                None => !self@.resident(model_id@) || self@.lora_of(model_id@) is None,
            },
    {
        match self.lru.peek(model_id) {
            Some(resident) => {
                proof {
                    self@.lemma_resident(model_id@);
                }
                let slot = &self.slots[resident.slot];
                assert(self@.slots[resident.slot as int] == slot@);
                match (&slot.active_lora, slot.lora_apply_time) {
                    (Some(path), Some(apply_time)) => Some(
                        LoRAState { active_lora: Some(path.clone()), apply_time },
                    ),
                    _ => None,
                }
            },
            None => None,
        }
    }

    /// The handle of a resident model and whether it carries an adapter.
    fn lookup(&self, model_id: &ModelId) -> (r: Option<(Arc<Model>, bool)>)
        requires
            self@.wf(),
        ensures
            self@.resident(model_id@) ==> r == Some(
                (self@.model_of(model_id@), self@.lora_of(model_id@) is Some),
            ),
            !self@.resident(model_id@) ==> r is None,
    {
        match self.lru.peek(model_id) {
            Some(resident) => {
                proof {
                    self@.lemma_resident(model_id@);
                }
                let slot = &self.slots[resident.slot];
                assert(self@.slots[resident.slot as int] == slot@);
                Some((share(&resident.model), slot.active_lora.is_some()))
            },
            None => None,
        }
    }

    /// Takes the adapter off the model under `model_id`. Without a resident
    /// model under this id the call fails with `ModelNotFound`; without an
    /// adapter it has nothing to do. Otherwise the backend is asked once,
    /// for this model, and its answer settles the call as
    /// [`VramPool::finish_remove`] says.
    pub fn remove_adapter<P: ModelProvider>(&mut self, provider: &P, model_id: &ModelId) -> (r:
        Result<(), FfiError>)
        requires
            old(self)@.wf(),
        ensures
            final(self)@.wf(),
            !old(self)@.resident(model_id@) ==> final(self)@ == old(self)@ && outcome_view(r)
                == Err::<(), FfiErrorView>(FfiErrorView::ModelNotFound(model_id@)),
            old(self)@.resident(model_id@) && old(self)@.lora_of(model_id@) is None
                ==> final(self)@ == old(self)@ && r is Ok,
            old(self)@.resident(model_id@) && old(self)@.lora_of(model_id@) is Some
                ==> exists|outcome: Result<(), FfiError>|
                {
                    &&& call_ensures(
                        P::remove_lora,
                        (provider, &old(self)@.model_of(model_id@)),
                        outcome,
                    )
                    &&& r == outcome
                    &&& final(self)@ == old(self)@.removed(model_id@, outcome is Ok)
                },
    {
        match self.lookup(model_id) {
            None => Err(FfiError::ModelNotFound(model_id.0.clone())),
            Some((model, has_lora)) => {
                if !has_lora {
                    return Ok(());
                }
                let outcome = provider.remove_lora(&model);
                self.finish_remove(model_id, outcome)
            },
        }
    }

    /// Applies the adapter file at `lora_path` to the model under
    /// `model_id`. `header` is what could be read of the file's first eight
    /// bytes, `extension` the extension of its name and `file_size` its
    /// length.
    ///
    /// The call fails, and changes nothing, for the reasons that
    /// [`PoolView::apply_fault`] gives. Otherwise the backend is asked to
    /// take off an adapter that the model carries, and the call goes on
    /// whatever it answers; then the backend is asked to apply the new one,
    /// and its answer settles the call as [`VramPool::finish_apply`] says.
    /// After a failure the backend is asked to take the adapter off again.
    pub fn apply_adapter<P: ModelProvider>(
        &mut self,
        provider: &P,
        model_id: &ModelId,
        lora_path: &str,
        header: &[u8],
        extension: Option<&str>,
        file_size: usize,
    ) -> (r: Result<(), FfiError>)
        requires
            old(self)@.wf(),
        ensures
            final(self)@.wf(),
            match old(self)@.apply_fault(
                model_id@,
                header@,
                extension_view(extension),
                file_size,
            ) {
                Some(fault) => final(self)@ == old(self)@ && outcome_view(r) == Err::<
                    (),
                    FfiErrorView,
                >(fault),
                None => exists|outcome: Result<(), FfiError>, apply_time: Duration|
                    #[trigger] apply_explained(
                        provider,
                        old(self)@,
                        final(self)@,
                        outcome_view(r),
                        model_id@,
                        lora_path,
                        estimated_vram(file_size),
                        outcome,
                        apply_time,
                    ),
            },
            old(self)@.apply_fault(model_id@, header@, extension_view(extension), file_size)
                is None && old(self)@.lora_of(model_id@) is Some ==> removal_answered(
                provider,
                old(self)@.model_of(model_id@),
            ),
    {
        let (model, has_lora) = match self.lookup(model_id) {
            None => {
                return Err(FfiError::ModelNotFound(model_id.0.clone()));
            },
            Some(found) => found,
        };
        match validate_lora_header(header, extension) {
            Err(e) => {
                return Err(e);
            },
            Ok(()) => {},
        }
        let estimated = estimate_lora_vram(file_size);
        let available = self.available_bytes();
        if estimated > available {
            return Err(FfiError::OutOfMemory { requested: estimated, available });
        }
        if has_lora {
            let _ = provider.remove_lora(&model);
        }
        let started = clock_start();
        let outcome = provider.apply_lora(&model, lora_path);
        if outcome.is_err() {
            let _ = provider.remove_lora(&model);
        }
        let elapsed = clock_elapsed(&started);
        let ghost answer = outcome;
        let r = self.finish_apply(model_id, lora_path, estimated, outcome, elapsed);
        proof {
            assert(apply_explained(
                provider,
                old(self)@,
                self@,
                outcome_view(r),
                model_id@,
                lora_path,
                estimated_vram(file_size),
                answer,
                elapsed,
            ));
        }
        r
    }

    /// Switches the model under `model_id` to the adapter file at
    /// `new_path`. Without a resident model under this id the call fails
    /// with `ModelNotFound`. Otherwise the backend is asked to take off the
    /// adapter that the model carries, if it carries one, and the slot
    /// records none from then on, whatever the backend answers. Then the
    /// new file is applied as [`VramPool::apply_adapter`] does. A switch
    /// that fails, for whatever reason, leaves the model without an
    /// adapter.
    pub fn switch_adapter<P: ModelProvider>(
        &mut self,
        provider: &P,
        model_id: &ModelId,
        new_path: &str,
        header: &[u8],
        extension: Option<&str>,
        file_size: usize,
    ) -> (r: Result<(), FfiError>)
        requires
            old(self)@.wf(),
        ensures
            final(self)@.wf(),
            !old(self)@.resident(model_id@) ==> final(self)@ == old(self)@ && outcome_view(r)
                == Err::<(), FfiErrorView>(FfiErrorView::ModelNotFound(model_id@)),
            old(self)@.resident(model_id@) ==> exists|
                removed: Result<(), FfiError>,
                applied: Result<(), FfiError>,
                apply_time: Duration,
            |
                #[trigger] switch_explained(
                    provider,
                    old(self)@,
                    final(self)@,
                    outcome_view(r),
                    model_id@,
                    new_path,
                    header@,
                    extension_view(extension),
                    file_size,
                    removed,
                    applied,
                    apply_time,
                ),
            old(self)@.resident(model_id@) ==> final(self)@.resident(model_id@),
            old(self)@.resident(model_id@) && r is Err ==> final(self)@.lora_of(model_id@) is None,
            old(self)@.resident(model_id@) && r is Ok ==> final(self)@.lora_of(model_id@) == Some(
                new_path@,
            ),
    {
        let (model, has_lora) = match self.lookup(model_id) {
            None => {
                return Err(FfiError::ModelNotFound(model_id.0.clone()));
            },
            Some(found) => found,
        };
        let ghost mut removed: Result<(), FfiError> = Ok(());
        if has_lora {
            let answer = provider.remove_lora(&model);
            proof {
                removed = answer;
                old(self)@.lemma_with_lora_wf(model_id@, None, 0, None);
            }
            self.record_lora(model_id, None, 0, None);
        }
        let ghost mid = self@;
        assert(mid == old(self)@.unloaded(model_id@));
        let r = self.apply_adapter(provider, model_id, new_path, header, extension, file_size);
        proof {
            let fault = mid.apply_fault(model_id@, header@, extension_view(extension), file_size);
            if fault is None {
                let (applied, apply_time) = choose|
                    applied: Result<(), FfiError>,
                    apply_time: Duration,
                |
                    #[trigger] apply_explained(
                        provider,
                        mid,
                        self@,
                        outcome_view(r),
                        model_id@,
                        new_path,
                        estimated_vram(file_size),
                        applied,
                        apply_time,
                    );
                old(self)@.lemma_failed_switch_leaves_no_adapter(
                    model_id@,
                    new_path@,
                    header@,
                    extension_view(extension),
                    file_size,
                    apply_time,
                    applied is Ok,
                );
                assert(switch_explained(
                    provider,
                    old(self)@,
                    self@,
                    outcome_view(r),
                    model_id@,
                    new_path,
                    header@,
                    extension_view(extension),
                    file_size,
                    removed,
                    applied,
                    apply_time,
                ));
            } else {
                let applied = Ok::<(), FfiError>(());
                let apply_time = arbitrary::<Duration>();
                old(self)@.lemma_failed_switch_leaves_no_adapter(
                    model_id@,
                    new_path@,
                    header@,
                    extension_view(extension),
                    file_size,
                    apply_time,
                    true,
                );
                assert(switch_explained(
                    provider,
                    old(self)@,
                    self@,
                    outcome_view(r),
                    model_id@,
                    new_path,
                    header@,
                    extension_view(extension),
                    file_size,
                    removed,
                    applied,
                    apply_time,
                ));
            }
        }
        r
    }

    /// Settles a request to load a model under the new id `model_id`, once
    /// the backend has answered with `loaded`. A model that was loaded
    /// moves into the first empty slot and its handle is given back; the
    /// backend's error is handed on, and nothing changes. The pool has to
    /// have room.
    pub fn finish_load(&mut self, model_id: ModelId, loaded: Result<Model, FfiError>) -> (r:
        Result<Arc<Model>, FfiError>)
        requires
            old(self)@.wf(),
            !old(self)@.resident(model_id@),
            old(self)@.cache.entries.len() < old(self)@.capacity,
        ensures
            final(self)@.wf(),
            match loaded {
                Ok(m) => r is Ok && *r->Ok_0 == m && final(self)@ == old(self)@.admitted(
                    model_id@,
                    r->Ok_0,
                ),
                Err(e) => r == Err::<Arc<Model>, FfiError>(e) && final(self)@ == old(self)@,
            },
    {
        match loaded {
            Ok(m) => {
                let handle = Arc::new(m);
                let _ = self.insert(model_id, share(&handle));
                Ok(handle)
            },
            Err(e) => Err(e),
        }
    }

    /// The handle of the model under `model_id`, loaded from `path` where
    /// it is not resident.
    ///
    /// A resident model counts as used and its handle is given back.
    /// Otherwise a full pool first loses its least recently used model;
    /// where that model carries an adapter, the backend is asked to take it
    /// off, and the model leaves whatever the backend answers. Then the
    /// backend is asked once to load `path` with `params`, and its answer
    /// settles the call as [`VramPool::finish_load`] says: a failed load
    /// does not bring back the model that left. The pool has to have a slot
    /// at all.
    pub fn get_or_load<P: ModelProvider>(
        &mut self,
        provider: &P,
        model_id: ModelId,
        path: &str,
        params: LoadParams,
    ) -> (r: Result<Arc<Model>, FfiError>)
        requires
            old(self)@.wf(),
            old(self)@.capacity > 0,
        ensures
            final(self)@.wf(),
            old(self)@.resident(model_id@) ==> r == Ok::<Arc<Model>, FfiError>(
                old(self)@.model_of(model_id@),
            ) && final(self)@ == old(self)@.touched(model_id@),
            !old(self)@.resident(model_id@) ==> exists|loaded: Result<Model, FfiError>|
                {
                    &&& call_ensures(P::load, (provider, path, params), loaded)
                    &&& match loaded {
                        Ok(m) => r is Ok && *r->Ok_0 == m && final(self)@
                            == old(self)@.with_room().admitted(model_id@, r->Ok_0),
                        Err(e) => r == Err::<Arc<Model>, FfiError>(e) && final(self)@
                            == old(self)@.with_room(),
                    }
                },
            !old(self)@.resident(model_id@) && old(self)@.cache.entries.len()
                >= old(self)@.capacity && old(self)@.oldest_has_lora() ==> removal_answered(
                provider,
                old(self)@.oldest_model(),
            ),
    {
        match self.get(&model_id) {
            Some(model) => {
                return Ok(model);
            },
            None => {},
        }
        proof {
            old(self)@.lemma_with_room(model_id@);
        }
        if self.lru.len() >= self.capacity {
            let victim = match self.lru.peek_oldest() {
                Some(pair) => Some((share(&pair.1.model), pair.1.slot)),
                None => None,
            };
            match victim {
                Some((model, at)) => {
                    proof {
                        lemma_oldest_is_first_minimum(self@.cache.entries);
                        self@.lemma_entry(oldest_of(self@.cache.entries));
                    }
                    if self.slots[at].active_lora.is_some() {
                        let _ = provider.remove_lora(&model);
                    }
                },
                None => {},
            }
            let _ = self.evict();
        }
        let loaded = provider.load(path, params);
        self.finish_load(model_id, loaded)
    }

    /// The number of models that the pool can hold.
    pub fn capacity(&self) -> (r: usize)
        ensures
            r == self@.capacity,
    {
        self.capacity
    }

    /// The number of models that are resident.
    pub fn usage(&self) -> (r: usize)
        ensures
            r == self@.cache.entries.len(),
    {
        self.lru.len()
    }

    /// The model ids of the slots, in slot order; `None` for an empty slot.
    pub fn get_slot_status(&self) -> (r: Vec<Option<ModelId>>)
        ensures
            r@.len() == self@.slots.len(),
            forall|i: int|
                0 <= i < r@.len() ==> match (#[trigger] r@[i]) {
                    Some(id) => self@.slots[i].model_id == Some(id@),
                    None => self@.slots[i].model_id is None,
                },
    {
        let mut status: Vec<Option<ModelId>> = Vec::new();
        let mut i: usize = 0;
        while i < self.slots.len()
            invariant
                i <= self.slots.len(),
                status@.len() == i,
                forall|j: int|
                    0 <= j < i ==> match (#[trigger] status@[j]) {
                        Some(id) => self@.slots[j].model_id == Some(id@),
                        None => self@.slots[j].model_id is None,
                    },
            decreases self.slots.len() - i,
        {
            let entry = match &self.slots[i].model_id {
                Some(id) => Some(id.clone()),
                None => None,
            };
            status.push(entry);
            i = i + 1;
        }
        status
    }
}

} // verus!
