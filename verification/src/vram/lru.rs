use vstd::prelude::*;

use crate::types::ModelId;

verus! {

/// Mathematical model of one cached item: the model of its key, its value,
/// and the tick of the cache's clock at which it was last used.
pub struct LruEntry<K, V> {
    pub key: K,
    pub value: V,
    pub tick: u64,
}

/// Mathematical model of a cache: its items in the order in which their keys
/// were first inserted, the number of items it is meant to hold, and its
/// clock, which advances by one with every use of an item.
pub struct LruView<K, V> {
    pub entries: Seq<LruEntry<K, V>>,
    pub capacity: usize,
    pub clock: u64,
}

/// The clock after one more use. It stops at the largest tick; from then on
/// items tie, and the item inserted first counts as the oldest.
pub open spec fn next_tick(clock: u64) -> u64 {
    if clock < u64::MAX {
        (clock + 1) as u64
    } else {
        clock
    }
}

/// The position of the least recently used item: the smallest tick, and
/// among equal ticks the item inserted first. Zero for an empty sequence.
pub open spec fn oldest_of<K, V>(entries: Seq<LruEntry<K, V>>) -> int
    decreases entries.len(),
{
    if entries.len() <= 1 {
        0
    } else {
        let rest = oldest_of(entries.drop_last());
        if entries.last().tick < entries[rest].tick {
            entries.len() - 1
        } else {
            rest
        }
    }
}

/// `oldest_of` names an item with the smallest tick, and every item before
/// it has a larger one.
pub proof fn lemma_oldest_is_first_minimum<K, V>(entries: Seq<LruEntry<K, V>>)
    requires
        entries.len() > 0,
    ensures
        0 <= oldest_of(entries) < entries.len(),
        forall|j: int|
            0 <= j < entries.len() ==> entries[oldest_of(entries)].tick <= (
            #[trigger] entries[j]).tick,
        forall|j: int|
            0 <= j < oldest_of(entries) ==> entries[oldest_of(entries)].tick < (
            #[trigger] entries[j]).tick,
    decreases entries.len(),
{
    if entries.len() > 1 {
        let front = entries.drop_last();
        lemma_oldest_is_first_minimum(front);
        let rest = oldest_of(front);
        assert(forall|j: int| 0 <= j < front.len() ==> front[j] == entries[j]);
        assert forall|j: int| 0 <= j < entries.len() implies entries[oldest_of(entries)].tick <= (
        #[trigger] entries[j]).tick by {
            if j < front.len() {
                assert(front[rest].tick <= front[j].tick);
            }
        }
        assert forall|j: int| 0 <= j < oldest_of(entries) implies entries[oldest_of(
            entries,
        )].tick < (#[trigger] entries[j]).tick by {
            if oldest_of(entries) == rest {
                assert(front[rest].tick < front[j].tick);
            } else {
                assert(front[rest].tick <= front[j].tick);
            }
        }
    }
}

impl<K, V> LruView<K, V> {
    /// An empty cache.
    pub open spec fn empty(capacity: usize) -> Self {
        LruView { entries: Seq::empty(), capacity, clock: 0 }
    }

    /// Whether item `i` is held under `key`.
    pub open spec fn holds_at(self, i: int, key: K) -> bool {
        0 <= i < self.entries.len() && self.entries[i].key == key
    }

    /// Whether some item is held under `key`.
    pub open spec fn contains(self, key: K) -> bool {
        exists|i: int| self.holds_at(i, key)
    }

    /// The position of the item held under `key`.
    pub open spec fn index_of(self, key: K) -> int {
        choose|i: int| self.holds_at(i, key)
    }

    /// No key is held twice, no item was used after the clock's present
    /// tick, and the cache holds no more than its capacity, or one item
    /// where its capacity is zero.
    pub open spec fn wf(self) -> bool {
        &&& forall|i: int, j: int|
            0 <= i < j < self.entries.len() ==> (#[trigger] self.entries[i]).key != (
            #[trigger] self.entries[j]).key
        &&& forall|i: int|
            0 <= i < self.entries.len() ==> (#[trigger] self.entries[i]).tick < self.clock
                || self.clock == u64::MAX
        &&& self.entries.len() <= self.capacity || self.entries.len() <= 1
    }

    /// With no key held twice, the position of a key is the one place that
    /// holds it.
    pub proof fn lemma_index_of(self, i: int, key: K)
        requires
            self.wf(),
            self.holds_at(i, key),
        ensures
            self.contains(key),
            self.index_of(key) == i,
    {
        let k = self.index_of(key);
        assert(self.holds_at(k, key));
        if k < i {
            assert(self.entries[k].key != self.entries[i].key);
        } else if i < k {
            assert(self.entries[i].key != self.entries[k].key);
        }
    }

    /// The cache after item `i` was used.
    pub open spec fn touched(self, i: int) -> Self {
        LruView {
            entries: self.entries.update(
                i,
                LruEntry {
                    key: self.entries[i].key,
                    value: self.entries[i].value,
                    tick: self.clock,
                },
            ),
            capacity: self.capacity,
            clock: next_tick(self.clock),
        }
    }

    /// The cache without its least recently used item.
    pub open spec fn without_oldest(self) -> Self {
        if self.entries.len() == 0 {
            self
        } else {
            LruView {
                entries: self.entries.remove(oldest_of(self.entries)),
                capacity: self.capacity,
                clock: self.clock,
            }
        }
    }

    /// The cache after `value` was stored under `key`. A key that is held
    /// keeps its place and gets the new value. For a new key, a full cache
    /// first loses its least recently used item. Either way the item counts
    /// as used now.
    pub open spec fn put(self, key: K, value: V) -> Self {
        if self.contains(key) {
            LruView {
                entries: self.entries.update(
                    self.index_of(key),
                    LruEntry { key, value, tick: self.clock },
                ),
                capacity: self.capacity,
                clock: next_tick(self.clock),
            }
        } else {
            let base = if self.entries.len() >= self.capacity {
                self.without_oldest()
            } else {
                self
            };
            LruView {
                entries: base.entries.push(LruEntry { key, value, tick: self.clock }),
                capacity: self.capacity,
                clock: next_tick(self.clock),
            }
        }
    }
}

/// A key of a cache: a value with a model by which two keys are told
/// apart.
pub trait CacheKey: View + Sized {
    /// Whether the two keys are the same key.
    fn same_key(&self, other: &Self) -> (r: bool)
        ensures
            r == (self@ == other@),
    ;
}

impl CacheKey for ModelId {
    fn same_key(&self, other: &Self) -> (r: bool) {
        self.same(other)
    }
}

/// One item of the cache.
struct LruItem<K, V> {
    key: K,
    value: V,
    tick: u64,
}

/// A cache that gives up its least recently used item when it is full.
pub struct LruCache<K, V> {
    items: Vec<LruItem<K, V>>,
    capacity: usize,
    clock: u64,
}

impl<K: CacheKey, V> View for LruCache<K, V> {
    type V = LruView<K::V, V>;

    closed spec fn view(&self) -> LruView<K::V, V> {
        LruView {
            entries: Seq::new(
                self.items@.len(),
                |i: int|
                    LruEntry {
                        key: self.items@[i].key@,
                        value: self.items@[i].value,
                        tick: self.items@[i].tick,
                    },
            ),
            capacity: self.capacity,
            clock: self.clock,
        }
    }
}

impl<K: CacheKey, V> LruCache<K, V> {
    /// An empty cache for `capacity` items.
    pub fn new(capacity: usize) -> (r: Self)
        ensures
            r@ == LruView::<K::V, V>::empty(capacity),
            r@.wf(),
    {
        let r = Self { items: Vec::new(), capacity, clock: 0 };
        assert(r@.entries =~= Seq::empty());
        r
    }

    fn position(&self, key: &K) -> (r: Option<usize>)
        ensures
            match r {
                Some(i) => self@.holds_at(i as int, key@),
                None => !self@.contains(key@),
            },
    {
        let mut i: usize = 0;
        while i < self.items.len()
            invariant
                i <= self.items.len(),
                forall|j: int| 0 <= j < i ==> !self@.holds_at(j, key@),
            decreases self.items.len() - i,
        {
            if self.items[i].key.same_key(key) {
                return Some(i);
            }
            i = i + 1;
        }
        None
    }

    fn bump(&mut self) -> (r: u64)
        ensures
            r == old(self).clock,
            final(self).clock == next_tick(old(self).clock),
            final(self).items == old(self).items,
            final(self).capacity == old(self).capacity,
    {
        let now = self.clock;
        if self.clock < u64::MAX {
            self.clock = self.clock + 1;
        }
        now
    }

    /// The value under `key`, which then counts as used now; `None`, and no
    /// change, where the key is not held.
    pub fn get(&mut self, key: &K) -> (r: Option<&V>)
        requires
            old(self)@.wf(),
        ensures
            final(self)@.wf(),
            old(self)@.contains(key@) ==> r == Some(
                &old(self)@.entries[old(self)@.index_of(key@)].value,
            ) && final(self)@ == old(self)@.touched(old(self)@.index_of(key@)),
            !old(self)@.contains(key@) ==> r is None && final(self)@ == old(self)@,
    {
        match self.position(key) {
            Some(i) => {
                proof {
                    self@.lemma_index_of(i as int, key@);
                }
                let now = self.bump();
                let item = &mut self.items[i];
                item.tick = now;
                proof {
                    assert(self@.entries =~= old(self)@.touched(i as int).entries);
                }
                Some(&self.items[i].value)
            },
            None => None,
        }
    }

    fn oldest_position(&self) -> (r: usize)
        requires
            self.items@.len() > 0,
        ensures
            r == oldest_of(self@.entries),
            r < self.items@.len(),
    {
        let mut best: usize = 0;
        let mut i: usize = 1;
        assert(self@.entries.take(1).len() == 1);
        while i < self.items.len()
            invariant
                1 <= i <= self.items.len(),
                best < i,
                best == oldest_of(self@.entries.take(i as int)),
            decreases self.items.len() - i,
        {
            proof {
                let upto = self@.entries.take(i as int + 1);
                assert(upto.drop_last() =~= self@.entries.take(i as int));
                assert(upto.last() == self@.entries[i as int]);
                assert(upto[best as int] == self@.entries[best as int]);
            }
            if self.items[i].tick < self.items[best].tick {
                best = i;
            }
            i = i + 1;
        }
        assert(self@.entries.take(i as int) =~= self@.entries);
        best
    }

    /// Stores `value` under `key`, as [`LruView::put`] says. Gives back
    /// nothing, also where the key was held.
    pub fn insert(&mut self, key: K, value: V) -> (r: Option<V>)
        requires
            old(self)@.wf(),
        ensures
            final(self)@.wf(),
            final(self)@ == old(self)@.put(key@, value),
            r is None,
    {
        match self.position(&key) {
            Some(i) => {
                proof {
                    self@.lemma_index_of(i as int, key@);
                }
                let now = self.bump();
                let item = &mut self.items[i];
                item.value = value;
                item.tick = now;
                proof {
                    assert(self@.entries =~= old(self)@.put(key@, value).entries);
                    assert forall|a: int, b: int| 0 <= a < b < self@.entries.len() implies (
                    #[trigger] self@.entries[a]).key != (#[trigger] self@.entries[b]).key by {
                        assert(old(self)@.entries[a].key != old(self)@.entries[b].key);
                    }
                    assert forall|a: int| 0 <= a < self@.entries.len() implies (
                    #[trigger] self@.entries[a]).tick < self@.clock || self@.clock
                        == u64::MAX by {
                        assert(old(self)@.entries[a].tick < old(self)@.clock || old(self)@.clock
                            == u64::MAX);
                    }
                }
                None
            },
            None => {
                if self.items.len() >= self.capacity {
                    let _ = self.evict_oldest();
                    proof {
                        if old(self)@.entries.len() > 0 {
                            lemma_oldest_is_first_minimum(old(self)@.entries);
                        }
                    }
                }
                let ghost base = self@;
                let now = self.bump();
                self.items.push(LruItem { key, value, tick: now });
                proof {
                    assert(self@.entries =~= base.entries.push(
                        LruEntry { key: key@, value, tick: now },
                    ));
                    assert forall|i: int, j: int| 0 <= i < j < self@.entries.len() implies (
                    #[trigger] self@.entries[i]).key != (#[trigger] self@.entries[j]).key by {
                        if j == base.entries.len() {
                            Self::lemma_kept(old(self)@, base, i);
                            let k = choose|k: int|
                                0 <= k < old(self)@.entries.len() && old(self)@.entries[k]
                                    == base.entries[i];
                            assert(!old(self)@.holds_at(k, key@));
                        } else {
                            assert(base.entries[i].key != base.entries[j].key);
                        }
                    }
                    assert forall|i: int| 0 <= i < self@.entries.len() implies (
                    #[trigger] self@.entries[i]).tick < self@.clock || self@.clock
                        == u64::MAX by {
                        if i < base.entries.len() {
                            assert(base.entries[i].tick < base.clock || base.clock == u64::MAX);
                        }
                    }
                }
                None
            },
        }
    }

    /// Every item of a cache that has lost at most its oldest item was an
    /// item of the cache before.
    proof fn lemma_kept(before: LruView<K::V, V>, after: LruView<K::V, V>, i: int)
        requires
            after == before || after == before.without_oldest(),
            0 <= i < after.entries.len(),
        ensures
            exists|k: int| 0 <= k < before.entries.len() && before.entries[k] == after.entries[i],
    {
        if after == before {
            assert(before.entries[i] == after.entries[i]);
        } else if before.entries.len() > 0 {
            lemma_oldest_is_first_minimum(before.entries);
            let o = oldest_of(before.entries);
            if i < o {
                assert(before.entries[i] == after.entries[i]);
            } else {
                assert(before.entries[i + 1] == after.entries[i]);
            }
        }
    }

    /// Removes the least recently used item and gives back its key; `None`
    /// for an empty cache.
    pub fn evict_oldest(&mut self) -> (r: Option<K>)
        requires
            old(self)@.wf(),
        ensures
            final(self)@.wf(),
            final(self)@ == old(self)@.without_oldest(),
            old(self)@.entries.len() == 0 ==> r is None,
            old(self)@.entries.len() > 0 ==> (r matches Some(k) && k@
                == old(self)@.entries[oldest_of(old(self)@.entries)].key),
    {
        if self.items.len() == 0 {
            return None;
        }
        let at = self.oldest_position();
        let item = self.items.remove(at);
        proof {
            assert(self@.entries =~= old(self)@.entries.remove(at as int));
            assert forall|i: int, j: int| 0 <= i < j < self@.entries.len() implies (
            #[trigger] self@.entries[i]).key != (#[trigger] self@.entries[j]).key by {
                let a = if i < at { i } else { i + 1 };
                let b = if j < at { j } else { j + 1 };
                assert(old(self)@.entries[a].key != old(self)@.entries[b].key);
            }
        }
        Some(item.key)
    }

    /// The value under `key`, without counting as a use.
    pub fn peek(&self, key: &K) -> (r: Option<&V>)
        requires
            self@.wf(),
        ensures
            self@.contains(key@) ==> r == Some(&self@.entries[self@.index_of(key@)].value),
            !self@.contains(key@) ==> r is None,
    {
        match self.position(key) {
            Some(i) => {
                proof {
                    self@.lemma_index_of(i as int, key@);
                }
                Some(&self.items[i].value)
            },
            None => None,
        }
    }

    /// The key and the value of the least recently used item, which stays
    /// where it is; `None` for an empty cache.
    pub fn peek_oldest(&self) -> (r: Option<(&K, &V)>)
        ensures
            self@.entries.len() == 0 ==> r is None,
            self@.entries.len() > 0 ==> (r matches Some(pair) && pair.0@
                == self@.entries[oldest_of(self@.entries)].key && *pair.1
                == self@.entries[oldest_of(self@.entries)].value),
    {
        if self.items.len() == 0 {
            return None;
        }
        let at = self.oldest_position();
        Some((&self.items[at].key, &self.items[at].value))
    }

    /// The tick that the next use of an item will get.
    pub fn clock(&self) -> (r: u64)
        ensures
            r == self@.clock,
    {
        self.clock
    }

    /// Whether an item is held under `key`.
    pub fn contains_key(&self, key: &K) -> (r: bool)
        ensures
            r == self@.contains(key@),
    {
        self.position(key).is_some()
    }

    /// The number of items held.
    pub fn len(&self) -> (r: usize)
        ensures
            r == self@.entries.len(),
    {
        self.items.len()
    }

    /// Whether nothing is held.
    pub fn is_empty(&self) -> (r: bool)
        ensures
            r == (self@.entries.len() == 0),
    {
        self.items.len() == 0
    }
}

} // verus!
