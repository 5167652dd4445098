use std::time::Duration;
use vstd::prelude::*;
use vstd::string::StringExecFns;

use crate::types::decimal::{decimal, print_decimal};

verus! {

/// Why the pool of workers could not serve a request.
#[derive(Debug, PartialEq, Eq)]
pub enum PythonManagerError {
    ProcessStartError(String),
    /// The pool holds as many workers as it may.
    PoolFull,
    /// Every worker is checked out and the pool may not grow.
    NoAvailableProcess,
    ProcessTerminated(usize),
}

impl PythonManagerError {
    /// The error as a line of text.
    pub open spec fn message(&self) -> Seq<char> {
        match self {
            PythonManagerError::ProcessStartError(why) => "进程启动失败: "@ + why@,
            PythonManagerError::PoolFull => "进程池已满"@,
            PythonManagerError::NoAvailableProcess => "无可用进程"@,
            PythonManagerError::ProcessTerminated(id) => "进程已终止: "@ + decimal(*id as nat),
        }
    }

    /// The error as a line of text.
    pub fn to_string(&self) -> (r: String)
        ensures
            r@ == self.message(),
    {
        match self {
            PythonManagerError::ProcessStartError(why) => String::from_str("进程启动失败: ").concat(
                why.as_str(),
            ),
            PythonManagerError::PoolFull => String::from_str("进程池已满"),
            PythonManagerError::NoAvailableProcess => String::from_str("无可用进程"),
            PythonManagerError::ProcessTerminated(id) => {
                let number = print_decimal(*id as u64);
                String::from_str("进程已终止: ").concat(number.as_str())
            },
        }
    }
}

/// The pool's record of one worker. The process itself is kept by whoever
/// started it, under the same id.
#[derive(Debug, Clone, Copy, PartialEq, Eq)]
pub struct PythonProcess {
    pub id: usize,
    /// When the worker was last handed out or taken back, in seconds on the
    /// caller's clock.
    pub last_used: u64,
    /// Whether the worker is free to be handed out.
    pub is_available: bool,
}

/// A worker that has been idle for longer than this many seconds is
/// restarted by the health check.
pub const IDLE_LIMIT_SECS: u64 = 600;

/// A worker handed out by [`PythonManager::get_process`].
#[derive(Debug, Clone, Copy, PartialEq, Eq)]
pub enum Lease {
    /// A worker that is running already.
    Reused(usize),
    /// A worker that the pool has made room for and that has yet to be
    /// started, under this id.
    Spawned(usize),
}

impl Lease {
    /// The id of the worker.
    pub open spec fn id(self) -> usize {
        match self {
            Lease::Reused(id) => id,
            Lease::Spawned(id) => id,
        }
    }

    /// The id of the worker.
    pub fn worker(&self) -> (r: usize)
        ensures
            r == self.id(),
    {
        match self {
            Lease::Reused(id) => *id,
            Lease::Spawned(id) => *id,
        }
    }
}

/// Mathematical model of a [`PythonManager`].
pub struct ManagerView {
    pub workers: Seq<PythonProcess>,
    pub max_pool_size: usize,
    pub next_id: usize,
}

/// A new worker: free, and used just now.
pub open spec fn fresh(id: usize, now: u64) -> PythonProcess {
    PythonProcess { id, last_used: now, is_available: true }
}

/// The first `upto` workers without those whose id is in `dead`.
pub open spec fn kept(workers: Seq<PythonProcess>, dead: Seq<usize>, upto: int) -> Seq<
    PythonProcess,
>
    decreases upto,
{
    if upto <= 0 {
        Seq::empty()
    } else if dead.contains(workers[upto - 1].id) {
        kept(workers, dead, upto - 1)
    } else {
        kept(workers, dead, upto - 1).push(workers[upto - 1])
    }
}

/// Whether worker `i` is the first that is free.
pub open spec fn is_first_free(workers: Seq<PythonProcess>, i: int) -> bool {
    &&& 0 <= i < workers.len()
    &&& workers[i].is_available
    &&& forall|j: int| 0 <= j < i ==> !(#[trigger] workers[j]).is_available
}

/// Whether no worker is free.
pub open spec fn none_free(workers: Seq<PythonProcess>) -> bool {
    forall|j: int| 0 <= j < workers.len() ==> !(#[trigger] workers[j]).is_available
}

/// Whether worker `i` is the first with the id `id`.
pub open spec fn is_first_with(workers: Seq<PythonProcess>, id: usize, i: int) -> bool {
    &&& 0 <= i < workers.len()
    &&& workers[i].id == id
    &&& forall|j: int| 0 <= j < i ==> (#[trigger] workers[j]).id != id
}

/// Whether no worker has the id `id`.
pub open spec fn none_with(workers: Seq<PythonProcess>, id: usize) -> bool {
    forall|j: int| 0 <= j < workers.len() ==> (#[trigger] workers[j]).id != id
}

/// How long a worker has been idle at the time `now`, in seconds.
pub open spec fn idle_secs(worker: PythonProcess, now: u64) -> int {
    if now >= worker.last_used {
        now - worker.last_used
    } else {
        0
    }
}

/// The ids of those among the first `upto` workers that have been idle for
/// longer than the limit.
pub open spec fn stale_ids(workers: Seq<PythonProcess>, now: u64, upto: int) -> Seq<usize>
    decreases upto,
{
    if upto <= 0 {
        Seq::empty()
    } else if idle_secs(workers[upto - 1], now) > IDLE_LIMIT_SECS {
        stale_ids(workers, now, upto - 1).push(workers[upto - 1].id)
    } else {
        stale_ids(workers, now, upto - 1)
    }
}

/// The number of workers that are started before the first request: half
/// the pool, rounded up.
pub open spec fn warm_count(max_pool_size: usize) -> int {
    max_pool_size / 2 + max_pool_size % 2
}

impl ManagerView {
    /// The pool holds no more workers than it may, no id twice, and no id
    /// that is yet to be given out.
    pub open spec fn wf(self) -> bool {
        &&& self.workers.len() <= self.max_pool_size
        &&& forall|i: int, j: int|
            0 <= i < j < self.workers.len() ==> (#[trigger] self.workers[i]).id != (
            #[trigger] self.workers[j]).id
        &&& forall|i: int| 0 <= i < self.workers.len() ==> (#[trigger] self.workers[i]).id
            < self.next_id
    }

    /// Whether the pool may grow by one worker: it is not full, and an id
    /// is left to give.
    pub open spec fn has_room(self) -> bool {
        self.workers.len() < self.max_pool_size && self.next_id < usize::MAX
    }

    /// The pool with one more worker, under the next id.
    pub open spec fn grown(self, now: u64) -> ManagerView {
        ManagerView {
            workers: self.workers.push(fresh(self.next_id, now)),
            next_id: (self.next_id + 1) as usize,
            ..self
        }
    }

    /// The pool with `count` more workers.
    pub open spec fn grown_by(self, count: int, now: u64) -> ManagerView
        decreases count,
    {
        if count <= 0 {
            self
        } else {
            self.grown_by(count - 1, now).grown(now)
        }
    }

    /// How many workers the pool can take on, of `wanted`.
    pub open spec fn room_for(self, wanted: int) -> int {
        let by_size = self.max_pool_size - self.workers.len();
        let by_ids = usize::MAX - self.next_id;
        let room = if by_size < by_ids {
            by_size
        } else {
            by_ids
        };
        if wanted < room {
            wanted
        } else {
            room
        }
    }

    /// The pool without the workers whose id is in `dead`.
    pub open spec fn pruned(self, dead: Seq<usize>) -> ManagerView {
        ManagerView { workers: kept(self.workers, dead, self.workers.len() as int), ..self }
    }

    /// The pool after worker `i` was handed out.
    pub open spec fn leased(self, i: int, now: u64) -> ManagerView {
        ManagerView {
            workers: self.workers.update(
                i,
                PythonProcess { id: self.workers[i].id, last_used: now, is_available: false },
            ),
            ..self
        }
    }

    /// The pool after worker `i` was taken back.
    pub open spec fn released(self, i: int, now: u64) -> ManagerView {
        ManagerView {
            workers: self.workers.update(
                i,
                PythonProcess { id: self.workers[i].id, last_used: now, is_available: true },
            ),
            ..self
        }
    }

    /// The pool without worker `i`.
    pub open spec fn without(self, i: int) -> ManagerView {
        ManagerView { workers: self.workers.remove(i), ..self }
    }

    /// The pool without the first worker that has the id `id`, if any.
    pub open spec fn dropped(self, id: usize) -> ManagerView {
        if exists|i: int| is_first_with(self.workers, id, i) {
            self.without(choose|i: int| is_first_with(self.workers, id, i))
        } else {
            self
        }
    }

    /// The pool after the worker `id` was restarted: the worker is gone,
    /// and a new one has joined where the pool may grow.
    pub open spec fn restarted(self, id: usize, now: u64) -> ManagerView {
        if self.dropped(id).has_room() {
            self.dropped(id).grown(now)
        } else {
            self.dropped(id)
        }
    }

    /// The pool after the first `upto` of the workers `ids` were restarted,
    /// one after the other.
    pub open spec fn restarted_all(self, ids: Seq<usize>, upto: int, now: u64) -> ManagerView
        decreases upto,
    {
        if upto <= 0 {
            self
        } else {
            self.restarted_all(ids, upto - 1, now).restarted(ids[upto - 1], now)
        }
    }

    /// The ids of the workers that are idle for too long once the workers
    /// in `dead` are gone.
    pub open spec fn stale_after(self, dead: Seq<usize>, now: u64) -> Seq<usize> {
        stale_ids(self.pruned(dead).workers, now, self.pruned(dead).workers.len() as int)
    }

    /// The pool after a health check: the dead workers are gone, and every
    /// worker that was idle for too long is restarted.
    pub open spec fn health_checked(self, dead: Seq<usize>, now: u64) -> ManagerView {
        self.pruned(dead).restarted_all(
            self.stale_after(dead, now),
            self.stale_after(dead, now).len() as int,
            now,
        )
    }

    /// What the restart of the worker `ids[i]` comes to, after the workers
    /// before it in `ids` were restarted: the worker to end, and the id of
    /// its replacement where the pool can take one.
    pub open spec fn restart_step(self, ids: Seq<usize>, i: int, now: u64) -> (
        usize,
        Option<usize>,
    ) {
        let before = self.restarted_all(ids, i, now);
        (
            ids[i],
            if before.dropped(ids[i]).has_room() {
                Some(before.next_id)
            } else {
                None
            },
        )
    }

    /// A worker's first place is its only place.
    pub proof fn lemma_first_with(self, id: usize, i: int)
        requires
            is_first_with(self.workers, id, i),
        ensures
            (choose|k: int| is_first_with(self.workers, id, k)) == i,
            self.dropped(id) == self.without(i),
    {
        let k = choose|k: int| is_first_with(self.workers, id, k);
        if k < i {
            assert(self.workers[k].id != id);
        } else if i < k {
            assert(self.workers[i].id != id);
        }
    }

    /// A pool that grows stays well formed where it has room.
    pub proof fn lemma_grown_wf(self, now: u64)
        requires
            self.wf(),
            self.has_room(),
        ensures
            self.grown(now).wf(),
            self.grown(now).workers.len() == self.workers.len() + 1,
    {
        let after = self.grown(now);
        assert forall|i: int, j: int| 0 <= i < j < after.workers.len() implies (
        #[trigger] after.workers[i]).id != (#[trigger] after.workers[j]).id by {
            if j < self.workers.len() {
                assert(self.workers[i].id != self.workers[j].id);
            } else {
                assert(self.workers[i].id < self.next_id);
            }
        }
        assert forall|i: int| 0 <= i < after.workers.len() implies (
        #[trigger] after.workers[i]).id < after.next_id by {
            if i < self.workers.len() {
                assert(self.workers[i].id < self.next_id);
            }
        }
    }

    /// A pool that loses a worker stays well formed.
    pub proof fn lemma_without_wf(self, i: int)
        requires
            self.wf(),
            0 <= i < self.workers.len(),
        ensures
            self.without(i).wf(),
            self.without(i).workers.len() == self.workers.len() - 1,
    {
        let after = self.without(i);
        assert forall|a: int, b: int| 0 <= a < b < after.workers.len() implies (
        #[trigger] after.workers[a]).id != (#[trigger] after.workers[b]).id by {
            let x = if a < i { a } else { a + 1 };
            let y = if b < i { b } else { b + 1 };
            assert(self.workers[x].id != self.workers[y].id);
        }
        assert forall|a: int| 0 <= a < after.workers.len() implies (
        #[trigger] after.workers[a]).id < after.next_id by {
            let x = if a < i { a } else { a + 1 };
            assert(self.workers[x].id < self.next_id);
        }
    }

    /// A restart keeps the pool well formed, and never lets it hold more
    /// workers than it may.
    pub proof fn lemma_restarted_wf(self, id: usize, now: u64)
        requires
            self.wf(),
        ensures
            self.restarted(id, now).wf(),
            self.restarted(id, now).workers.len() <= self.max_pool_size,
            self.restarted(id, now).max_pool_size == self.max_pool_size,
    {
        if exists|i: int| is_first_with(self.workers, id, i) {
            let i = choose|i: int| is_first_with(self.workers, id, i);
            self.lemma_without_wf(i);
        }
        if self.dropped(id).has_room() {
            self.dropped(id).lemma_grown_wf(now);
        }
    }

    /// A restart takes the worker out of the pool and, where an id is left
    /// to give, puts a free worker in its place under an id that no worker
    /// has had before; the pool holds as many workers as it did.
    pub proof fn lemma_restart_replaces(self, id: usize, i: int, now: u64)
        requires
            self.wf(),
            is_first_with(self.workers, id, i),
        ensures
            self.restarted(id, now).wf(),
            none_with(self.restarted(id, now).workers, id),
            self.dropped(id).has_room() <==> self.next_id < usize::MAX,
            forall|j: int| 0 <= j < self.workers.len() ==> (#[trigger] self.workers[j]).id
                < self.next_id,
            self.next_id < usize::MAX ==> {
                &&& self.restarted(id, now).workers.len() == self.workers.len()
                &&& self.restarted(id, now).workers.last() == fresh(self.next_id, now)
                &&& self.restarted(id, now).next_id == self.next_id + 1
            },
            self.next_id == usize::MAX ==> self.restarted(id, now).workers.len()
                == self.workers.len() - 1,
    {
        self.lemma_first_with(id, i);
        self.lemma_without_wf(i);
        self.lemma_restarted_wf(id, now);
        let gone = self.without(i);
        assert forall|j: int| 0 <= j < gone.workers.len() implies (#[trigger] gone.workers[j]).id
            != id by {
            let x = if j < i { j } else { j + 1 };
            assert(gone.workers[j] == self.workers[x]);
            if x < i {
                assert(self.workers[x].id != id);
            } else {
                assert(self.workers[i].id != self.workers[x].id);
            }
        }
        if gone.has_room() {
            gone.lemma_grown_wf(now);
            let after = gone.grown(now);
            assert(self.workers[i].id < self.next_id);
            assert forall|j: int| 0 <= j < after.workers.len() implies (
            #[trigger] after.workers[j]).id != id by {
                if j < gone.workers.len() {
                    assert(after.workers[j] == gone.workers[j]);
                }
            }
        }
    }

    /// Restarting any number of workers keeps the pool well formed.
    pub proof fn lemma_restarted_all_wf(self, ids: Seq<usize>, upto: int, now: u64)
        requires
            self.wf(),
            0 <= upto <= ids.len(),
        ensures
            self.restarted_all(ids, upto, now).wf(),
            self.restarted_all(ids, upto, now).max_pool_size == self.max_pool_size,
        decreases upto,
    {
        if upto > 0 {
            self.lemma_restarted_all_wf(ids, upto - 1, now);
            self.restarted_all(ids, upto - 1, now).lemma_restarted_wf(ids[upto - 1], now);
        }
    }

    /// Handing a worker out or taking it back keeps the pool well formed.
    pub proof fn lemma_marked_wf(self, i: int, now: u64)
        requires
            self.wf(),
            0 <= i < self.workers.len(),
        ensures
            self.leased(i, now).wf(),
            self.released(i, now).wf(),
    {
        let a = self.leased(i, now);
        assert forall|x: int, y: int| 0 <= x < y < a.workers.len() implies (
        #[trigger] a.workers[x]).id != (#[trigger] a.workers[y]).id by {
            assert(self.workers[x].id != self.workers[y].id);
        }
        assert forall|x: int| 0 <= x < a.workers.len() implies (#[trigger] a.workers[x]).id
            < a.next_id by {
            assert(self.workers[x].id < self.next_id);
        }
        let b = self.released(i, now);
        assert forall|x: int, y: int| 0 <= x < y < b.workers.len() implies (
        #[trigger] b.workers[x]).id != (#[trigger] b.workers[y]).id by {
            assert(self.workers[x].id != self.workers[y].id);
        }
        assert forall|x: int| 0 <= x < b.workers.len() implies (#[trigger] b.workers[x]).id
            < b.next_id by {
            assert(self.workers[x].id < self.next_id);
        }
    }
}

/// What is kept of the workers is a part of them, in their order.
pub proof fn lemma_kept(workers: Seq<PythonProcess>, dead: Seq<usize>, upto: int)
    requires
        0 <= upto <= workers.len(),
    ensures
        kept(workers, dead, upto).len() <= upto,
        forall|i: int|
            0 <= i < kept(workers, dead, upto).len() ==> exists|j: int|
                0 <= j < upto && #[trigger] workers[j] == (#[trigger] kept(workers, dead, upto)[i])
                    && !dead.contains(workers[j].id),
        (forall|a: int, b: int|
            0 <= a < b < upto ==> (#[trigger] workers[a]).id != (#[trigger] workers[b]).id)
            ==> forall|a: int, b: int|
            0 <= a < b < kept(workers, dead, upto).len() ==> (#[trigger] kept(
                workers,
                dead,
                upto,
            )[a]).id != (#[trigger] kept(workers, dead, upto)[b]).id,
    decreases upto,
{
    if upto > 0 {
        lemma_kept(workers, dead, upto - 1);
        let before = kept(workers, dead, upto - 1);
        let now = kept(workers, dead, upto);
        if !dead.contains(workers[upto - 1].id) {
            assert forall|i: int| 0 <= i < now.len() implies exists|j: int|
                0 <= j < upto && #[trigger] workers[j] == (#[trigger] now[i]) && !dead.contains(
                    workers[j].id,
                ) by {
                if i < before.len() {
                    let j = choose|j: int|
                        0 <= j < upto - 1 && #[trigger] workers[j] == before[i] && !dead.contains(
                            workers[j].id,
                        );
                    assert(workers[j] == now[i]);
                } else {
                    assert(workers[upto - 1] == now[i]);
                }
            }
            if forall|a: int, b: int|
                0 <= a < b < upto ==> (#[trigger] workers[a]).id != (#[trigger] workers[b]).id {
                assert forall|a: int, b: int| 0 <= a < b < now.len() implies (#[trigger] now[a]).id
                    != (#[trigger] now[b]).id by {
                    if b < before.len() {
                        assert(before[a].id != before[b].id);
                    } else {
                        let j = choose|j: int|
                            0 <= j < upto - 1 && #[trigger] workers[j] == before[a]
                                && !dead.contains(workers[j].id);
                        assert(workers[j].id != workers[upto - 1].id);
                    }
                }
            }
        } else {
            assert forall|i: int| 0 <= i < now.len() implies exists|j: int|
                0 <= j < upto && #[trigger] workers[j] == (#[trigger] now[i]) && !dead.contains(
                    workers[j].id,
                ) by {
                let j = choose|j: int|
                    0 <= j < upto - 1 && #[trigger] workers[j] == before[i] && !dead.contains(
                        workers[j].id,
                    );
                assert(workers[j] == now[i]);
            }
        }
    }
}

/// A pool without its dead workers is well formed and no larger.
pub proof fn lemma_pruned_wf(v: ManagerView, dead: Seq<usize>)
    requires
        v.wf(),
    ensures
        v.pruned(dead).wf(),
        v.pruned(dead).workers.len() <= v.workers.len(),
{
    lemma_kept(v.workers, dead, v.workers.len() as int);
    let after = v.pruned(dead);
    assert forall|i: int| 0 <= i < after.workers.len() implies (#[trigger] after.workers[i]).id
        < after.next_id by {
        let j = choose|j: int|
            0 <= j < v.workers.len() && #[trigger] v.workers[j] == after.workers[i]
                && !dead.contains(v.workers[j].id);
        assert(v.workers[j].id < v.next_id);
    }
}

/// With no worker reported dead, pruning keeps every worker.
pub proof fn lemma_pruned_nothing(v: ManagerView)
    ensures
        v.pruned(Seq::<usize>::empty()) == v,
{
    lemma_kept_all(v.workers, v.workers.len() as int);
    assert(v.workers.take(v.workers.len() as int) =~= v.workers);
}

proof fn lemma_kept_all(workers: Seq<PythonProcess>, upto: int)
    requires
        0 <= upto <= workers.len(),
    ensures
        kept(workers, Seq::<usize>::empty(), upto) == workers.take(upto),
    decreases upto,
{
    if upto > 0 {
        lemma_kept_all(workers, upto - 1);
        assert(workers.take(upto - 1).push(workers[upto - 1]) =~= workers.take(upto));
    } else {
        assert(workers.take(0) =~= Seq::<PythonProcess>::empty());
    }
}

/// A pool has a first free worker as soon as it has a free worker.
pub proof fn lemma_first_free_exists(workers: Seq<PythonProcess>, i: int) -> (k: int)
    requires
        0 <= i < workers.len(),
        workers[i].is_available,
    ensures
        is_first_free(workers, k),
        k <= i,
    decreases i,
{
    if exists|j: int| 0 <= j < i && workers[j].is_available {
        let j = choose|j: int| 0 <= j < i && workers[j].is_available;
        lemma_first_free_exists(workers, j)
    } else {
        i
    }
}

impl ManagerView {
    /// While every worker of a full pool is checked out, no request can be
    /// served: no worker is free, and the pool has no room.
    pub proof fn lemma_busy_pool_serves_none(self)
        requires
            self.wf(),
            self.workers.len() == self.max_pool_size,
            none_free(self.workers),
        ensures
            !self.has_room(),
            forall|i: int| !is_first_free(self.workers, i),
    {
        assert forall|i: int| !is_first_free(self.workers, i) by {
            if is_first_free(self.workers, i) {
                assert(!self.workers[i].is_available);
            }
        }
    }

    /// Once a worker is taken back, the next request finds a free worker.
    pub proof fn lemma_released_worker_serves(self, i: int, now: u64)
        requires
            self.wf(),
            0 <= i < self.workers.len(),
        ensures
            exists|k: int| is_first_free(self.released(i, now).workers, k),
            self.released(i, now).workers.len() == self.workers.len(),
            self.released(i, now).workers[i].id == self.workers[i].id,
    {
        let k = lemma_first_free_exists(self.released(i, now).workers, i);
    }
}

/// The bookkeeping of a pool of worker processes. It decides which worker
/// serves a request, when the pool grows, and which workers have to go; the
/// caller starts and ends the processes as it is told, and reports which
/// have died.
pub struct PythonManager {
    pool: Vec<PythonProcess>,
    max_pool_size: usize,
    timeout: Duration,
    python_path: String,
    next_process_id: usize,
}

impl View for PythonManager {
    type V = ManagerView;

    closed spec fn view(&self) -> ManagerView {
        ManagerView {
            workers: self.pool@,
            max_pool_size: self.max_pool_size,
            next_id: self.next_process_id,
        }
    }
}

/// Whether `id` is among `ids`.
fn is_among(ids: &[usize], id: usize) -> (r: bool)
    ensures
        r == ids@.contains(id),
{
    let mut i: usize = 0;
    while i < ids.len()
        invariant
            i <= ids.len(),
            forall|j: int| 0 <= j < i ==> ids@[j] != id,
        decreases ids.len() - i,
    {
        if ids[i] == id {
            assert(ids@[i as int] == id);
            return true;
        }
        i = i + 1;
    }
    false
}

impl PythonManager {
    /// The interpreter that the workers run.
    pub closed spec fn interpreter(&self) -> Seq<char> {
        self.python_path@
    }

    /// The time that a request may take.
    pub closed spec fn time_limit(&self) -> Duration {
        self.timeout
    }

    /// A pool without workers that may grow to `max_pool_size`.
    pub fn new(max_pool_size: usize, timeout: Duration, python_path: &str) -> (r: Self)
        ensures
            r@.wf(),
            r@.workers.len() == 0,
            r@.max_pool_size == max_pool_size,
            r@.next_id == 0,
            r.interpreter() == python_path@,
            r.time_limit() == timeout,
    {
        Self {
            pool: Vec::new(),
            max_pool_size,
            timeout,
            python_path: python_path.to_owned(),
            next_process_id: 0,
        }
    }

    /// The interpreter that the workers run.
    pub fn python_path(&self) -> (r: &str)
        ensures
            r@ == self.interpreter(),
    {
        self.python_path.as_str()
    }

    /// The time that a request may take.
    pub fn timeout(&self) -> (r: Duration)
        ensures
            r == self.time_limit(),
    {
        self.timeout
    }

    /// The ids of the workers in the pool, in pool order.
    pub fn worker_ids(&self) -> (r: Vec<usize>)
        ensures
            r@.len() == self@.workers.len(),
            forall|i: int| 0 <= i < r@.len() ==> r@[i] == self@.workers[i].id,
    {
        let mut ids: Vec<usize> = Vec::new();
        let mut i: usize = 0;
        while i < self.pool.len()
            invariant
                i <= self.pool.len(),
                ids@.len() == i,
                forall|j: int| 0 <= j < i ==> ids@[j] == self@.workers[j].id,
            decreases self.pool.len() - i,
        {
            ids.push(self.pool[i].id);
            i = i + 1;
        }
        ids
    }

    /// The number of workers in the pool.
    pub fn pool_size(&self) -> (r: usize)
        ensures
            r == self@.workers.len(),
    {
        self.pool.len()
    }

    /// Makes room for a new worker and gives its id. Fails with `PoolFull`
    /// where the pool holds as many workers as it may, and with
    /// `ProcessStartError` where no id is left to give.
    fn create_process(&mut self, now: u64) -> (r: Result<usize, PythonManagerError>)
        requires
            old(self)@.wf(),
        ensures
            final(self)@.wf(),
            final(self).interpreter() == old(self).interpreter(),
            old(self)@.has_room() ==> r == Ok::<usize, PythonManagerError>(old(self)@.next_id)
                && final(self)@ == old(self)@.grown(now),
            !old(self)@.has_room() ==> r is Err && final(self)@ == old(self)@,
            old(self)@.workers.len() >= old(self)@.max_pool_size ==> r == Err::<
                usize,
                PythonManagerError,
            >(PythonManagerError::PoolFull),
            old(self)@.workers.len() < old(self)@.max_pool_size && r is Err ==> r->Err_0
                is ProcessStartError,
    {
        if self.pool.len() >= self.max_pool_size {
            return Err(PythonManagerError::PoolFull);
        }
        if self.next_process_id == usize::MAX {
            return Err(
                PythonManagerError::ProcessStartError(String::from_str("worker ids exhausted")),
            );
        }
        proof {
            old(self)@.lemma_grown_wf(now);
        }
        let id = self.next_process_id;
        self.pool.push(PythonProcess { id, last_used: now, is_available: true });
        self.next_process_id = self.next_process_id + 1;
        Ok(id)
    }

    /// Makes room for the workers that are started before the first
    /// request, half the pool rounded up, and gives their ids. Where the
    /// pool cannot take that many, it takes those it can and the call fails.
    pub fn start(&mut self, now: u64) -> (r: Result<Vec<usize>, PythonManagerError>)
        requires
            old(self)@.wf(),
        ensures
            final(self)@.wf(),
            final(self).interpreter() == old(self).interpreter(),
            final(self)@ == old(self)@.grown_by(
                old(self)@.room_for(warm_count(old(self)@.max_pool_size)),
                now,
            ),
            r is Ok <==> old(self)@.room_for(warm_count(old(self)@.max_pool_size)) == warm_count(
                old(self)@.max_pool_size,
            ),
            r matches Ok(ids) ==> ids@.len() == warm_count(old(self)@.max_pool_size) && forall|
                i: int,
            |
                0 <= i < ids@.len() ==> ids@[i] == old(self)@.next_id + i,
            r matches Err(e) ==> if final(self)@.workers.len() >= final(self)@.max_pool_size {
                e == PythonManagerError::PoolFull
            } else {
                e is ProcessStartError
            },
    {
        let wanted = self.max_pool_size / 2 + self.max_pool_size % 2;
        let mut ids: Vec<usize> = Vec::new();
        let mut i: usize = 0;
        while i < wanted
            invariant
                i <= wanted,
                wanted == warm_count(old(self)@.max_pool_size),
                self@.wf(),
                self.interpreter() == old(self).interpreter(),
                self@ == old(self)@.grown_by(i as int, now),
                self@.max_pool_size == old(self)@.max_pool_size,
                self@.workers.len() == old(self)@.workers.len() + i,
                self@.next_id == old(self)@.next_id + i,
                ids@.len() == i,
                forall|j: int| 0 <= j < i ==> ids@[j] == old(self)@.next_id + j,
            decreases wanted - i,
        {
            match self.create_process(now) {
                Ok(id) => {
                    ids.push(id);
                },
                Err(e) => {
                    return Err(e);
                },
            }
            i = i + 1;
        }
        Ok(ids)
    }

    /// Empties the pool and gives the ids of the workers that have to be
    /// ended.
    pub fn stop(&mut self) -> (r: Vec<usize>)
        ensures
            final(self)@.wf(),
            final(self).interpreter() == old(self).interpreter(),
            final(self)@.workers.len() == 0,
            final(self)@.max_pool_size == old(self)@.max_pool_size,
            final(self)@.next_id == old(self)@.next_id,
            r@.len() == old(self)@.workers.len(),
            forall|i: int| 0 <= i < r@.len() ==> r@[i] == old(self)@.workers[i].id,
    {
        let ids = self.worker_ids();
        self.pool.clear();
        ids
    }

    /// Drops the workers whose id is in `dead`, the workers that the caller
    /// has found to have died.
    pub fn cleanup_zombie_processes(&mut self, dead: &[usize])
        requires
            old(self)@.wf(),
        ensures
            final(self)@.wf(),
            final(self).interpreter() == old(self).interpreter(),
            final(self)@ == old(self)@.pruned(dead@),
    {
        proof {
            lemma_pruned_wf(old(self)@, dead@);
        }
        let mut alive: Vec<PythonProcess> = Vec::new();
        let mut i: usize = 0;
        while i < self.pool.len()
            invariant
                i <= self.pool.len(),
                *self == *old(self),
                alive@ == kept(self.pool@, dead@, i as int),
            decreases self.pool.len() - i,
        {
            if !is_among(dead, self.pool[i].id) {
                alive.push(self.pool[i]);
            }
            i = i + 1;
        }
        self.pool = alive;
    }

    fn find_free(&self) -> (r: Option<usize>)
        ensures
            match r {
                Some(i) => is_first_free(self@.workers, i as int),
                None => none_free(self@.workers),
            },
    {
        let mut i: usize = 0;
        while i < self.pool.len()
            invariant
                i <= self.pool.len(),
                forall|j: int| 0 <= j < i ==> !(#[trigger] self@.workers[j]).is_available,
            decreases self.pool.len() - i,
        {
            if self.pool[i].is_available {
                return Some(i);
            }
            i = i + 1;
        }
        None
    }

    fn find_id(&self, id: usize) -> (r: Option<usize>)
        ensures
            match r {
                Some(i) => is_first_with(self@.workers, id, i as int),
                None => none_with(self@.workers, id),
            },
    {
        let mut i: usize = 0;
        while i < self.pool.len()
            invariant
                i <= self.pool.len(),
                forall|j: int| 0 <= j < i ==> (#[trigger] self@.workers[j]).id != id,
            decreases self.pool.len() - i,
        {
            if self.pool[i].id == id {
                return Some(i);
            }
            i = i + 1;
        }
        None
    }

    /// Hands out a worker. The workers in `dead` are dropped first. Then
    /// the first free worker is handed out; where none is free the pool
    /// grows by a worker, which the caller has to start; where it may not
    /// grow the call fails with `NoAvailableProcess`.
    pub fn get_process(&mut self, dead: &[usize], now: u64) -> (r: Result<
        Lease,
        PythonManagerError,
    >)
        requires
            old(self)@.wf(),
        ensures
            final(self)@.wf(),
            final(self).interpreter() == old(self).interpreter(),
            ({
                let alive = old(self)@.pruned(dead@);
                if exists|i: int| is_first_free(alive.workers, i) {
                    let i = choose|i: int| is_first_free(alive.workers, i);
                    r == Ok::<Lease, PythonManagerError>(Lease::Reused(alive.workers[i].id))
                        && final(self)@ == alive.leased(i, now)
                } else if alive.has_room() {
                    r == Ok::<Lease, PythonManagerError>(Lease::Spawned(alive.next_id))
                        && final(self)@ == alive.grown(now).leased(
                        alive.workers.len() as int,
                        now,
                    )
                } else if alive.workers.len() >= alive.max_pool_size {
                    r == Err::<Lease, PythonManagerError>(PythonManagerError::NoAvailableProcess)
                        && final(self)@ == alive
                } else {
                    r is Err && r->Err_0 is ProcessStartError && final(self)@ == alive
                }
            }),
    {
        self.cleanup_zombie_processes(dead);
        let ghost alive = self@;
        match self.find_free() {
            Some(i) => {
                proof {
                    let c = choose|c: int| is_first_free(alive.workers, c);
                    if c < i {
                        assert(!alive.workers[c].is_available);
                    } else if i < c {
                        assert(!alive.workers[i as int].is_available);
                    }
                    alive.lemma_marked_wf(i as int, now);
                }
                let id = self.pool[i].id;
                self.pool.set(i, PythonProcess { id, last_used: now, is_available: false });
                Ok(Lease::Reused(id))
            },
            None => {
                proof {
                    assert forall|i: int| !is_first_free(alive.workers, i) by {
                        if is_first_free(alive.workers, i) {
                            assert(!alive.workers[i].is_available);
                        }
                    }
                }
                if self.pool.len() >= self.max_pool_size {
                    return Err(PythonManagerError::NoAvailableProcess);
                }
                match self.create_process(now) {
                    Ok(id) => {
                        let at = self.pool.len() - 1;
                        proof {
                            alive.grown(now).lemma_marked_wf(at as int, now);
                        }
                        self.pool.set(
                            at,
                            PythonProcess { id, last_used: now, is_available: false },
                        );
                        Ok(Lease::Spawned(id))
                    },
                    Err(e) => Err(e),
                }
            },
        }
    }

    /// Takes the worker `process_id` back, so that it is free again. A
    /// worker that the pool does not hold is ignored.
    pub fn release_process(&mut self, process_id: usize, now: u64)
        requires
            old(self)@.wf(),
        ensures
            final(self)@.wf(),
            final(self).interpreter() == old(self).interpreter(),
            none_with(old(self)@.workers, process_id) ==> final(self)@ == old(self)@,
            forall|i: int|
                #[trigger] is_first_with(old(self)@.workers, process_id, i) ==> final(self)@
                    == old(self)@.released(i, now),
    {
        match self.find_id(process_id) {
            Some(i) => {
                proof {
                    old(self)@.lemma_marked_wf(i as int, now);
                    assert forall|k: int|
                        is_first_with(old(self)@.workers, process_id, k) implies k == i by {
                        if k < i {
                            assert(old(self)@.workers[k].id != process_id);
                        } else if i < k {
                            assert(old(self)@.workers[i as int].id != process_id);
                        }
                    }
                }
                self.pool.set(
                    i,
                    PythonProcess { id: process_id, last_used: now, is_available: true },
                );
            },
            None => {
                proof {
                    assert forall|k: int|
                        !is_first_with(old(self)@.workers, process_id, k) by {
                        if is_first_with(old(self)@.workers, process_id, k) {
                            assert(old(self)@.workers[k].id != process_id);
                        }
                    }
                }
            },
        }
    }

    /// Replaces the worker `process_id`: the caller has to end it, and to
    /// start a new worker under the id that is given back. Where the pool
    /// can take no new worker, the old one is dropped all the same and the
    /// call fails.
    pub fn restart_process(&mut self, process_id: usize, now: u64) -> (r: Result<
        usize,
        PythonManagerError,
    >)
        requires
            old(self)@.wf(),
        ensures
            final(self)@.wf(),
            final(self).interpreter() == old(self).interpreter(),
            final(self)@ == old(self)@.restarted(process_id, now),
            final(self)@.workers.len() <= final(self)@.max_pool_size,
            old(self)@.dropped(process_id).has_room() ==> r == Ok::<usize, PythonManagerError>(
                old(self)@.next_id,
            ),
            !old(self)@.dropped(process_id).has_room() ==> r is Err,
    {
        proof {
            old(self)@.lemma_restarted_wf(process_id, now);
        }
        match self.find_id(process_id) {
            Some(i) => {
                proof {
                    old(self)@.lemma_first_with(process_id, i as int);
                    old(self)@.lemma_without_wf(i as int);
                }
                let _ = self.pool.remove(i);
            },
            None => {
                proof {
                    assert forall|k: int|
                        !is_first_with(old(self)@.workers, process_id, k) by {
                        if is_first_with(old(self)@.workers, process_id, k) {
                            assert(old(self)@.workers[k].id != process_id);
                        }
                    }
                }
            },
        }
        self.create_process(now)
    }

    /// The ids of the workers that have been idle for longer than the
    /// limit, in pool order.
    fn stale(&self, now: u64) -> (r: Vec<usize>)
        ensures
            r@ == stale_ids(self@.workers, now, self@.workers.len() as int),
    {
        let mut ids: Vec<usize> = Vec::new();
        let mut i: usize = 0;
        while i < self.pool.len()
            invariant
                i <= self.pool.len(),
                ids@ == stale_ids(self@.workers, now, i as int),
            decreases self.pool.len() - i,
        {
            let w = self.pool[i];
            if now >= w.last_used && now - w.last_used > IDLE_LIMIT_SECS {
                ids.push(w.id);
            }
            i = i + 1;
        }
        ids
    }

    /// Drops the workers in `dead`, and restarts every worker that has been
    /// idle for longer than the limit. Gives, for each restart, the id of
    /// the worker to end and the id under which to start its replacement,
    /// if the pool could take one.
    pub fn health_check(&mut self, dead: &[usize], now: u64) -> (r: Vec<(usize, Option<usize>)>)
        requires
            old(self)@.wf(),
        ensures
            final(self)@.wf(),
            final(self).interpreter() == old(self).interpreter(),
            final(self)@ == old(self)@.health_checked(dead@, now),
            final(self)@.workers.len() <= final(self)@.max_pool_size,
            r@.len() == old(self)@.stale_after(dead@, now).len(),
            forall|i: int|
                0 <= i < r@.len() ==> (#[trigger] r@[i]) == old(self)@.pruned(dead@).restart_step(
                    old(self)@.stale_after(dead@, now),
                    i,
                    now,
                ),
    {
        self.cleanup_zombie_processes(dead);
        let ghost alive = self@;
        let to_restart = self.stale(now);
        let mut plan: Vec<(usize, Option<usize>)> = Vec::new();
        let mut i: usize = 0;
        while i < to_restart.len()
            invariant
                i <= to_restart.len(),
                alive.wf(),
                self@.wf(),
                self.interpreter() == old(self).interpreter(),
                self@ == alive.restarted_all(to_restart@, i as int, now),
                plan@.len() == i,
                forall|j: int|
                    0 <= j < i ==> (#[trigger] plan@[j]) == alive.restart_step(to_restart@, j, now),
            decreases to_restart.len() - i,
        {
            let id = to_restart[i];
            let replacement = match self.restart_process(id, now) {
                Ok(new_id) => Some(new_id),
                Err(_) => None,
            };
            plan.push((id, replacement));
            i = i + 1;
        }
        plan
    }
}

} // verus!
