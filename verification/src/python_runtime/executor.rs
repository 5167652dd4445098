use std::collections::HashMap;
use std::time::Duration;
use vstd::prelude::*;
use vstd::string::StringExecFns;

use crate::python_runtime::manager::{
    is_first_free, is_first_with, none_with, Lease, ManagerView, PythonManager, PythonManagerError,
};
use crate::python_runtime::protocol::{
    ExecuteParams, ExecutionResult, JsonRpcError, JsonRpcRequest, JsonRpcResponse,
};
use crate::types::decimal::{decimal, print_decimal};


verus! {

/// Why a script could not be run.
#[derive(Debug, PartialEq, Eq)]
pub enum PythonError {
    ProcessStartError(String),
    /// The caller gave up after this many seconds.
    Timeout(u64),
    /// The worker's answer could not be read; the text says why.
    JsonError(String),
    /// The script failed, or the worker answered without a result.
    ExecutionError(String),
    MemoryLimitExceeded,
    ManagerError(PythonManagerError),
    /// The stream to or from the worker failed; the text says why.
    IoError(String),
}

impl PythonError {
    /// The error as a line of text.
    pub open spec fn message(&self) -> Seq<char> {
        match self {
            PythonError::ProcessStartError(why) => "进程启动失败: "@ + why@,
            PythonError::Timeout(secs) => "执行超时 (> "@ + decimal(*secs as nat) + "s)"@,
            PythonError::JsonError(why) => "JSON 解析错误: "@ + why@,
            PythonError::ExecutionError(why) => "Python 执行错误: "@ + why@,
            PythonError::MemoryLimitExceeded => "内存限制超出"@,
            PythonError::ManagerError(e) => "管理器错误: "@ + e.message(),
            PythonError::IoError(why) => "I/O 错误: "@ + why@,
        }
    }

    /// The error as a line of text.
    pub fn to_string(&self) -> (r: String)
        ensures
            r@ == self.message(),
    {
        match self {
            PythonError::ProcessStartError(why) => String::from_str("进程启动失败: ").concat(
                why.as_str(),
            ),
            PythonError::Timeout(secs) => {
                let mut msg = String::from_str("执行超时 (> ");
                let number = print_decimal(*secs);
                msg.append(number.as_str());
                msg.append("s)");
                msg
            },
            PythonError::JsonError(why) => String::from_str("JSON 解析错误: ").concat(why.as_str()),
            PythonError::ExecutionError(why) => String::from_str("Python 执行错误: ").concat(
                why.as_str(),
            ),
            PythonError::MemoryLimitExceeded => String::from_str("内存限制超出"),
            PythonError::ManagerError(e) => {
                let inner = e.to_string();
                String::from_str("管理器错误: ").concat(inner.as_str())
            },
            PythonError::IoError(why) => String::from_str("I/O 错误: ").concat(why.as_str()),
        }
    }
}

/// The outputs of a script, by name.
pub type ScriptOutputs = HashMap<String, serde_json::Value>;

/// What the caller has seen of a request that it has sent to a worker.
#[derive(Debug, PartialEq)]
pub enum CallEvent {
    /// The worker answered with a line that could be read.
    Responded(JsonRpcResponse),
    /// The worker answered with a line that could not be read as a
    /// response; the text says why.
    Malformed(String),
    /// The stream to or from the worker failed; the text says why.
    IoFailed(String),
    /// The caller gave up waiting after this many seconds.
    TimedOut(u64),
}

/// What the caller has to do to send a request.
#[derive(Debug, PartialEq)]
pub struct CallPlan {
    /// The worker that takes the request. A worker that was spawned has
    /// yet to be started.
    pub lease: Lease,
    /// The request to write to the worker, on one line.
    pub request: JsonRpcRequest,
}

/// How a request ended.
#[derive(Debug, PartialEq)]
pub struct Settlement {
    /// What the caller of the script gets.
    pub result: Result<ScriptOutputs, PythonError>,
    /// The worker that the caller has to end, if any, and the id under
    /// which to start its replacement, if the pool could take one.
    pub replaced: Option<(usize, Option<usize>)>,
}

/// What `from_value` of serde_json makes of `result` when it reads it as
/// a map from names to values: the map, or the words in which its error
/// says why there is none.
pub uninterp spec fn outputs_read(result: serde_json::Value) -> Result<
    Map<String, serde_json::Value>,
    Seq<char>,
>;

/// `from_value` of serde_json, which reads a JSON value as a map from
/// names to values, or says why it cannot: its error is handed on as the
/// text that its `Display` gives.
#[verifier::external_body]
fn outputs_of(result: serde_json::Value) -> (r: Result<ScriptOutputs, String>)
    ensures
        match r {
            Ok(map) => outputs_read(result) == Ok::<Map<String, serde_json::Value>, Seq<char>>(
                map@,
            ),
            Err(why) => outputs_read(result) == Err::<Map<String, serde_json::Value>, Seq<char>>(
                why@,
            ),
        },
{
    serde_json::from_value::<ScriptOutputs>(result).map_err(|e| e.to_string())
}

/// Whether `r` is what the caller of a script gets for a result that was
/// read as `read`: the outputs that were read, or a JSON error with the
/// words of the reader.
pub open spec fn hands_on(
    r: Result<ScriptOutputs, PythonError>,
    read: Result<Map<String, serde_json::Value>, Seq<char>>,
) -> bool {
    match read {
        Ok(map) => r is Ok && r->Ok_0@ == map,
        Err(why) => r is Err && r->Err_0 is JsonError && r->Err_0->JsonError_0@ == why,
    }
}

/// The message for a response that holds neither a result nor an error.
pub open spec fn no_result_message() -> Seq<char> {
    "Python 执行无结果"@
}

/// What a response means for the caller of the script, given what reading
/// its result as outputs came to. An error in the response is the script's
/// failure, whatever else the response holds. Otherwise the outputs are the
/// result; a result that could not be read is a JSON error, and a response
/// without a result is a failure of its own.
pub fn outcome_of(
    error: Option<JsonRpcError>,
    outputs: Option<Result<ScriptOutputs, String>>,
) -> (r: Result<ScriptOutputs, PythonError>)
    ensures
        match (error, outputs) {
            (Some(e), _) => r == Err::<ScriptOutputs, PythonError>(
                PythonError::ExecutionError(e.message),
            ),
            (None, Some(Ok(map))) => r == Ok::<ScriptOutputs, PythonError>(map),
            (None, Some(Err(why))) => r == Err::<ScriptOutputs, PythonError>(
                PythonError::JsonError(why),
            ),
            (None, None) => r is Err && r->Err_0 is ExecutionError && r->Err_0->ExecutionError_0@
                == no_result_message(),
        },
{
    match error {
        Some(e) => Err(PythonError::ExecutionError(e.message)),
        None => match outputs {
            Some(Ok(map)) => Ok(map),
            Some(Err(why)) => Err(PythonError::JsonError(why)),
            None => Err(PythonError::ExecutionError(String::from_str("Python 执行无结果"))),
        },
    }
}

/// What a response means for the caller of the script; see [`outcome_of`].
/// A result is read as a map from names to values.
pub fn settle_response(response: JsonRpcResponse) -> (r: Result<ScriptOutputs, PythonError>)
    ensures
        response.error is Some ==> r == Err::<ScriptOutputs, PythonError>(
            PythonError::ExecutionError(response.error->0.message),
        ),
        response.error is None && response.result is None ==> r is Err && r->Err_0
            is ExecutionError && r->Err_0->ExecutionError_0@ == no_result_message(),
        response.error is None && response.result is Some ==> hands_on(
            r,
            outputs_read(response.result->0),
        ),
{
    let JsonRpcResponse { jsonrpc: _, result, error, id: _ } = response;
    if error.is_some() {
        return outcome_of(error, None);
    }
    let outputs = match result {
        Some(value) => Some(outputs_of(value)),
        None => None,
    };
    outcome_of(error, outputs)
}

/// Whether `request` asks a worker to run `code` on `inputs` under the id
/// `id`: version `2.0`, method `execute_python`.
pub open spec fn is_request_for(
    request: JsonRpcRequest,
    code: Seq<char>,
    inputs: ScriptOutputs,
    id: u64,
) -> bool {
    &&& request.jsonrpc@ == "2.0"@
    &&& request.method@ == "execute_python"@
    &&& request.params.code@ == code
    &&& request.params.inputs == inputs
    &&& request.id == id
}

/// The request that asks a worker to run `code` on `inputs`.
pub fn build_request(code: &str, inputs: ScriptOutputs, id: u64) -> (r: JsonRpcRequest)
    ensures
        is_request_for(r, code@, inputs, id),
{
    JsonRpcRequest {
        jsonrpc: String::from_str("2.0"),
        method: String::from_str("execute_python"),
        params: ExecuteParams { code: code.to_owned(), inputs },
        id,
    }
}

/// The outputs of a script as a result that tells of success.
pub fn successful(outputs: ScriptOutputs) -> (r: ExecutionResult)
    ensures
        r.outputs == outputs,
        r.success,
        r.error is None,
{
    ExecutionResult { outputs, success: true, error: None }
}

/// Whether `after` is `before` with the worker `worker` taken back: the
/// first worker with this id is free and used at `now`, and a pool without
/// such a worker is as it was.
pub open spec fn released_to(before: ManagerView, after: ManagerView, worker: usize, now: u64)
    -> bool {
    &&& none_with(before.workers, worker) ==> after == before
    &&& forall|i: int|
        #[trigger] is_first_with(before.workers, worker, i) ==> after == before.released(i, now)
}

/// The worker to end and the id of its replacement, where the pool can
/// take one, when the worker `worker` is replaced.
pub open spec fn replacement(before: ManagerView, worker: usize) -> Option<(usize, Option<usize>)> {
    Some(
        (
            worker,
            if before.dropped(worker).has_room() {
                Some(before.next_id)
            } else {
                None
            },
        ),
    )
}

/// Whether `plan` and the pool `after` are what taking a worker from the
/// pool `before` comes to, at the time `now` and with the workers in
/// `dead` gone, for a request to run `code` on `inputs` under the id `id`.
/// The first free worker is taken; where none is free the pool grows by a
/// worker that has yet to be started; where it may not grow the request
/// fails with `NoAvailableProcess`. The plan holds the request.
pub open spec fn begun(
    before: ManagerView,
    after: ManagerView,
    plan: Result<CallPlan, PythonError>,
    code: Seq<char>,
    inputs: ScriptOutputs,
    id: u64,
    dead: Seq<usize>,
    now: u64,
) -> bool {
    let alive = before.pruned(dead);
    &&& if exists|i: int| is_first_free(alive.workers, i) {
        let i = choose|i: int| is_first_free(alive.workers, i);
        plan is Ok && plan->Ok_0.lease == Lease::Reused(alive.workers[i].id) && after
            == alive.leased(i, now)
    } else if alive.has_room() {
        plan is Ok && plan->Ok_0.lease == Lease::Spawned(alive.next_id) && after == alive.grown(
            now,
        ).leased(alive.workers.len() as int, now)
    } else if alive.workers.len() >= alive.max_pool_size {
        plan == Err::<CallPlan, PythonError>(
            PythonError::ManagerError(PythonManagerError::NoAvailableProcess),
        ) && after == alive
    } else {
        plan is Err && plan->Err_0 is ManagerError && after == alive
    }
    &&& plan is Ok ==> is_request_for(plan->Ok_0.request, code, inputs, id)
}

/// Whether `r` and the pool `after` are what the request that went to the
/// worker `worker` of the pool `before` comes to, once the caller has seen
/// `event` at the time `now`.
///
/// A worker that answered is free again and stays in the pool, and nobody
/// is replaced. Its answer is the script's failure where it holds an error,
/// a failure of its own where it holds neither error nor result, and else
/// what reading the result gives. A line that could not be read is a JSON
/// error. A worker whose stream failed, or on which the caller gave up
/// waiting, leaves the pool for a new worker under a new id, and the
/// request fails with an I/O error or a timeout.
pub open spec fn settled(
    before: ManagerView,
    after: ManagerView,
    worker: usize,
    event: CallEvent,
    now: u64,
    r: Settlement,
) -> bool {
    match event {
        CallEvent::Responded(response) => {
            &&& r.replaced is None
            &&& released_to(before, after, worker, now)
            &&& response.error is Some ==> r.result == Err::<ScriptOutputs, PythonError>(
                PythonError::ExecutionError(response.error->0.message),
            )
            &&& response.error is None && response.result is None ==> r.result is Err
                && r.result->Err_0 is ExecutionError && r.result->Err_0->ExecutionError_0@
                == no_result_message()
            &&& response.error is None && response.result is Some ==> hands_on(
                r.result,
                outputs_read(response.result->0),
            )
        },
        CallEvent::Malformed(why) => {
            &&& r.replaced is None
            &&& released_to(before, after, worker, now)
            &&& r.result == Err::<ScriptOutputs, PythonError>(PythonError::JsonError(why))
        },
        CallEvent::IoFailed(why) => {
            &&& after == before.restarted(worker, now)
            &&& r.result == Err::<ScriptOutputs, PythonError>(PythonError::IoError(why))
            &&& r.replaced == replacement(before, worker)
        },
        CallEvent::TimedOut(secs) => {
            &&& after == before.restarted(worker, now)
            &&& r.result == Err::<ScriptOutputs, PythonError>(PythonError::Timeout(secs))
            &&& r.replaced == replacement(before, worker)
        },
    }
}

/// A worker that answers with an error fails the call with the message of
/// the error and stays in the pool: free, under its id, and nobody is ended
/// or started.
pub proof fn lemma_answer_with_error_keeps_worker(
    before: ManagerView,
    after: ManagerView,
    worker: usize,
    i: int,
    response: JsonRpcResponse,
    now: u64,
    r: Settlement,
)
    requires
        before.wf(),
        is_first_with(before.workers, worker, i),
        response.error is Some,
        settled(before, after, worker, CallEvent::Responded(response), now, r),
    ensures
        r.result == Err::<ScriptOutputs, PythonError>(
            PythonError::ExecutionError(response.error->0.message),
        ),
        r.replaced is None,
        after.wf(),
        after.workers.len() == before.workers.len(),
        after.workers[i].id == worker,
        after.workers[i].is_available,
        after.next_id == before.next_id,
{
    before.lemma_marked_wf(i, now);
}

/// A worker whose stream fails, or on which the caller gives up waiting,
/// fails the call and leaves the pool. Where an id is left to give, a free
/// worker takes its place under an id that no worker has had before, and
/// either way the pool holds no more workers than it may.
pub proof fn lemma_failed_stream_replaces_worker(
    before: ManagerView,
    after: ManagerView,
    worker: usize,
    i: int,
    event: CallEvent,
    now: u64,
    r: Settlement,
)
    requires
        before.wf(),
        is_first_with(before.workers, worker, i),
        event is IoFailed || event is TimedOut,
        settled(before, after, worker, event, now, r),
    ensures
        r.result is Err,
        event is IoFailed ==> r.result->Err_0 == PythonError::IoError(event->IoFailed_0),
        event is TimedOut ==> r.result->Err_0 == PythonError::Timeout(event->TimedOut_0),
        after.wf(),
        after.workers.len() <= after.max_pool_size,
        none_with(after.workers, worker),
        forall|j: int| 0 <= j < before.workers.len() ==> (#[trigger] before.workers[j]).id
            < before.next_id,
        before.next_id < usize::MAX ==> {
            &&& r.replaced == Some((worker, Some(before.next_id)))
            &&& after.workers.len() == before.workers.len()
            &&& after.workers.last().id == before.next_id
            &&& after.workers.last().is_available
        },
        before.next_id == usize::MAX ==> r.replaced == Some((worker, None::<usize>)),
{
    before.lemma_restart_replaces(worker, i, now);
}

/// Whether `r` and the pool `after` are what a whole call comes to whose
/// plan was `plan` and which left the pool as `mid` when it took its
/// worker. A call without a worker fails with the plan's error. Otherwise
/// `exchange` was asked once, with the worker, the request and the time
/// limit of the plan, and has answered with what the caller has seen and
/// when; the call is settled by that as [`settled`] says.
pub open spec fn carried_out<F: FnOnce(Lease, JsonRpcRequest, Duration) -> (CallEvent, u64)>(
    exchange: F,
    mid: ManagerView,
    after: ManagerView,
    plan: Result<CallPlan, PythonError>,
    timeout: Duration,
    r: Settlement,
) -> bool {
    match plan {
        Err(e) => after == mid && r.result == Err::<ScriptOutputs, PythonError>(e) && r.replaced
            is None,
        Ok(p) => exists|event: CallEvent, seen_at: u64|
            #[trigger] exchange.ensures((p.lease, p.request, timeout), (event, seen_at))
                && settled(mid, after, p.lease.id(), event, seen_at, r),
    }
}

/// Runs scripts on a pool of workers. The executor decides; the caller
/// starts and ends processes and moves the lines.
pub struct PythonExecutor {
    manager: PythonManager,
}

impl PythonExecutor {
    /// The pool as contracts speak of it.
    pub closed spec fn pool(&self) -> ManagerView {
        self.manager@
    }

    /// An executor whose pool may grow to `max_pool_size` workers.
    pub fn new(max_pool_size: usize, timeout: Duration, python_path: &str) -> (r: Self)
        ensures
            r.pool().wf(),
            r.pool().workers.len() == 0,
            r.pool().max_pool_size == max_pool_size,
            r.pool().next_id == 0,
    {
        Self { manager: PythonManager::new(max_pool_size, timeout, python_path) }
    }

    /// The pool's bookkeeping.
    pub fn manager(&self) -> (r: &PythonManager)
        ensures
            r@ == self.pool(),
    {
        &self.manager
    }

    /// Makes room for the workers that are started before the first
    /// request, as [`PythonManager::start`] does.
    pub fn start(&mut self, now: u64) -> (r: Result<Vec<usize>, PythonError>)
        requires
            old(self).pool().wf(),
        ensures
            final(self).pool().wf(),
            final(self).pool() == old(self).pool().grown_by(
                old(self).pool().room_for(
                    crate::python_runtime::manager::warm_count(old(self).pool().max_pool_size),
                ),
                now,
            ),
            r is Ok <==> old(self).pool().room_for(
                crate::python_runtime::manager::warm_count(old(self).pool().max_pool_size),
            ) == crate::python_runtime::manager::warm_count(old(self).pool().max_pool_size),
            r is Err ==> r->Err_0 is ManagerError,
    {
        match self.manager.start(now) {
            Ok(ids) => Ok(ids),
            Err(e) => Err(PythonError::ManagerError(e)),
        }
    }

    /// Empties the pool and gives the ids of the workers to end.
    pub fn stop(&mut self) -> (r: Vec<usize>)
        ensures
            final(self).pool().wf(),
            final(self).pool().workers.len() == 0,
            r@.len() == old(self).pool().workers.len(),
            forall|i: int| 0 <= i < r@.len() ==> r@[i] == old(self).pool().workers[i].id,
    {
        self.manager.stop()
    }

    /// Drops the workers in `dead`: workers that have died, or that could
    /// not be started.
    pub fn discard(&mut self, dead: &[usize])
        requires
            old(self).pool().wf(),
        ensures
            final(self).pool().wf(),
            final(self).pool() == old(self).pool().pruned(dead@),
    {
        self.manager.cleanup_zombie_processes(dead);
    }

    /// Drops dead workers and restarts idle ones, as
    /// [`PythonManager::health_check`] does.
    pub fn health_check(&mut self, dead: &[usize], now: u64) -> (r: Vec<(usize, Option<usize>)>)
        requires
            old(self).pool().wf(),
        ensures
            final(self).pool().wf(),
            final(self).pool() == old(self).pool().health_checked(dead@, now),
            r@.len() == old(self).pool().stale_after(dead@, now).len(),
            forall|i: int|
                0 <= i < r@.len() ==> (#[trigger] r@[i]) == old(self).pool().pruned(
                    dead@,
                ).restart_step(old(self).pool().stale_after(dead@, now), i, now),
    {
        self.manager.health_check(dead, now)
    }

    /// Takes a worker for a request to run `code` on `inputs`, as
    /// [`PythonManager::get_process`] does, and builds the request.
    pub fn begin_execute(
        &mut self,
        code: &str,
        inputs: ScriptOutputs,
        request_id: u64,
        dead: &[usize],
        now: u64,
    ) -> (r: Result<CallPlan, PythonError>)
        requires
            old(self).pool().wf(),
        ensures
            final(self).pool().wf(),
            begun(
                old(self).pool(),
                final(self).pool(),
                r,
                code@,
                inputs,
                request_id,
                dead@,
                now,
            ),
    {
        match self.manager.get_process(dead, now) {
            Ok(lease) => Ok(CallPlan { lease, request: build_request(code, inputs, request_id) }),
            Err(e) => Err(PythonError::ManagerError(e)),
        }
    }

    /// Runs `code` on `inputs` on a worker: takes a worker as
    /// [`PythonExecutor::begin_execute`] does, has `exchange` carry the
    /// request to it and bring back what was seen and when, and settles
    /// the call as [`PythonExecutor::finish_execute`] does. `exchange`
    /// starts the worker first where the lease says that it was spawned,
    /// and enforces the time limit. The caller ends and starts the workers
    /// that the settlement names.
    pub fn execute<F: FnOnce(Lease, JsonRpcRequest, Duration) -> (CallEvent, u64)>(
        &mut self,
        code: &str,
        inputs: ScriptOutputs,
        timeout: Duration,
        request_id: u64,
        dead: &[usize],
        now: u64,
        exchange: F,
    ) -> (r: Settlement)
        requires
            old(self).pool().wf(),
            forall|lease: Lease, request: JsonRpcRequest|
                #[trigger] exchange.requires((lease, request, timeout)),
        ensures
            final(self).pool().wf(),
            final(self).pool().workers.len() <= final(self).pool().max_pool_size,
            exists|plan: Result<CallPlan, PythonError>, mid: ManagerView|
                #[trigger] begun(old(self).pool(), mid, plan, code@, inputs, request_id, dead@, now)
                    && carried_out(exchange, mid, final(self).pool(), plan, timeout, r),
    {
        let plan = self.begin_execute(code, inputs, request_id, dead, now);
        let ghost planned = plan;
        let ghost mid = self.pool();
        match plan {
            Err(e) => {
                let r = Settlement { result: Err(e), replaced: None };
                proof {
                    assert(carried_out(exchange, mid, self.pool(), planned, timeout, r));
                }
                r
            },
            Ok(p) => {
                let worker = p.lease.worker();
                let (event, seen_at) = exchange(p.lease, p.request, timeout);
                let ghost seen = event;
                let r = self.finish_execute(worker, event, seen_at);
                proof {
                    assert(exchange.ensures(
                        (planned->Ok_0.lease, planned->Ok_0.request, timeout),
                        (seen, seen_at),
                    ));
                    assert(carried_out(exchange, mid, self.pool(), planned, timeout, r));
                }
                r
            },
        }
    }

    /// Settles a request that went to the worker `worker`. A worker that
    /// answered is free again, whatever it answered: with outputs, with the
    /// error of the script, or with a line that could not be read. A worker
    /// whose stream failed, or on which the caller gave up waiting, is
    /// replaced, and the request fails.
    pub fn finish_execute(&mut self, worker: usize, event: CallEvent, now: u64) -> (r: Settlement)
        requires
            old(self).pool().wf(),
        ensures
            final(self).pool().wf(),
            final(self).pool().workers.len() <= final(self).pool().max_pool_size,
            settled(old(self).pool(), final(self).pool(), worker, event, now, r),
    {
        match event {
            CallEvent::Responded(response) => {
                self.manager.release_process(worker, now);
                Settlement { result: settle_response(response), replaced: None }
            },
            CallEvent::Malformed(why) => {
                self.manager.release_process(worker, now);
                Settlement { result: Err(PythonError::JsonError(why)), replaced: None }
            },
            CallEvent::IoFailed(why) => {
                let replacement = self.replace(worker, now);
                Settlement {
                    result: Err(PythonError::IoError(why)),
                    replaced: Some((worker, replacement)),
                }
            },
            CallEvent::TimedOut(secs) => {
                let replacement = self.replace(worker, now);
                Settlement {
                    result: Err(PythonError::Timeout(secs)),
                    replaced: Some((worker, replacement)),
                }
            },
        }
    }

    fn replace(&mut self, worker: usize, now: u64) -> (r: Option<usize>)
        requires
            old(self).pool().wf(),
        ensures
            final(self).pool().wf(),
            final(self).pool().workers.len() <= final(self).pool().max_pool_size,
            final(self).pool() == old(self).pool().restarted(worker, now),
            r == if old(self).pool().dropped(worker).has_room() {
                Some(old(self).pool().next_id)
            } else {
                None
            },
    {
        match self.manager.restart_process(worker, now) {
            Ok(id) => Some(id),
            Err(_) => None,
        }
    }
}

} // verus!
