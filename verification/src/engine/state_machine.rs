use std::time::Duration;
use vstd::prelude::*;
use vstd::string::StringExecFns;

use crate::types::{DataValue, DataValueView};

verus! {

/// The id of an edge, as a branching node records the edge it selected.
pub type EdgeId = String;

/// The error that put a node into its error state.
#[derive(Debug, PartialEq, Eq)]
pub struct NodeError {
    pub message: String,
    pub code: u32,
    pub details: Option<String>,
}

/// Mathematical model of a [`NodeError`].
pub struct NodeErrorView {
    pub message: Seq<char>,
    pub code: u32,
    pub details: Option<Seq<char>>,
}

impl View for NodeError {
    type V = NodeErrorView;

    open spec fn view(&self) -> NodeErrorView {
        NodeErrorView {
            message: self.message@,
            code: self.code,
            details: match self.details {
                Some(d) => Some(d@),
                None => None,
            },
        }
    }
}

impl NodeError {
    pub fn new(message: String, code: u32, details: Option<String>) -> (r: Self)
        ensures
            r.message == message,
            r.code == code,
            r.details == details,
    {
        Self { message, code, details }
    }

    /// Whether two errors hold the same message, code and details.
    pub fn same(&self, other: &NodeError) -> (r: bool)
        ensures
            r == (self@ == other@),
    {
        let details_same = match (&self.details, &other.details) {
            (Some(a), Some(b)) => *a == *b,
            (None, None) => true,
            _ => false,
        };
        self.message == other.message && self.code == other.code && details_same
    }
}

impl Clone for NodeError {
    fn clone(&self) -> (r: Self)
        ensures
            r@ == self@,
    {
        let details = match &self.details {
            Some(d) => Some(d.clone()),
            None => None,
        };
        NodeError { message: self.message.clone(), code: self.code, details }
    }
}

/// What the engine is advised to do about a node's error.
#[derive(Debug, PartialEq, Eq)]
pub enum RecoveryAction {
    ImmediateFail,
    Retry { max_attempts: u32, backoff: Duration },
    Fallback { value: DataValue },
    Skip,
}

/// Mathematical model of a [`RecoveryAction`].
pub enum RecoveryActionView {
    ImmediateFail,
    Retry { max_attempts: u32, backoff: Duration },
    Fallback { value: DataValueView },
    Skip,
}

impl View for RecoveryAction {
    type V = RecoveryActionView;

    open spec fn view(&self) -> RecoveryActionView {
        match self {
            RecoveryAction::ImmediateFail => RecoveryActionView::ImmediateFail,
            RecoveryAction::Retry { max_attempts, backoff } => RecoveryActionView::Retry {
                max_attempts: *max_attempts,
                backoff: *backoff,
            },
            RecoveryAction::Fallback { value } => RecoveryActionView::Fallback { value: value@ },
            RecoveryAction::Skip => RecoveryActionView::Skip,
        }
    }
}

/// `Duration`'s `==` from the standard library, which holds exactly of two
/// equal spans of time.
#[verifier::external_body]
fn same_duration(a: &Duration, b: &Duration) -> (r: bool)
    ensures
        r == (*a == *b),
{
    a == b
}

impl RecoveryAction {
    /// Whether two actions are the same, parameters included.
    pub fn same(&self, other: &RecoveryAction) -> (r: bool)
        ensures
            r == (self@ == other@),
    {
        match (self, other) {
            (RecoveryAction::ImmediateFail, RecoveryAction::ImmediateFail) => true,
            (
                RecoveryAction::Retry { max_attempts: ma, backoff: ba },
                RecoveryAction::Retry { max_attempts: mb, backoff: bb },
            ) => *ma == *mb && same_duration(ba, bb),
            (RecoveryAction::Fallback { value: a }, RecoveryAction::Fallback { value: b }) => {
                a.same(b)
            },
            (RecoveryAction::Skip, RecoveryAction::Skip) => true,
            _ => false,
        }
    }
}

impl Clone for RecoveryAction {
    fn clone(&self) -> (r: Self)
        ensures
            r@ == self@,
    {
        match self {
            RecoveryAction::ImmediateFail => RecoveryAction::ImmediateFail,
            RecoveryAction::Retry { max_attempts, backoff } => RecoveryAction::Retry {
                max_attempts: *max_attempts,
                backoff: *backoff,
            },
            RecoveryAction::Fallback { value } => RecoveryAction::Fallback {
                value: value.duplicate(),
            },
            RecoveryAction::Skip => RecoveryAction::Skip,
        }
    }
}

/// Everything that is known about a node's error.
#[derive(Debug, PartialEq, Eq)]
pub struct ErrorInfo {
    pub error: NodeError,
    pub recoverable: bool,
    pub retry_count: u32,
    pub suggested_action: RecoveryAction,
}

/// Mathematical model of an [`ErrorInfo`].
pub struct ErrorInfoView {
    pub error: NodeErrorView,
    pub recoverable: bool,
    pub retry_count: u32,
    pub suggested_action: RecoveryActionView,
}

impl View for ErrorInfo {
    type V = ErrorInfoView;

    open spec fn view(&self) -> ErrorInfoView {
        ErrorInfoView {
            error: self.error@,
            recoverable: self.recoverable,
            retry_count: self.retry_count,
            suggested_action: self.suggested_action@,
        }
    }
}

/// What the engine does about a node's error.
#[derive(Debug, PartialEq, Eq)]
pub enum Resolution {
    /// The run ends with the error.
    FailRun,
    /// The node runs again once this time has passed.
    RetryAfter(Duration),
    /// The node counts as done, with this value for its output.
    Substitute(DataValue),
    /// The run goes on without the node.
    SkipNode,
}

/// Mathematical model of a [`Resolution`].
pub enum ResolutionView {
    FailRun,
    RetryAfter(Duration),
    Substitute(DataValueView),
    SkipNode,
}

impl View for Resolution {
    type V = ResolutionView;

    open spec fn view(&self) -> ResolutionView {
        match self {
            Resolution::FailRun => ResolutionView::FailRun,
            Resolution::RetryAfter(backoff) => ResolutionView::RetryAfter(*backoff),
            Resolution::Substitute(value) => ResolutionView::Substitute(value@),
            Resolution::SkipNode => ResolutionView::SkipNode,
        }
    }
}

impl ErrorInfoView {
    /// What the engine does about the error. An error that is not
    /// recoverable ends the run, whatever action it suggests. A
    /// recoverable error is handled as it suggests; a retry is granted
    /// while fewer attempts were made than it allows.
    pub open spec fn resolution(self) -> ResolutionView {
        if !self.recoverable {
            ResolutionView::FailRun
        } else {
            match self.suggested_action {
                RecoveryActionView::ImmediateFail => ResolutionView::FailRun,
                RecoveryActionView::Retry { max_attempts, backoff } => if self.retry_count
                    < max_attempts {
                    ResolutionView::RetryAfter(backoff)
                } else {
                    ResolutionView::FailRun
                },
                RecoveryActionView::Fallback { value } => ResolutionView::Substitute(value),
                RecoveryActionView::Skip => ResolutionView::SkipNode,
            }
        }
    }
}

impl ErrorInfo {
    /// What the engine does about the error; see
    /// [`ErrorInfoView::resolution`].
    pub fn resolution(&self) -> (r: Resolution)
        ensures
            r@ == self@.resolution(),
    {
        if !self.recoverable {
            return Resolution::FailRun;
        }
        match &self.suggested_action {
            RecoveryAction::ImmediateFail => Resolution::FailRun,
            RecoveryAction::Retry { max_attempts, backoff } => {
                if self.retry_count < *max_attempts {
                    Resolution::RetryAfter(*backoff)
                } else {
                    Resolution::FailRun
                }
            },
            RecoveryAction::Fallback { value } => Resolution::Substitute(value.duplicate()),
            RecoveryAction::Skip => Resolution::SkipNode,
        }
    }

    /// Whether two error records are the same in every field.
    pub fn same(&self, other: &ErrorInfo) -> (r: bool)
        ensures
            r == (self@ == other@),
    {
        self.error.same(&other.error) && self.recoverable == other.recoverable && self.retry_count
            == other.retry_count && self.suggested_action.same(&other.suggested_action)
    }
}

impl Clone for ErrorInfo {
    fn clone(&self) -> (r: Self)
        ensures
            r@ == self@,
    {
        ErrorInfo {
            error: self.error.clone(),
            recoverable: self.recoverable,
            retry_count: self.retry_count,
            suggested_action: self.suggested_action.clone(),
        }
    }
}

/// What a running node is doing.
#[derive(Debug, PartialEq, Eq)]
pub enum RunningSubState {
    Normal,
    AwaitingInput,
    /// `total` is `None` for a loop without a bound.
    Iterating { current: usize, total: Option<usize> },
    Branching { condition: bool, selected_branch: EdgeId },
    Concurrent { active_tasks: usize },
}

/// Mathematical model of a [`RunningSubState`].
pub enum RunningSubStateView {
    Normal,
    AwaitingInput,
    Iterating { current: usize, total: Option<usize> },
    Branching { condition: bool, selected_branch: Seq<char> },
    Concurrent { active_tasks: usize },
}

impl View for RunningSubState {
    type V = RunningSubStateView;

    open spec fn view(&self) -> RunningSubStateView {
        match self {
            RunningSubState::Normal => RunningSubStateView::Normal,
            RunningSubState::AwaitingInput => RunningSubStateView::AwaitingInput,
            RunningSubState::Iterating { current, total } => RunningSubStateView::Iterating {
                current: *current,
                total: *total,
            },
            RunningSubState::Branching { condition, selected_branch } => {
                RunningSubStateView::Branching {
                    condition: *condition,
                    selected_branch: selected_branch@,
                }
            },
            RunningSubState::Concurrent { active_tasks } => RunningSubStateView::Concurrent {
                active_tasks: *active_tasks,
            },
        }
    }
}

impl RunningSubStateView {
    /// The name of a sub-state in logs.
    pub open spec fn name(self) -> Seq<char> {
        match self {
            RunningSubStateView::Normal => "Running::Normal"@,
            RunningSubStateView::AwaitingInput => "Running::AwaitingInput"@,
            RunningSubStateView::Iterating { .. } => "Running::Iterating"@,
            RunningSubStateView::Branching { .. } => "Running::Branching"@,
            RunningSubStateView::Concurrent { .. } => "Running::Concurrent"@,
        }
    }
}

impl RunningSubState {
    /// Whether two sub-states are the same, parameters included.
    pub fn same(&self, other: &RunningSubState) -> (r: bool)
        ensures
            r == (self@ == other@),
    {
        match (self, other) {
            (RunningSubState::Normal, RunningSubState::Normal) => true,
            (RunningSubState::AwaitingInput, RunningSubState::AwaitingInput) => true,
            (
                RunningSubState::Iterating { current: ca, total: ta },
                RunningSubState::Iterating { current: cb, total: tb },
            ) => {
                let totals_same = match (ta, tb) {
                    (Some(x), Some(y)) => *x == *y,
                    (None, None) => true,
                    _ => false,
                };
                *ca == *cb && totals_same
            },
            (
                RunningSubState::Branching { condition: ca, selected_branch: sa },
                RunningSubState::Branching { condition: cb, selected_branch: sb },
            ) => *ca == *cb && *sa == *sb,
            (
                RunningSubState::Concurrent { active_tasks: a },
                RunningSubState::Concurrent { active_tasks: b },
            ) => *a == *b,
            _ => false,
        }
    }
}

impl Clone for RunningSubState {
    fn clone(&self) -> (r: Self)
        ensures
            r@ == self@,
    {
        match self {
            RunningSubState::Normal => RunningSubState::Normal,
            RunningSubState::AwaitingInput => RunningSubState::AwaitingInput,
            RunningSubState::Iterating { current, total } => RunningSubState::Iterating {
                current: *current,
                total: *total,
            },
            RunningSubState::Branching { condition, selected_branch } => {
                RunningSubState::Branching {
                    condition: *condition,
                    selected_branch: selected_branch.clone(),
                }
            },
            RunningSubState::Concurrent { active_tasks } => RunningSubState::Concurrent {
                active_tasks: *active_tasks,
            },
        }
    }
}

/// The state of a node.
#[derive(Debug, PartialEq, Eq)]
pub enum MainState {
    Idle,
    /// Waiting for the nodes it depends on.
    Pending,
    Running(RunningSubState),
    Completed,
    Error(ErrorInfo),
    Cancelled,
}

/// Mathematical model of a [`MainState`].
pub enum MainStateView {
    Idle,
    Pending,
    Running(RunningSubStateView),
    Completed,
    Error(ErrorInfoView),
    Cancelled,
}

impl View for MainState {
    type V = MainStateView;

    open spec fn view(&self) -> MainStateView {
        match self {
            MainState::Idle => MainStateView::Idle,
            MainState::Pending => MainStateView::Pending,
            MainState::Running(sub) => MainStateView::Running(sub@),
            MainState::Completed => MainStateView::Completed,
            MainState::Error(info) => MainStateView::Error(info@),
            MainState::Cancelled => MainStateView::Cancelled,
        }
    }
}

impl MainStateView {
    /// The transition table. A node leaves `Idle` only for `Pending`;
    /// `Pending` for `Running`, `Error` or `Cancelled`; `Running` for another
    /// `Running` sub-state, `Completed`, `Error` or `Cancelled`; `Error` for
    /// `Running`, and only when the error is recoverable. `Completed` and
    /// `Cancelled` are final.
    pub open spec fn allows(self, to: MainStateView) -> bool {
        match self {
            MainStateView::Idle => to is Pending,
            MainStateView::Pending => to is Running || to is Error || to is Cancelled,
            MainStateView::Running(_) => to is Running || to is Completed || to is Error
                || to is Cancelled,
            MainStateView::Completed => false,
            MainStateView::Error(info) => info.recoverable && to is Running,
            MainStateView::Cancelled => false,
        }
    }

    /// The name of a state in logs.
    pub open spec fn name(self) -> Seq<char> {
        match self {
            MainStateView::Idle => "Idle"@,
            MainStateView::Pending => "Pending"@,
            MainStateView::Running(sub) => sub.name(),
            MainStateView::Completed => "Completed"@,
            MainStateView::Error(_) => "Error"@,
            MainStateView::Cancelled => "Cancelled"@,
        }
    }

    /// The message of the error that refuses the step from `self` to `to`.
    pub open spec fn refusal(self, to: MainStateView) -> Seq<char> {
        "Cannot transition from "@ + self.name() + " to "@ + to.name()
    }
}

/// A node leaves its error state only for `Running`, and only where the
/// error is recoverable; a node that is completed or cancelled stays so.
pub proof fn lemma_recovery_and_final_states(info: ErrorInfoView, to: MainStateView)
    ensures
        MainStateView::Error(info).allows(to) <==> info.recoverable && to is Running,
        !MainStateView::Completed.allows(to),
        !MainStateView::Cancelled.allows(to),
{
}

/// Why the state machine refused a request.
#[derive(Debug, PartialEq, Eq)]
pub enum StateError {
    InvalidTransition(String),
    RecoveryFailed(String),
    StateAlreadySet(String),
}

impl StateError {
    /// The text that the error carries.
    pub open spec fn detail(&self) -> Seq<char> {
        match self {
            StateError::InvalidTransition(msg) => msg@,
            StateError::RecoveryFailed(msg) => msg@,
            StateError::StateAlreadySet(msg) => msg@,
        }
    }

    /// The words that introduce each kind of error.
    pub open spec fn prefix(&self) -> Seq<char> {
        match self {
            StateError::InvalidTransition(_) => "Invalid transition: "@,
            StateError::RecoveryFailed(_) => "Recovery failed: "@,
            StateError::StateAlreadySet(_) => "State already set: "@,
        }
    }

    /// The error as a line of text: the kind, a colon, and the detail.
    pub fn to_string(&self) -> (r: String)
        ensures
            r@ == self.prefix() + self.detail(),
    {
        match self {
            StateError::InvalidTransition(msg) => String::from_str("Invalid transition: ").concat(
                msg.as_str(),
            ),
            StateError::RecoveryFailed(msg) => String::from_str("Recovery failed: ").concat(
                msg.as_str(),
            ),
            StateError::StateAlreadySet(msg) => String::from_str("State already set: ").concat(
                msg.as_str(),
            ),
        }
    }
}

impl Clone for StateError {
    fn clone(&self) -> (r: Self)
        ensures
            r.prefix() == self.prefix(),
            r.detail() == self.detail(),
    {
        match self {
            StateError::InvalidTransition(msg) => StateError::InvalidTransition(msg.clone()),
            StateError::RecoveryFailed(msg) => StateError::RecoveryFailed(msg.clone()),
            StateError::StateAlreadySet(msg) => StateError::StateAlreadySet(msg.clone()),
        }
    }
}

impl Clone for MainState {
    fn clone(&self) -> (r: Self)
        ensures
            r@ == self@,
    {
        match self {
            MainState::Idle => MainState::Idle,
            MainState::Pending => MainState::Pending,
            MainState::Running(sub) => MainState::Running(sub.clone()),
            MainState::Completed => MainState::Completed,
            MainState::Error(info) => MainState::Error(info.clone()),
            MainState::Cancelled => MainState::Cancelled,
        }
    }
}

impl MainState {
    /// Whether two states are the same, sub-state and error included.
    pub fn same(&self, other: &MainState) -> (r: bool)
        ensures
            r == (self@ == other@),
    {
        match (self, other) {
            (MainState::Idle, MainState::Idle) => true,
            (MainState::Pending, MainState::Pending) => true,
            (MainState::Running(a), MainState::Running(b)) => a.same(b),
            (MainState::Completed, MainState::Completed) => true,
            (MainState::Error(a), MainState::Error(b)) => a.same(b),
            (MainState::Cancelled, MainState::Cancelled) => true,
            _ => false,
        }
    }

    /// Whether the transition table has the step from this state to `new`.
    pub fn can_transition_to(&self, new: &MainState) -> (r: bool)
        ensures
            r == self@.allows(new@),
    {
        match (self, new) {
            (MainState::Idle, MainState::Pending) => true,
            (MainState::Idle, _) => false,
            (MainState::Pending, MainState::Running(_)) => true,
            (MainState::Pending, MainState::Error(_)) => true,
            (MainState::Pending, MainState::Cancelled) => true,
            (MainState::Pending, _) => false,
            (MainState::Running(_), MainState::Running(_)) => true,
            (MainState::Running(_), MainState::Completed) => true,
            (MainState::Running(_), MainState::Error(_)) => true,
            (MainState::Running(_), MainState::Cancelled) => true,
            (MainState::Running(_), _) => false,
            (MainState::Completed, _) => false,
            (MainState::Error(info), MainState::Running(_)) => info.recoverable,
            (MainState::Error(_), _) => false,
            (MainState::Cancelled, _) => false,
        }
    }

    /// Takes the step to `new` where the table has it, and otherwise refuses
    /// and leaves the state as it was.
    pub fn transition(&mut self, new: MainState) -> (r: Result<(), StateError>)
        ensures
            old(self)@.allows(new@) ==> r is Ok && *final(self) == new,
            !old(self)@.allows(new@) ==> *final(self) == *old(self) && (r matches Err(
                StateError::InvalidTransition(msg),
            ) && msg@ == old(self)@.refusal(new@)),
    {
        if !self.can_transition_to(&new) {
            let mut msg = String::from_str("Cannot transition from ");
            msg.append(self.as_str());
            msg.append(" to ");
            msg.append(new.as_str());
            return Err(StateError::InvalidTransition(msg));
        }
        *self = new;
        Ok(())
    }

    /// The name of the state in logs.
    pub fn as_str(&self) -> (r: &'static str)
        ensures
            r@ == self@.name(),
    {
        match self {
            MainState::Idle => "Idle",
            MainState::Pending => "Pending",
            MainState::Running(substate) => match substate {
                RunningSubState::Normal => "Running::Normal",
                RunningSubState::AwaitingInput => "Running::AwaitingInput",
                RunningSubState::Iterating { .. } => "Running::Iterating",
                RunningSubState::Branching { .. } => "Running::Branching",
                RunningSubState::Concurrent { .. } => "Running::Concurrent",
            },
            MainState::Completed => "Completed",
            MainState::Error(_) => "Error",
            MainState::Cancelled => "Cancelled",
        }
    }
}

/// How often one step was taken.
#[derive(Debug, PartialEq, Eq)]
pub struct TransitionCount {
    pub from: MainState,
    pub to: MainState,
    pub count: usize,
}

/// Counters of the steps taken, one for each pair of states that occurred.
#[derive(Debug, PartialEq, Eq)]
pub struct TransitionCounts {
    entries: Vec<TransitionCount>,
}

impl TransitionCounts {
    /// Whether entry `i` counts the step from `from` to `to`.
    pub closed spec fn is_entry(&self, i: int, from: MainStateView, to: MainStateView) -> bool {
        &&& 0 <= i < self.entries@.len()
        &&& self.entries@[i].from@ == from
        &&& self.entries@[i].to@ == to
    }

    /// No pair of states has two counters, and no counter stands at zero.
    pub closed spec fn wf(&self) -> bool {
        &&& forall|i: int, j: int|
            0 <= i < j < self.entries@.len() ==> !(#[trigger] self.entries@[i].from@
                == #[trigger] self.entries@[j].from@ && self.entries@[i].to@
                == self.entries@[j].to@)
        &&& forall|i: int| 0 <= i < self.entries@.len() ==> (#[trigger] self.entries@[i]).count > 0
    }

    /// How often the step from `from` to `to` was recorded.
    pub closed spec fn count(&self, from: MainStateView, to: MainStateView) -> nat {
        if exists|i: int| self.is_entry(i, from, to) {
            let i = choose|i: int| self.is_entry(i, from, to);
            self.entries@[i].count as nat
        } else {
            0
        }
    }

    /// The number of pairs of states that have a counter.
    pub closed spec fn pairs(&self) -> nat {
        self.entries@.len()
    }

    /// Counters with nothing recorded.
    pub fn new() -> (r: Self)
        ensures
            r.wf(),
            r.pairs() == 0,
            forall|from: MainStateView, to: MainStateView| r.count(from, to) == 0,
    {
        TransitionCounts { entries: Vec::new() }
    }

    /// The number of pairs of states that have a counter.
    pub fn len(&self) -> (r: usize)
        ensures
            r == self.pairs(),
    {
        self.entries.len()
    }

    /// Whether nothing was recorded yet.
    pub fn is_empty(&self) -> (r: bool)
        ensures
            r == (self.pairs() == 0),
    {
        self.entries.len() == 0
    }

    fn find(&self, from: &MainState, to: &MainState) -> (r: Option<usize>)
        ensures
            match r {
                Some(i) => self.is_entry(i as int, from@, to@),
                None => forall|i: int| !self.is_entry(i, from@, to@),
            },
    {
        let mut i: usize = 0;
        while i < self.entries.len()
            invariant
                i <= self.entries.len(),
                forall|j: int| 0 <= j < i ==> !self.is_entry(j, from@, to@),
            decreases self.entries.len() - i,
        {
            if self.entries[i].from.same(from) && self.entries[i].to.same(to) {
                return Some(i);
            }
            i = i + 1;
        }
        None
    }

    /// The counter of the step from `from` to `to`: `None` where that step
    /// was never recorded.
    pub fn get(&self, from: &MainState, to: &MainState) -> (r: Option<usize>)
        requires
            self.wf(),
        ensures
            self.count(from@, to@) == 0 ==> r is None,
            self.count(from@, to@) > 0 ==> r == Some(self.count(from@, to@) as usize),
    {
        match self.find(from, to) {
            Some(i) => {
                proof {
                    self.lemma_count_at(i as int, from@, to@);
                }
                Some(self.entries[i].count)
            },
            None => None,
        }
    }

    /// With no pair counted twice, the counter of a pair is the one entry
    /// that holds it.
    proof fn lemma_count_at(&self, i: int, from: MainStateView, to: MainStateView)
        requires
            self.wf(),
            self.is_entry(i, from, to),
        ensures
            self.count(from, to) == self.entries@[i].count,
            self.count(from, to) > 0,
    {
        let k = choose|k: int| self.is_entry(k, from, to);
        if k < i {
            assert(self.entries@[k].from@ == self.entries@[i].from@);
        } else if i < k {
            assert(self.entries@[i].from@ == self.entries@[k].from@);
        }
    }

    /// Adds one to the counter of the step from `from` to `to`, and leaves
    /// every other counter alone.
    pub fn record(&mut self, from: MainState, to: MainState)
        requires
            old(self).wf(),
            old(self).count(from@, to@) < usize::MAX,
        ensures
            final(self).wf(),
            final(self).count(from@, to@) == old(self).count(from@, to@) + 1,
            forall|f: MainStateView, t: MainStateView|
                !(f == from@ && t == to@) ==> final(self).count(f, t) == old(self).count(f, t),
            final(self).pairs() == old(self).pairs() + (if old(self).count(from@, to@) == 0 {
                1nat
            } else {
                0nat
            }),
    {
        let ghost before = *self;
        match self.find(&from, &to) {
            Some(i) => {
                proof {
                    self.lemma_count_at(i as int, from@, to@);
                }
                let entry = &mut self.entries[i];
                entry.count = entry.count + 1;
                proof {
                    assert(forall|j: int|
                        0 <= j < self.entries@.len() ==> (#[trigger] self.entries@[j]).from
                            == before.entries@[j].from && self.entries@[j].to
                            == before.entries@[j].to);
                    assert(self.wf());
                    assert(self.is_entry(i as int, from@, to@));
                    self.lemma_count_at(i as int, from@, to@);
                    assert forall|f: MainStateView, t: MainStateView|
                        !(f == from@ && t == to@) implies self.count(f, t) == before.count(
                        f,
                        t,
                    ) by {
                        if exists|k: int| before.is_entry(k, f, t) {
                            let k = choose|k: int| before.is_entry(k, f, t);
                            before.lemma_count_at(k, f, t);
                            assert(self.is_entry(k, f, t));
                            self.lemma_count_at(k, f, t);
                        } else {
                            assert forall|k: int| !self.is_entry(k, f, t) by {
                                assert(!before.is_entry(k, f, t));
                            }
                        }
                    }
                }
            },
            None => {
                self.entries.push(TransitionCount { from, to, count: 1 });
                proof {
                    let n = before.entries@.len() as int;
                    assert(forall|j: int|
                        0 <= j < n ==> (#[trigger] self.entries@[j]) == before.entries@[j]);
                    assert forall|i: int, j: int|
                        0 <= i < j < self.entries@.len() implies !(
                    #[trigger] self.entries@[i].from@ == #[trigger] self.entries@[j].from@
                        && self.entries@[i].to@ == self.entries@[j].to@) by {
                        if j == n {
                            assert(!before.is_entry(i, from@, to@));
                        }
                    }
                    assert(self.wf());
                    assert(self.is_entry(n, from@, to@));
                    self.lemma_count_at(n, from@, to@);
                    assert forall|f: MainStateView, t: MainStateView|
                        !(f == from@ && t == to@) implies self.count(f, t) == before.count(
                        f,
                        t,
                    ) by {
                        if exists|k: int| before.is_entry(k, f, t) {
                            let k = choose|k: int| before.is_entry(k, f, t);
                            before.lemma_count_at(k, f, t);
                            assert(self.is_entry(k, f, t));
                            self.lemma_count_at(k, f, t);
                        } else {
                            assert forall|k: int| !self.is_entry(k, f, t) by {
                                if k < n {
                                    assert(!before.is_entry(k, f, t));
                                }
                            }
                        }
                    }
                }
            },
        }
    }
}

/// A node's state together with the record of how it got there: the states
/// it left, oldest first, and a counter for every step it took.
#[derive(Debug, PartialEq, Eq)]
pub struct StateMachineContext {
    pub current_state: MainState,
    pub previous_states: Vec<MainState>,
    pub transition_count: TransitionCounts,
}

impl StateMachineContext {
    /// The states that the node left, oldest first.
    pub open spec fn history(&self) -> Seq<MainStateView> {
        self.previous_states@.map_values(|s: MainState| s@)
    }

    /// The counters are consistent, and none is ahead of the history.
    pub open spec fn wf(&self) -> bool {
        &&& self.transition_count.wf()
        &&& forall|from: MainStateView, to: MainStateView|
            #[trigger] self.transition_count.count(from, to) <= self.previous_states@.len()
    }

    /// A context in `initial_state`, with an empty history and no counters.
    pub fn new(initial_state: MainState) -> (r: Self)
        ensures
            r.wf(),
            r.current_state == initial_state,
            r.previous_states@.len() == 0,
            r.transition_count.pairs() == 0,
            forall|from: MainStateView, to: MainStateView|
                r.transition_count.count(from, to) == 0,
    {
        Self {
            current_state: initial_state,
            previous_states: Vec::new(),
            transition_count: TransitionCounts::new(),
        }
    }

    /// Takes the step to `new_state` and records it. Where the table has the
    /// step, the state left is appended to the history and the counter of the
    /// step goes up by one; where it has not, nothing changes.
    pub fn transition(&mut self, new_state: MainState) -> (r: Result<(), StateError>)
        requires
            old(self).wf(),
        ensures
            final(self).wf(),
            old(self).current_state@.allows(new_state@) ==> {
                &&& r is Ok
                &&& final(self).current_state == new_state
                &&& final(self).history() == old(self).history().push(old(self).current_state@)
                &&& final(self).transition_count.count(old(self).current_state@, new_state@)
                    == old(self).transition_count.count(old(self).current_state@, new_state@) + 1
                &&& forall|f: MainStateView, t: MainStateView|
                    !(f == old(self).current_state@ && t == new_state@)
                        ==> final(self).transition_count.count(f, t)
                        == old(self).transition_count.count(f, t)
            },
            !old(self).current_state@.allows(new_state@) ==> {
                &&& r matches Err(StateError::InvalidTransition(msg))
                &&& msg@ == old(self).current_state@.refusal(new_state@)
                &&& *final(self) == *old(self)
            },
    {
        let old_state = self.current_state.clone();
        let to_key = new_state.clone();
        match self.current_state.transition(new_state) {
            Err(e) => {
                return Err(e);
            },
            Ok(()) => {},
        }
        let from_key = old_state.clone();
        self.previous_states.push(old_state);
        proof {
            assert(self.history() =~= old(self).history().push(old(self).current_state@));
            assert(self.previous_states@.len() == self.previous_states.len());
            assert(old(self).transition_count.count(from_key@, to_key@)
                <= old(self).previous_states@.len());
        }
        self.transition_count.record(from_key, to_key);
        proof {
            assert forall|from: MainStateView, to: MainStateView|
                #[trigger] self.transition_count.count(from, to)
                    <= self.previous_states@.len() by {
                assert(old(self).transition_count.count(from, to)
                    <= old(self).previous_states@.len());
            }
        }
        Ok(())
    }

    /// The state the node is in.
    pub fn current_state(&self) -> (r: &MainState)
        ensures
            *r == self.current_state,
    {
        &self.current_state
    }

    /// The states that the node left, oldest first.
    pub fn previous_states(&self) -> (r: &Vec<MainState>)
        ensures
            *r == self.previous_states,
    {
        &self.previous_states
    }

    /// The counters of the steps taken.
    pub fn transition_count(&self) -> (r: &TransitionCounts)
        ensures
            *r == self.transition_count,
    {
        &self.transition_count
    }
}

} // verus!
