use vstd::prelude::*;
use vstd::string::StringExecFns;

use crate::engine::state_machine::{
    ErrorInfo, MainState, MainStateView, NodeError, RecoveryAction, RunningSubState,
    RunningSubStateView, StateMachineContext,
};
use crate::types::{DataValue, DataValueView};
use crate::types::names::{
    first_index_of, is_first_of, lemma_first_index, lookup, names_contain, put, text_eq,
};
use crate::workflow::context::{
    copy_ports, get_port, merged, ports_view, put_all, put_ports, ExecutionContext, OutputsView,
    PortValues, PortsView,
};
use crate::workflow::order::{
    is_cycle, is_ready_first_order, is_topological_order, lemma_cycle_is_not_rankable,
    lemma_order_ranks, lemma_ready_first_is_unique, rankable, topological_order,
};
use crate::workflow::serialization::{NodeData, WorkflowData};
use crate::workflow::validator::{
    indexes, intern, lemma_names_rank_as_places, mismatch_message, table_names, types_connect,
    validate_type_match,
};

verus! {

/// Why a workflow was refused or its run was given up.
#[derive(Debug, PartialEq, Eq)]
pub enum WorkflowError {
    /// A node has a type tag that no handler answers to.
    UnknownNodeType(String),
    MissingConfig,
    /// A node needs text on a port that no edge feeds and no default fills.
    MissingInput,
    CycleDetected,
    /// An edge names a node that the workflow does not have.
    NodeNotFound(String),
    /// An edge leads from a node of the first type to one of the second,
    /// which do not connect.
    TypeMismatch(String, String),
}

/// Mathematical model of a [`WorkflowError`].
pub enum WorkflowErrorView {
    UnknownNodeType(Seq<char>),
    MissingConfig,
    MissingInput,
    CycleDetected,
    NodeNotFound(Seq<char>),
    TypeMismatch(Seq<char>, Seq<char>),
}

impl View for WorkflowError {
    type V = WorkflowErrorView;

    open spec fn view(&self) -> WorkflowErrorView {
        match self {
            WorkflowError::UnknownNodeType(tag) => WorkflowErrorView::UnknownNodeType(tag@),
            WorkflowError::MissingConfig => WorkflowErrorView::MissingConfig,
            WorkflowError::MissingInput => WorkflowErrorView::MissingInput,
            WorkflowError::CycleDetected => WorkflowErrorView::CycleDetected,
            WorkflowError::NodeNotFound(id) => WorkflowErrorView::NodeNotFound(id@),
            WorkflowError::TypeMismatch(from, to) => WorkflowErrorView::TypeMismatch(from@, to@),
        }
    }
}

impl WorkflowErrorView {
    /// The error as a line of text.
    pub open spec fn message(self) -> Seq<char> {
        match self {
            WorkflowErrorView::UnknownNodeType(tag) => "未知节点类型: "@ + tag,
            WorkflowErrorView::MissingConfig => "缺少配置"@,
            WorkflowErrorView::MissingInput => "缺少输入"@,
            WorkflowErrorView::CycleDetected => "循环依赖"@,
            WorkflowErrorView::NodeNotFound(id) => "节点未找到: "@ + id,
            WorkflowErrorView::TypeMismatch(from, to) => mismatch_message(from, to),
        }
    }
}

impl WorkflowError {
    /// The error as a line of text.
    pub fn to_string(&self) -> (r: String)
        ensures
            r@ == self@.message(),
    {
        match self {
            WorkflowError::UnknownNodeType(tag) => String::from_str("未知节点类型: ").concat(
                tag.as_str(),
            ),
            WorkflowError::MissingConfig => String::from_str("缺少配置"),
            WorkflowError::MissingInput => String::from_str("缺少输入"),
            WorkflowError::CycleDetected => String::from_str("循环依赖"),
            WorkflowError::NodeNotFound(id) => String::from_str("节点未找到: ").concat(id.as_str()),
            WorkflowError::TypeMismatch(from, to) => {
                let mut msg = String::from_str("类型不匹配: ");
                msg.append(from.as_str());
                msg.append(" 不能连接到 ");
                msg.append(to.as_str());
                msg
            },
        }
    }

    /// What the state machine records of a node that failed with this error:
    /// the error's text, and that the run cannot recover from it.
    pub fn error_info(&self) -> (r: ErrorInfo)
        ensures
            !r.recoverable,
            r.retry_count == 0,
            r.suggested_action == RecoveryAction::ImmediateFail,
            r.error.message@ == self@.message(),
            r.error.code == 0,
            r.error.details is None,
            r@.resolution() is FailRun,
    {
        ErrorInfo {
            error: NodeError::new(self.to_string(), 0, None),
            recoverable: false,
            retry_count: 0,
            suggested_action: RecoveryAction::ImmediateFail,
        }
    }
}

/// Whether a handler answers to the type tag.
pub open spec fn known_type(tag: Seq<char>) -> bool {
    tag == "input"@ || tag == "llm"@ || tag == "output"@
}

/// The first name among the endpoints of the first `upto` edges, each
/// edge's source before its target, that is not the id of a node.
pub open spec fn first_dangling(
    ids: Seq<Seq<char>>,
    edges: Seq<(Seq<char>, Seq<char>)>,
    upto: int,
) -> Option<Seq<char>>
    decreases upto,
{
    if upto <= 0 {
        None
    } else if first_dangling(ids, edges, upto - 1) is Some {
        first_dangling(ids, edges, upto - 1)
    } else if !names_contain(ids, edges[upto - 1].0) {
        Some(edges[upto - 1].0)
    } else if !names_contain(ids, edges[upto - 1].1) {
        Some(edges[upto - 1].1)
    } else {
        None
    }
}

/// The first type tag among the first `upto` that no handler answers to.
pub open spec fn first_unknown_type(types: Seq<Seq<char>>, upto: int) -> Option<Seq<char>>
    decreases upto,
{
    if upto <= 0 {
        None
    } else if first_unknown_type(types, upto - 1) is Some {
        first_unknown_type(types, upto - 1)
    } else if !known_type(types[upto - 1]) {
        Some(types[upto - 1])
    } else {
        None
    }
}

impl WorkflowData {
    /// The types of the two nodes that edge `k` joins, each the first node
    /// with the id that the edge names.
    pub open spec fn edge_types(&self, k: int) -> (Seq<char>, Seq<char>) {
        (
            self.node_types()[first_index_of(self.node_ids(), self.edge_names()[k].0)],
            self.node_types()[first_index_of(self.node_ids(), self.edge_names()[k].1)],
        )
    }

    /// The types joined by the first edge among the first `upto` whose
    /// types do not connect.
    pub open spec fn first_mismatch(&self, upto: int) -> Option<(Seq<char>, Seq<char>)>
        decreases upto,
    {
        if upto <= 0 {
            None
        } else if self.first_mismatch(upto - 1) is Some {
            self.first_mismatch(upto - 1)
        } else if !types_connect(self.edge_types(upto - 1).0, self.edge_types(upto - 1).1) {
            Some(self.edge_types(upto - 1))
        } else {
            None
        }
    }

    /// What is wrong with the workflow, if anything. A cycle among the
    /// edges comes first; then an edge that names a node which does not
    /// exist; then a node of unknown type; then an edge between two types
    /// that do not connect.
    pub open spec fn validation_fault(&self) -> Option<WorkflowErrorView> {
        if !rankable(self.edge_names()) {
            Some(WorkflowErrorView::CycleDetected)
        } else if first_dangling(self.node_ids(), self.edge_names(), self.edges@.len() as int)
            is Some {
            Some(
                WorkflowErrorView::NodeNotFound(
                    first_dangling(
                        self.node_ids(),
                        self.edge_names(),
                        self.edges@.len() as int,
                    )->0,
                ),
            )
        } else if first_unknown_type(self.node_types(), self.nodes@.len() as int) is Some {
            Some(
                WorkflowErrorView::UnknownNodeType(
                    first_unknown_type(self.node_types(), self.nodes@.len() as int)->0,
                ),
            )
        } else if self.first_mismatch(self.edges@.len() as int) is Some {
            let types = self.first_mismatch(self.edges@.len() as int).unwrap();
            Some(WorkflowErrorView::TypeMismatch(types.0, types.1))
        } else {
            None
        }
    }

    /// The edges as pairs of places: each node id replaced by the place of
    /// the first node that has it.
    pub open spec fn resolved_edges(&self) -> Seq<(usize, usize)> {
        Seq::new(
            self.edges@.len(),
            |k: int|
                (
                    first_index_of(self.node_ids(), self.edge_names()[k].0) as usize,
                    first_index_of(self.node_ids(), self.edge_names()[k].1) as usize,
                ),
        )
    }

    /// Whether `order` is the order in which the nodes run: it lists the
    /// place of every node once, the source of every edge before its
    /// target, and among the nodes that can run next the one that stands
    /// first in the document runs first.
    pub open spec fn is_execution_order(&self, order: Seq<usize>) -> bool {
        &&& is_ready_first_order(self.nodes@.len(), self.resolved_edges(), order)
        &&& is_topological_order(self.nodes@.len(), self.resolved_edges(), order)
    }

    /// The order in which the nodes run.
    pub open spec fn execution_order(&self) -> Seq<usize> {
        choose|order: Seq<usize>| self.is_execution_order(order)
    }

    /// A workflow has one execution order.
    pub proof fn lemma_execution_order(&self, order: Seq<usize>)
        requires
            self.is_execution_order(order),
        ensures
            self.execution_order() == order,
    {
        lemma_ready_first_is_unique(
            self.nodes@.len(),
            self.resolved_edges(),
            self.execution_order(),
            order,
        );
    }

    /// What a run of the workflow comes to: the merged outputs of its
    /// nodes, or what is wrong with the workflow, or the error of the first
    /// node that failed.
    pub open spec fn run_outcome(&self) -> Result<PortsView, WorkflowErrorView> {
        match self.validation_fault() {
            Some(fault) => Err(fault),
            None => match self.ran(self.execution_order(), self.nodes@.len() as int) {
                Ok(outputs) => Ok(merged(outputs, outputs.len() as int)),
                Err(e) => Err(e),
            },
        }
    }

    /// The inputs of the node with the id `target` once the first `upto`
    /// edges are followed: on top of `base`, the outputs of the source of
    /// every edge into the node, edge after edge.
    pub open spec fn gathered(
        &self,
        outputs: OutputsView,
        target: Seq<char>,
        base: PortsView,
        upto: int,
    ) -> PortsView
        decreases upto,
    {
        if upto <= 0 {
            base
        } else {
            let before = self.gathered(outputs, target, base, upto - 1);
            if self.edge_names()[upto - 1].1 == target {
                match lookup(outputs, self.edge_names()[upto - 1].0) {
                    Some(ports) => put_all(before, ports, ports.len() as int),
                    None => before,
                }
            } else {
                before
            }
        }
    }

    /// The inputs of node `i`: its defaults, overwritten by what the edges
    /// into it bring.
    pub open spec fn inputs_of(&self, outputs: OutputsView, i: int) -> PortsView {
        self.gathered(
            outputs,
            self.nodes@[i].id@,
            ports_view(self.nodes@[i].default_inputs@),
            self.edges@.len() as int,
        )
    }

    /// What node `i` yields from the outputs stored so far.
    pub open spec fn node_yield(&self, outputs: OutputsView, i: int) -> Result<
        PortsView,
        WorkflowErrorView,
    > {
        node_result(
            self.nodes@[i].node_type@,
            label_view(self.nodes@[i].label),
            self.inputs_of(outputs, i),
        )
    }

    /// The outputs stored once the first `upto` nodes of `order` have run,
    /// or the error of the first node that failed.
    pub open spec fn ran(&self, order: Seq<usize>, upto: int) -> Result<
        OutputsView,
        WorkflowErrorView,
    >
        decreases upto,
    {
        if upto <= 0 {
            Ok(Seq::empty())
        } else {
            match self.ran(order, upto - 1) {
                Err(e) => Err(e),
                Ok(outputs) => match self.node_yield(outputs, order[upto - 1] as int) {
                    Ok(ports) => Ok(put(outputs, self.nodes@[order[upto - 1] as int].id@, ports)),
                    Err(e) => Err(e),
                },
            }
        }
    }
}

/// A workflow whose edges hold a cycle is refused for the cycle, whatever
/// else is wrong with it.
pub proof fn lemma_cycle_is_refused(workflow: &WorkflowData, walk: Seq<int>)
    requires
        is_cycle(workflow.edge_names(), walk),
    ensures
        workflow.validation_fault() == Some(WorkflowErrorView::CycleDetected),
{
    lemma_cycle_is_not_rankable(workflow.edge_names(), walk);
}

/// Behind the first unknown type tag, the first unknown type tag is the same.
pub proof fn lemma_unknown_type_stays(types: Seq<Seq<char>>, at: int, upto: int)
    requires
        0 <= at <= upto,
        first_unknown_type(types, at) is Some,
    ensures
        first_unknown_type(types, upto) == first_unknown_type(types, at),
    decreases upto - at,
{
    if at < upto {
        lemma_unknown_type_stays(types, at, upto - 1);
    }
}

/// Behind the first edge whose types do not connect, the first such edge is
/// the same.
pub proof fn lemma_mismatch_stays(workflow: &WorkflowData, at: int, upto: int)
    requires
        0 <= at <= upto,
        workflow.first_mismatch(at) is Some,
    ensures
        workflow.first_mismatch(upto) == workflow.first_mismatch(at),
    decreases upto - at,
{
    if at < upto {
        lemma_mismatch_stays(workflow, at, upto - 1);
    }
}

/// The label of a node as contracts speak of it.
pub open spec fn label_view(label: Option<String>) -> Option<Seq<char>> {
    match label {
        Some(l) => Some(l@),
        None => None,
    }
}

/// The text on the port `port`, where there is text.
pub open spec fn text_on(inputs: PortsView, port: Seq<char>) -> Option<Seq<char>> {
    match lookup(inputs, port) {
        Some(DataValueView::Text(s)) => Some(s),
        _ => None,
    }
}

/// What the model node answers to `prompt`.
pub open spec fn llm_reply(prompt: Seq<char>) -> Seq<char> {
    "AI回复: 收到 '"@ + prompt + "'"@
}

/// One port that carries text.
pub open spec fn text_port(port: Seq<char>, text: Seq<char>) -> PortsView {
    seq![(port, DataValueView::Text(text))]
}

/// What a node of type `node_type` with the label `label` yields from
/// `inputs`. An input node yields its label as `text`, or the empty text. A
/// model node answers the text on `text` as `result`. An output node hands
/// the text on `result` on as `output`. A node that finds no text on the
/// port it reads fails with `MissingInput`, a node of another type with
/// `UnknownNodeType`.
pub open spec fn node_result(node_type: Seq<char>, label: Option<Seq<char>>, inputs: PortsView)
    -> Result<PortsView, WorkflowErrorView> {
    if node_type == "input"@ {
        Ok(
            text_port(
                "text"@,
                match label {
                    Some(l) => l,
                    None => ""@,
                },
            ),
        )
    } else if node_type == "llm"@ {
        match text_on(inputs, "text"@) {
            Some(prompt) => Ok(text_port("result"@, llm_reply(prompt))),
            None => Err(WorkflowErrorView::MissingInput),
        }
    } else if node_type == "output"@ {
        match text_on(inputs, "result"@) {
            Some(result) => Ok(text_port("output"@, result)),
            None => Err(WorkflowErrorView::MissingInput),
        }
    } else {
        Err(WorkflowErrorView::UnknownNodeType(node_type))
    }
}

/// The outcome of a handler as contracts speak of it.
pub open spec fn yield_view(r: Result<PortValues, WorkflowError>) -> Result<
    PortsView,
    WorkflowErrorView,
> {
    match r {
        Ok(ports) => Ok(ports_view(ports@)),
        Err(e) => Err(e@),
    }
}

/// What a run hands back.
#[derive(Debug, PartialEq, Eq)]
pub struct ExecutionResult {
    /// The outputs of all nodes, merged; see
    /// [`ExecutionContext::get_final_outputs`].
    pub final_outputs: PortValues,
    /// The places of the nodes in the document, in the order in which they
    /// ran.
    pub order: Vec<usize>,
    /// The state machine of each node as the run left it, in the order in
    /// which the nodes ran.
    pub machines: Vec<StateMachineContext>,
}

/// The states that a node leaves on its way to completion.
pub open spec fn completed_history() -> Seq<MainStateView> {
    seq![
        MainStateView::Idle,
        MainStateView::Pending,
        MainStateView::Running(RunningSubStateView::Normal),
    ]
}

/// Whether a state machine shows a node that ran to completion: from
/// `Idle` over `Pending` and `Running` to `Completed`.
pub open spec fn ran_to_completion(machine: StateMachineContext) -> bool {
    &&& machine.wf()
    &&& machine.current_state == MainState::Completed
    &&& machine.history() == completed_history()
}

/// Runs workflows.
pub struct WorkflowExecutor {
    ctx: ExecutionContext,
}

fn one_text_port(port: &str, text: String) -> (r: PortValues)
    ensures
        ports_view(r@) == text_port(port@, text@),
{
    let mut ports: PortValues = Vec::new();
    ports.push((port.to_owned(), DataValue::Text(text)));
    assert(ports_view(ports@) =~= text_port(port@, text@));
    ports
}

fn read_text(inputs: &PortValues, port: &str) -> (r: Option<String>)
    ensures
        match r {
            Some(text) => text_on(ports_view(inputs@), port@) == Some(text@),
            None => text_on(ports_view(inputs@), port@) is None,
        },
{
    match get_port(inputs, port) {
        Some(value) => match value {
            DataValue::Text(s) => Some(s.clone()),
            _ => None,
        },
        None => None,
    }
}

impl WorkflowExecutor {
    pub fn new(ctx: ExecutionContext) -> (r: Self)
        ensures
            r.context() == ctx,
    {
        Self { ctx }
    }

    /// The context that the executor was made with.
    pub closed spec fn context(&self) -> ExecutionContext {
        self.ctx
    }

    /// Checks a workflow and plans its run. Gives the places of the nodes
    /// in an order in which they can run, or what is wrong with the
    /// workflow; see [`WorkflowData::validation_fault`].
    pub fn validate(&self, workflow: &WorkflowData) -> (r: Result<Vec<usize>, WorkflowError>)
        ensures
            match r {
                Ok(order) => workflow.validation_fault() is None && workflow.is_execution_order(
                    order@,
                ) && order@ == workflow.execution_order(),
                Err(e) => workflow.validation_fault() == Some(e@),
            },
    {
        let n = workflow.nodes.len();
        let ghost ids = workflow.node_ids();
        let ghost named = workflow.edge_names();
        let mut table: Vec<String> = Vec::new();
        let mut i: usize = 0;
        while i < n
            invariant
                i <= n,
                n == workflow.nodes@.len(),
                ids == workflow.node_ids(),
                table@.len() == i,
                forall|j: int| 0 <= j < i ==> table_names(table@)[j] == ids[j],
            decreases n - i,
        {
            table.push(workflow.nodes[i].id.clone());
            i = i + 1;
        }
        let mut indexed: Vec<(usize, usize)> = Vec::new();
        let mut k: usize = 0;
        while k < workflow.edges.len()
            invariant
                k <= workflow.edges@.len(),
                n == workflow.nodes@.len(),
                ids == workflow.node_ids(),
                named == workflow.edge_names(),
                indexed@.len() == k,
                n <= table@.len(),
                forall|j: int| 0 <= j < n ==> table_names(table@)[j] == ids[j],
                forall|j: int|
                    n <= j < table@.len() ==> !names_contain(ids, table_names(table@)[j]),
                forall|m: int|
                    0 <= m < k ==> is_first_of(
                        table_names(table@),
                        named[m].0,
                        (#[trigger] indexed@[m]).0 as int,
                    ) && is_first_of(table_names(table@), named[m].1, indexed@[m].1 as int),
                first_dangling(ids, named, k as int) == if table@.len() > n {
                    Some(table_names(table@)[n as int])
                } else {
                    None
                },
            decreases workflow.edges@.len() - k,
        {
            let ghost table0 = table_names(table@);
            let from = intern(&mut table, workflow.edges[k].source.as_str());
            let ghost table1 = table_names(table@);
            let to = intern(&mut table, workflow.edges[k].target.as_str());
            let ghost table2 = table_names(table@);
            let ghost indexed0 = indexed@;
            indexed.push((from, to));
            proof {
                assert(named[k as int] == (
                    workflow.edges@[k as int].source@,
                    workflow.edges@[k as int].target@,
                ));
                assert forall|m: int| 0 <= m < k + 1 implies is_first_of(
                    table2,
                    named[m].0,
                    (#[trigger] indexed@[m]).0 as int,
                ) && is_first_of(table2, named[m].1, indexed@[m].1 as int) by {
                    if m < k {
                        assert(indexed@[m] == indexed0[m]);
                    }
                }
                Self::lemma_contained_in_prefix(ids, table0, named[k as int].0, n as int);
                Self::lemma_contained_in_prefix(ids, table1, named[k as int].1, n as int);
                assert forall|j: int| n <= j < table2.len() implies !names_contain(
                    ids,
                    table2[j],
                ) by {
                    if j < table0.len() {
                        assert(table2[j] == table0[j]);
                    } else if j < table1.len() {
                        assert(table2[j] == table1[j]);
                    }
                }
            }
            k = k + 1;
        }
        proof {
            assert(indexes(table_names(table@), named, indexed@));
            lemma_names_rank_as_places(table_names(table@), named, indexed@);
        }
        let order = match topological_order(table.len(), &indexed) {
            Some(order) => order,
            None => {
                return Err(WorkflowError::CycleDetected);
            },
        };
        proof {
            lemma_order_ranks(table@.len(), indexed@, order@);
        }
        if table.len() > n {
            return Err(WorkflowError::NodeNotFound(table[n].clone()));
        }
        let mut i: usize = 0;
        while i < n
            invariant
                i <= n,
                n == workflow.nodes@.len(),
                rankable(workflow.edge_names()),
                first_dangling(
                    workflow.node_ids(),
                    workflow.edge_names(),
                    workflow.edges@.len() as int,
                ) is None,
                first_unknown_type(workflow.node_types(), i as int) is None,
            decreases n - i,
        {
            let tag = workflow.nodes[i].node_type.as_str();
            if !(text_eq(tag, "input") || text_eq(tag, "llm") || text_eq(tag, "output")) {
                proof {
                    lemma_unknown_type_stays(workflow.node_types(), i as int + 1, n as int);
                }
                return Err(WorkflowError::UnknownNodeType(workflow.nodes[i].node_type.clone()));
            }
            i = i + 1;
        }
        proof {
            assert(table_names(table@) =~= ids);
            assert forall|m: int| 0 <= m < indexed@.len() implies (#[trigger] indexed@[m])
                == workflow.resolved_edges()[m] by {
                lemma_first_index(ids, named[m].0, indexed@[m].0 as int);
                lemma_first_index(ids, named[m].1, indexed@[m].1 as int);
            }
            assert(indexed@ =~= workflow.resolved_edges());
        }
        let mut k: usize = 0;
        while k < workflow.edges.len()
            invariant
                k <= workflow.edges@.len(),
                n == workflow.nodes@.len(),
                ids == workflow.node_ids(),
                named == workflow.edge_names(),
                indexed@.len() == workflow.edges@.len(),
                workflow.is_execution_order(order@),
                rankable(workflow.edge_names()),
                first_dangling(
                    workflow.node_ids(),
                    workflow.edge_names(),
                    workflow.edges@.len() as int,
                ) is None,
                first_unknown_type(workflow.node_types(), n as int) is None,
                forall|m: int|
                    0 <= m < indexed@.len() ==> is_first_of(
                        ids,
                        named[m].0,
                        (#[trigger] indexed@[m]).0 as int,
                    ) && is_first_of(ids, named[m].1, indexed@[m].1 as int),
                workflow.first_mismatch(k as int) is None,
            decreases workflow.edges@.len() - k,
        {
            let from = workflow.nodes[indexed[k].0].node_type.as_str();
            let to = workflow.nodes[indexed[k].1].node_type.as_str();
            proof {
                lemma_first_index(ids, named[k as int].0, indexed@[k as int].0 as int);
                lemma_first_index(ids, named[k as int].1, indexed@[k as int].1 as int);
                assert(workflow.edge_types(k as int) == (from@, to@));
            }
            if validate_type_match(from, to).is_err() {
                proof {
                    lemma_mismatch_stays(workflow, k as int + 1, workflow.edges@.len() as int);
                }
                return Err(WorkflowError::TypeMismatch(from.to_owned(), to.to_owned()));
            }
            k = k + 1;
        }
        proof {
            workflow.lemma_execution_order(order@);
        }
        Ok(order)
    }

    /// A name is among the ids exactly if it is among the first `n` names
    /// of a table that begins with the ids and goes on with names that are
    /// no ids.
    proof fn lemma_contained_in_prefix(
        ids: Seq<Seq<char>>,
        table: Seq<Seq<char>>,
        name: Seq<char>,
        n: int,
    )
        requires
            n == ids.len(),
            n <= table.len(),
            forall|j: int| 0 <= j < n ==> table[j] == ids[j],
            forall|j: int| n <= j < table.len() ==> !names_contain(ids, table[j]),
        ensures
            names_contain(ids, name) ==> names_contain(table, name),
            !names_contain(ids, name) ==> forall|j: int| 0 <= j < n ==> table[j] != name,
            forall|i: int| is_first_of(table, name, i) && i < n ==> names_contain(ids, name),
            forall|i: int| is_first_of(table, name, i) && i >= n ==> !names_contain(ids, name),
    {
        if names_contain(ids, name) {
            let j = choose|j: int| 0 <= j < ids.len() && ids[j] == name;
            assert(table[j] == name);
        }
        assert forall|i: int| is_first_of(table, name, i) && i < n implies names_contain(
            ids,
            name,
        ) by {
            assert(ids[i] == name);
        }
        assert forall|i: int| is_first_of(table, name, i) && i >= n implies !names_contain(
            ids,
            name,
        ) by {}
    }

    /// The ids of the nodes in an order in which they can run, or what is
    /// wrong with the workflow.
    pub fn topological_sort(&self, workflow: &WorkflowData) -> (r: Result<
        Vec<String>,
        WorkflowError,
    >)
        ensures
            match r {
                Ok(names) => {
                    &&& workflow.validation_fault() is None
                    &&& workflow.is_execution_order(workflow.execution_order())
                    &&& names@.len() == workflow.execution_order().len()
                    &&& forall|i: int|
                        0 <= i < names@.len() ==> (#[trigger] names@[i])@
                            == workflow.node_ids()[workflow.execution_order()[i] as int]
                },
                Err(e) => workflow.validation_fault() == Some(e@),
            },
    {
        let order = match self.validate(workflow) {
            Ok(order) => order,
            Err(e) => {
                return Err(e);
            },
        };
        let mut names: Vec<String> = Vec::new();
        let mut i: usize = 0;
        while i < order.len()
            invariant
                i <= order@.len(),
                workflow.is_execution_order(order@),
                names@.len() == i,
                forall|j: int|
                    0 <= j < i ==> (#[trigger] names@[j])@ == workflow.node_ids()[order@[j] as int],
            decreases order@.len() - i,
        {
            assert(order@[i as int] < workflow.nodes@.len());
            names.push(workflow.nodes[order[i]].id.clone());
            i = i + 1;
        }
        Ok(names)
    }

    /// The inputs of a node: its defaults, overwritten by the outputs of
    /// the sources of the edges into it, edge after edge.
    pub fn collect_inputs(
        &self,
        node: &NodeData,
        workflow: &WorkflowData,
        context: &ExecutionContext,
    ) -> (r: PortValues)
        ensures
            ports_view(r@) == workflow.gathered(
                context.outputs(),
                node.id@,
                ports_view(node.default_inputs@),
                workflow.edges@.len() as int,
            ),
    {
        let mut inputs = copy_ports(&node.default_inputs);
        let mut k: usize = 0;
        while k < workflow.edges.len()
            invariant
                k <= workflow.edges@.len(),
                ports_view(inputs@) == workflow.gathered(
                    context.outputs(),
                    node.id@,
                    ports_view(node.default_inputs@),
                    k as int,
                ),
            decreases workflow.edges@.len() - k,
        {
            let edge = &workflow.edges[k];
            assert(workflow.edge_names()[k as int] == (edge.source@, edge.target@));
            if text_eq(edge.target.as_str(), node.id.as_str()) {
                match context.get_outputs(edge.source.as_str()) {
                    Some(ports) => {
                        put_ports(&mut inputs, ports);
                    },
                    None => {},
                }
            }
            k = k + 1;
        }
        inputs
    }

    /// An input node yields its label as `text`, or the empty text.
    pub fn execute_input_node(&self, node: &NodeData, inputs: PortValues) -> (r: Result<
        PortValues,
        WorkflowError,
    >)
        ensures
            yield_view(r) == node_result("input"@, label_view(node.label), ports_view(inputs@)),
    {
        let text = match &node.label {
            Some(l) => l.clone(),
            None => String::from_str(""),
        };
        Ok(one_text_port("text", text))
    }

    /// A model node answers the text on `text` as `result`.
    pub fn execute_llm_node(&self, node: &NodeData, inputs: PortValues) -> (r: Result<
        PortValues,
        WorkflowError,
    >)
        ensures
            yield_view(r) == node_result("llm"@, label_view(node.label), ports_view(inputs@)),
    {
        proof {
            Self::lemma_tags_differ();
        }
        match read_text(&inputs, "text") {
            Some(prompt) => {
                let mut reply = String::from_str("AI回复: 收到 '");
                reply.append(prompt.as_str());
                reply.append("'");
                Ok(one_text_port("result", reply))
            },
            None => Err(WorkflowError::MissingInput),
        }
    }

    /// An output node hands the text on `result` on as `output`.
    pub fn execute_output_node(&self, node: &NodeData, inputs: PortValues) -> (r: Result<
        PortValues,
        WorkflowError,
    >)
        ensures
            yield_view(r) == node_result("output"@, label_view(node.label), ports_view(inputs@)),
    {
        proof {
            Self::lemma_tags_differ();
        }
        match read_text(&inputs, "result") {
            Some(result) => Ok(one_text_port("output", result)),
            None => Err(WorkflowError::MissingInput),
        }
    }

    /// The three type tags are three different texts.
    proof fn lemma_tags_differ()
        ensures
            "input"@ != "llm"@,
            "input"@ != "output"@,
            "llm"@ != "output"@,
    {
        reveal_strlit("input");
        reveal_strlit("llm");
        reveal_strlit("output");
        assert("input"@.len() == 5);
        assert("llm"@.len() == 3);
        assert("output"@.len() == 6);
    }

    /// Runs the handler that answers to the node's type tag.
    pub fn run_node(&self, node: &NodeData, inputs: PortValues) -> (r: Result<
        PortValues,
        WorkflowError,
    >)
        ensures
            yield_view(r) == node_result(
                node.node_type@,
                label_view(node.label),
                ports_view(inputs@),
            ),
    {
        proof {
            Self::lemma_tags_differ();
        }
        let tag = node.node_type.as_str();
        if text_eq(tag, "input") {
            self.execute_input_node(node, inputs)
        } else if text_eq(tag, "llm") {
            self.execute_llm_node(node, inputs)
        } else if text_eq(tag, "output") {
            self.execute_output_node(node, inputs)
        } else {
            Err(WorkflowError::UnknownNodeType(node.node_type.clone()))
        }
    }

    /// Runs a workflow: checks it, then runs its nodes one after the other
    /// in an order in which every node follows the nodes that feed it. Each
    /// node goes from `Idle` over `Pending` to `Running`; it reads its
    /// inputs, its handler runs, and its outputs are stored and the node is
    /// `Completed`. The first node that fails goes to `Error`, and as its
    /// error is not one to recover from it ends the run; nothing is handed
    /// back of a run that failed.
    pub fn execute_workflow(&self, workflow: &WorkflowData) -> (r: Result<
        ExecutionResult,
        WorkflowError,
    >)
        ensures
            match r {
                Ok(result) => {
                    &&& workflow.run_outcome() == Ok::<PortsView, WorkflowErrorView>(
                        ports_view(result.final_outputs@),
                    )
                    &&& result.order@ == workflow.execution_order()
                    &&& workflow.is_execution_order(result.order@)
                    &&& result.machines@.len() == result.order@.len()
                    &&& forall|i: int|
                        0 <= i < result.machines@.len() ==> ran_to_completion(
                            #[trigger] result.machines@[i],
                        )
                },
                Err(e) => workflow.run_outcome() == Err::<PortsView, WorkflowErrorView>(e@),
            },
    {
        let order = match self.validate(workflow) {
            Ok(order) => order,
            Err(e) => {
                return Err(e);
            },
        };
        let mut context = ExecutionContext::new();
        let mut machines: Vec<StateMachineContext> = Vec::new();
        let mut step: usize = 0;
        while step < order.len()
            invariant
                step <= order@.len(),
                workflow.is_execution_order(order@),
                order@ == workflow.execution_order(),
                order@.len() == workflow.nodes@.len(),
                workflow.validation_fault() is None,
                workflow.ran(order@, step as int) == Ok::<OutputsView, WorkflowErrorView>(
                    context.outputs(),
                ),
                machines@.len() == step,
                forall|i: int|
                    0 <= i < machines@.len() ==> ran_to_completion(#[trigger] machines@[i]),
            decreases order@.len() - step,
        {
            let at = order[step];
            assert(order@[step as int] < workflow.nodes@.len());
            let node = &workflow.nodes[at];
            let mut machine = StateMachineContext::new(MainState::Idle);
            let queued = machine.transition(MainState::Pending);
            let started = machine.transition(MainState::Running(RunningSubState::Normal));
            assert(queued is Ok && started is Ok);
            let inputs = self.collect_inputs(node, workflow, &context);
            match self.run_node(node, inputs) {
                Ok(outputs) => {
                    context.set_outputs(node.id.clone(), outputs);
                    let done = machine.transition(MainState::Completed);
                    assert(done is Ok);
                    assert(machine.history() =~= completed_history());
                    machines.push(machine);
                },
                Err(e) => {
                    let failed = machine.transition(MainState::Error(e.error_info()));
                    assert(failed is Ok);
                    proof {
                        Self::lemma_ran_stays_failed(
                            workflow,
                            order@,
                            step as int + 1,
                            order@.len() as int,
                        );
                    }
                    return Err(e);
                },
            }
            step = step + 1;
        }
        let final_outputs = context.get_final_outputs();
        Ok(ExecutionResult { final_outputs, order, machines })
    }

    /// A run that has failed stays failed, with the same error.
    proof fn lemma_ran_stays_failed(
        workflow: &WorkflowData,
        order: Seq<usize>,
        at: int,
        upto: int,
    )
        requires
            0 <= at <= upto,
            workflow.ran(order, at) is Err,
        ensures
            workflow.ran(order, upto) == workflow.ran(order, at),
        decreases upto - at,
    {
        if at < upto {
            Self::lemma_ran_stays_failed(workflow, order, at, upto - 1);
        }
    }

    /// The answer of a model node to the text of an input node: what the
    /// smallest workflow computes, step by step.
    pub fn run_simple_workflow(&self, input_text: &str, model_id: &str) -> (r: String)
        ensures
            r@ == crate::workflow::nodes::llm::model_reply(model_id@, input_text@),
    {
        let input_node = crate::workflow::nodes::TextInputNode::new(input_text);
        let prompt = input_node.execute();
        let llm_node = crate::workflow::nodes::LLMNode::new(model_id);
        let response = llm_node.execute(prompt.as_str(), &self.ctx);
        let mut output_node = crate::workflow::nodes::TextOutputNode::new();
        output_node.execute(response.as_str());
        response
    }
}

} // verus!
