use microflow::types::DataValue;
use microflow::engine::{MainState, RunningSubState};
use microflow::workflow::nodes::{LLMNode, LoRASwitchNode, TextInputNode, TextOutputNode};
use microflow::workflow::order::topological_order;
use microflow::workflow::{
    detect_cycles, has_cycle, validate_type_match, EdgeData, ExecutionContext, NodeData,
    WorkflowData, WorkflowError, WorkflowExecutor,
};

fn node(id: &str, node_type: &str, label: Option<&str>) -> NodeData {
    NodeData {
        id: id.to_string(),
        node_type: node_type.to_string(),
        label: label.map(|l| l.to_string()),
        default_inputs: Vec::new(),
    }
}

fn edge(source: &str, target: &str) -> EdgeData {
    EdgeData {
        id: format!("{}-{}", source, target),
        source: source.to_string(),
        target: target.to_string(),
        animated: false,
    }
}

fn workflow(nodes: Vec<NodeData>, edges: Vec<EdgeData>) -> WorkflowData {
    WorkflowData {
        version: "1.0".to_string(),
        nodes,
        edges,
    }
}

fn executor() -> WorkflowExecutor {
    WorkflowExecutor::new(ExecutionContext::new())
}

fn text(s: &str) -> DataValue {
    DataValue::Text(s.to_string())
}

fn pairs(edges: &[(&str, &str)]) -> Vec<(String, String)> {
    edges
        .iter()
        .map(|(a, b)| (a.to_string(), b.to_string()))
        .collect()
}

#[test]
fn chain_runs_in_order_and_output_comes_from_the_model() {
    let w = workflow(
        vec![
            node("A", "input", Some("hello")),
            node("B", "llm", None),
            node("C", "output", None),
        ],
        vec![edge("A", "B"), edge("B", "C")],
    );
    let result = executor().execute_workflow(&w).unwrap();
    assert_eq!(result.order, vec![0, 1, 2]);
    assert_eq!(
        result.final_outputs,
        vec![
            ("text".to_string(), text("hello")),
            ("result".to_string(), text("AI回复: 收到 'hello'")),
            ("output".to_string(), text("AI回复: 收到 'hello'")),
        ]
    );
    assert_eq!(result.machines.len(), 3);
    for machine in &result.machines {
        assert_eq!(machine.current_state, MainState::Completed);
        assert_eq!(
            machine.previous_states,
            vec![
                MainState::Idle,
                MainState::Pending,
                MainState::Running(RunningSubState::Normal)
            ]
        );
        assert_eq!(
            machine
                .transition_count
                .get(&MainState::Idle, &MainState::Pending),
            Some(1)
        );
        assert_eq!(machine.transition_count.len(), 3);
    }
    assert_eq!(
        executor().topological_sort(&w),
        Ok(vec!["A".to_string(), "B".to_string(), "C".to_string()])
    );
}

#[test]
fn nodes_run_behind_their_sources_whatever_the_document_order() {
    let w = workflow(
        vec![
            node("C", "output", None),
            node("B", "llm", None),
            node("A", "input", Some("x")),
        ],
        vec![edge("B", "C"), edge("A", "B")],
    );
    let result = executor().execute_workflow(&w).unwrap();
    assert_eq!(result.order, vec![2, 1, 0]);
    assert_eq!(
        result.final_outputs.last(),
        Some(&("output".to_string(), text("AI回复: 收到 'x'")))
    );
}

#[test]
fn cycle_is_detected_before_anything_runs() {
    let w = workflow(
        vec![
            node("A", "input", None),
            node("B", "llm", None),
            node("C", "output", None),
        ],
        vec![edge("A", "B"), edge("B", "C"), edge("C", "A")],
    );
    assert_eq!(executor().validate(&w), Err(WorkflowError::CycleDetected));
    assert_eq!(
        executor().execute_workflow(&w),
        Err(WorkflowError::CycleDetected)
    );
    assert_eq!(
        executor().topological_sort(&w),
        Err(WorkflowError::CycleDetected)
    );
}

#[test]
fn cycle_comes_before_every_other_fault() {
    // A self-loop on a node of unknown type, and an edge to nowhere.
    let w = workflow(
        vec![node("A", "mystery", None)],
        vec![edge("A", "nowhere"), edge("A", "A")],
    );
    assert_eq!(executor().validate(&w), Err(WorkflowError::CycleDetected));
    // A cycle among names that are no nodes at all.
    let w = workflow(
        vec![node("A", "input", None)],
        vec![edge("X", "Y"), edge("Y", "X")],
    );
    assert_eq!(executor().validate(&w), Err(WorkflowError::CycleDetected));
}

#[test]
fn edge_to_a_missing_node_is_refused() {
    let w = workflow(
        vec![node("A", "input", None), node("B", "llm", None)],
        vec![edge("A", "B"), edge("B", "ghost"), edge("phantom", "A")],
    );
    assert_eq!(
        executor().validate(&w),
        Err(WorkflowError::NodeNotFound("ghost".to_string()))
    );
    let w = workflow(vec![node("A", "input", None)], vec![edge("phantom", "A")]);
    assert_eq!(
        executor().execute_workflow(&w),
        Err(WorkflowError::NodeNotFound("phantom".to_string()))
    );
}

#[test]
fn unknown_node_type_is_refused() {
    let w = workflow(
        vec![
            node("A", "input", None),
            node("B", "script", None),
            node("C", "lora", None),
        ],
        vec![],
    );
    assert_eq!(
        executor().validate(&w),
        Err(WorkflowError::UnknownNodeType("script".to_string()))
    );
    let stray = node("S", "script", None);
    assert_eq!(
        executor().run_node(&stray, Vec::new()),
        Err(WorkflowError::UnknownNodeType("script".to_string()))
    );
}

#[test]
fn edge_between_types_that_do_not_connect_is_refused() {
    let w = workflow(
        vec![
            node("A", "input", None),
            node("B", "llm", None),
            node("C", "output", None),
        ],
        vec![edge("A", "B"), edge("C", "B"), edge("B", "A")],
    );
    // A -> B -> A is a cycle, which is reported before the types of C -> B.
    assert_eq!(
        executor().validate(&w),
        Err(WorkflowError::CycleDetected)
    );
    let w = workflow(
        vec![
            node("A", "input", None),
            node("B", "llm", None),
            node("C", "output", None),
        ],
        vec![edge("A", "B"), edge("C", "B")],
    );
    assert_eq!(
        executor().validate(&w),
        Err(WorkflowError::TypeMismatch(
            "output".to_string(),
            "llm".to_string()
        ))
    );
}

#[test]
fn node_without_its_input_fails_the_run() {
    // An output node reads `result`, which an input node does not write.
    let w = workflow(
        vec![node("A", "input", Some("x")), node("C", "output", None)],
        vec![edge("A", "C")],
    );
    assert_eq!(executor().validate(&w), Ok(vec![0, 1]));
    assert_eq!(
        executor().execute_workflow(&w),
        Err(WorkflowError::MissingInput)
    );
    // A model without any edge into it has nothing to answer.
    let w = workflow(vec![node("B", "llm", None)], vec![]);
    assert_eq!(
        executor().execute_workflow(&w),
        Err(WorkflowError::MissingInput)
    );
}

#[test]
fn default_fills_a_port_that_no_edge_feeds() {
    let mut model = node("B", "llm", None);
    model
        .default_inputs
        .push(("text".to_string(), text("fallback")));
    let w = workflow(vec![model], vec![]);
    let result = executor().execute_workflow(&w).unwrap();
    assert_eq!(
        result.final_outputs,
        vec![("result".to_string(), text("AI回复: 收到 'fallback'"))]
    );

    // An edge overrides the default.
    let mut model = node("B", "llm", None);
    model
        .default_inputs
        .push(("text".to_string(), text("fallback")));
    let w = workflow(
        vec![model, node("A", "input", Some("live"))],
        vec![edge("A", "B")],
    );
    let result = executor().execute_workflow(&w).unwrap();
    assert_eq!(result.order, vec![1, 0]);
    assert_eq!(
        result.final_outputs,
        vec![
            ("text".to_string(), text("live")),
            ("result".to_string(), text("AI回复: 收到 'live'")),
        ]
    );
}

#[test]
fn value_that_is_no_text_counts_as_missing() {
    let mut model = node("B", "llm", None);
    model
        .default_inputs
        .push(("text".to_string(), DataValue::Boolean(true)));
    let w = workflow(vec![model], vec![]);
    assert_eq!(
        executor().execute_workflow(&w),
        Err(WorkflowError::MissingInput)
    );
}

#[test]
fn later_node_wins_where_two_write_the_same_port() {
    let w = workflow(
        vec![
            node("A1", "input", Some("first")),
            node("A2", "input", Some("second")),
        ],
        vec![],
    );
    let result = executor().execute_workflow(&w).unwrap();
    assert_eq!(result.order, vec![0, 1]);
    assert_eq!(
        result.final_outputs,
        vec![("text".to_string(), text("second"))]
    );
}

#[test]
fn input_without_label_yields_empty_text() {
    let w = workflow(vec![node("A", "input", None)], vec![]);
    let result = executor().execute_workflow(&w).unwrap();
    assert_eq!(result.final_outputs, vec![("text".to_string(), text(""))]);
}

#[test]
fn empty_workflow_runs_to_nothing() {
    let w = workflow(vec![], vec![]);
    let result = executor().execute_workflow(&w).unwrap();
    assert!(result.order.is_empty());
    assert!(result.final_outputs.is_empty());
    assert!(result.machines.is_empty());
}

#[test]
fn detect_cycles_accepts_acyclic_graphs() {
    assert_eq!(detect_cycles(&[]), Ok(()));
    assert_eq!(detect_cycles(&pairs(&[("a", "b"), ("b", "c"), ("a", "c")])), Ok(()));
    assert_eq!(
        detect_cycles(&pairs(&[("a", "b"), ("c", "d"), ("b", "d"), ("a", "b")])),
        Ok(())
    );
    assert!(!has_cycle(&pairs(&[("a", "b"), ("b", "c")])));
}

#[test]
fn detect_cycles_refuses_cycles() {
    let message = Err("工作流中存在循环依赖".to_string());
    assert_eq!(
        detect_cycles(&pairs(&[("A", "B"), ("B", "C"), ("C", "A")])),
        message
    );
    assert_eq!(detect_cycles(&pairs(&[("a", "a")])), message);
    assert_eq!(
        detect_cycles(&pairs(&[("x", "y"), ("a", "b"), ("b", "c"), ("c", "b")])),
        message
    );
    assert!(has_cycle(&pairs(&[("a", "b"), ("b", "a")])));
}

#[test]
fn type_match_follows_the_allow_list() {
    assert_eq!(validate_type_match("input", "llm"), Ok(()));
    assert_eq!(validate_type_match("llm", "output"), Ok(()));
    assert_eq!(validate_type_match("input", "output"), Ok(()));
    assert_eq!(validate_type_match("llm", "llm"), Ok(()));
    assert_eq!(
        validate_type_match("output", "input"),
        Err("类型不匹配: output 不能连接到 input".to_string())
    );
    assert_eq!(
        validate_type_match("llm", "input"),
        Err("类型不匹配: llm 不能连接到 input".to_string())
    );
    assert!(validate_type_match("input", "input").is_err());
    assert!(validate_type_match("output", "output").is_err());
    assert!(validate_type_match("", "llm").is_err());
}

#[test]
fn topological_order_on_places() {
    assert_eq!(topological_order(0, &vec![]), Some(vec![]));
    assert_eq!(topological_order(3, &vec![]), Some(vec![0, 1, 2]));
    assert_eq!(
        topological_order(4, &vec![(3, 2), (2, 1), (1, 0)]),
        Some(vec![3, 2, 1, 0])
    );
    assert_eq!(
        topological_order(4, &vec![(0, 3), (1, 3), (3, 2), (0, 3)]),
        Some(vec![0, 1, 3, 2])
    );
    // A node runs as soon as it can: 0 follows 1 at once, before 2.
    assert_eq!(topological_order(3, &vec![(1, 0)]), Some(vec![1, 0, 2]));
    assert_eq!(
        topological_order(5, &vec![(4, 0), (4, 1), (1, 2), (3, 2)]),
        Some(vec![3, 4, 0, 1, 2])
    );
    assert_eq!(topological_order(2, &vec![(0, 1), (1, 0)]), None);
    assert_eq!(topological_order(3, &vec![(0, 1), (2, 2)]), None);
}

#[test]
fn workflow_error_to_string() {
    assert_eq!(
        WorkflowError::UnknownNodeType("x".to_string()).to_string(),
        "未知节点类型: x"
    );
    assert_eq!(WorkflowError::MissingConfig.to_string(), "缺少配置");
    assert_eq!(WorkflowError::MissingInput.to_string(), "缺少输入");
    assert_eq!(WorkflowError::CycleDetected.to_string(), "循环依赖");
    assert_eq!(
        WorkflowError::NodeNotFound("n".to_string()).to_string(),
        "节点未找到: n"
    );
    assert_eq!(
        WorkflowError::TypeMismatch("a".to_string(), "b".to_string()).to_string(),
        "类型不匹配: a 不能连接到 b"
    );
    let info = WorkflowError::MissingInput.error_info();
    assert!(!info.recoverable);
    assert_eq!(info.error.message, "缺少输入");
}

#[test]
fn context_keeps_outputs_by_node() {
    let mut ctx = ExecutionContext::new();
    assert!(ctx.get_outputs("a").is_none());
    ctx.set_outputs("a".to_string(), vec![("p".to_string(), text("1"))]);
    ctx.set_node_outputs("b".to_string(), vec![("q".to_string(), text("2"))]);
    assert_eq!(
        ctx.get_outputs("a"),
        Some(&vec![("p".to_string(), text("1"))])
    );
    assert_eq!(
        ctx.get_node_outputs("b"),
        Some(&vec![("q".to_string(), text("2"))])
    );
    // Storing again replaces, in place.
    ctx.set_outputs(
        "a".to_string(),
        vec![("q".to_string(), text("3")), ("r".to_string(), text("4"))],
    );
    assert_eq!(
        ctx.get_final_outputs(),
        vec![("q".to_string(), text("2")), ("r".to_string(), text("4"))]
    );
    assert!(ctx.get_model(&microflow::types::ModelId("m".to_string())).is_none());
}

#[test]
fn get_node_finds_the_first_with_the_id() {
    let w = workflow(
        vec![
            node("A", "input", Some("one")),
            node("B", "llm", None),
            node("A", "input", Some("two")),
        ],
        vec![],
    );
    assert_eq!(w.get_node("A").unwrap().label, Some("one".to_string()));
    assert_eq!(w.get_node("B").unwrap().node_type, "llm");
    assert!(w.get_node("C").is_none());
    assert_eq!(w.find_node("A"), Some(0));
}

#[test]
fn simple_nodes() {
    let input = TextInputNode::new("你好，世界!");
    assert_eq!(input.execute(), "你好，世界!");
    assert!(input.ports.get_output("text").is_some());
    assert!(input.ports.get_input("text").is_none());

    let llm = LLMNode::new("test_model");
    let ctx = ExecutionContext::new();
    assert_eq!(
        llm.execute("hi", &ctx),
        "[模型test_model响应] 你输入了: hi"
    );
    assert!(llm.ports.get_input("prompt").is_some());
    assert!(llm.ports.get_output("response").is_some());

    let mut output = TextOutputNode::new();
    assert_eq!(output.result, None);
    output.execute("done");
    assert_eq!(output.result, Some("done".to_string()));
    assert!(output.ports.get_input("text").is_some());
    assert!(TextOutputNode::default().result.is_none());

    let switch = LoRASwitchNode::new("m", "/adapters/a.gguf");
    assert_eq!(switch.model_id, "m");
    assert_eq!(switch.lora_path, "/adapters/a.gguf");
    for id in ["model_id", "lora_path"] {
        assert!(switch.ports.get_input(id).is_some());
    }
    for id in ["success", "error"] {
        assert!(switch.ports.get_output(id).is_some());
    }

    assert_eq!(
        executor().run_simple_workflow("你好，世界!", "test_model"),
        "[模型test_model响应] 你输入了: 你好，世界!"
    );
}
