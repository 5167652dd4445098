use microflow::parameter::{
    Connection, ConnectionGraph, DynamicPorts, ExecutionContext, ParamMode, ParameterInstance,
    Port, ValueSource,
};
use microflow::types::{DataType, DataValue, Error};
use std::time::Instant;

fn number(n: f64) -> DataValue {
    DataValue::Number(n.to_bits())
}

fn create_test_context() -> ExecutionContext {
    let port_values = vec![
        ("input1".to_string(), number(42.0)),
        ("input2".to_string(), DataValue::Text("test".to_string())),
        ("input3".to_string(), DataValue::Boolean(true)),
    ];
    let global_vars = vec![("pi".to_string(), number(3.14159))];

    ExecutionContext {
        node_id: "test-node".to_string(),
        port_values,
        global_vars,
        execution_time: Instant::now(),
    }
}

#[test]
fn test_parameter_instance_creation() {
    let param = ParameterInstance::new("test-param".to_string(), number(100.0));

    assert_eq!(param.def_id, "test-param".to_string());
    match param.mode {
        ParamMode::Constant(value) => assert_eq!(value, number(100.0)),
        _ => panic!("Expected Constant mode"),
    }
    assert_eq!(param.ui_state.visible, true);
    assert_eq!(param.ui_state.enabled, true);
    assert_eq!(param.ui_state.value_source, ValueSource::Default);
    assert!(param.ui_state.error_message.is_none());
}

#[test]
fn test_constant_mode_resolution() {
    let param = ParameterInstance::new("test-param".to_string(), number(100.0));

    let ctx = create_test_context();
    let result = param.resolve(&ctx);
    assert!(result.is_ok());
    assert_eq!(result.unwrap(), number(100.0));
}

#[test]
fn test_connection_mode_resolution() {
    let mut param = ParameterInstance::new("test-param".to_string(), number(100.0));

    param.switch_to_connection("input1".to_string());

    let ctx = create_test_context();
    let result = param.resolve(&ctx);
    assert!(result.is_ok());
    assert_eq!(result.unwrap(), number(42.0));
}

#[test]
fn test_connection_mode_with_cached_value() {
    let mut param = ParameterInstance::new("test-param".to_string(), number(100.0));

    param.switch_mode(ParamMode::Connection {
        port_id: "non-existent".to_string(),
        cached_value: Some(number(99.9)),
    });

    let ctx = create_test_context();
    let result = param.resolve(&ctx);
    assert!(result.is_ok());
    assert_eq!(result.unwrap(), number(99.9));
}

#[test]
fn test_connection_mode_no_value() {
    let mut param = ParameterInstance::new("test-param".to_string(), number(100.0));

    param.switch_to_connection("non-existent".to_string());

    let ctx = create_test_context();
    let result = param.resolve(&ctx);
    assert!(result.is_err());
}

#[test]
fn test_mode_switching() {
    let mut param = ParameterInstance::new("test-param".to_string(), number(100.0));

    match param.mode {
        ParamMode::Constant(_) => assert_eq!(param.ui_state.value_source, ValueSource::Default),
        _ => panic!("Expected Constant mode"),
    }

    param.switch_to_connection("input1".to_string());
    match &param.mode {
        ParamMode::Connection { port_id, .. } => {
            assert_eq!(port_id, &"input1".to_string());
            assert_eq!(param.ui_state.value_source, ValueSource::Connection);
        }
        _ => panic!("Expected Connection mode"),
    }

    param.switch_to_constant(DataValue::Text("switched back".to_string()));
    match &param.mode {
        ParamMode::Constant(value) => {
            assert_eq!(value, &DataValue::Text("switched back".to_string()));
            assert_eq!(param.ui_state.value_source, ValueSource::UserInput);
        }
        _ => panic!("Expected Constant mode"),
    }
}

#[test]
fn test_update_cached_value() {
    let mut param = ParameterInstance::new("test-param".to_string(), number(100.0));

    param.switch_to_connection("input1".to_string());

    param.update_cached_value(number(200.0));

    let ctx = create_test_context();
    let result = param.resolve(&ctx);
    assert!(result.is_ok());
    assert_eq!(result.unwrap(), number(42.0));
}

#[test]
fn test_get_type() {
    let mut param = ParameterInstance::new("test-param".to_string(), number(100.0));

    assert_eq!(param.get_type(), DataType::Number);

    param.switch_to_connection("input1".to_string());
    assert_eq!(param.get_type(), DataType::Number);

    param.update_cached_value(DataValue::Text("cached".to_string()));
    assert_eq!(param.get_type(), DataType::Text);
}

#[test]
fn test_type_compatibility() {
    let mut param = ParameterInstance::new("test-param".to_string(), number(100.0));

    assert!(param.is_type_compatible(&DataType::Number));

    assert!(param.is_type_compatible(&DataType::Text));
    assert!(param.is_type_compatible(&DataType::Boolean));

    assert!(!param.is_type_compatible(&DataType::Path));
    assert!(!param.is_type_compatible(&DataType::Model));

    param.switch_to_constant(DataValue::Boolean(true));
    assert!(param.is_type_compatible(&DataType::Number));
    assert!(param.is_type_compatible(&DataType::Text));

    param.switch_to_constant(DataValue::Text("test".to_string()));
    assert!(param.is_type_compatible(&DataType::Number));
    assert!(param.is_type_compatible(&DataType::Boolean));
}

#[test]
fn missing_port_is_named_in_the_error() {
    let mut param = ParameterInstance::new("p".to_string(), number(1.0));
    param.switch_to_connection("nowhere".to_string());
    assert_eq!(
        param.resolve(&create_test_context()),
        Err(Error::TypeMismatch(
            "Port 'nowhere' not found in context".to_string()
        ))
    );
    // A constant ignores the cache.
    let mut constant = ParameterInstance::new("c".to_string(), number(1.0));
    constant.update_cached_value(number(2.0));
    assert_eq!(constant.mode, ParamMode::Constant(number(1.0)));
}

#[test]
fn containers_are_compatible_by_their_elements() {
    let param = ParameterInstance::new("p".to_string(), number(1.0));
    let list = |t: DataType| DataType::List(Box::new(t));
    let stream = |t: DataType| DataType::Stream(Box::new(t));
    assert!(param.is_types_compatible(&list(DataType::Number), &list(DataType::Text)));
    assert!(param.is_types_compatible(
        &list(list(DataType::Boolean)),
        &list(list(DataType::Number))
    ));
    assert!(!param.is_types_compatible(&list(DataType::Number), &list(DataType::Path)));
    assert!(param.is_types_compatible(&stream(DataType::Text), &stream(DataType::Boolean)));
    assert!(!param.is_types_compatible(&stream(DataType::Text), &list(DataType::Text)));
    assert!(!param.is_types_compatible(&list(DataType::Number), &DataType::Number));
    assert!(param.is_types_compatible(&DataType::Model, &DataType::Model));
    assert!(!param.is_types_compatible(&DataType::Binary, &DataType::Text));
    let dict = |k: &str| DataType::Dict(k.to_string(), Box::new(DataType::Number));
    assert!(param.is_types_compatible(&dict("a"), &dict("a")));
    assert!(!param.is_types_compatible(&dict("a"), &dict("b")));
}

#[test]
fn last_connection_into_a_port_is_its_source() {
    let mut graph = ConnectionGraph::new();
    let n = |s: &str| s.to_string();
    assert_eq!(graph.get_source(&n("b"), &n("in")), None);
    graph.connect(Connection {
        from_node: n("a"),
        from_port: n("out"),
        to_node: n("b"),
        to_port: n("in"),
    });
    graph.connect(Connection {
        from_node: n("a"),
        from_port: n("out"),
        to_node: n("c"),
        to_port: n("in"),
    });
    assert_eq!(graph.get_source(&n("b"), &n("in")), Some((&n("a"), &n("out"))));
    assert_eq!(graph.get_source(&n("b"), &n("other")), None);
    graph.connect(Connection {
        from_node: n("z"),
        from_port: n("alt"),
        to_node: n("b"),
        to_port: n("in"),
    });
    assert_eq!(graph.get_source(&n("b"), &n("in")), Some((&n("z"), &n("alt"))));
    assert_eq!(graph.get_source(&n("c"), &n("in")), Some((&n("a"), &n("out"))));
}

#[test]
fn ports_are_kept_by_id() {
    let mut ports = DynamicPorts::new();
    assert!(ports.get_input("x").is_none());
    ports.add_input(Port {
        id: "x".to_string(),
        data_type: DataType::Text,
        multiple: false,
    });
    ports.add_output(Port {
        id: "x".to_string(),
        data_type: DataType::Number,
        multiple: true,
    });
    assert_eq!(ports.get_input("x").unwrap().data_type, DataType::Text);
    assert_eq!(ports.get_output("x").unwrap().data_type, DataType::Number);
    assert!(ports.get_output("x").unwrap().multiple);
    ports.add_input(Port {
        id: "x".to_string(),
        data_type: DataType::Boolean,
        multiple: false,
    });
    assert_eq!(ports.get_input("x").unwrap().data_type, DataType::Boolean);
    assert!(ports.get_input("y").is_none());
}
