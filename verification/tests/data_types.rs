use microflow::types::{DataType, DataValue, Error, ModelId};
use std::collections::HashSet;

#[test]
fn test_data_type_display() {
    assert_eq!(DataType::Number.to_string(), "Number");
    assert_eq!(DataType::Text.to_string(), "Text");
    assert_eq!(DataType::Boolean.to_string(), "Boolean");
    assert_eq!(DataType::Path.to_string(), "Path");
    assert_eq!(DataType::Model.to_string(), "Model");
    assert_eq!(
        DataType::List(Box::new(DataType::Number)).to_string(),
        "List(Number)"
    );
    assert_eq!(
        DataType::Dict("key".to_string(), Box::new(DataType::Text)).to_string(),
        "Dict(key, Text)"
    );
    assert_eq!(
        DataType::Stream(Box::new(DataType::Boolean)).to_string(),
        "Stream(Boolean)"
    );
}

#[test]
fn test_data_value_data_type() {
    assert_eq!(
        DataValue::Number(42.0f64.to_bits()).data_type(),
        DataType::Number
    );
    assert_eq!(
        DataValue::Text("hello".to_string()).data_type(),
        DataType::Text
    );
    assert_eq!(DataValue::Boolean(true).data_type(), DataType::Boolean);
    assert_eq!(
        DataValue::Path("/test".to_string()).data_type(),
        DataType::Path
    );
    assert_eq!(
        DataValue::Model(ModelId("test-model".to_string())).data_type(),
        DataType::Model
    );

    let list = DataValue::List(vec![
        DataValue::Number(1.0f64.to_bits()),
        DataValue::Number(2.0f64.to_bits()),
    ]);
    assert_eq!(list.data_type(), DataType::List(Box::new(DataType::Number)));

    let empty_list = DataValue::List(vec![]);
    assert_eq!(
        empty_list.data_type(),
        DataType::List(Box::new(DataType::Number))
    );

    let dict = vec![(
        "key1".to_string(),
        DataValue::Text("value1".to_string()),
    )];
    let dict_value = DataValue::Dict(dict);
    assert_eq!(
        dict_value.data_type(),
        DataType::Dict("key".to_string(), Box::new(DataType::Number))
    );
}

#[test]
fn test_data_value_as_text() {
    assert_eq!(
        DataValue::Text("hello".to_string()).as_text(),
        Some("hello")
    );
    assert_eq!(DataValue::Number(42.0f64.to_bits()).as_text(), None);
    assert_eq!(DataValue::Boolean(true).as_text(), None);
    assert_eq!(DataValue::Path("/test".to_string()).as_text(), None);
}

#[test]
fn nested_types_print_inside_out() {
    let t = DataType::List(Box::new(DataType::Dict(
        "k".to_string(),
        Box::new(DataType::Stream(Box::new(DataType::Binary))),
    )));
    assert_eq!(t.to_string(), "List(Dict(k, Stream(Binary)))");
    assert!(t.same(&t.clone()));
    assert!(!t.same(&DataType::List(Box::new(DataType::Binary))));
}

#[test]
fn list_type_follows_first_item() {
    let list = DataValue::List(vec![
        DataValue::Text("a".to_string()),
        DataValue::Number(0),
    ]);
    assert_eq!(list.data_type(), DataType::List(Box::new(DataType::Text)));
    let nested = DataValue::List(vec![DataValue::List(vec![])]);
    assert_eq!(
        nested.data_type(),
        DataType::List(Box::new(DataType::List(Box::new(DataType::Number))))
    );
}

#[test]
fn values_compare_by_content() {
    let a = DataValue::Dict(vec![
        ("x".to_string(), DataValue::List(vec![DataValue::Boolean(true)])),
        ("y".to_string(), DataValue::Binary(vec![1, 2, 3])),
    ]);
    let b = a.clone();
    assert!(a.same(&b));
    assert_eq!(a, b);
    let c = DataValue::Dict(vec![
        ("x".to_string(), DataValue::List(vec![DataValue::Boolean(false)])),
        ("y".to_string(), DataValue::Binary(vec![1, 2, 3])),
    ]);
    assert!(!a.same(&c));
    let d = DataValue::Dict(vec![
        ("x".to_string(), DataValue::List(vec![DataValue::Boolean(true)])),
        ("y".to_string(), DataValue::Binary(vec![1, 2, 4])),
    ]);
    assert!(!a.same(&d));
    assert!(!DataValue::Text("1".to_string()).same(&DataValue::Path("1".to_string())));
    assert!(DataValue::Model(ModelId("m".to_string()))
        .same(&DataValue::Model(ModelId("m".to_string()))));
}

#[test]
fn error_to_string() {
    assert_eq!(
        Error::TypeMismatch("a".to_string()).to_string(),
        "Type mismatch: a"
    );
    assert_eq!(
        Error::ConversionError("b".to_string()).to_string(),
        "Conversion error: b"
    );
    assert_eq!(
        Error::StreamError("c".to_string()).to_string(),
        "Stream error: c"
    );
    assert_eq!(
        Error::PathError("d".to_string()).to_string(),
        "Path error: d"
    );
}

#[test]
fn values_can_be_kept_in_a_hashed_set() {
    let mut seen: HashSet<DataValue> = HashSet::new();
    assert!(seen.insert(DataValue::Text("a".to_string())));
    assert!(seen.insert(DataValue::Path("a".to_string())));
    assert!(seen.insert(DataValue::List(vec![DataValue::Boolean(true)])));
    assert!(!seen.insert(DataValue::Text("a".to_string())));
    assert!(seen.contains(&DataValue::List(vec![DataValue::Boolean(true)])));
    assert!(!seen.contains(&DataValue::Number(0)));
    assert_eq!(seen.len(), 3);
}
