use microflow::types::data_value::{number_from_text, truth_from_text};
use microflow::types::{DataType, DataValue, Error, ModelId, NumberText};

/// Numbers as the standard library prints and reads them.
struct Decimal;

impl NumberText for Decimal {
    fn print(&self, bits: u64) -> String {
        f64::from_bits(bits).to_string()
    }

    fn parse(&self, text: &str) -> Option<u64> {
        text.parse::<f64>().ok().map(|n| n.to_bits())
    }
}

fn number(n: f64) -> DataValue {
    DataValue::Number(n.to_bits())
}

fn text(s: &str) -> DataValue {
    DataValue::Text(s.to_string())
}

fn path(s: &str) -> DataValue {
    DataValue::Path(s.to_string())
}

#[test]
fn test_data_value_as_number() {
    assert_eq!(number(42.0).as_number(&Decimal), Some(42.0f64.to_bits()));
    assert_eq!(
        DataValue::Boolean(true).as_number(&Decimal),
        Some(1.0f64.to_bits())
    );
    assert_eq!(
        DataValue::Boolean(false).as_number(&Decimal),
        Some(0.0f64.to_bits())
    );
    assert_eq!(text("123").as_number(&Decimal), Some(123.0f64.to_bits()));
    assert_eq!(text("abc").as_number(&Decimal), None);
    assert_eq!(path("/test").as_number(&Decimal), None);
}

#[test]
fn test_data_value_convert_to() {
    let num_value = number(42.0);
    assert_eq!(
        num_value.convert_to(DataType::Number, &Decimal).unwrap(),
        number(42.0)
    );
    assert_eq!(
        num_value.convert_to(DataType::Text, &Decimal).unwrap(),
        text("42")
    );
    assert_eq!(
        num_value.convert_to(DataType::Boolean, &Decimal).unwrap(),
        DataValue::Boolean(true)
    );

    let text_value = text("123");
    assert_eq!(
        text_value.convert_to(DataType::Text, &Decimal).unwrap(),
        text("123")
    );
    assert_eq!(
        text_value.convert_to(DataType::Number, &Decimal).unwrap(),
        number(123.0)
    );
    assert!(text_value.convert_to(DataType::Boolean, &Decimal).is_err());

    let text_bool_value = text("true");
    assert_eq!(
        text_bool_value
            .convert_to(DataType::Boolean, &Decimal)
            .unwrap(),
        DataValue::Boolean(true)
    );

    let bool_value = DataValue::Boolean(true);
    assert_eq!(
        bool_value.convert_to(DataType::Boolean, &Decimal).unwrap(),
        DataValue::Boolean(true)
    );
    assert_eq!(
        bool_value.convert_to(DataType::Number, &Decimal).unwrap(),
        number(1.0)
    );
    assert_eq!(
        bool_value.convert_to(DataType::Text, &Decimal).unwrap(),
        text("true")
    );

    let path_value = path("/test");
    assert_eq!(
        path_value.convert_to(DataType::Path, &Decimal).unwrap(),
        path("/test")
    );
    assert_eq!(
        path_value.convert_to(DataType::Text, &Decimal).unwrap(),
        text("/test")
    );
}

#[test]
fn number_is_true_unless_it_is_zero() {
    for (n, truth) in [
        (0.0, false),
        (-0.0, false),
        (1.0, true),
        (-2.5, true),
        (f64::MIN_POSITIVE, true),
        (f64::INFINITY, true),
        (f64::NAN, true),
    ] {
        assert_eq!(
            number(n).convert_to(DataType::Boolean, &Decimal),
            Ok(DataValue::Boolean(truth)),
            "{}",
            n
        );
        assert_eq!(n != 0.0, truth);
    }
    assert_eq!(
        DataValue::Boolean(false).convert_to(DataType::Number, &Decimal),
        Ok(number(0.0))
    );
}

#[test]
fn truth_is_read_in_any_case() {
    for word in ["true", "TRUE", "Yes", "1"] {
        assert_eq!(truth_from_text(word), Some(true));
        assert_eq!(
            text(word).convert_to(DataType::Boolean, &Decimal),
            Ok(DataValue::Boolean(true))
        );
    }
    for word in ["false", "No", "0", "FALSE"] {
        assert_eq!(truth_from_text(word), Some(false));
    }
    for word in ["", "maybe", "2", " true", "yes!"] {
        assert_eq!(truth_from_text(word), None);
    }
    assert_eq!(
        text("maybe").convert_to(DataType::Boolean, &Decimal),
        Err(Error::ConversionError(
            "Cannot convert 'maybe' to boolean".to_string()
        ))
    );
    assert_eq!(
        DataValue::Boolean(false).convert_to(DataType::Text, &Decimal),
        Ok(text("false"))
    );
}

#[test]
fn bytes_go_to_text_and_back_in_base64() {
    let bytes = DataValue::Binary(vec![0, 1, 2, 250, 251, 252, 253]);
    let encoded = bytes.convert_to(DataType::Text, &Decimal).unwrap();
    assert_eq!(encoded, text("AAEC+vv8/Q=="));
    assert_eq!(encoded.convert_to(DataType::Binary, &Decimal), Ok(bytes));
    assert_eq!(
        DataValue::Binary(vec![]).convert_to(DataType::Text, &Decimal),
        Ok(text(""))
    );
    assert_eq!(
        text("aGVsbG8=").convert_to(DataType::Binary, &Decimal),
        Ok(DataValue::Binary(b"hello".to_vec()))
    );
    assert_eq!(
        text("not base64!").convert_to(DataType::Binary, &Decimal),
        Err(Error::ConversionError(
            "Cannot convert string to binary".to_string()
        ))
    );
    assert_eq!(
        DataValue::Binary(vec![7]).convert_to(DataType::Binary, &Decimal),
        Ok(DataValue::Binary(vec![7]))
    );
}

#[test]
fn text_that_is_no_number_is_refused() {
    assert_eq!(
        text("abc").convert_to(DataType::Number, &Decimal),
        Err(Error::ConversionError(
            "Cannot convert 'abc' to number".to_string()
        ))
    );
    assert_eq!(number_from_text("7", Some(5)), Ok(DataValue::Number(5)));
    assert_eq!(
        number_from_text("x", None),
        Err(Error::ConversionError(
            "Cannot convert 'x' to number".to_string()
        ))
    );
    assert_eq!(
        number(1.5).convert_to(DataType::Text, &Decimal),
        Ok(text("1.5"))
    );
}

#[test]
fn other_conversions_do_not_exist() {
    assert_eq!(
        number(1.0).convert_to(DataType::Model, &Decimal),
        Err(Error::TypeMismatch(
            "Cannot convert Number to Model".to_string()
        ))
    );
    assert_eq!(
        DataValue::Model(ModelId("m".to_string())).convert_to(DataType::Text, &Decimal),
        Err(Error::TypeMismatch(
            "Cannot convert Model to Text".to_string()
        ))
    );
    assert_eq!(
        DataValue::List(vec![text("a")])
            .convert_to(DataType::List(Box::new(DataType::Text)), &Decimal),
        Err(Error::TypeMismatch(
            "Cannot convert List(Text) to List(Text)".to_string()
        ))
    );
    assert_eq!(
        path("/p").convert_to(DataType::Number, &Decimal),
        Err(Error::TypeMismatch(
            "Cannot convert Path to Number".to_string()
        ))
    );
    assert_eq!(
        DataValue::Binary(vec![1]).convert_to(DataType::Boolean, &Decimal),
        Err(Error::TypeMismatch(
            "Cannot convert Binary to Boolean".to_string()
        ))
    );
}
