use rustql::expr::{BinaryOp, Value};
use rustql::float::{FloatReply, FloatTask};
use rustql::span::Span;
use rustql::statement::DataType;

fn host(task: FloatTask) -> FloatReply {
    match task {
        FloatTask::Parse(text) => match text.parse::<f64>() {
            Ok(value) => FloatReply::Number(value.to_bits()),
            Err(_) => FloatReply::Invalid,
        },
        FloatTask::FromInteger(value) => FloatReply::Number((value as f64).to_bits()),
        FloatTask::Arithmetic(op, a, b) => {
            let (x, y) = (f64::from_bits(a), f64::from_bits(b));
            let value = match op {
                BinaryOp::Add => x + y,
                BinaryOp::Subtract => x - y,
                BinaryOp::Multiply => x * y,
                BinaryOp::Divide => x / y,
                BinaryOp::Modulo => x % y,
                _ => return FloatReply::Invalid,
            };
            FloatReply::Number(value.to_bits())
        }
        FloatTask::DebugText(bits) => FloatReply::Text(format!("{:?}", f64::from_bits(bits))),
        FloatTask::DisplayText(bits) => FloatReply::Text(format!("{}", f64::from_bits(bits))),
    }
}

#[test]
fn spans_merge_slice_and_use_half_open_bounds() {
    let source = "a🚀bc";
    let rocket = Span::new(1, 5);
    assert_eq!(rocket.len(), 4);
    assert_eq!(rocket.slice(source), "🚀");
    assert!(rocket.contains(1));
    assert!(!rocket.contains(5));
    assert_eq!(rocket.merge(Span::new(5, 7)), Span::new(1, 7));
}

#[test]
fn values_have_stable_type_names_and_display_values() {
    let values = [
        (Value::Integer(1), "INTEGER", "1"),
        (Value::Float(1.5f64.to_bits()), "FLOAT", "1.5"),
        (Value::String("text".into()), "STRING", "text"),
        (Value::Boolean(true), "BOOLEAN", "true"),
        (Value::Null, "NULL", "NULL"),
    ];

    for (value, sql_name, display) in values {
        assert_eq!(value.sql_type_name(), sql_name);
        assert_eq!(value.display_text(&host), display);
    }
}

#[test]
fn span_edge_cases() {
    let empty = Span::new(3, 3);
    assert_eq!(empty.len(), 0);
    assert!(empty.is_empty());
    assert!(!empty.contains(3));
    let backwards = Span::new(5, 2);
    assert_eq!(backwards.len(), 0);
    assert!(backwards.is_empty());
    assert_eq!(Span::new(4, 9).merge(Span::new(1, 2)), Span::new(1, 9));
    assert_eq!(Span::new(0, 1).slice("héllo"), "h");
    assert_eq!(Span::new(1, 3).slice("héllo"), "é");
    assert_eq!(Span::default(), Span::new(0, 0));
}

#[test]
fn negative_integers_and_floats_display() {
    assert_eq!(Value::Integer(-42).display_text(&host), "-42");
    assert_eq!(Value::Integer(i64::MIN).display_text(&host), "-9223372036854775808");
    assert_eq!(Value::Float(2000.0f64.to_bits()).display_text(&host), "2000");
    assert_eq!(Value::Boolean(false).display_text(&host), "false");
}

#[test]
fn data_types_have_sql_names() {
    assert_eq!(DataType::Integer.name(), "INTEGER");
    assert_eq!(DataType::Float.name(), "FLOAT");
    assert_eq!(DataType::Boolean.name(), "BOOLEAN");
    assert_eq!(DataType::String.name(), "STRING");
}
