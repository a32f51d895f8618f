use serde_json::Value;
use std::time::SystemTime;
use tracing::Level;
use tracing_fastly::{CorrelationFields, EventVisitor, StructuredEvent};

#[test]
fn routes_message_field_to_message() {
    let mut v = EventVisitor::new();
    v.insert("message", Value::String("hello".into()));

    assert_eq!(v.message, "hello");
    assert!(v.fields.is_empty());
}

#[test]
fn routes_non_message_fields_to_payload() {
    let mut v = EventVisitor::new();
    v.insert("status", Value::Number(200.into()));
    v.insert("backend", Value::String("foo".into()));

    assert_eq!(v.message, "");
    assert_eq!(v.fields.len(), 2);
    assert_eq!(v.fields["status"], Value::from(200));
    assert_eq!(v.fields["backend"], Value::from("foo"));
}

#[test]
fn message_last_write_wins() {
    let mut v = EventVisitor::new();
    v.insert("message", Value::String("first".into()));
    v.insert("message", Value::String("second".into()));

    assert_eq!(v.message, "second");
}

#[test]
fn field_last_write_wins() {
    let mut v = EventVisitor::new();
    v.record_str("k", "first");
    v.record_str("other", "stays");
    v.record_str("k", "second");

    assert_eq!(v.fields.len(), 2);
    assert_eq!(v.fields["k"], Value::from("second"));
    assert_eq!(v.fields["other"], Value::from("stays"));
}

#[test]
fn coerces_non_string_message_to_string() {
    let mut v = EventVisitor::new();
    v.insert("message", Value::Number(42.into()));

    assert_eq!(v.message, "42");
}

#[test]
fn coerces_every_kind_of_message() {
    let mut v = EventVisitor::new();
    v.record_i64("message", i64::MIN);
    assert_eq!(v.message, "-9223372036854775808");
    v.record_u64("message", u64::MAX);
    assert_eq!(v.message, "18446744073709551615");
    v.record_i64("message", 0);
    assert_eq!(v.message, "0");
    v.record_bool("message", true);
    assert_eq!(v.message, "true");
    v.record_bool("message", false);
    assert_eq!(v.message, "false");
    v.record_f64("message", Some(Value::from(1.5)));
    assert_eq!(v.message, "1.5");
    v.insert("message", Value::Null);
    assert_eq!(v.message, "null");
    v.insert("message", Value::Array(vec![Value::from("a"), Value::from(1)]));
    assert_eq!(v.message, "[\"a\",1]");
    v.record_debug("message", "as it is".to_owned());
    assert_eq!(v.message, "as it is");
    assert!(v.fields.is_empty());
}

#[test]
fn separates_message_from_other_fields() {
    let mut v = EventVisitor::new();
    v.insert("message", Value::String("the message".into()));
    v.insert("k", Value::Bool(true));

    assert_eq!(v.message, "the message");
    assert_eq!(v.fields.len(), 1);

    assert!(!v.fields.contains_key("message"));
}

#[test]
fn records_every_kind_of_field() {
    let mut v = EventVisitor::new();
    v.record_str("str", "\"quoted\"");
    v.record_i64("i64", -5);
    v.record_u64("u64", u64::MAX);
    v.record_bool("bool", false);
    v.record_f64("f64", Some(Value::from(0.25)));
    v.record_debug("debug", "\"quoted\"".to_owned());

    assert_eq!(v.fields.len(), 6);
    assert_eq!(v.fields["str"], Value::from("\"quoted\""));
    assert_eq!(v.fields["i64"], Value::from(-5));
    assert_eq!(v.fields["u64"], Value::from(u64::MAX));
    assert_eq!(v.fields["bool"], Value::from(false));
    assert_eq!(v.fields["f64"], Value::from(0.25));
    assert_eq!(v.fields["debug"], Value::from("\"quoted\""));
}

#[test]
fn numbers_that_json_cannot_hold_are_left_out() {
    let mut v = EventVisitor::new();
    v.record_f64("f64", serde_json::Number::from_f64(f64::NAN).map(Value::Number));
    v.record_f64("message", serde_json::Number::from_f64(f64::INFINITY).map(Value::Number));

    assert!(v.fields.is_empty());
    assert_eq!(v.message, "");
}

#[test]
fn payload_is_none_when_empty() {
    let fields = serde_json::Map::new();
    let correlation = CorrelationFields::default();
    let ev = StructuredEvent {
        timestamp: SystemTime::UNIX_EPOCH,
        level: Level::INFO,
        message: "hi",
        fields: &fields,
        correlation: &correlation,
    };
    assert!(ev.payload().is_none());
}

#[test]
fn payload_holds_the_fields() {
    let mut v = EventVisitor::new();
    v.record_u64("status", 200);
    let correlation = CorrelationFields::default();
    let ev = StructuredEvent {
        timestamp: SystemTime::UNIX_EPOCH,
        level: Level::WARN,
        message: "hi",
        fields: &v.fields,
        correlation: &correlation,
    };
    assert_eq!(ev.payload(), Some(&v.fields));
    assert_eq!(ev.payload().unwrap()["status"], Value::from(200));
}

#[test]
fn correlation_fields_lookup() {
    let cf = CorrelationFields {
        values: vec![("request_id", "abc".into()), ("trace_id", "xyz".into())],
    };
    assert_eq!(cf.get("request_id"), Some("abc"));
    assert_eq!(cf.get("trace_id"), Some("xyz"));
    assert_eq!(cf.get("missing"), None);
    assert!(!cf.is_empty());
}

#[test]
fn correlation_fields_lookup_takes_the_first() {
    let cf = CorrelationFields {
        values: vec![("a", "1".into()), ("b", "2".into()), ("a", "3".into())],
    };
    assert_eq!(cf.get("a"), Some("1"));
    assert_eq!(cf.get(""), None);
}

#[test]
fn correlation_fields_come_in_order() {
    let cf = CorrelationFields {
        values: vec![("b", "1".into()), ("a", "2".into())],
    };
    let all: Vec<(&'static str, &str)> = cf.iter().collect();
    assert_eq!(all, vec![("b", "1"), ("a", "2")]);
    assert_eq!(cf.clone().values, cf.values);
    assert!(CorrelationFields::default().is_empty());
    assert_eq!(CorrelationFields::default().iter().count(), 0);
}
