use serde_json::Value;
use std::time::{Duration, SystemTime, UNIX_EPOCH};
use tracing_fastly::bq::{
    json_column, ser_http_status, ser_json_as_string, ser_unix_seconds, UnixSeconds,
};

fn as_number(seconds: UnixSeconds) -> Value {
    Value::from(Duration::new(seconds.secs, seconds.nanos).as_secs_f64())
}

fn object(name: &str, value: Value) -> Value {
    let mut members = serde_json::Map::new();
    members.insert(name.to_owned(), value);
    Value::Object(members)
}

#[test]
fn unix_seconds_is_a_number() {
    let v = as_number(ser_unix_seconds(
        &(UNIX_EPOCH + Duration::from_millis(1500)),
    ));
    assert!(v.is_number());
    assert_eq!(v.as_f64().unwrap(), 1.5);
}

#[test]
fn unix_seconds_are_exact() {
    let t = UNIX_EPOCH + Duration::new(1_725_029_869, 123_456_789);
    let seconds = ser_unix_seconds(&t);
    assert_eq!(seconds.secs, 1_725_029_869);
    assert_eq!(seconds.nanos, 123_456_789);
}

#[test]
fn pre_epoch_falls_back_to_zero() {
    let v = as_number(ser_unix_seconds(&(UNIX_EPOCH - Duration::from_secs(10))));
    assert_eq!(v.as_f64().unwrap(), 0.0);
}

#[test]
fn just_before_the_epoch_is_zero_and_the_epoch_too() {
    let zero = UnixSeconds { secs: 0, nanos: 0 };
    assert_eq!(ser_unix_seconds(&(UNIX_EPOCH - Duration::from_nanos(1))), zero);
    assert_eq!(ser_unix_seconds(&SystemTime::UNIX_EPOCH), zero);
}

#[test]
fn status_serializes_as_u16() {
    let v = Value::from(ser_http_status(&fastly::http::StatusCode::NOT_FOUND));
    assert_eq!(v, Value::from(404));
    assert!(v.is_number());
}

#[test]
fn status_numbers_reach_from_100_to_999() {
    for number in [100u16, 200, 599, 999] {
        let status = fastly::http::StatusCode::from_u16(number).unwrap();
        assert_eq!(ser_http_status(&status), number);
    }
}

#[test]
fn json_payload_is_a_string_not_an_object() {
    let payload = object("k", Value::from(1));
    let v = ser_json_as_string(&Some(&payload)).unwrap();

    let s = v.expect("payload must be a string");
    assert_eq!(
        serde_json::from_str::<Value>(&s).unwrap(),
        object("k", Value::from(1))
    );
    assert_eq!(s, "{\"k\":1}");
}

#[test]
fn json_strings_keep_their_quotes() {
    let payload = Value::from("a \"b\"");
    let s = ser_json_as_string(&Some(&payload)).unwrap().unwrap();
    assert_eq!(s, "\"a \\\"b\\\"\"");
}

#[test]
fn json_payload_none_serializes_as_null() {
    let v = ser_json_as_string(&None).unwrap();
    assert!(Value::from(v).is_null());
}

#[test]
fn json_column_passes_failures_on() {
    let failure = serde_json::from_str::<Value>("{").unwrap_err();
    let message = failure.to_string();
    let error = json_column(Some(Err(failure))).unwrap_err();
    assert_eq!(error.cause.to_string(), message);
    assert_eq!(json_column(Some(Ok("1".to_owned()))).unwrap(), Some("1".to_owned()));
    assert_eq!(json_column(None).unwrap(), None);
}

#[test]
fn json_columns_parse_back() {
    let text = "\u{0}\u{8}\u{1f}\u{7f} \"\\/ \n\r\t \u{e9} \u{2028} \u{1f600}";
    let mut nested = Value::from(text);
    for _ in 0..50 {
        nested = object(text, Value::Array(vec![nested, Value::Null]));
    }
    let values = vec![
        Value::Null,
        Value::from(true),
        Value::from(false),
        Value::from(0),
        Value::from(i64::MIN),
        Value::from(u64::MAX),
        Value::from(""),
        Value::from(text),
        Value::Array(Vec::new()),
        Value::Object(serde_json::Map::new()),
        nested,
    ];
    for value in values {
        let s = ser_json_as_string(&Some(&value)).unwrap().unwrap();
        assert_eq!(serde_json::from_str::<Value>(&s).unwrap(), value);
    }
}
