use serde_json::Value;
use std::sync::{Arc, Mutex};
use std::time::{Duration, SystemTime, UNIX_EPOCH};
use tracing::Level;
use tracing_fastly::layer::{correlation_of, deliver};
use tracing_fastly::text::trim_quotes;
use tracing_fastly::{CorrelationLayer, EventSink, EventVisitor, SpanState, StructuredEvent};

#[derive(Clone)]
struct Captured {
    timestamp: SystemTime,
    level: Level,
    message: String,
    payload: Option<Value>,
    correlation: Vec<(String, String)>,
}

#[derive(Clone, Default)]
struct CaptureSink(Arc<Mutex<Vec<Captured>>>);

impl EventSink for CaptureSink {
    fn emit(&self, event: &StructuredEvent<'_>) {
        self.0.lock().unwrap().push(Captured {
            timestamp: event.timestamp,
            level: event.level,
            message: event.message.to_owned(),
            payload: event.payload().map(|fields| Value::Object(fields.clone())),
            correlation: event
                .correlation
                .iter()
                .map(|(k, v)| (k.to_owned(), v.to_owned()))
                .collect(),
        });
    }
}

fn layer_with(names: Vec<&'static str>) -> (CorrelationLayer<CaptureSink>, CaptureSink) {
    let sink = CaptureSink::default();
    (CorrelationLayer::new(sink.clone()).correlate_all(names), sink)
}

fn span(layer: &CorrelationLayer<CaptureSink>, fields: &[(&str, &str)]) -> Option<SpanState> {
    let mut state = SpanState::default();
    let mut visitor = layer.on_new_span(&mut state);
    for (name, value) in fields {
        visitor.record_str(name, value);
    }
    Some(state)
}

fn hello(
    layer: &CorrelationLayer<CaptureSink>,
    sink: &CaptureSink,
    scope: &[Option<SpanState>],
) -> Captured {
    let mut event = EventVisitor::new();
    event.record_debug("message", "hello".to_owned());
    layer.on_event(SystemTime::now(), Level::INFO, &event, scope);
    let mut taken = sink.0.lock().unwrap();
    assert_eq!(taken.len(), 1);
    taken.pop().unwrap()
}

fn field<'a>(c: &'a Captured, name: &str) -> Option<&'a str> {
    c.correlation
        .iter()
        .find(|(k, _)| k == name)
        .map(|(_, v)| v.as_str())
}

fn rid(c: &Captured) -> Option<&str> {
    field(c, "request_id")
}

#[test]
fn request_id_captured_from_span_creation() {
    let sink = CaptureSink::default();
    let layer = CorrelationLayer::new(sink.clone()).correlate("request_id");
    let req = span(&layer, &[("request_id", "abc-123")]);
    let c = hello(&layer, &sink, &[req]);
    assert_eq!(rid(&c), Some("abc-123"));
    assert_eq!(c.message, "hello");
}

#[test]
fn request_id_captured_when_recorded_after_span_creation() {
    let sink = CaptureSink::default();
    let layer = CorrelationLayer::new(sink.clone()).correlate("request_id");
    let mut req = span(&layer, &[]).unwrap();
    layer.on_record(&mut req).record_str("request_id", "late-id");
    let c = hello(&layer, &sink, &[Some(req)]);
    assert_eq!(rid(&c), Some("late-id"));
}

#[test]
fn request_id_inherited_from_ancestor_span() {
    let sink = CaptureSink::default();
    let layer = CorrelationLayer::new(sink.clone()).correlate("request_id");
    let outer = span(&layer, &[("request_id", "root-id")]);
    let inner = span(&layer, &[]);
    let c = hello(&layer, &sink, &[outer, inner]);
    assert_eq!(rid(&c), Some("root-id"));
}

#[test]
fn outermost_span_wins() {
    let sink = CaptureSink::default();
    let layer = CorrelationLayer::new(sink.clone()).correlate("request_id");
    let outer = span(&layer, &[("request_id", "root-id")]);
    let inner = span(&layer, &[("request_id", "inner-id")]);
    let c = hello(&layer, &sink, &[outer, inner]);
    assert_eq!(rid(&c), Some("root-id"));
    assert_eq!(c.correlation.len(), 1);
}

#[test]
fn absent_when_no_ancestor_has_it() {
    let sink = CaptureSink::default();
    let layer = CorrelationLayer::new(sink.clone()).correlate("request_id");
    let plain = span(&layer, &[]);
    let c = hello(&layer, &sink, &[plain]);
    assert_eq!(rid(&c), None);
}

#[test]
fn only_configured_fields_are_correlated() {
    let sink = CaptureSink::default();
    let layer = CorrelationLayer::new(sink.clone()).correlate("request_id");
    let req = span(&layer, &[("other", "nope"), ("request_id", "real")]);
    let c = hello(&layer, &sink, &[req]);
    assert_eq!(rid(&c), Some("real"));

    assert!(c.correlation.iter().all(|(k, _)| k != "other"));
}

#[test]
fn multiple_fields_correlated() {
    let (layer, sink) = layer_with(vec!["request_id", "trace_id"]);
    let req = span(&layer, &[("request_id", "r1"), ("trace_id", "t1")]);
    let c = hello(&layer, &sink, &[req]);
    assert_eq!(rid(&c), Some("r1"));
    assert_eq!(field(&c, "trace_id"), Some("t1"));
}

#[test]
fn a_layer_correlates_nothing_at_first() {
    let sink = CaptureSink::default();
    let layer = CorrelationLayer::new(sink.clone());
    let req = span(&layer, &[("request_id", "r1")]);
    let c = hello(&layer, &sink, &[req]);
    assert!(c.correlation.is_empty());
}

#[test]
fn spans_without_memory_are_passed_over() {
    let (layer, sink) = layer_with(vec!["request_id"]);
    let inner = span(&layer, &[("request_id", "inner-id")]);
    let c = hello(&layer, &sink, &[None, inner, None]);
    assert_eq!(rid(&c), Some("inner-id"));
    assert!(hello(&layer, &sink, &[]).correlation.is_empty());
}

#[test]
fn last_recorded_value_wins_and_keeps_its_place() {
    let (layer, sink) = layer_with(vec!["a", "b"]);
    let req = span(&layer, &[("b", "1"), ("a", "2"), ("c", "3"), ("b", "4")]);
    let c = hello(&layer, &sink, &[req]);
    assert_eq!(
        c.correlation,
        vec![("b".to_owned(), "4".to_owned()), ("a".to_owned(), "2".to_owned())]
    );
}

#[test]
fn inner_fields_stand_behind_outer_ones() {
    let (layer, _) = layer_with(vec!["a", "b", "c"]);
    let outer = span(&layer, &[("b", "1")]);
    let inner = span(&layer, &[("c", "2"), ("b", "3"), ("a", "4")]);
    let correlation = correlation_of(&[outer, inner]);
    let all: Vec<(&'static str, &str)> = correlation.iter().collect();
    assert_eq!(all, vec![("b", "1"), ("c", "2"), ("a", "4")]);
}

#[test]
fn late_fields_count_as_early_ones() {
    let (layer, _) = layer_with(vec!["a", "b"]);
    let at_once = span(&layer, &[("a", "1"), ("b", "2"), ("a", "3")]).unwrap();
    let mut in_parts = span(&layer, &[("a", "1")]).unwrap();
    let mut visitor = layer.on_record(&mut in_parts);
    visitor.record_str("b", "2");
    visitor.record_str("a", "3");
    assert_eq!(in_parts.values, at_once.values);
    assert_eq!(in_parts.clone().values, at_once.values);
}

#[test]
fn a_new_span_forgets_what_was_there() {
    let (layer, _) = layer_with(vec!["a"]);
    let mut state = span(&layer, &[("a", "1")]).unwrap();
    layer.on_new_span(&mut state);
    assert!(state.values.is_empty());
}

#[test]
fn described_values_lose_their_quotes() {
    let (layer, _) = layer_with(vec!["a"]);
    let mut state = SpanState::default();
    let mut visitor = layer.on_new_span(&mut state);
    visitor.record_debug("a", || format!("{:?}", "id"));
    assert_eq!(state.values, vec![("a", "id".to_owned())]);
}

#[test]
fn other_fields_are_not_asked_for_their_text() {
    let (layer, _) = layer_with(vec!["a"]);
    let mut state = SpanState::default();
    let mut visitor = layer.on_new_span(&mut state);
    visitor.capture("b", || panic!("not correlated"));
    visitor.record_debug("b", || panic!("not correlated"));
    visitor.capture("a", || "\"1\"".to_owned());
    assert_eq!(state.values, vec![("a", "\"1\"".to_owned())]);
}

#[test]
fn quotes_are_trimmed_at_both_ends_only() {
    assert_eq!(trim_quotes(""), "");
    assert_eq!(trim_quotes("\"\"\""), "");
    assert_eq!(trim_quotes("plain"), "plain");
    assert_eq!(trim_quotes("\"\"a\"b\""), "a\"b");
    assert_eq!(trim_quotes("\"\u{e9}\u{1f600}\""), "\u{e9}\u{1f600}");
    for text in ["", "\"", "a", "\"a", "a\"\"", "\"a\" \"b\"", "\u{201c}a\""] {
        assert_eq!(trim_quotes(text), text.trim_matches('"'));
    }
}

#[test]
fn events_reach_the_sink_whole() {
    let (layer, sink) = layer_with(vec!["request_id"]);
    let timestamp = UNIX_EPOCH + Duration::from_secs(7);
    let mut event = EventVisitor::new();
    event.record_u64("status", 200);
    event.record_str("message", "handled request");
    layer.on_event(timestamp, Level::WARN, &event, &[]);
    let taken = sink.0.lock().unwrap();
    assert_eq!(taken.len(), 1);
    assert_eq!(taken[0].timestamp, timestamp);
    assert_eq!(taken[0].level, Level::WARN);
    assert_eq!(taken[0].message, "handled request");
    assert_eq!(taken[0].payload.as_ref().unwrap()["status"], Value::from(200));
}

#[test]
fn only_the_set_of_names_counts() {
    let sink = CaptureSink::default();
    let each = CorrelationLayer::new(sink.clone())
        .correlate("a")
        .correlate("b")
        .correlate("a");
    let (all, _) = layer_with(vec!["b", "a"]);
    let fields = [("b", "1"), ("c", "2"), ("a", "3")];
    let remembered = span(&each, &fields).unwrap().values;
    assert_eq!(remembered, span(&all, &fields).unwrap().values);
    assert_eq!(remembered, vec![("b", "1".to_owned()), ("a", "3".to_owned())]);
}

#[test]
fn an_event_is_delivered_once_and_alone() {
    let (layer, _) = layer_with(vec!["request_id"]);
    let timestamp = UNIX_EPOCH + Duration::from_secs(7);
    let mut event = EventVisitor::new();
    event.record_bool("cached", true);
    event.record_str("message", "hello");
    let outer = span(&layer, &[("request_id", "root-id")]);
    let inner = span(&layer, &[("request_id", "inner-id")]);
    let given = CaptureSink::default();
    deliver(timestamp, Level::ERROR, &event, &[outer, inner], |structured| {
        given.emit(structured)
    });
    let taken = given.0.lock().unwrap();
    assert_eq!(taken.len(), 1);
    assert_eq!(taken[0].timestamp, timestamp);
    assert_eq!(taken[0].level, Level::ERROR);
    assert_eq!(taken[0].message, "hello");
    assert_eq!(taken[0].payload.as_ref().unwrap()["cached"], Value::from(true));
    assert_eq!(
        taken[0].correlation,
        vec![("request_id".to_owned(), "root-id".to_owned())]
    );
}
