# tracing-fastly

Structured log events for Fastly services that use `tracing`, verified with Verus.

A `CorrelationLayer` remembers chosen span fields, such as a request id, and attaches them to
every event that is logged below those spans. The outermost span wins; within a span, the value
recorded last wins. Each event goes to an `EventSink` with its time, level, message, remaining
fields and correlated fields. The `bq` module turns values into BigQuery columns.

- `src/text.rs`, `src/pairs.rs`: trimming text; ordered lists of named values.
- `src/json.rs`: the parts of `serde_json` that the library calls.
- `src/event.rs`: events, sinks, and collecting an event's fields.
- `src/layer.rs`: the correlation layer and the laws that it keeps.
- `src/bq.rs`: columns.
- `app/`: the layer for `tracing_subscriber`, and the columns for serde.
