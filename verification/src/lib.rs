//! Structured log events for Fastly services that use `tracing`.
//!
//! A [`CorrelationLayer`] remembers chosen span fields and attaches them to each event that
//! is logged below those spans. The [`bq`] module turns values into BigQuery columns.
pub mod event;
pub mod json;
pub mod layer;
pub mod pairs;
pub mod text;

pub mod bq;

pub use event::{CorrelationFields, EventSink, EventVisitor, StructuredEvent};
pub use layer::{CorrelationLayer, CorrelationVisitor, SpanState};
