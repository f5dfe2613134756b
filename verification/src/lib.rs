//! A span profiler core: per-span timing state, the index of completed child
//! spans, the aggregation of a finished root into a labelled call tree, and the
//! text forms of that tree and of the per-span rows.
//!
//! Every function here is a plain computation on values handed in by the
//! caller; clocks, locks, span registries and output sinks live with the caller.

pub mod aggregate;
pub mod config;
pub mod csv;
pub mod error;
pub mod fields;
pub mod graph;
pub mod log_tree;
pub mod node;
pub mod perf_counters;
pub mod perfetto;
pub mod span_metadata;
pub mod storage_utils;
pub mod text;

pub use aggregate::{aggregate_runs, children_duration, collapse_hidden, surviving_children};
pub use config::{Config as PrintTreeConfig, Percent};
pub use csv::{Layer as CsvLayer, LogRow};
pub use error::{reaction, Reaction, TraceError};
pub use fields::{FieldMap, FieldValue};
pub use graph::{Layer as PrintTreeLayer, SpanEvent, SpanRecord, TracingGraph};
pub use log_tree::LogTree;
pub use node::GraphNode;
pub use perf_counters::{PerfCountersValues, SpanData};
pub use span_metadata::{CsvMetadata, GraphMetadata};
pub use storage_utils::{insert_to_span_storage, with_span_storage, with_span_storage_mut, SpanStorage};
pub use text::{lex_lt, push_decimal, push_duration, push_fixed2, push_signed, rounded_div, str_eq, str_lt};
