//! Transcoding of OpenTelemetry (OTLP) logs, traces and metrics, in protobuf
//! or JSON, into columnar record batches.
//!
//! A payload is decoded into rows of an untyped value tree, one per log
//! record, span or metric data point, with its resource and scope copied in;
//! the rows are then projected onto the schema of their signal.

pub mod builder;
pub mod convert;
pub mod decode;
pub mod detect;
pub mod error;
pub mod format;
pub mod json;
pub mod logs;
pub mod metrics;
pub mod otlp_json;
pub mod proto;
pub mod resource;
pub mod schemas;
pub mod text;
pub mod traces;
pub mod transform;
pub mod value;
pub mod wire;

pub use builder::{build_batch, Batch, BuildError, Column, ColumnData};
pub use convert::{vrl_value_to_json, vrl_value_to_json_lossy};
pub use decode::{decode_logs, decode_metrics, decode_traces};
pub use detect::looks_like_json;
pub use error::{DecodeError, Error};
pub use format::{parse_format, InputFormat};
pub use json::Json;
pub use metrics::{DecodeMetricsResult, SkippedMetrics};
pub use schemas::{schema_def, schema_defs, DataType, SchemaDef, SchemaField};
pub use transform::{transform_logs, transform_metrics, transform_traces, MetricBatches};
pub use value::Value;
