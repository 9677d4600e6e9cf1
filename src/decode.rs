//! Decoding OTLP payloads into rows, in the input format asked for.

use vstd::prelude::*;
use crate::detect::{both_failed, both_failed_message, looks_like_json, looks_like_json_spec};
use crate::error::{proto_error, DecodeError};
use crate::json::json_error;
use crate::format::InputFormat;
use crate::json::{json_doc_model, json_doc_ok, opens_object};
use crate::logs::{
    log_rows, logs_json, logs_request_spec, logs_to_rows, parse_logs_json, parse_logs_request, resource_logs_views,
    ResourceLogs,
};
use crate::metrics::{
    metrics_json, metrics_request_spec, metrics_to_rows, parse_metrics_json, parse_metrics_request,
    request_metric_rows, resource_metrics_views, DecodeMetricsResult, ResourceMetrics, GAUGE_ROWS,
    SUM_ROWS, HISTOGRAM_ROWS, EXP_HISTOGRAM_ROWS, SKIP_MISSING, request_skips, sat_add, skip_count,
};
use crate::traces::{
    traces_json, parse_traces_json, parse_traces_request, resource_spans_views, span_rows, traces_request_spec,
    traces_to_rows, ResourceSpans,
};
use crate::value::{lemma_values_view_len, values_view, Val, Value};

verus! {

/// What decoding in a given format may fail with: a protobuf error for
/// protobuf, a JSON error for JSON, and for auto-detection an `Unsupported`
/// error that names both causes, in the order in which the decoders ran.
pub open spec fn decode_failure_ok(
    b: Seq<u8>,
    format: InputFormat,
    e: DecodeError,
    json_msg: Seq<char>,
    proto_msg: Seq<char>,
) -> bool {
    match format {
        InputFormat::Protobuf => e matches DecodeError::Proto(m) && m@ == proto_msg,
        InputFormat::Json => e matches DecodeError::Json(m) && m@ == json_msg,
        InputFormat::Auto => e matches DecodeError::Unsupported(m) && m@ == both_failed_message(
            looks_like_json_spec(b),
            "json decode error: "@ + json_msg,
            "protobuf decode error: "@ + proto_msg,
        ),
    }
}

/// The messages of the decoders' errors, by signal: the JSON decoder's and
/// the protobuf decoder's.
pub open spec fn logs_json_msg() -> Seq<char> {
    "invalid OTLP-JSON logs document"@
}

pub open spec fn logs_proto_msg() -> Seq<char> {
    "invalid ExportLogsServiceRequest message"@
}

pub open spec fn traces_json_msg() -> Seq<char> {
    "invalid OTLP-JSON traces document"@
}

pub open spec fn traces_proto_msg() -> Seq<char> {
    "invalid ExportTraceServiceRequest message"@
}

pub open spec fn metrics_json_msg() -> Seq<char> {
    "invalid OTLP-JSON metrics document"@
}

pub open spec fn metrics_proto_msg() -> Seq<char> {
    "invalid ExportMetricsServiceRequest message"@
}


/// Whether the protobuf decoder's result is the result: in protobuf mode,
/// and under auto-detection unless the payload looks like JSON and is a
/// well-formed JSON object (then the JSON decoder's result is).
pub open spec fn proto_decides(b: Seq<u8>, format: InputFormat) -> bool {
    format == InputFormat::Protobuf || (format == InputFormat::Auto && !(looks_like_json_spec(b)
        && json_doc_ok(b) && opens_object(b)))
}

/// Whether the JSON decoder's result is the result: in JSON mode, and under
/// auto-detection where the payload looks like JSON and is a well-formed
/// JSON object.
pub open spec fn json_decides(b: Seq<u8>, format: InputFormat) -> bool {
    format == InputFormat::Json || (format == InputFormat::Auto && looks_like_json_spec(b)
        && json_doc_ok(b) && opens_object(b))
}

/// Rows of a logs payload: some request's records, each with its resource
/// and scope.
pub open spec fn are_log_rows(rows: Seq<Val>) -> bool {
    exists|m: Seq<ResourceLogs>| rows == log_rows(m)
}

/// The protobuf decoding of a logs payload, failing with one message.
fn logs_from_proto(bytes: &[u8]) -> (r: Result<Vec<ResourceLogs>, DecodeError>)
    ensures
        match logs_request_spec(bytes@) {
            Some(m) => r matches Ok(v) && resource_logs_views(v@) == m,
            None => r matches Err(DecodeError::Proto(s)) && s@ == logs_proto_msg(),
        },
        bytes@.len() == 0 ==> (r matches Ok(v) && v@.len() == 0),
{
    match parse_logs_request(bytes) {
        Ok(v) => Ok(v),
        Err(_) => Err(proto_error("invalid ExportLogsServiceRequest message")),
    }
}

/// The OTLP-JSON decoding of a logs payload, failing with one message.
fn logs_from_json(bytes: &[u8]) -> (r: Result<Vec<ResourceLogs>, DecodeError>)
    ensures
        r is Ok <==> json_doc_ok(bytes@) && opens_object(bytes@),
        r matches Ok(v) ==> (json_doc_model(bytes@) matches Some(m) && resource_logs_views(v@) == logs_json(m)),
        r matches Err(e) ==> e matches DecodeError::Json(s) && s@ == logs_json_msg(),
{
    match parse_logs_json(bytes) {
        Ok(v) => Ok(v),
        Err(_) => Err(json_error("invalid OTLP-JSON logs document")),
    }
}

/// Decode the resources of an OTLP logs payload.
pub fn decode_logs_request(bytes: &[u8], format: InputFormat) -> (r: Result<Vec<ResourceLogs>, DecodeError>)
    ensures
        proto_decides(bytes@, format) ==> match logs_request_spec(bytes@) {
            Some(m) => r matches Ok(v) && resource_logs_views(v@) == m,
            None => format == InputFormat::Protobuf ==> r is Err,
        },
        format == InputFormat::Auto ==> (r is Ok <==> logs_request_spec(bytes@) is Some || (json_doc_ok(bytes@)
            && opens_object(bytes@))),
        r matches Err(e) ==> decode_failure_ok(bytes@, format, e, logs_json_msg(), logs_proto_msg()),
        bytes@.len() == 0 && format != InputFormat::Json ==> (r matches Ok(v) && v@.len() == 0),
        format == InputFormat::Json ==> (r is Ok <==> json_doc_ok(bytes@) && opens_object(bytes@)),
        json_decides(bytes@, format) ==> (r matches Ok(v) ==> (json_doc_model(bytes@) matches Some(m)
            && resource_logs_views(v@) == logs_json(m))),
{
    match format {
        InputFormat::Protobuf => logs_from_proto(bytes),
        InputFormat::Json => logs_from_json(bytes),
        InputFormat::Auto => {
            let json_first = looks_like_json(bytes);
            if json_first {
                match logs_from_json(bytes) {
                    Ok(m) => Ok(m),
                    Err(je) => match logs_from_proto(bytes) {
                        Ok(m) => Ok(m),
                        Err(pe) => Err(both_failed(true, &je, &pe)),
                    },
                }
            } else {
                match logs_from_proto(bytes) {
                    Ok(m) => Ok(m),
                    Err(pe) => match logs_from_json(bytes) {
                        Ok(m) => Ok(m),
                        Err(je) => Err(both_failed(false, &je, &pe)),
                    },
                }
            }
        },
    }
}

/// The rows of a logs request whose resources have the given models.
pub open spec fn log_rows_of(rows: Seq<Val>, m: Seq<crate::logs::ResourceLogsModel>) -> bool {
    exists|v: Seq<ResourceLogs>|
        #![trigger log_rows(v)]
        resource_logs_views(v) == m && rows == log_rows(v)
}

/// Rows determined by the same request model are the same rows: so the logs
/// rows that auto-detection gives where the JSON decoder decides are those
/// that JSON mode gives for the same payload, both being the rows of its
/// document's model.
pub proof fn lemma_log_rows_of_unique(r1: Seq<Val>, r2: Seq<Val>, m: Seq<crate::logs::ResourceLogsModel>)
    requires
        log_rows_of(r1, m),
        log_rows_of(r2, m),
    ensures
        r1 == r2,
{
    let v1 = choose|v: Seq<ResourceLogs>| resource_logs_views(v) == m && r1 == log_rows(v);
    let v2 = choose|v: Seq<ResourceLogs>| resource_logs_views(v) == m && r2 == log_rows(v);
    crate::logs::lemma_log_rows_by_models(v1, v2);
}

/// Decode OTLP logs into one row per log record, resource and scope copied
/// into each: `time_unix_nano`, `observed_time_unix_nano`, `severity_number`,
/// `severity_text`, `body`, `trace_id` and `span_id` (hexadecimal),
/// `attributes`, `resource` and `scope`.
pub fn decode_logs(bytes: &[u8], format: InputFormat) -> (r: Result<Vec<Value>, DecodeError>)
    ensures
        r matches Ok(rows) ==> are_log_rows(values_view(rows@)),
        proto_decides(bytes@, format) ==> match logs_request_spec(bytes@) {
            Some(m) => r matches Ok(rows) && log_rows_of(values_view(rows@), m),
            None => format == InputFormat::Protobuf ==> r is Err,
        },
        format == InputFormat::Auto ==> (r is Ok <==> logs_request_spec(bytes@) is Some || (json_doc_ok(bytes@)
            && opens_object(bytes@))),
        bytes@.len() == 0 && format != InputFormat::Json ==> (r matches Ok(rows) && rows@.len() == 0),
        r matches Err(e) ==> decode_failure_ok(bytes@, format, e, logs_json_msg(), logs_proto_msg()),
        format == InputFormat::Json ==> (r is Ok <==> json_doc_ok(bytes@) && opens_object(bytes@)),
        json_decides(bytes@, format) ==> (r matches Ok(rows) ==> (json_doc_model(bytes@) matches Some(m)
            && log_rows_of(values_view(rows@), logs_json(m)))),
{
    let m = decode_logs_request(bytes, format)?;
    let rows = logs_to_rows(&m);
    proof {
        lemma_values_view_len(rows@);
        assert(log_rows(m@) == values_view(rows@));
    }
    Ok(rows)
}

/// Rows of a traces payload: some request's spans, each with its resource
/// and scope.
pub open spec fn are_span_rows(rows: Seq<Val>) -> bool {
    exists|m: Seq<ResourceSpans>| rows == span_rows(m)
}

/// The protobuf decoding of a traces payload, failing with one message.
fn traces_from_proto(bytes: &[u8]) -> (r: Result<Vec<ResourceSpans>, DecodeError>)
    ensures
        match traces_request_spec(bytes@) {
            Some(m) => r matches Ok(v) && resource_spans_views(v@) == m,
            None => r matches Err(DecodeError::Proto(s)) && s@ == traces_proto_msg(),
        },
        bytes@.len() == 0 ==> (r matches Ok(v) && v@.len() == 0),
{
    match parse_traces_request(bytes) {
        Ok(v) => Ok(v),
        Err(_) => Err(proto_error("invalid ExportTraceServiceRequest message")),
    }
}

/// The OTLP-JSON decoding of a traces payload, failing with one message.
fn traces_from_json(bytes: &[u8]) -> (r: Result<Vec<ResourceSpans>, DecodeError>)
    ensures
        r is Ok <==> json_doc_ok(bytes@) && opens_object(bytes@),
        r matches Ok(v) ==> (json_doc_model(bytes@) matches Some(m) && resource_spans_views(v@) == traces_json(m)),
        r matches Err(e) ==> e matches DecodeError::Json(s) && s@ == traces_json_msg(),
{
    match parse_traces_json(bytes) {
        Ok(v) => Ok(v),
        Err(_) => Err(json_error("invalid OTLP-JSON traces document")),
    }
}

/// Decode the resources of an OTLP traces payload.
pub fn decode_traces_request(bytes: &[u8], format: InputFormat) -> (r: Result<
    Vec<ResourceSpans>,
    DecodeError,
>)
    ensures
        r matches Err(e) ==> decode_failure_ok(bytes@, format, e, traces_json_msg(), traces_proto_msg()),
        bytes@.len() == 0 && format != InputFormat::Json ==> (r matches Ok(v) && v@.len() == 0),
        proto_decides(bytes@, format) ==> match traces_request_spec(bytes@) {
            Some(m) => r matches Ok(v) && resource_spans_views(v@) == m,
            None => format == InputFormat::Protobuf ==> r is Err,
        },
        format == InputFormat::Auto ==> (r is Ok <==> traces_request_spec(bytes@) is Some || (json_doc_ok(bytes@)
            && opens_object(bytes@))),
        format == InputFormat::Json ==> (r is Ok <==> json_doc_ok(bytes@) && opens_object(bytes@)),
        json_decides(bytes@, format) ==> (r matches Ok(v) ==> (json_doc_model(bytes@) matches Some(m)
            && resource_spans_views(v@) == traces_json(m))),
{
    match format {
        InputFormat::Protobuf => traces_from_proto(bytes),
        InputFormat::Json => traces_from_json(bytes),
        InputFormat::Auto => {
            let json_first = looks_like_json(bytes);
            if json_first {
                match traces_from_json(bytes) {
                    Ok(m) => Ok(m),
                    Err(je) => match traces_from_proto(bytes) {
                        Ok(m) => Ok(m),
                        Err(pe) => Err(both_failed(true, &je, &pe)),
                    },
                }
            } else {
                match traces_from_proto(bytes) {
                    Ok(m) => Ok(m),
                    Err(pe) => match traces_from_json(bytes) {
                        Ok(m) => Ok(m),
                        Err(je) => Err(both_failed(false, &je, &pe)),
                    },
                }
            }
        },
    }
}

/// The rows of a traces request whose resources have the given models.
pub open spec fn span_rows_of(rows: Seq<Val>, m: Seq<crate::traces::ResourceSpansModel>) -> bool {
    exists|v: Seq<ResourceSpans>|
        #![trigger span_rows(v)]
        resource_spans_views(v) == m && rows == span_rows(v)
}

/// Rows determined by the same request model are the same rows: so the span
/// rows that auto-detection gives where the JSON decoder decides are those
/// that JSON mode gives for the same payload.
pub proof fn lemma_span_rows_of_unique(r1: Seq<Val>, r2: Seq<Val>, m: Seq<crate::traces::ResourceSpansModel>)
    requires
        span_rows_of(r1, m),
        span_rows_of(r2, m),
    ensures
        r1 == r2,
{
    let v1 = choose|v: Seq<ResourceSpans>| resource_spans_views(v) == m && r1 == span_rows(v);
    let v2 = choose|v: Seq<ResourceSpans>| resource_spans_views(v) == m && r2 == span_rows(v);
    crate::traces::lemma_span_rows_by_models(v1, v2);
}

/// Decode OTLP traces into one row per span, resource and scope copied into
/// each, with `duration_ns` derived from the span's start and end.
pub fn decode_traces(bytes: &[u8], format: InputFormat) -> (r: Result<Vec<Value>, DecodeError>)
    ensures
        r matches Ok(rows) ==> are_span_rows(values_view(rows@)),
        proto_decides(bytes@, format) ==> match traces_request_spec(bytes@) {
            Some(m) => r matches Ok(rows) && span_rows_of(values_view(rows@), m),
            None => format == InputFormat::Protobuf ==> r is Err,
        },
        format == InputFormat::Auto ==> (r is Ok <==> traces_request_spec(bytes@) is Some || (json_doc_ok(bytes@)
            && opens_object(bytes@))),
        bytes@.len() == 0 && format != InputFormat::Json ==> (r matches Ok(rows) && rows@.len() == 0),
        r matches Err(e) ==> decode_failure_ok(bytes@, format, e, traces_json_msg(), traces_proto_msg()),
        format == InputFormat::Json ==> (r is Ok <==> json_doc_ok(bytes@) && opens_object(bytes@)),
        json_decides(bytes@, format) ==> (r matches Ok(rows) ==> (json_doc_model(bytes@) matches Some(m)
            && span_rows_of(values_view(rows@), traces_json(m)))),
{
    let m = decode_traces_request(bytes, format)?;
    let rows = traces_to_rows(&m);
    proof {
        lemma_values_view_len(rows@);
        assert(span_rows(m@) == values_view(rows@));
    }
    Ok(rows)
}

/// The protobuf decoding of a metrics payload, failing with one message.
fn metrics_from_proto(bytes: &[u8]) -> (r: Result<Vec<ResourceMetrics>, DecodeError>)
    ensures
        match metrics_request_spec(bytes@) {
            Some(m) => r matches Ok(v) && resource_metrics_views(v@) == m,
            None => r matches Err(DecodeError::Proto(s)) && s@ == metrics_proto_msg(),
        },
        bytes@.len() == 0 ==> (r matches Ok(v) && v@.len() == 0),
{
    match parse_metrics_request(bytes) {
        Ok(v) => Ok(v),
        Err(_) => Err(proto_error("invalid ExportMetricsServiceRequest message")),
    }
}

/// The OTLP-JSON decoding of a metrics payload, failing with one message.
fn metrics_from_json(bytes: &[u8]) -> (r: Result<Vec<ResourceMetrics>, DecodeError>)
    ensures
        r is Ok <==> json_doc_ok(bytes@) && opens_object(bytes@),
        r matches Ok(v) ==> (json_doc_model(bytes@) matches Some(m) && resource_metrics_views(v@) == metrics_json(m)),
        r matches Err(e) ==> e matches DecodeError::Json(s) && s@ == metrics_json_msg(),
{
    match parse_metrics_json(bytes) {
        Ok(v) => Ok(v),
        Err(_) => Err(json_error("invalid OTLP-JSON metrics document")),
    }
}

/// Decode the resources of an OTLP metrics payload.
pub fn decode_metrics_request(bytes: &[u8], format: InputFormat) -> (r: Result<
    Vec<ResourceMetrics>,
    DecodeError,
>)
    ensures
        r matches Err(e) ==> decode_failure_ok(bytes@, format, e, metrics_json_msg(), metrics_proto_msg()),
        bytes@.len() == 0 && format != InputFormat::Json ==> (r matches Ok(v) && v@.len() == 0),
        proto_decides(bytes@, format) ==> match metrics_request_spec(bytes@) {
            Some(m) => r matches Ok(v) && resource_metrics_views(v@) == m,
            None => format == InputFormat::Protobuf ==> r is Err,
        },
        format == InputFormat::Auto ==> (r is Ok <==> metrics_request_spec(bytes@) is Some || (json_doc_ok(bytes@)
            && opens_object(bytes@))),
        format == InputFormat::Json ==> (r is Ok <==> json_doc_ok(bytes@) && opens_object(bytes@)),
        json_decides(bytes@, format) ==> (r matches Ok(v) ==> (json_doc_model(bytes@) matches Some(m)
            && resource_metrics_views(v@) == metrics_json(m))),
{
    match format {
        InputFormat::Protobuf => metrics_from_proto(bytes),
        InputFormat::Json => metrics_from_json(bytes),
        InputFormat::Auto => {
            let json_first = looks_like_json(bytes);
            if json_first {
                match metrics_from_json(bytes) {
                    Ok(m) => Ok(m),
                    Err(je) => match metrics_from_proto(bytes) {
                        Ok(m) => Ok(m),
                        Err(pe) => Err(both_failed(true, &je, &pe)),
                    },
                }
            } else {
                match metrics_from_proto(bytes) {
                    Ok(m) => Ok(m),
                    Err(pe) => match metrics_from_json(bytes) {
                        Ok(m) => Ok(m),
                        Err(je) => Err(both_failed(false, &je, &pe)),
                    },
                }
            }
        },
    }
}

/// The rows of a metrics request whose resources have the given models, and
/// the counts of its points skipped for each reason.
pub open spec fn metric_rows_of(d: DecodeMetricsResult, m: Seq<crate::metrics::ResourceMetricsModel>) -> bool {
    exists|v: Seq<ResourceMetrics>|
        #![trigger request_metric_rows(v, GAUGE_ROWS)]
        resource_metrics_views(v) == m && values_view(d.gauge@) == request_metric_rows(v, GAUGE_ROWS)
            && values_view(d.sum@) == request_metric_rows(v, SUM_ROWS) && values_view(d.histogram@)
            == request_metric_rows(v, HISTOGRAM_ROWS) && values_view(d.exp_histogram@)
            == request_metric_rows(v, EXP_HISTOGRAM_ROWS) && (forall|k: u8|
            k <= SKIP_MISSING ==> #[trigger] skip_count(d.skipped, k) == sat_add(
                0,
                request_skips(v, k),
            ))
}

/// Results determined by the same request model hold the same rows of every
/// kind and the same skipped counts: so auto-detection that settles on JSON
/// agrees with JSON mode for the same payload.
pub proof fn lemma_metric_rows_of_unique(
    d1: DecodeMetricsResult,
    d2: DecodeMetricsResult,
    m: Seq<crate::metrics::ResourceMetricsModel>,
)
    requires
        metric_rows_of(d1, m),
        metric_rows_of(d2, m),
    ensures
        values_view(d1.gauge@) == values_view(d2.gauge@),
        values_view(d1.sum@) == values_view(d2.sum@),
        values_view(d1.histogram@) == values_view(d2.histogram@),
        values_view(d1.exp_histogram@) == values_view(d2.exp_histogram@),
        d1.skipped == d2.skipped,
{
    let v1 = choose|v: Seq<ResourceMetrics>|
        #![trigger request_metric_rows(v, GAUGE_ROWS)]
        resource_metrics_views(v) == m && values_view(d1.gauge@) == request_metric_rows(v, GAUGE_ROWS)
            && values_view(d1.sum@) == request_metric_rows(v, SUM_ROWS) && values_view(d1.histogram@)
            == request_metric_rows(v, HISTOGRAM_ROWS) && values_view(d1.exp_histogram@)
            == request_metric_rows(v, EXP_HISTOGRAM_ROWS) && (forall|k: u8|
            k <= SKIP_MISSING ==> #[trigger] skip_count(d1.skipped, k) == sat_add(
                0,
                request_skips(v, k),
            ));
    let v2 = choose|v: Seq<ResourceMetrics>|
        #![trigger request_metric_rows(v, GAUGE_ROWS)]
        resource_metrics_views(v) == m && values_view(d2.gauge@) == request_metric_rows(v, GAUGE_ROWS)
            && values_view(d2.sum@) == request_metric_rows(v, SUM_ROWS) && values_view(d2.histogram@)
            == request_metric_rows(v, HISTOGRAM_ROWS) && values_view(d2.exp_histogram@)
            == request_metric_rows(v, EXP_HISTOGRAM_ROWS) && (forall|k: u8|
            k <= SKIP_MISSING ==> #[trigger] skip_count(d2.skipped, k) == sat_add(
                0,
                request_skips(v, k),
            ));
    crate::metrics::lemma_metric_rows_by_models(v1, v2);
    assert(skip_count(d1.skipped, 0) == skip_count(d2.skipped, 0));
    assert(skip_count(d1.skipped, 1) == skip_count(d2.skipped, 1));
    assert(skip_count(d1.skipped, 2) == skip_count(d2.skipped, 2));
}

/// Decode OTLP metrics into rows, one list per metric kind: gauge and sum
/// points with a finite value, histogram and exponential histogram points;
/// summary points, and gauge and sum points without a finite value, are
/// counted as skipped.
pub fn decode_metrics(bytes: &[u8], format: InputFormat) -> (r: Result<DecodeMetricsResult, DecodeError>)
    ensures
        r matches Ok(m) ==> m.finite(),
        proto_decides(bytes@, format) ==> match metrics_request_spec(bytes@) {
            Some(m) => r matches Ok(d) && metric_rows_of(d, m),
            None => format == InputFormat::Protobuf ==> r is Err,
        },
        format == InputFormat::Auto ==> (r is Ok <==> metrics_request_spec(bytes@) is Some || (json_doc_ok(bytes@)
            && opens_object(bytes@))),
        bytes@.len() == 0 && format != InputFormat::Json ==> (r matches Ok(m) && m.gauge@.len() == 0
            && m.sum@.len() == 0 && m.histogram@.len() == 0 && m.exp_histogram@.len() == 0),
        r matches Err(e) ==> decode_failure_ok(bytes@, format, e, metrics_json_msg(), metrics_proto_msg()),
        format == InputFormat::Json ==> (r is Ok <==> json_doc_ok(bytes@) && opens_object(bytes@)),
        json_decides(bytes@, format) ==> (r matches Ok(d) ==> (json_doc_model(bytes@) matches Some(m)
            && metric_rows_of(d, metrics_json(m)))),
{
    let m = decode_metrics_request(bytes, format)?;
    let d = metrics_to_rows(&m);
    proof {
        assert(request_metric_rows(m@, GAUGE_ROWS) == values_view(d.gauge@));
    }
    Ok(d)
}

} // verus!
