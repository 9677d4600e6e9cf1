//! The public facade: from payload bytes to record batches.

use vstd::prelude::*;
use crate::builder::{batch_fits, build_batch, built, Batch};
use crate::decode::{
    are_log_rows, are_span_rows, decode_failure_ok, logs_json_msg, logs_proto_msg, metrics_json_msg,
    metrics_proto_msg, traces_json_msg, traces_proto_msg, decode_logs, decode_metrics, decode_traces,
    json_decides, log_rows_of, metric_rows_of, proto_decides, span_rows_of,
};
use crate::json::{json_doc_model, json_doc_ok, opens_object};
use crate::logs::{logs_json, logs_request_spec};
use crate::metrics::{metrics_json, metrics_request_spec, DecodeMetricsResult};
use crate::traces::{traces_json, traces_request_spec};
use crate::error::Error;
use crate::format::InputFormat;
use crate::metrics::SkippedMetrics;
use crate::schemas::{
    exp_histogram_model, exp_histogram_schema, fields_view, gauge_model, gauge_schema,
    histogram_model, histogram_schema, logs_model, logs_schema, sum_model, sum_schema,
    traces_model, traces_schema, SchemaDef,
};
use crate::value::{lemma_values_view_len, values_view, Val, Value};

verus! {

/// The batches of a metrics payload, one per kind that has rows, with what
/// was skipped.
pub struct MetricBatches {
    pub gauge: Option<Batch>,
    pub sum: Option<Batch>,
    pub histogram: Option<Batch>,
    pub exp_histogram: Option<Batch>,
    pub skipped: SkippedMetrics,
}

fn build(schema: &SchemaDef, rows: &Vec<Value>) -> (r: Result<Batch, Error>)
    ensures
        r is Ok <==> batch_fits(*schema, values_view(rows@)),
        r matches Ok(b) ==> built(b, *schema, values_view(rows@)),
        r matches Err(e) ==> e is Build,
{
    match build_batch(schema, rows) {
        Ok(b) => Ok(b),
        Err(e) => Err(Error::Build(e)),
    }
}

/// The batch of one metric kind: none where it has no rows, else the batch
/// built from them.
pub open spec fn kind_batch(o: Option<Batch>, rows: Seq<Val>, s: SchemaDef) -> bool {
    match o {
        None => rows.len() == 0,
        Some(b) => rows.len() > 0 && built(b, s, rows),
    }
}

/// Whether the rows of one metric kind fit its schema; no rows always do.
pub open spec fn kind_fits(rows: Seq<Val>, s: SchemaDef) -> bool {
    rows.len() == 0 || batch_fits(s, rows)
}

/// The batches of decoded metrics on the given schemas, with the decoder's
/// counts of what it skipped.
pub open spec fn batches_of(
    mb: MetricBatches,
    d: DecodeMetricsResult,
    gs: SchemaDef,
    ss: SchemaDef,
    hs: SchemaDef,
    es: SchemaDef,
) -> bool {
    &&& mb.skipped == d.skipped
    &&& kind_batch(mb.gauge, values_view(d.gauge@), gs)
    &&& kind_batch(mb.sum, values_view(d.sum@), ss)
    &&& kind_batch(mb.histogram, values_view(d.histogram@), hs)
    &&& kind_batch(mb.exp_histogram, values_view(d.exp_histogram@), es)
}

/// Whether the decoded metrics of every kind fit their schemas.
pub open spec fn all_kinds_fit(
    d: DecodeMetricsResult,
    gs: SchemaDef,
    ss: SchemaDef,
    hs: SchemaDef,
    es: SchemaDef,
) -> bool {
    &&& kind_fits(values_view(d.gauge@), gs)
    &&& kind_fits(values_view(d.sum@), ss)
    &&& kind_fits(values_view(d.histogram@), hs)
    &&& kind_fits(values_view(d.exp_histogram@), es)
}

/// The schemas of the four metric kinds.
pub open spec fn metric_schemas(gs: SchemaDef, ss: SchemaDef, hs: SchemaDef, es: SchemaDef) -> bool {
    &&& fields_view(gs.fields@) == gauge_model()
    &&& fields_view(ss.fields@) == sum_model()
    &&& fields_view(hs.fields@) == histogram_model()
    &&& fields_view(es.fields@) == exp_histogram_model()
}

/// The batch of one metric kind's rows; none where there are none.
fn build_some(schema: &SchemaDef, rows: &Vec<Value>) -> (r: Result<Option<Batch>, Error>)
    ensures
        r is Ok <==> kind_fits(values_view(rows@), *schema),
        r matches Ok(o) ==> kind_batch(o, values_view(rows@), *schema),
        r matches Err(e) ==> e is Build,
{
    proof {
        lemma_values_view_len(rows@);
    }
    if rows.len() == 0 {
        Ok(None)
    } else {
        let b = build(schema, rows)?;
        Ok(Some(b))
    }
}

/// Decode an OTLP logs payload into a batch of the logs schema, one row per
/// log record. It succeeds where the payload decodes and its rows fit the
/// schema.
pub fn transform_logs(bytes: &[u8], format: InputFormat) -> (r: Result<Batch, Error>)
    ensures
        r matches Err(Error::Decode(e)) ==> decode_failure_ok(bytes@, format, e, logs_json_msg(), logs_proto_msg()),
        r matches Err(e) ==> e is Decode || e is Build,
        r matches Ok(b) ==> exists|rows: Seq<Val>, s: SchemaDef|
            #![trigger built(b, s, rows)]
            are_log_rows(rows) && fields_view(s.fields@) == logs_model() && built(b, s, rows),
        json_decides(bytes@, format) && json_doc_ok(bytes@) && opens_object(bytes@) ==> (
        json_doc_model(bytes@) matches Some(m) && exists|rows: Seq<Val>, s: SchemaDef|
            #![trigger log_rows_of(rows, logs_json(m)), batch_fits(s, rows)]
            log_rows_of(rows, logs_json(m)) && fields_view(s.fields@) == logs_model() && (r is Ok
                <==> batch_fits(s, rows)) && (r matches Ok(b) ==> built(b, s, rows))),
        proto_decides(bytes@, format) ==> match logs_request_spec(bytes@) {
            Some(m) => exists|rows: Seq<Val>, s: SchemaDef|
                #![trigger log_rows_of(rows, m), batch_fits(s, rows)]
                log_rows_of(rows, m) && fields_view(s.fields@) == logs_model() && (r is Ok
                    <==> batch_fits(s, rows)) && (r matches Ok(b) ==> built(b, s, rows)),
            None => format == InputFormat::Protobuf ==> r matches Err(Error::Decode(_)),
        },
        format == InputFormat::Json && !(json_doc_ok(bytes@) && opens_object(bytes@)) ==> r matches Err(
            Error::Decode(_),
        ),
{
    let rows = match decode_logs(bytes, format) {
        Ok(rows) => rows,
        Err(e) => return Err(Error::Decode(e)),
    };
    let schema = logs_schema();
    let r = build(&schema, &rows);
    proof {
        let vr = values_view(rows@);
        if r is Ok {
            assert(built(r->Ok_0, schema, vr));
        }
    }
    r
}

/// Decode an OTLP traces payload into a batch of the traces schema, one row
/// per span. It succeeds where the payload decodes and its rows fit the
/// schema.
pub fn transform_traces(bytes: &[u8], format: InputFormat) -> (r: Result<Batch, Error>)
    ensures
        r matches Err(Error::Decode(e)) ==> decode_failure_ok(bytes@, format, e, traces_json_msg(), traces_proto_msg()),
        r matches Err(e) ==> e is Decode || e is Build,
        r matches Ok(b) ==> exists|rows: Seq<Val>, s: SchemaDef|
            #![trigger built(b, s, rows)]
            are_span_rows(rows) && fields_view(s.fields@) == traces_model() && built(b, s, rows),
        json_decides(bytes@, format) && json_doc_ok(bytes@) && opens_object(bytes@) ==> (
        json_doc_model(bytes@) matches Some(m) && exists|rows: Seq<Val>, s: SchemaDef|
            #![trigger span_rows_of(rows, traces_json(m)), batch_fits(s, rows)]
            span_rows_of(rows, traces_json(m)) && fields_view(s.fields@) == traces_model() && (r is Ok
                <==> batch_fits(s, rows)) && (r matches Ok(b) ==> built(b, s, rows))),
        proto_decides(bytes@, format) ==> match traces_request_spec(bytes@) {
            Some(m) => exists|rows: Seq<Val>, s: SchemaDef|
                #![trigger span_rows_of(rows, m), batch_fits(s, rows)]
                span_rows_of(rows, m) && fields_view(s.fields@) == traces_model() && (r is Ok
                    <==> batch_fits(s, rows)) && (r matches Ok(b) ==> built(b, s, rows)),
            None => format == InputFormat::Protobuf ==> r matches Err(Error::Decode(_)),
        },
        format == InputFormat::Json && !(json_doc_ok(bytes@) && opens_object(bytes@)) ==> r matches Err(
            Error::Decode(_),
        ),
{
    let rows = match decode_traces(bytes, format) {
        Ok(rows) => rows,
        Err(e) => return Err(Error::Decode(e)),
    };
    let schema = traces_schema();
    let r = build(&schema, &rows);
    proof {
        let vr = values_view(rows@);
        if r is Ok {
            assert(built(r->Ok_0, schema, vr));
        }
    }
    r
}

/// Decode an OTLP metrics payload into one batch per metric kind that has
/// rows, with the decoder's counts of what it skipped. It succeeds where the
/// payload decodes and every kind's rows fit its schema.
pub fn transform_metrics(bytes: &[u8], format: InputFormat) -> (r: Result<MetricBatches, Error>)
    ensures
        r matches Err(Error::Decode(e)) ==> decode_failure_ok(bytes@, format, e, metrics_json_msg(), metrics_proto_msg()),
        r matches Err(e) ==> e is Decode || e is Build,
        r matches Ok(mb) ==> exists|
            d: DecodeMetricsResult,
            gs: SchemaDef,
            ss: SchemaDef,
            hs: SchemaDef,
            es: SchemaDef,
        |
            #![trigger batches_of(mb, d, gs, ss, hs, es)]
            d.finite() && metric_schemas(gs, ss, hs, es) && batches_of(mb, d, gs, ss, hs, es),
        json_decides(bytes@, format) && json_doc_ok(bytes@) && opens_object(bytes@) ==> (
        json_doc_model(bytes@) matches Some(m) && exists|
            d: DecodeMetricsResult,
            gs: SchemaDef,
            ss: SchemaDef,
            hs: SchemaDef,
            es: SchemaDef,
        |
            #![trigger metric_rows_of(d, metrics_json(m)), all_kinds_fit(d, gs, ss, hs, es)]
            metric_rows_of(d, metrics_json(m)) && metric_schemas(gs, ss, hs, es) && (r is Ok
                <==> all_kinds_fit(d, gs, ss, hs, es)) && (r matches Ok(mb) ==> batches_of(
                mb,
                d,
                gs,
                ss,
                hs,
                es,
            ))),
        proto_decides(bytes@, format) ==> match metrics_request_spec(bytes@) {
            Some(m) => exists|
                d: DecodeMetricsResult,
                gs: SchemaDef,
                ss: SchemaDef,
                hs: SchemaDef,
                es: SchemaDef,
            |
                #![trigger metric_rows_of(d, m), all_kinds_fit(d, gs, ss, hs, es)]
                metric_rows_of(d, m) && metric_schemas(gs, ss, hs, es) && (r is Ok
                    <==> all_kinds_fit(d, gs, ss, hs, es)) && (r matches Ok(mb) ==> batches_of(
                    mb,
                    d,
                    gs,
                    ss,
                    hs,
                    es,
                )),
            None => format == InputFormat::Protobuf ==> r matches Err(Error::Decode(_)),
        },
        format == InputFormat::Json && !(json_doc_ok(bytes@) && opens_object(bytes@)) ==> r matches Err(
            Error::Decode(_),
        ),
{
    let d = match decode_metrics(bytes, format) {
        Ok(d) => d,
        Err(e) => return Err(Error::Decode(e)),
    };
    let gs = gauge_schema();
    let ss = sum_schema();
    let hs = histogram_schema();
    let es = exp_histogram_schema();
    let gauge = match build_some(&gs, &d.gauge) {
        Ok(o) => o,
        Err(e) => {
            proof {
                assert(!all_kinds_fit(d, gs, ss, hs, es));
            }
            return Err(e);
        },
    };
    let sum = match build_some(&ss, &d.sum) {
        Ok(o) => o,
        Err(e) => {
            proof {
                assert(!all_kinds_fit(d, gs, ss, hs, es));
            }
            return Err(e);
        },
    };
    let histogram = match build_some(&hs, &d.histogram) {
        Ok(o) => o,
        Err(e) => {
            proof {
                assert(!all_kinds_fit(d, gs, ss, hs, es));
            }
            return Err(e);
        },
    };
    let exp_histogram = match build_some(&es, &d.exp_histogram) {
        Ok(o) => o,
        Err(e) => {
            proof {
                assert(!all_kinds_fit(d, gs, ss, hs, es));
            }
            return Err(e);
        },
    };
    let mb = MetricBatches { gauge, sum, histogram, exp_histogram, skipped: d.skipped };
    proof {
        assert(batches_of(mb, d, gs, ss, hs, es));
        assert(all_kinds_fit(d, gs, ss, hs, es));
    }
    Ok(mb)
}

} // verus!
