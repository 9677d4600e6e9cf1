//! OTLP metrics: the `ExportMetricsServiceRequest` message, its dispatch by
//! metric kind into rows, and the count of what was skipped.

use vstd::prelude::*;
use crate::error::DecodeError;
use crate::proto::{
    keys_unique, add_attribute, bytes_at, expect_wire, fixed_at, key_at, len_at, push_entry, skip_at, text_at,
    varint_at,
};
use crate::resource::{
    empty_resource, empty_scope, parse_resource, parse_scope, resource_from, resource_val, scope_from,
    scope_val, Resource, ResourceModel, Scope, ScopeModel,
};
use crate::proto::attribute_next;
use vstd::arithmetic::power2::pow2;
use crate::wire::{fixed_next, key_next, len_next, skip_next, varint_next};
use vstd::utf8::valid_utf8;
use crate::value::{
    bits_finite, clone_entries, entries_view, hex_encode, is_finite_bits, push_value, values_view,
    Val, Value,
};
use crate::wire::{WIRE_FIXED64, WIRE_LEN, WIRE_VARINT};
use crate::json::{json_doc_model, json_doc_ok, json_error, json_view, jsons_view, opens_object, parse_json, Json, JsonModel};
use crate::otlp_json::{
    attributes_of, attrs_json, bool_of, double_of, hex_bytes_of, i64_of, items, jbool, jdouble, jhex,
    ji64, jitems, jmember, jtext, ju64, key_values_of, kv_array_json, lemma_jsons_view_index, member,
    opt_view, resource_json, resource_of, scope_json, scope_of, text_of, u64_of,
};

verus! {

/// What the `as_double` / `as_int` value of a point holds.
pub enum NumberValue {
    Absent,
    /// The bits of a double.
    Double(u64),
    Int(i64),
}

/// A sampled measurement attached to a data point.
pub struct Exemplar {
    pub filtered_attributes: Vec<(String, Value)>,
    pub time_unix_nano: u64,
    pub value: NumberValue,
    pub span_id: Vec<u8>,
    pub trace_id: Vec<u8>,
}

/// A data point of a gauge or a sum.
pub struct NumberDataPoint {
    pub attributes: Vec<(String, Value)>,
    pub start_time_unix_nano: u64,
    pub time_unix_nano: u64,
    pub value: NumberValue,
    pub exemplars: Vec<Exemplar>,
    pub flags: u32,
}

/// A data point of a histogram with explicit bounds. Doubles are held as their bits.
pub struct HistogramDataPoint {
    pub attributes: Vec<(String, Value)>,
    pub start_time_unix_nano: u64,
    pub time_unix_nano: u64,
    pub count: u64,
    pub sum: Option<u64>,
    pub bucket_counts: Vec<u64>,
    pub explicit_bounds: Vec<u64>,
    pub exemplars: Vec<Exemplar>,
    pub flags: u32,
    pub min: Option<u64>,
    pub max: Option<u64>,
}

/// The buckets of one sign of an exponential histogram.
pub struct Buckets {
    pub offset: i32,
    pub bucket_counts: Vec<u64>,
}

/// A data point of an exponential histogram. Doubles are held as their bits.
pub struct ExpHistogramDataPoint {
    pub attributes: Vec<(String, Value)>,
    pub start_time_unix_nano: u64,
    pub time_unix_nano: u64,
    pub count: u64,
    pub sum: Option<u64>,
    pub scale: i32,
    pub zero_count: u64,
    pub positive: Buckets,
    pub negative: Buckets,
    pub flags: u32,
    pub exemplars: Vec<Exemplar>,
    pub min: Option<u64>,
    pub max: Option<u64>,
}

/// The data of a metric, by kind.
#[allow(inconsistent_fields)]
pub enum MetricData {
    Absent,
    Gauge(Vec<NumberDataPoint>),
    Sum { points: Vec<NumberDataPoint>, temporality: i32, monotonic: bool },
    Histogram { points: Vec<HistogramDataPoint>, temporality: i32 },
    ExpHistogram { points: Vec<ExpHistogramDataPoint>, temporality: i32 },
    /// A summary, of which only the number of points is kept.
    Summary(usize),
}

/// One metric.
pub struct Metric {
    pub name: Vec<u8>,
    pub description: Vec<u8>,
    pub unit: Vec<u8>,
    pub data: MetricData,
}

/// The metrics of one instrumentation scope.
pub struct ScopeMetrics {
    pub scope: Scope,
    pub metrics: Vec<Metric>,
}

/// The metrics of one resource, by scope.
pub struct ResourceMetrics {
    pub resource: Resource,
    pub scope_metrics: Vec<ScopeMetrics>,
}

/// How many data points were dropped, by reason.
#[derive(Clone, Copy, Debug, PartialEq, Eq, Structural)]
pub struct SkippedMetrics {
    /// Points of summaries, a kind that is not supported.
    pub summary: usize,
    /// Gauge and sum points whose value is NaN or infinite.
    pub non_finite: usize,
    /// Gauge and sum points with no value.
    pub missing_value: usize,
}

impl SkippedMetrics {
    pub fn new() -> (r: SkippedMetrics)
        ensures
            r.summary == 0 && r.non_finite == 0 && r.missing_value == 0,
    {
        SkippedMetrics { summary: 0, non_finite: 0, missing_value: 0 }
    }

    /// Whether any data point was dropped.
    pub fn has_skipped(&self) -> (r: bool)
        ensures
            r == (self.summary > 0 || self.non_finite > 0 || self.missing_value > 0),
    {
        self.summary > 0 || self.non_finite > 0 || self.missing_value > 0
    }

    /// The number of data points dropped, for every reason.
    pub fn total(&self) -> (r: usize)
        requires
            self.summary + self.non_finite + self.missing_value <= usize::MAX,
        ensures
            r == self.summary + self.non_finite + self.missing_value,
    {
        self.summary + self.non_finite + self.missing_value
    }
}

/// The model of an [`Exemplar`].
pub ghost struct ExemplarModel {
    pub filtered_attributes: Seq<(Seq<char>, Val)>,
    pub time_unix_nano: u64,
    pub value: NumberValue,
    pub span_id: Seq<u8>,
    pub trace_id: Seq<u8>,
}

/// The model of a [`NumberDataPoint`].
pub ghost struct NumberPointModel {
    pub attributes: Seq<(Seq<char>, Val)>,
    pub start_time_unix_nano: u64,
    pub time_unix_nano: u64,
    pub value: NumberValue,
    pub exemplars: Seq<ExemplarModel>,
    pub flags: u32,
}

/// The model of a [`HistogramDataPoint`].
pub ghost struct HistogramPointModel {
    pub attributes: Seq<(Seq<char>, Val)>,
    pub start_time_unix_nano: u64,
    pub time_unix_nano: u64,
    pub count: u64,
    pub sum: Option<u64>,
    pub bucket_counts: Seq<u64>,
    pub explicit_bounds: Seq<u64>,
    pub exemplars: Seq<ExemplarModel>,
    pub flags: u32,
    pub min: Option<u64>,
    pub max: Option<u64>,
}

/// The model of [`Buckets`].
pub ghost struct BucketsModel {
    pub offset: i32,
    pub bucket_counts: Seq<u64>,
}

/// The model of an [`ExpHistogramDataPoint`].
pub ghost struct ExpPointModel {
    pub attributes: Seq<(Seq<char>, Val)>,
    pub start_time_unix_nano: u64,
    pub time_unix_nano: u64,
    pub count: u64,
    pub sum: Option<u64>,
    pub scale: i32,
    pub zero_count: u64,
    pub positive: BucketsModel,
    pub negative: BucketsModel,
    pub flags: u32,
    pub exemplars: Seq<ExemplarModel>,
    pub min: Option<u64>,
    pub max: Option<u64>,
}

/// The model of [`MetricData`].
pub ghost enum MetricDataModel {
    Absent,
    Gauge(Seq<NumberPointModel>),
    Sum { points: Seq<NumberPointModel>, temporality: i32, monotonic: bool },
    Histogram { hpoints: Seq<HistogramPointModel>, temporality: i32 },
    ExpHistogram { epoints: Seq<ExpPointModel>, temporality: i32 },
    Summary(nat),
}

/// The model of a [`Metric`].
pub ghost struct MetricModel {
    pub name: Seq<u8>,
    pub description: Seq<u8>,
    pub unit: Seq<u8>,
    pub data: MetricDataModel,
}

/// The model of a [`ScopeMetrics`].
pub ghost struct ScopeMetricsModel {
    pub scope: ScopeModel,
    pub metrics: Seq<MetricModel>,
}

/// The model of a [`ResourceMetrics`].
pub ghost struct ResourceMetricsModel {
    pub resource: ResourceModel,
    pub scope_metrics: Seq<ScopeMetricsModel>,
}

impl View for Exemplar {
    type V = ExemplarModel;

    open spec fn view(&self) -> ExemplarModel {
        ExemplarModel {
            filtered_attributes: entries_view(self.filtered_attributes@),
            time_unix_nano: self.time_unix_nano,
            value: self.value,
            span_id: self.span_id@,
            trace_id: self.trace_id@,
        }
    }
}

pub open spec fn exemplar_views(v: Seq<Exemplar>) -> Seq<ExemplarModel> {
    Seq::new(v.len(), |i: int| v[i]@)
}

impl View for NumberDataPoint {
    type V = NumberPointModel;

    open spec fn view(&self) -> NumberPointModel {
        NumberPointModel {
            attributes: entries_view(self.attributes@),
            start_time_unix_nano: self.start_time_unix_nano,
            time_unix_nano: self.time_unix_nano,
            value: self.value,
            exemplars: exemplar_views(self.exemplars@),
            flags: self.flags,
        }
    }
}

impl View for HistogramDataPoint {
    type V = HistogramPointModel;

    open spec fn view(&self) -> HistogramPointModel {
        HistogramPointModel {
            attributes: entries_view(self.attributes@),
            start_time_unix_nano: self.start_time_unix_nano,
            time_unix_nano: self.time_unix_nano,
            count: self.count,
            sum: self.sum,
            bucket_counts: self.bucket_counts@,
            explicit_bounds: self.explicit_bounds@,
            exemplars: exemplar_views(self.exemplars@),
            flags: self.flags,
            min: self.min,
            max: self.max,
        }
    }
}

impl View for Buckets {
    type V = BucketsModel;

    open spec fn view(&self) -> BucketsModel {
        BucketsModel { offset: self.offset, bucket_counts: self.bucket_counts@ }
    }
}

impl View for ExpHistogramDataPoint {
    type V = ExpPointModel;

    open spec fn view(&self) -> ExpPointModel {
        ExpPointModel {
            attributes: entries_view(self.attributes@),
            start_time_unix_nano: self.start_time_unix_nano,
            time_unix_nano: self.time_unix_nano,
            count: self.count,
            sum: self.sum,
            scale: self.scale,
            zero_count: self.zero_count,
            positive: self.positive@,
            negative: self.negative@,
            flags: self.flags,
            exemplars: exemplar_views(self.exemplars@),
            min: self.min,
            max: self.max,
        }
    }
}

impl View for MetricData {
    type V = MetricDataModel;

    open spec fn view(&self) -> MetricDataModel {
        match self {
            MetricData::Absent => MetricDataModel::Absent,
            MetricData::Gauge(ps) => MetricDataModel::Gauge(Seq::new(ps@.len(), |i: int| ps@[i]@)),
            MetricData::Sum { points, temporality, monotonic } => MetricDataModel::Sum {
                points: Seq::new(points@.len(), |i: int| points@[i]@),
                temporality: *temporality,
                monotonic: *monotonic,
            },
            MetricData::Histogram { points, temporality } => MetricDataModel::Histogram {
                hpoints: Seq::new(points@.len(), |i: int| points@[i]@),
                temporality: *temporality,
            },
            MetricData::ExpHistogram { points, temporality } => MetricDataModel::ExpHistogram {
                epoints: Seq::new(points@.len(), |i: int| points@[i]@),
                temporality: *temporality,
            },
            MetricData::Summary(n) => MetricDataModel::Summary(*n as nat),
        }
    }
}

impl View for Metric {
    type V = MetricModel;

    open spec fn view(&self) -> MetricModel {
        MetricModel {
            name: self.name@,
            description: self.description@,
            unit: self.unit@,
            data: self.data@,
        }
    }
}

impl View for ScopeMetrics {
    type V = ScopeMetricsModel;

    open spec fn view(&self) -> ScopeMetricsModel {
        ScopeMetricsModel {
            scope: self.scope@,
            metrics: Seq::new(self.metrics@.len(), |i: int| self.metrics@[i]@),
        }
    }
}

impl View for ResourceMetrics {
    type V = ResourceMetricsModel;

    open spec fn view(&self) -> ResourceMetricsModel {
        ResourceMetricsModel {
            resource: self.resource@,
            scope_metrics: Seq::new(self.scope_metrics@.len(), |i: int| self.scope_metrics@[i]@),
        }
    }
}

/// The models of decoded resources.
pub open spec fn resource_metrics_views(v: Seq<ResourceMetrics>) -> Seq<ResourceMetricsModel> {
    Seq::new(v.len(), |i: int| v[i]@)
}

/// The values of packed 64-bit fixed-width items in `b[pos..end]`, after `acc`.
pub open spec fn packed_fixed64(b: Seq<u8>, pos: int, end: int, acc: Seq<u64>) -> Option<Seq<u64>>
    decreases end - pos,
{
    if pos >= end {
        Some(acc)
    } else {
        match fixed_next(b, pos, end, 8) {
            None => None,
            Some((x, n)) => packed_fixed64(b, n, end, acc.push(x)),
        }
    }
}

/// The values of packed varint items in `b[pos..end]`, after `acc`.
pub open spec fn packed_varint(b: Seq<u8>, pos: int, end: int, acc: Seq<u64>) -> Option<Seq<u64>>
    decreases end - pos,
{
    if pos >= end {
        Some(acc)
    } else {
        match varint_next(b, pos, end) {
            None => None,
            Some((x, n)) => packed_varint(b, n, end, acc.push(x)),
        }
    }
}

/// The items after a repeated 64-bit fixed-width field at `pos`, packed or
/// not, and where the next field starts.
pub open spec fn fixed64_list_next(b: Seq<u8>, pos: int, end: int, wire: u64, acc: Seq<u64>) -> Option<
    (Seq<u64>, int),
> {
    if wire == WIRE_FIXED64 {
        match fixed_next(b, pos, end, 8) {
            None => None,
            Some((x, n)) => Some((acc.push(x), n)),
        }
    } else if wire != WIRE_LEN {
        None
    } else {
        match len_next(b, pos, end) {
            None => None,
            Some((s, e)) => match packed_fixed64(b, s, e, acc) {
                None => None,
                Some(l) => Some((l, e)),
            },
        }
    }
}

/// The items after a repeated varint field at `pos`, packed or not, and
/// where the next field starts.
pub open spec fn varint_list_next(b: Seq<u8>, pos: int, end: int, wire: u64, acc: Seq<u64>) -> Option<
    (Seq<u64>, int),
> {
    if wire == WIRE_VARINT {
        match varint_next(b, pos, end) {
            None => None,
            Some((x, n)) => Some((acc.push(x), n)),
        }
    } else if wire != WIRE_LEN {
        None
    } else {
        match len_next(b, pos, end) {
            None => None,
            Some((s, e)) => match packed_varint(b, s, e, acc) {
                None => None,
                Some(l) => Some((l, e)),
            },
        }
    }
}

pub open spec fn empty_exemplar() -> ExemplarModel {
    ExemplarModel {
        filtered_attributes: seq![],
        time_unix_nano: 0,
        value: NumberValue::Absent,
        span_id: seq![],
        trace_id: seq![],
    }
}

/// What the fields of an `Exemplar` message in `b[pos..end]` decode to,
/// after `acc`: each `filtered_attributes` entry (7) bound in turn, the last
/// `time_unix_nano` (2), value (`as_double` 3 or `as_int` 6), `span_id` (4)
/// and `trace_id` (5).
pub open spec fn exemplar_from(b: Seq<u8>, pos: int, end: int, acc: ExemplarModel) -> Option<
    ExemplarModel,
>
    decreases end - pos,
{
    if pos >= end {
        Some(acc)
    } else {
        match key_next(b, pos, end) {
            None => None,
            Some((f, w, p)) => if f == 7 {
                if w != WIRE_LEN {
                    None
                } else {
                    match attribute_next(b, p, end, acc.filtered_attributes) {
                        None => None,
                        Some((es, n)) => exemplar_from(
                            b,
                            n,
                            end,
                            ExemplarModel { filtered_attributes: es, ..acc },
                        ),
                    }
                }
            } else if f == 2 || f == 3 || f == 6 {
                if w != WIRE_FIXED64 {
                    None
                } else {
                    match fixed_next(b, p, end, 8) {
                        None => None,
                        Some((x, n)) => exemplar_from(
                            b,
                            n,
                            end,
                            if f == 2 {
                                ExemplarModel { time_unix_nano: x, ..acc }
                            } else if f == 3 {
                                ExemplarModel { value: NumberValue::Double(x), ..acc }
                            } else {
                                ExemplarModel { value: NumberValue::Int(x as i64), ..acc }
                            },
                        ),
                    }
                }
            } else if f == 4 || f == 5 {
                if w != WIRE_LEN {
                    None
                } else {
                    match len_next(b, p, end) {
                        None => None,
                        Some((s, e)) => exemplar_from(
                            b,
                            e,
                            end,
                            if f == 4 {
                                ExemplarModel { span_id: b.subrange(s, e), ..acc }
                            } else {
                                ExemplarModel { trace_id: b.subrange(s, e), ..acc }
                            },
                        ),
                    }
                }
            } else {
                match skip_next(b, p, end, w) {
                    None => None,
                    Some(n) => exemplar_from(b, n, end, acc),
                }
            },
        }
    }
}

pub open spec fn empty_number_point() -> NumberPointModel {
    NumberPointModel {
        attributes: seq![],
        start_time_unix_nano: 0,
        time_unix_nano: 0,
        value: NumberValue::Absent,
        exemplars: seq![],
        flags: 0,
    }
}

/// What the fields of a `NumberDataPoint` message in `b[pos..end]` decode
/// to, after `acc`: the last `start_time_unix_nano` (2), `time_unix_nano`
/// (3), value (`as_double` 4 or `as_int` 6) and `flags` (8), `exemplars` (5)
/// in order, each `attributes` entry (7) bound in turn.
pub open spec fn number_point_from(b: Seq<u8>, pos: int, end: int, acc: NumberPointModel) -> Option<
    NumberPointModel,
>
    decreases end - pos,
{
    if pos >= end {
        Some(acc)
    } else {
        match key_next(b, pos, end) {
            None => None,
            Some((f, w, p)) => if f == 2 || f == 3 || f == 4 || f == 6 {
                if w != WIRE_FIXED64 {
                    None
                } else {
                    match fixed_next(b, p, end, 8) {
                        None => None,
                        Some((x, n)) => number_point_from(
                            b,
                            n,
                            end,
                            if f == 2 {
                                NumberPointModel { start_time_unix_nano: x, ..acc }
                            } else if f == 3 {
                                NumberPointModel { time_unix_nano: x, ..acc }
                            } else if f == 4 {
                                NumberPointModel { value: NumberValue::Double(x), ..acc }
                            } else {
                                NumberPointModel { value: NumberValue::Int(x as i64), ..acc }
                            },
                        ),
                    }
                }
            } else if f == 5 {
                if w != WIRE_LEN {
                    None
                } else {
                    match len_next(b, p, end) {
                        None => None,
                        Some((s, e)) => match exemplar_from(b, s, e, empty_exemplar()) {
                            None => None,
                            Some(ex) => number_point_from(
                                b,
                                e,
                                end,
                                NumberPointModel { exemplars: acc.exemplars.push(ex), ..acc },
                            ),
                        },
                    }
                }
            } else if f == 7 {
                if w != WIRE_LEN {
                    None
                } else {
                    match attribute_next(b, p, end, acc.attributes) {
                        None => None,
                        Some((es, n)) => number_point_from(
                            b,
                            n,
                            end,
                            NumberPointModel { attributes: es, ..acc },
                        ),
                    }
                }
            } else if f == 8 {
                if w != WIRE_VARINT {
                    None
                } else {
                    match varint_next(b, p, end) {
                        None => None,
                        Some((x, n)) => number_point_from(
                            b,
                            n,
                            end,
                            NumberPointModel { flags: x as u32, ..acc },
                        ),
                    }
                }
            } else {
                match skip_next(b, p, end, w) {
                    None => None,
                    Some(n) => number_point_from(b, n, end, acc),
                }
            },
        }
    }
}

pub open spec fn empty_histogram_point() -> HistogramPointModel {
    HistogramPointModel {
        attributes: seq![],
        start_time_unix_nano: 0,
        time_unix_nano: 0,
        count: 0,
        sum: None,
        bucket_counts: seq![],
        explicit_bounds: seq![],
        exemplars: seq![],
        flags: 0,
        min: None,
        max: None,
    }
}

/// What the fields of a `HistogramDataPoint` message in `b[pos..end]`
/// decode to, after `acc`: the last `start_time_unix_nano` (2),
/// `time_unix_nano` (3), `count` (4), `sum` (5), `min` (11), `max` (12) and
/// `flags` (10); `bucket_counts` (6), `explicit_bounds` (7) and `exemplars`
/// (8) in order; each `attributes` entry (9) bound in turn.
pub open spec fn histogram_point_from(b: Seq<u8>, pos: int, end: int, acc: HistogramPointModel) -> Option<
    HistogramPointModel,
>
    decreases end - pos,
{
    if pos >= end {
        Some(acc)
    } else {
        match key_next(b, pos, end) {
            None => None,
            Some((f, w, p)) => if f == 2 || f == 3 || f == 4 || f == 5 || f == 11 || f == 12 {
                if w != WIRE_FIXED64 {
                    None
                } else {
                    match fixed_next(b, p, end, 8) {
                        None => None,
                        Some((x, n)) => histogram_point_from(
                            b,
                            n,
                            end,
                            if f == 2 {
                                HistogramPointModel { start_time_unix_nano: x, ..acc }
                            } else if f == 3 {
                                HistogramPointModel { time_unix_nano: x, ..acc }
                            } else if f == 4 {
                                HistogramPointModel { count: x, ..acc }
                            } else if f == 5 {
                                HistogramPointModel { sum: Some(x), ..acc }
                            } else if f == 11 {
                                HistogramPointModel { min: Some(x), ..acc }
                            } else {
                                HistogramPointModel { max: Some(x), ..acc }
                            },
                        ),
                    }
                }
            } else if f == 6 {
                match fixed64_list_next(b, p, end, w, acc.bucket_counts) {
                    None => None,
                    Some((l, n)) => histogram_point_from(
                        b,
                        n,
                        end,
                        HistogramPointModel { bucket_counts: l, ..acc },
                    ),
                }
            } else if f == 7 {
                match fixed64_list_next(b, p, end, w, acc.explicit_bounds) {
                    None => None,
                    Some((l, n)) => histogram_point_from(
                        b,
                        n,
                        end,
                        HistogramPointModel { explicit_bounds: l, ..acc },
                    ),
                }
            } else if f == 8 {
                if w != WIRE_LEN {
                    None
                } else {
                    match len_next(b, p, end) {
                        None => None,
                        Some((s, e)) => match exemplar_from(b, s, e, empty_exemplar()) {
                            None => None,
                            Some(ex) => histogram_point_from(
                                b,
                                e,
                                end,
                                HistogramPointModel { exemplars: acc.exemplars.push(ex), ..acc },
                            ),
                        },
                    }
                }
            } else if f == 9 {
                if w != WIRE_LEN {
                    None
                } else {
                    match attribute_next(b, p, end, acc.attributes) {
                        None => None,
                        Some((es, n)) => histogram_point_from(
                            b,
                            n,
                            end,
                            HistogramPointModel { attributes: es, ..acc },
                        ),
                    }
                }
            } else if f == 10 {
                if w != WIRE_VARINT {
                    None
                } else {
                    match varint_next(b, p, end) {
                        None => None,
                        Some((x, n)) => histogram_point_from(
                            b,
                            n,
                            end,
                            HistogramPointModel { flags: x as u32, ..acc },
                        ),
                    }
                }
            } else {
                match skip_next(b, p, end, w) {
                    None => None,
                    Some(n) => histogram_point_from(b, n, end, acc),
                }
            },
        }
    }
}

pub open spec fn empty_buckets() -> BucketsModel {
    BucketsModel { offset: 0, bucket_counts: seq![] }
}

/// What the fields of a `Buckets` message in `b[pos..end]` decode to, after
/// `acc`: the last `offset` (1, ZigZag) and the `bucket_counts` (2) in order.
pub open spec fn buckets_from(b: Seq<u8>, pos: int, end: int, acc: BucketsModel) -> Option<BucketsModel>
    decreases end - pos,
{
    if pos >= end {
        Some(acc)
    } else {
        match key_next(b, pos, end) {
            None => None,
            Some((f, w, p)) => if f == 1 {
                if w != WIRE_VARINT {
                    None
                } else {
                    match varint_next(b, p, end) {
                        None => None,
                        Some((x, n)) => buckets_from(b, n, end, BucketsModel { offset: zigzag32(x), ..acc }),
                    }
                }
            } else if f == 2 {
                match varint_list_next(b, p, end, w, acc.bucket_counts) {
                    None => None,
                    Some((l, n)) => buckets_from(b, n, end, BucketsModel { bucket_counts: l, ..acc }),
                }
            } else {
                match skip_next(b, p, end, w) {
                    None => None,
                    Some(n) => buckets_from(b, n, end, acc),
                }
            },
        }
    }
}

pub open spec fn empty_exp_point() -> ExpPointModel {
    ExpPointModel {
        attributes: seq![],
        start_time_unix_nano: 0,
        time_unix_nano: 0,
        count: 0,
        sum: None,
        scale: 0,
        zero_count: 0,
        positive: empty_buckets(),
        negative: empty_buckets(),
        flags: 0,
        exemplars: seq![],
        min: None,
        max: None,
    }
}

/// What the fields of an `ExponentialHistogramDataPoint` message in
/// `b[pos..end]` decode to, after `acc`: the last of each scalar field,
/// `positive` (8) and `negative` (9) buckets; `exemplars` (11) in order;
/// each `attributes` entry (1) bound in turn.
pub open spec fn exp_point_from(b: Seq<u8>, pos: int, end: int, acc: ExpPointModel) -> Option<
    ExpPointModel,
>
    decreases end - pos,
{
    if pos >= end {
        Some(acc)
    } else {
        match key_next(b, pos, end) {
            None => None,
            Some((f, w, p)) => if f == 2 || f == 3 || f == 4 || f == 5 || f == 7 || f == 12 || f
                == 13 {
                if w != WIRE_FIXED64 {
                    None
                } else {
                    match fixed_next(b, p, end, 8) {
                        None => None,
                        Some((x, n)) => exp_point_from(
                            b,
                            n,
                            end,
                            if f == 2 {
                                ExpPointModel { start_time_unix_nano: x, ..acc }
                            } else if f == 3 {
                                ExpPointModel { time_unix_nano: x, ..acc }
                            } else if f == 4 {
                                ExpPointModel { count: x, ..acc }
                            } else if f == 5 {
                                ExpPointModel { sum: Some(x), ..acc }
                            } else if f == 7 {
                                ExpPointModel { zero_count: x, ..acc }
                            } else if f == 12 {
                                ExpPointModel { min: Some(x), ..acc }
                            } else {
                                ExpPointModel { max: Some(x), ..acc }
                            },
                        ),
                    }
                }
            } else if f == 1 {
                if w != WIRE_LEN {
                    None
                } else {
                    match attribute_next(b, p, end, acc.attributes) {
                        None => None,
                        Some((es, n)) => exp_point_from(b, n, end, ExpPointModel { attributes: es, ..acc }),
                    }
                }
            } else if f == 6 || f == 10 {
                if w != WIRE_VARINT {
                    None
                } else {
                    match varint_next(b, p, end) {
                        None => None,
                        Some((x, n)) => exp_point_from(
                            b,
                            n,
                            end,
                            if f == 6 {
                                ExpPointModel { scale: zigzag32(x), ..acc }
                            } else {
                                ExpPointModel { flags: x as u32, ..acc }
                            },
                        ),
                    }
                }
            } else if f == 8 || f == 9 || f == 11 {
                if w != WIRE_LEN {
                    None
                } else {
                    match len_next(b, p, end) {
                        None => None,
                        Some((s, e)) => if f == 11 {
                            match exemplar_from(b, s, e, empty_exemplar()) {
                                None => None,
                                Some(ex) => exp_point_from(
                                    b,
                                    e,
                                    end,
                                    ExpPointModel { exemplars: acc.exemplars.push(ex), ..acc },
                                ),
                            }
                        } else {
                            match buckets_from(b, s, e, empty_buckets()) {
                                None => None,
                                Some(bk) => exp_point_from(
                                    b,
                                    e,
                                    end,
                                    if f == 8 {
                                        ExpPointModel { positive: bk, ..acc }
                                    } else {
                                        ExpPointModel { negative: bk, ..acc }
                                    },
                                ),
                            }
                        },
                    }
                }
            } else {
                match skip_next(b, p, end, w) {
                    None => None,
                    Some(n) => exp_point_from(b, n, end, acc),
                }
            },
        }
    }
}

/// What has been gathered from the fields of a metric's data message.
pub ghost struct BodyModel {
    pub numbers: Seq<NumberPointModel>,
    pub hists: Seq<HistogramPointModel>,
    pub exps: Seq<ExpPointModel>,
    pub summaries: nat,
    pub temporality: i32,
    pub monotonic: bool,
}

pub open spec fn empty_body() -> BodyModel {
    BodyModel {
        numbers: seq![],
        hists: seq![],
        exps: seq![],
        summaries: 0,
        temporality: 0,
        monotonic: false,
    }
}

/// What the fields of a `Gauge` (kind 5), `Sum` (7), `Histogram` (9),
/// `ExponentialHistogram` (10) or `Summary` (11) message in `b[pos..end]`
/// gather, after `acc`: the `data_points` (1) in order, the last
/// `aggregation_temporality` (2, not for gauges and summaries) and
/// `is_monotonic` (3, sums only); a summary's points are only counted.
pub open spec fn body_from(b: Seq<u8>, pos: int, end: int, kind: u64, acc: BodyModel) -> Option<BodyModel>
    decreases end - pos,
{
    if pos >= end {
        Some(acc)
    } else {
        match key_next(b, pos, end) {
            None => None,
            Some((f, w, p)) => if f == 1 {
                if w != WIRE_LEN {
                    None
                } else {
                    match len_next(b, p, end) {
                        None => None,
                        Some((s, e)) => if kind == 5 || kind == 7 {
                            match number_point_from(b, s, e, empty_number_point()) {
                                None => None,
                                Some(pt) => body_from(
                                    b,
                                    e,
                                    end,
                                    kind,
                                    BodyModel { numbers: acc.numbers.push(pt), ..acc },
                                ),
                            }
                        } else if kind == 9 {
                            match histogram_point_from(b, s, e, empty_histogram_point()) {
                                None => None,
                                Some(pt) => body_from(
                                    b,
                                    e,
                                    end,
                                    kind,
                                    BodyModel { hists: acc.hists.push(pt), ..acc },
                                ),
                            }
                        } else if kind == 10 {
                            match exp_point_from(b, s, e, empty_exp_point()) {
                                None => None,
                                Some(pt) => body_from(
                                    b,
                                    e,
                                    end,
                                    kind,
                                    BodyModel { exps: acc.exps.push(pt), ..acc },
                                ),
                            }
                        } else {
                            body_from(b, e, end, kind, BodyModel { summaries: acc.summaries + 1, ..acc })
                        },
                    }
                }
            } else if f == 2 && kind != 5 && kind != 11 {
                if w != WIRE_VARINT {
                    None
                } else {
                    match varint_next(b, p, end) {
                        None => None,
                        Some((x, n)) => body_from(
                            b,
                            n,
                            end,
                            kind,
                            BodyModel { temporality: x as i32, ..acc },
                        ),
                    }
                }
            } else if f == 3 && kind == 7 {
                if w != WIRE_VARINT {
                    None
                } else {
                    match varint_next(b, p, end) {
                        None => None,
                        Some((x, n)) => body_from(b, n, end, kind, BodyModel { monotonic: x != 0, ..acc }),
                    }
                }
            } else {
                match skip_next(b, p, end, w) {
                    None => None,
                    Some(n) => body_from(b, n, end, kind, acc),
                }
            },
        }
    }
}

/// The data of a metric of the given kind, from what its message gathered.
pub open spec fn body_data(kind: u64, d: BodyModel) -> MetricDataModel {
    if kind == 5 {
        MetricDataModel::Gauge(d.numbers)
    } else if kind == 7 {
        MetricDataModel::Sum { points: d.numbers, temporality: d.temporality, monotonic: d.monotonic }
    } else if kind == 9 {
        MetricDataModel::Histogram { hpoints: d.hists, temporality: d.temporality }
    } else if kind == 10 {
        MetricDataModel::ExpHistogram { epoints: d.exps, temporality: d.temporality }
    } else {
        MetricDataModel::Summary(d.summaries)
    }
}

/// What the fields of a `Metric` message in `b[pos..end]` decode to, after
/// `acc`: the last `name` (1), `description` (2) and `unit` (3), and of the
/// data fields gauge (5), sum (7), histogram (9), exponential histogram
/// (10) and summary (11) the last one given.
pub open spec fn metric_from(b: Seq<u8>, pos: int, end: int, acc: MetricModel) -> Option<MetricModel>
    decreases end - pos,
{
    if pos >= end {
        Some(acc)
    } else {
        match key_next(b, pos, end) {
            None => None,
            Some((f, w, p)) => if f == 1 || f == 2 || f == 3 || f == 5 || f == 7 || f == 9 || f == 10
                || f == 11 {
                if w != WIRE_LEN {
                    None
                } else {
                    match len_next(b, p, end) {
                        None => None,
                        Some((s, e)) => {
                            let t = b.subrange(s, e);
                            if f == 1 || f == 2 || f == 3 {
                                if !valid_utf8(t) {
                                    None
                                } else if f == 1 {
                                    metric_from(b, e, end, MetricModel { name: t, ..acc })
                                } else if f == 2 {
                                    metric_from(b, e, end, MetricModel { description: t, ..acc })
                                } else {
                                    metric_from(b, e, end, MetricModel { unit: t, ..acc })
                                }
                            } else {
                                match body_from(b, s, e, f, empty_body()) {
                                    None => None,
                                    Some(d) => metric_from(
                                        b,
                                        e,
                                        end,
                                        MetricModel { data: body_data(f, d), ..acc },
                                    ),
                                }
                            }
                        },
                    }
                }
            } else {
                match skip_next(b, p, end, w) {
                    None => None,
                    Some(n) => metric_from(b, n, end, acc),
                }
            },
        }
    }
}

pub open spec fn empty_metric() -> MetricModel {
    MetricModel { name: seq![], description: seq![], unit: seq![], data: MetricDataModel::Absent }
}

/// What the fields of a `ScopeMetrics` message in `b[pos..end]` decode to,
/// after `acc`: the last `scope` (1) and each of the `metrics` (2) in order.
pub open spec fn scope_metrics_from(b: Seq<u8>, pos: int, end: int, acc: ScopeMetricsModel) -> Option<
    ScopeMetricsModel,
>
    decreases end - pos,
{
    if pos >= end {
        Some(acc)
    } else {
        match key_next(b, pos, end) {
            None => None,
            Some((f, w, p)) => if f == 1 || f == 2 {
                if w != WIRE_LEN {
                    None
                } else {
                    match len_next(b, p, end) {
                        None => None,
                        Some((s, e)) => if f == 1 {
                            match scope_from(b, s, e, empty_scope()) {
                                None => None,
                                Some(sc) => scope_metrics_from(
                                    b,
                                    e,
                                    end,
                                    ScopeMetricsModel { scope: sc, ..acc },
                                ),
                            }
                        } else {
                            match metric_from(b, s, e, empty_metric()) {
                                None => None,
                                Some(m) => scope_metrics_from(
                                    b,
                                    e,
                                    end,
                                    ScopeMetricsModel { metrics: acc.metrics.push(m), ..acc },
                                ),
                            }
                        },
                    }
                }
            } else {
                match skip_next(b, p, end, w) {
                    None => None,
                    Some(n) => scope_metrics_from(b, n, end, acc),
                }
            },
        }
    }
}

/// What the fields of a `ResourceMetrics` message in `b[pos..end]` decode
/// to, after `acc`: the last `resource` (1) and each of the `scope_metrics`
/// (2) in order.
pub open spec fn resource_metrics_from(b: Seq<u8>, pos: int, end: int, acc: ResourceMetricsModel) -> Option<
    ResourceMetricsModel,
>
    decreases end - pos,
{
    if pos >= end {
        Some(acc)
    } else {
        match key_next(b, pos, end) {
            None => None,
            Some((f, w, p)) => if f == 1 || f == 2 {
                if w != WIRE_LEN {
                    None
                } else {
                    match len_next(b, p, end) {
                        None => None,
                        Some((s, e)) => if f == 1 {
                            match resource_from(b, s, e, empty_resource()) {
                                None => None,
                                Some(r) => resource_metrics_from(
                                    b,
                                    e,
                                    end,
                                    ResourceMetricsModel { resource: r, ..acc },
                                ),
                            }
                        } else {
                            match scope_metrics_from(
                                b,
                                s,
                                e,
                                ScopeMetricsModel { scope: empty_scope(), metrics: seq![] },
                            ) {
                                None => None,
                                Some(sm) => resource_metrics_from(
                                    b,
                                    e,
                                    end,
                                    ResourceMetricsModel {
                                        scope_metrics: acc.scope_metrics.push(sm),
                                        ..acc
                                    },
                                ),
                            }
                        },
                    }
                }
            } else {
                match skip_next(b, p, end, w) {
                    None => None,
                    Some(n) => resource_metrics_from(b, n, end, acc),
                }
            },
        }
    }
}

/// What the fields of an `ExportMetricsServiceRequest` message in
/// `b[pos..end]` decode to, after `acc`: each of the `resource_metrics` (1)
/// in order.
pub open spec fn metrics_request_from(b: Seq<u8>, pos: int, end: int, acc: Seq<ResourceMetricsModel>) -> Option<
    Seq<ResourceMetricsModel>,
>
    decreases end - pos,
{
    if pos >= end {
        Some(acc)
    } else {
        match key_next(b, pos, end) {
            None => None,
            Some((f, w, p)) => if f == 1 {
                if w != WIRE_LEN {
                    None
                } else {
                    match len_next(b, p, end) {
                        None => None,
                        Some((s, e)) => match resource_metrics_from(
                            b,
                            s,
                            e,
                            ResourceMetricsModel { resource: empty_resource(), scope_metrics: seq![] },
                        ) {
                            None => None,
                            Some(rm) => metrics_request_from(b, e, end, acc.push(rm)),
                        },
                    }
                }
            } else {
                match skip_next(b, p, end, w) {
                    None => None,
                    Some(n) => metrics_request_from(b, n, end, acc),
                }
            },
        }
    }
}

/// The resources that an `ExportMetricsServiceRequest` message decodes to.
pub open spec fn metrics_request_spec(b: Seq<u8>) -> Option<Seq<ResourceMetricsModel>> {
    metrics_request_from(b, 0, b.len() as int, seq![])
}

/// The signed number that a ZigZag-encoded 32-bit field value denotes.
pub open spec fn zigzag32(x: u64) -> i32 {
    let v = x as u32;
    if v % 2 == 0 {
        (v / 2) as i32
    } else {
        (-((v / 2) as int) - 1) as i32
    }
}

/// Decode a ZigZag-encoded `sint32` field value.
pub fn unzigzag32(x: u64) -> (r: i32)
    ensures
        r == zigzag32(x),
{
    let v = x as u32;
    if v % 2 == 0 {
        (v / 2) as i32
    } else {
        (-((v / 2) as i64) - 1) as i32
    }
}

/// Read a repeated 64-bit fixed-width field at `pos`, packed or not, into `out`.
#[verifier::loop_isolation(false)]
fn fixed64_list(b: &[u8], pos: usize, end: usize, wire: u64, out: &mut Vec<u64>) -> (r: Result<
    usize,
    DecodeError,
>)
    requires
        pos <= end <= b@.len(),
    ensures
        r matches Ok(next) ==> pos < next <= end,
        r matches Err(e) ==> e is Proto,
        match fixed64_list_next(b@, pos as int, end as int, wire, old(out)@) {
            Some((l, n)) => r matches Ok(x) && x == n && final(out)@ == l,
            None => r is Err,
        },
{
    if wire == WIRE_FIXED64 {
        let (x, n) = fixed_at(b, pos, end, 8)?;
        out.push(x);
        Ok(n)
    } else {
        expect_wire(wire, WIRE_LEN)?;
        let (s, e) = len_at(b, pos, end)?;
        let mut i = s;
        while i < e
            invariant
                s <= i <= e <= b@.len(),
                packed_fixed64(b@, i as int, e as int, out@) == packed_fixed64(b@, s as int, e as int, old(out)@),
            decreases e - i,
        {
            let (x, n) = fixed_at(b, i, e, 8)?;
            out.push(x);
            i = n;
        }
        Ok(e)
    }
}

/// Read a repeated varint field at `pos`, packed or not, into `out`.
#[verifier::loop_isolation(false)]
fn varint_list(b: &[u8], pos: usize, end: usize, wire: u64, out: &mut Vec<u64>) -> (r: Result<
    usize,
    DecodeError,
>)
    requires
        pos <= end <= b@.len(),
    ensures
        r matches Ok(next) ==> pos < next <= end,
        r matches Err(e) ==> e is Proto,
        match varint_list_next(b@, pos as int, end as int, wire, old(out)@) {
            Some((l, n)) => r matches Ok(x) && x == n && final(out)@ == l,
            None => r is Err,
        },
{
    if wire == WIRE_VARINT {
        let (x, n) = varint_at(b, pos, end)?;
        out.push(x);
        Ok(n)
    } else {
        expect_wire(wire, WIRE_LEN)?;
        let (s, e) = len_at(b, pos, end)?;
        let mut i = s;
        while i < e
            invariant
                s <= i <= e <= b@.len(),
                packed_varint(b@, i as int, e as int, out@) == packed_varint(b@, s as int, e as int, old(out)@),
            decreases e - i,
        {
            let (x, n) = varint_at(b, i, e)?;
            out.push(x);
            i = n;
        }
        Ok(e)
    }
}

/// Decode an `Exemplar` message in `b[start..end]`.
pub fn parse_exemplar(b: &[u8], start: usize, end: usize) -> (r: Result<Exemplar, DecodeError>)
    requires
        start <= end <= b@.len(),
    ensures
        r matches Err(e) ==> e is Proto,
        match exemplar_from(b@, start as int, end as int, empty_exemplar()) {
            Some(m) => r matches Ok(x) && x@ == m,
            None => r is Err,
        },
{
    let mut ex = Exemplar {
        filtered_attributes: Vec::new(),
        time_unix_nano: 0,
        value: NumberValue::Absent,
        span_id: Vec::new(),
        trace_id: Vec::new(),
    };
    let mut pos = start;
    while pos < end
        invariant
            start <= pos <= end <= b@.len(),
            exemplar_from(b@, pos as int, end as int, ex@) == exemplar_from(
                b@,
                start as int,
                end as int,
                empty_exemplar(),
            ),
        decreases end - pos,
    {
        let (field, wire, p) = key_at(b, pos, end)?;
        if field == 7 {
            expect_wire(wire, WIRE_LEN)?;
            pos = add_attribute(b, p, end, &mut ex.filtered_attributes)?;
        } else if field == 2 || field == 3 || field == 6 {
            expect_wire(wire, WIRE_FIXED64)?;
            let (x, n) = fixed_at(b, p, end, 8)?;
            if field == 2 {
                ex.time_unix_nano = x;
            } else if field == 3 {
                ex.value = NumberValue::Double(x);
            } else {
                ex.value = NumberValue::Int(x as i64);
            }
            pos = n;
        } else if field == 4 || field == 5 {
            expect_wire(wire, WIRE_LEN)?;
            let (t, n) = bytes_at(b, p, end)?;
            if field == 4 {
                ex.span_id = t;
            } else {
                ex.trace_id = t;
            }
            pos = n;
        } else {
            pos = skip_at(b, p, end, wire)?;
        }
    }
    Ok(ex)
}

/// Decode a `NumberDataPoint` message in `b[start..end]`.
pub fn parse_number_point(b: &[u8], start: usize, end: usize) -> (r: Result<NumberDataPoint, DecodeError>)
    requires
        start <= end <= b@.len(),
    ensures
        r matches Err(e) ==> e is Proto,
        match number_point_from(b@, start as int, end as int, empty_number_point()) {
            Some(m) => r matches Ok(x) && x@ == m,
            None => r is Err,
        },
        r matches Ok(x) ==> keys_unique(entries_view(x.attributes@)),
{
    let mut pt = NumberDataPoint {
        attributes: Vec::new(),
        start_time_unix_nano: 0,
        time_unix_nano: 0,
        value: NumberValue::Absent,
        exemplars: Vec::new(),
        flags: 0,
    };
    let mut pos = start;
    proof {
        assert(pt@.exemplars =~= seq![]);
    }
    while pos < end
        invariant
            start <= pos <= end <= b@.len(),
            number_point_from(b@, pos as int, end as int, pt@) == number_point_from(
                b@,
                start as int,
                end as int,
                empty_number_point(),
            ),
            keys_unique(entries_view(pt.attributes@)),
        decreases end - pos,
    {
        let (field, wire, p) = key_at(b, pos, end)?;
        if field == 2 || field == 3 || field == 4 || field == 6 {
            expect_wire(wire, WIRE_FIXED64)?;
            let (x, n) = fixed_at(b, p, end, 8)?;
            if field == 2 {
                pt.start_time_unix_nano = x;
            } else if field == 3 {
                pt.time_unix_nano = x;
            } else if field == 4 {
                pt.value = NumberValue::Double(x);
            } else {
                pt.value = NumberValue::Int(x as i64);
            }
            pos = n;
        } else if field == 5 {
            expect_wire(wire, WIRE_LEN)?;
            let (s, e) = len_at(b, p, end)?;
            let ex = parse_exemplar(b, s, e)?;
            let ghost before = pt@;
            pt.exemplars.push(ex);
            proof {
                assert(pt@.exemplars =~= before.exemplars.push(ex@));
            }
            pos = e;
        } else if field == 7 {
            expect_wire(wire, WIRE_LEN)?;
            pos = add_attribute(b, p, end, &mut pt.attributes)?;
        } else if field == 8 {
            expect_wire(wire, WIRE_VARINT)?;
            let (x, n) = varint_at(b, p, end)?;
            pt.flags = x as u32;
            pos = n;
        } else {
            pos = skip_at(b, p, end, wire)?;
        }
    }
    Ok(pt)
}

/// Decode a `HistogramDataPoint` message in `b[start..end]`.
pub fn parse_histogram_point(b: &[u8], start: usize, end: usize) -> (r: Result<
    HistogramDataPoint,
    DecodeError,
>)
    requires
        start <= end <= b@.len(),
    ensures
        r matches Err(e) ==> e is Proto,
        match histogram_point_from(b@, start as int, end as int, empty_histogram_point()) {
            Some(m) => r matches Ok(x) && x@ == m,
            None => r is Err,
        },
{
    let mut pt = HistogramDataPoint {
        attributes: Vec::new(),
        start_time_unix_nano: 0,
        time_unix_nano: 0,
        count: 0,
        sum: None,
        bucket_counts: Vec::new(),
        explicit_bounds: Vec::new(),
        exemplars: Vec::new(),
        flags: 0,
        min: None,
        max: None,
    };
    let mut pos = start;
    proof {
        assert(pt@.exemplars =~= seq![]);
    }
    while pos < end
        invariant
            start <= pos <= end <= b@.len(),
            histogram_point_from(b@, pos as int, end as int, pt@) == histogram_point_from(
                b@,
                start as int,
                end as int,
                empty_histogram_point(),
            ),
        decreases end - pos,
    {
        let (field, wire, p) = key_at(b, pos, end)?;
        if field == 2 || field == 3 || field == 4 || field == 5 || field == 11 || field == 12 {
            expect_wire(wire, WIRE_FIXED64)?;
            let (x, n) = fixed_at(b, p, end, 8)?;
            if field == 2 {
                pt.start_time_unix_nano = x;
            } else if field == 3 {
                pt.time_unix_nano = x;
            } else if field == 4 {
                pt.count = x;
            } else if field == 5 {
                pt.sum = Some(x);
            } else if field == 11 {
                pt.min = Some(x);
            } else {
                pt.max = Some(x);
            }
            pos = n;
        } else if field == 6 {
            pos = fixed64_list(b, p, end, wire, &mut pt.bucket_counts)?;
        } else if field == 7 {
            pos = fixed64_list(b, p, end, wire, &mut pt.explicit_bounds)?;
        } else if field == 8 {
            expect_wire(wire, WIRE_LEN)?;
            let (s, e) = len_at(b, p, end)?;
            let ex = parse_exemplar(b, s, e)?;
            let ghost before = pt@;
            pt.exemplars.push(ex);
            proof {
                assert(pt@.exemplars =~= before.exemplars.push(ex@));
            }
            pos = e;
        } else if field == 9 {
            expect_wire(wire, WIRE_LEN)?;
            pos = add_attribute(b, p, end, &mut pt.attributes)?;
        } else if field == 10 {
            expect_wire(wire, WIRE_VARINT)?;
            let (x, n) = varint_at(b, p, end)?;
            pt.flags = x as u32;
            pos = n;
        } else {
            pos = skip_at(b, p, end, wire)?;
        }
    }
    Ok(pt)
}

/// Decode the `Buckets` message of an exponential histogram point in `b[start..end]`.
pub fn parse_buckets(b: &[u8], start: usize, end: usize) -> (r: Result<Buckets, DecodeError>)
    requires
        start <= end <= b@.len(),
    ensures
        r matches Err(e) ==> e is Proto,
        match buckets_from(b@, start as int, end as int, empty_buckets()) {
            Some(m) => r matches Ok(x) && x@ == m,
            None => r is Err,
        },
{
    let mut bk = Buckets { offset: 0, bucket_counts: Vec::new() };
    let mut pos = start;
    while pos < end
        invariant
            start <= pos <= end <= b@.len(),
            buckets_from(b@, pos as int, end as int, bk@) == buckets_from(
                b@,
                start as int,
                end as int,
                empty_buckets(),
            ),
        decreases end - pos,
    {
        let (field, wire, p) = key_at(b, pos, end)?;
        if field == 1 {
            expect_wire(wire, WIRE_VARINT)?;
            let (x, n) = varint_at(b, p, end)?;
            bk.offset = unzigzag32(x);
            pos = n;
        } else if field == 2 {
            pos = varint_list(b, p, end, wire, &mut bk.bucket_counts)?;
        } else {
            pos = skip_at(b, p, end, wire)?;
        }
    }
    Ok(bk)
}

/// Decode an `ExponentialHistogramDataPoint` message in `b[start..end]`.
pub fn parse_exp_histogram_point(b: &[u8], start: usize, end: usize) -> (r: Result<
    ExpHistogramDataPoint,
    DecodeError,
>)
    requires
        start <= end <= b@.len(),
    ensures
        r matches Err(e) ==> e is Proto,
        match exp_point_from(b@, start as int, end as int, empty_exp_point()) {
            Some(m) => r matches Ok(x) && x@ == m,
            None => r is Err,
        },
{
    let mut pt = ExpHistogramDataPoint {
        attributes: Vec::new(),
        start_time_unix_nano: 0,
        time_unix_nano: 0,
        count: 0,
        sum: None,
        scale: 0,
        zero_count: 0,
        positive: Buckets { offset: 0, bucket_counts: Vec::new() },
        negative: Buckets { offset: 0, bucket_counts: Vec::new() },
        flags: 0,
        exemplars: Vec::new(),
        min: None,
        max: None,
    };
    let mut pos = start;
    proof {
        assert(pt@.exemplars =~= seq![]);
    }
    while pos < end
        invariant
            start <= pos <= end <= b@.len(),
            exp_point_from(b@, pos as int, end as int, pt@) == exp_point_from(
                b@,
                start as int,
                end as int,
                empty_exp_point(),
            ),
        decreases end - pos,
    {
        let (field, wire, p) = key_at(b, pos, end)?;
        if field == 2 || field == 3 || field == 4 || field == 5 || field == 7 || field == 12
            || field == 13 {
            expect_wire(wire, WIRE_FIXED64)?;
            let (x, n) = fixed_at(b, p, end, 8)?;
            if field == 2 {
                pt.start_time_unix_nano = x;
            } else if field == 3 {
                pt.time_unix_nano = x;
            } else if field == 4 {
                pt.count = x;
            } else if field == 5 {
                pt.sum = Some(x);
            } else if field == 7 {
                pt.zero_count = x;
            } else if field == 12 {
                pt.min = Some(x);
            } else {
                pt.max = Some(x);
            }
            pos = n;
        } else if field == 1 {
            expect_wire(wire, WIRE_LEN)?;
            pos = add_attribute(b, p, end, &mut pt.attributes)?;
        } else if field == 6 || field == 10 {
            expect_wire(wire, WIRE_VARINT)?;
            let (x, n) = varint_at(b, p, end)?;
            if field == 6 {
                pt.scale = unzigzag32(x);
            } else {
                pt.flags = x as u32;
            }
            pos = n;
        } else if field == 8 || field == 9 {
            expect_wire(wire, WIRE_LEN)?;
            let (s, e) = len_at(b, p, end)?;
            let bk = parse_buckets(b, s, e)?;
            if field == 8 {
                pt.positive = bk;
            } else {
                pt.negative = bk;
            }
            pos = e;
        } else if field == 11 {
            expect_wire(wire, WIRE_LEN)?;
            let (s, e) = len_at(b, p, end)?;
            let ex = parse_exemplar(b, s, e)?;
            let ghost before = pt@;
            pt.exemplars.push(ex);
            proof {
                assert(pt@.exemplars =~= before.exemplars.push(ex@));
            }
            pos = e;
        } else {
            pos = skip_at(b, p, end, wire)?;
        }
    }
    Ok(pt)
}

/// What the collectors of a metric's data message hold.
pub open spec fn body_of(
    numbers: Seq<NumberDataPoint>,
    hists: Seq<HistogramDataPoint>,
    exps: Seq<ExpHistogramDataPoint>,
    summaries: usize,
    temporality: i32,
    monotonic: bool,
) -> BodyModel {
    BodyModel {
        numbers: Seq::new(numbers.len(), |i: int| numbers[i]@),
        hists: Seq::new(hists.len(), |i: int| hists[i]@),
        exps: Seq::new(exps.len(), |i: int| exps[i]@),
        summaries: summaries as nat,
        temporality,
        monotonic,
    }
}

/// The data points of a `Gauge`, `Sum`, `Histogram` or `ExponentialHistogram`
/// message in `b[start..end]` (field 1), with its aggregation temporality
/// (field 2) and whether it is monotonic (field 3).
fn parse_metric_body(b: &[u8], start: usize, end: usize, kind: u64) -> (r: Result<MetricData, DecodeError>)
    requires
        start <= end <= b@.len(),
    ensures
        r matches Err(e) ==> e is Proto,
        r matches Ok(d) ==> (kind == 5 ==> d is Gauge) && (kind == 7 ==> d is Sum) && (kind == 9
            ==> d is Histogram) && (kind == 10 ==> d is ExpHistogram) && (kind == 11 ==> d is Summary),
        match body_from(b@, start as int, end as int, kind, empty_body()) {
            Some(d) => r matches Ok(x) && x@ == body_data(kind, d),
            None => r is Err,
        },
{
    let mut numbers: Vec<NumberDataPoint> = Vec::new();
    let mut hists: Vec<HistogramDataPoint> = Vec::new();
    let mut exps: Vec<ExpHistogramDataPoint> = Vec::new();
    let mut summaries: usize = 0;
    let mut temporality: i32 = 0;
    let mut monotonic = false;
    let mut pos = start;
    proof {
        let bm = body_of(numbers@, hists@, exps@, summaries, temporality, monotonic);
        assert(bm.numbers =~= seq![]);
        assert(bm.hists =~= seq![]);
        assert(bm.exps =~= seq![]);
        assert(bm == empty_body());
    }
    while pos < end
        invariant
            start <= pos <= end <= b@.len(),
            summaries <= pos - start,
            body_from(
                b@,
                pos as int,
                end as int,
                kind,
                body_of(numbers@, hists@, exps@, summaries, temporality, monotonic),
            ) == body_from(b@, start as int, end as int, kind, empty_body()),
        decreases end - pos,
    {
        let (field, wire, p) = key_at(b, pos, end)?;
        if field == 1 {
            expect_wire(wire, WIRE_LEN)?;
            let (s, e) = len_at(b, p, end)?;
            if kind == 5 || kind == 7 {
                let pt = parse_number_point(b, s, e)?;
                let ghost before = body_of(numbers@, hists@, exps@, summaries, temporality, monotonic);
                numbers.push(pt);
                proof {
                    assert(body_of(numbers@, hists@, exps@, summaries, temporality, monotonic).numbers
                        =~= before.numbers.push(pt@));
                }
            } else if kind == 9 {
                let pt = parse_histogram_point(b, s, e)?;
                let ghost before = body_of(numbers@, hists@, exps@, summaries, temporality, monotonic);
                hists.push(pt);
                proof {
                    assert(body_of(numbers@, hists@, exps@, summaries, temporality, monotonic).hists
                        =~= before.hists.push(pt@));
                }
            } else if kind == 10 {
                let pt = parse_exp_histogram_point(b, s, e)?;
                let ghost before = body_of(numbers@, hists@, exps@, summaries, temporality, monotonic);
                exps.push(pt);
                proof {
                    assert(body_of(numbers@, hists@, exps@, summaries, temporality, monotonic).exps
                        =~= before.exps.push(pt@));
                }
            } else {
                summaries = summaries + 1;
            }
            pos = e;
        } else if field == 2 && kind != 5 && kind != 11 {
            expect_wire(wire, WIRE_VARINT)?;
            let (x, n) = varint_at(b, p, end)?;
            temporality = x as i32;
            pos = n;
        } else if field == 3 && kind == 7 {
            expect_wire(wire, WIRE_VARINT)?;
            let (x, n) = varint_at(b, p, end)?;
            monotonic = x != 0;
            pos = n;
        } else {
            pos = skip_at(b, p, end, wire)?;
        }
    }
    if kind == 5 {
        Ok(MetricData::Gauge(numbers))
    } else if kind == 7 {
        Ok(MetricData::Sum { points: numbers, temporality, monotonic })
    } else if kind == 9 {
        Ok(MetricData::Histogram { points: hists, temporality })
    } else if kind == 10 {
        Ok(MetricData::ExpHistogram { points: exps, temporality })
    } else {
        Ok(MetricData::Summary(summaries))
    }
}

/// Decode a `Metric` message in `b[start..end]`; of its kinds the last one given wins.
#[verifier::rlimit(50)]
pub fn parse_metric(b: &[u8], start: usize, end: usize) -> (r: Result<Metric, DecodeError>)
    requires
        start <= end <= b@.len(),
    ensures
        r matches Err(e) ==> e is Proto,
        match metric_from(b@, start as int, end as int, empty_metric()) {
            Some(m) => r matches Ok(x) && x@ == m,
            None => r is Err,
        },
{
    let mut m = Metric {
        name: Vec::new(),
        description: Vec::new(),
        unit: Vec::new(),
        data: MetricData::Absent,
    };
    let mut pos = start;
    while pos < end
        invariant
            start <= pos <= end <= b@.len(),
            metric_from(b@, pos as int, end as int, m@) == metric_from(
                b@,
                start as int,
                end as int,
                empty_metric(),
            ),
        decreases end - pos,
    {
        let (field, wire, p) = key_at(b, pos, end)?;
        if field == 1 || field == 2 || field == 3 {
            expect_wire(wire, WIRE_LEN)?;
            let (t, n) = text_at(b, p, end)?;
            if field == 1 {
                m.name = t;
            } else if field == 2 {
                m.description = t;
            } else {
                m.unit = t;
            }
            pos = n;
        } else if field == 5 || field == 7 || field == 9 || field == 10 || field == 11 {
            expect_wire(wire, WIRE_LEN)?;
            let (s, e) = len_at(b, p, end)?;
            m.data = parse_metric_body(b, s, e, field)?;
            pos = e;
        } else {
            pos = skip_at(b, p, end, wire)?;
        }
    }
    Ok(m)
}

/// Decode a `ScopeMetrics` message in `b[start..end]`.
pub fn parse_scope_metrics(b: &[u8], start: usize, end: usize) -> (r: Result<ScopeMetrics, DecodeError>)
    requires
        start <= end <= b@.len(),
    ensures
        r matches Err(e) ==> e is Proto,
        match scope_metrics_from(b@, start as int, end as int, ScopeMetricsModel { scope: empty_scope(), metrics: seq![] }) {
            Some(m) => r matches Ok(x) && x@ == m,
            None => r is Err,
        },
{
    let mut sm = ScopeMetrics { scope: Scope::empty(), metrics: Vec::new() };
    let mut pos = start;
    proof {
        assert(sm@.metrics =~= seq![]);
    }
    while pos < end
        invariant
            start <= pos <= end <= b@.len(),
            scope_metrics_from(b@, pos as int, end as int, sm@) == scope_metrics_from(
                b@,
                start as int,
                end as int,
                ScopeMetricsModel { scope: empty_scope(), metrics: seq![] },
            ),
        decreases end - pos,
    {
        let (field, wire, p) = key_at(b, pos, end)?;
        if field == 1 {
            expect_wire(wire, WIRE_LEN)?;
            let (s, e) = len_at(b, p, end)?;
            sm.scope = parse_scope(b, s, e)?;
            pos = e;
        } else if field == 2 {
            expect_wire(wire, WIRE_LEN)?;
            let (s, e) = len_at(b, p, end)?;
            let m = parse_metric(b, s, e)?;
            let ghost before = sm@;
            sm.metrics.push(m);
            proof {
                assert(sm@.metrics =~= before.metrics.push(m@));
            }
            pos = e;
        } else {
            pos = skip_at(b, p, end, wire)?;
        }
    }
    Ok(sm)
}

/// Decode a `ResourceMetrics` message in `b[start..end]`.
pub fn parse_resource_metrics(b: &[u8], start: usize, end: usize) -> (r: Result<
    ResourceMetrics,
    DecodeError,
>)
    requires
        start <= end <= b@.len(),
    ensures
        r matches Err(e) ==> e is Proto,
        match resource_metrics_from(b@, start as int, end as int, ResourceMetricsModel { resource: empty_resource(), scope_metrics: seq![] }) {
            Some(m) => r matches Ok(x) && x@ == m,
            None => r is Err,
        },
{
    let mut rm = ResourceMetrics { resource: Resource::empty(), scope_metrics: Vec::new() };
    let mut pos = start;
    proof {
        assert(rm@.scope_metrics =~= seq![]);
    }
    while pos < end
        invariant
            start <= pos <= end <= b@.len(),
            resource_metrics_from(b@, pos as int, end as int, rm@) == resource_metrics_from(
                b@,
                start as int,
                end as int,
                ResourceMetricsModel { resource: empty_resource(), scope_metrics: seq![] },
            ),
        decreases end - pos,
    {
        let (field, wire, p) = key_at(b, pos, end)?;
        if field == 1 {
            expect_wire(wire, WIRE_LEN)?;
            let (s, e) = len_at(b, p, end)?;
            rm.resource = parse_resource(b, s, e)?;
            pos = e;
        } else if field == 2 {
            expect_wire(wire, WIRE_LEN)?;
            let (s, e) = len_at(b, p, end)?;
            let sm = parse_scope_metrics(b, s, e)?;
            let ghost before = rm@;
            rm.scope_metrics.push(sm);
            proof {
                assert(rm@.scope_metrics =~= before.scope_metrics.push(sm@));
            }
            pos = e;
        } else {
            pos = skip_at(b, p, end, wire)?;
        }
    }
    Ok(rm)
}

/// Decode an `ExportMetricsServiceRequest` message: its resources in order.
pub fn parse_metrics_request(b: &[u8]) -> (r: Result<Vec<ResourceMetrics>, DecodeError>)
    ensures
        r matches Err(e) ==> e is Proto,
        b@.len() == 0 ==> (r matches Ok(v) && v@.len() == 0),
        match metrics_request_spec(b@) {
            Some(m) => r matches Ok(v) && resource_metrics_views(v@) == m,
            None => r is Err,
        },
{
    let end = b.len();
    let mut out: Vec<ResourceMetrics> = Vec::new();
    let mut pos: usize = 0;
    proof {
        assert(resource_metrics_views(out@) =~= seq![]);
    }
    while pos < end
        invariant
            pos <= end == b@.len(),
            end == 0 ==> out@.len() == 0,
            metrics_request_from(b@, pos as int, end as int, resource_metrics_views(out@))
                == metrics_request_spec(b@),
        decreases end - pos,
    {
        let (field, wire, p) = key_at(b, pos, end)?;
        if field == 1 {
            expect_wire(wire, WIRE_LEN)?;
            let (s, e) = len_at(b, p, end)?;
            let rm = parse_resource_metrics(b, s, e)?;
            let ghost before = resource_metrics_views(out@);
            out.push(rm);
            proof {
                assert(resource_metrics_views(out@) =~= before.push(rm@));
            }
            pos = e;
        } else {
            pos = skip_at(b, p, end, wire)?;
        }
    }
    Ok(out)
}

/// What serde_json's `Number::as_f64` makes of a signed integer: the bits of
/// the nearest double.
pub uninterp spec fn int_double_bits(i: i64) -> u64;

/// The largest `e` with `2^e <= a`, for `a >= 1`.
pub open spec fn log2_floor(a: nat) -> nat
    decreases a,
{
    if a <= 1 {
        0
    } else {
        1 + log2_floor(a / 2)
    }
}

/// The IEEE 754 bits of the double that equals an integer of magnitude at
/// most 2^53: sign, biased exponent, and the bits below the leading one as
/// the mantissa.
pub open spec fn exact_double_bits(i: int) -> u64 {
    if i == 0 {
        0
    } else {
        let a: nat = if i < 0 {
            (-i) as nat
        } else {
            i as nat
        };
        let e = log2_floor(a);
        let sign: nat = if i < 0 {
            1
        } else {
            0
        };
        (sign * pow2(63) + (1023 + e) * pow2(52) + (a - pow2(e)) * pow2((52 - e) as nat)) as u64
    }
}

/// Relies on `serde_json::Number::from(i64)` and `Number::as_f64` (the
/// conversion `i as f64`): the double nearest to an integer, as its bits;
/// exact for integers of magnitude at most 2^53.
#[verifier::external_body]
pub(crate) fn int_to_double_bits(i: i64) -> (r: u64)
    ensures
        r == int_double_bits(i),
        -0x20_0000_0000_0000 <= i <= 0x20_0000_0000_0000 ==> r == exact_double_bits(i as int),
{
    serde_json::Number::from(i).as_f64().map(|x| x.to_bits()).unwrap_or(0)
}

/// The value of a point as the bits of a double: an integer is converted;
/// `None` where the point has no value.
pub open spec fn number_bits(v: NumberValue) -> Option<u64> {
    match v {
        NumberValue::Absent => None,
        NumberValue::Double(b) => Some(b),
        NumberValue::Int(i) => Some(int_double_bits(i)),
    }
}

fn number_value_bits(v: &NumberValue) -> (r: Option<u64>)
    ensures
        r == number_bits(*v),
{
    match v {
        NumberValue::Absent => None,
        NumberValue::Double(b) => Some(*b),
        NumberValue::Int(i) => Some(int_to_double_bits(*i)),
    }
}

/// An optional double column: null where absent.
pub open spec fn opt_float_val(v: Option<u64>) -> Val {
    match v {
        Some(b) => Val::Float(b),
        None => Val::Null,
    }
}

fn opt_float_value(v: Option<u64>) -> (r: Value)
    ensures
        r@ == opt_float_val(v),
{
    match v {
        Some(b) => Value::Float(b),
        None => Value::Null,
    }
}

pub open spec fn exemplar_val(e: Exemplar) -> Val {
    Val::Object(
        seq![
            ("time_unix_nano"@, Val::Integer(e.time_unix_nano as i64)),
            ("value"@, opt_float_val(number_bits(e.value))),
            ("span_id"@, Val::Bytes(crate::value::hex_of(e.span_id@))),
            ("trace_id"@, Val::Bytes(crate::value::hex_of(e.trace_id@))),
            ("filtered_attributes"@, Val::Object(entries_view(e.filtered_attributes@))),
        ],
    )
}

pub open spec fn exemplars_val(ex: Seq<Exemplar>) -> Val {
    Val::Array(Seq::new(ex.len(), |i: int| exemplar_val(ex[i])))
}

impl Exemplar {
    pub fn to_value(&self) -> (r: Value)
        ensures
            r@ == exemplar_val(*self),
    {
        let mut e: Vec<(String, Value)> = Vec::new();
        push_entry(&mut e, "time_unix_nano", Value::Integer(self.time_unix_nano as i64));
        push_entry(&mut e, "value", opt_float_value(number_value_bits(&self.value)));
        push_entry(&mut e, "span_id", Value::Bytes(hex_encode(self.span_id.as_slice())));
        push_entry(&mut e, "trace_id", Value::Bytes(hex_encode(self.trace_id.as_slice())));
        push_entry(
            &mut e,
            "filtered_attributes",
            Value::Object(clone_entries(&self.filtered_attributes)),
        );
        proof {
            assert(entries_view(e@) =~= seq![
                ("time_unix_nano"@, Val::Integer(self.time_unix_nano as i64)),
                ("value"@, opt_float_val(number_bits(self.value))),
                ("span_id"@, Val::Bytes(crate::value::hex_of(self.span_id@))),
                ("trace_id"@, Val::Bytes(crate::value::hex_of(self.trace_id@))),
                ("filtered_attributes"@, Val::Object(entries_view(self.filtered_attributes@))),
            ]);
        }
        Value::Object(e)
    }
}

fn exemplars_value(ex: &Vec<Exemplar>) -> (r: Value)
    ensures
        r@ == exemplars_val(ex@),
{
    let mut out: Vec<Value> = Vec::new();
    let mut k: usize = 0;
    while k < ex.len()
        invariant
            k <= ex@.len(),
            values_view(out@) == Seq::new(k as nat, |i: int| exemplar_val(ex@[i])),
        decreases ex@.len() - k,
    {
        push_value(&mut out, ex[k].to_value());
        proof {
            assert(values_view(out@) =~= Seq::new((k + 1) as nat, |i: int| exemplar_val(ex@[i])));
        }
        k = k + 1;
    }
    Value::Array(out)
}

/// The columns of a gauge or sum row whose value has the given bits; a sum
/// row carries its temporality and monotonicity too.
pub open spec fn number_entries(
    res: Resource,
    sc: Scope,
    m: Metric,
    p: NumberDataPoint,
    bits: u64,
    sum: Option<(i32, bool)>,
) -> Seq<(Seq<char>, Val)> {
    let common = seq![
        ("time_unix_nano"@, Val::Integer(p.time_unix_nano as i64)),
        ("start_time_unix_nano"@, Val::Integer(p.start_time_unix_nano as i64)),
        ("metric_name"@, Val::Bytes(m.name@)),
        ("metric_description"@, Val::Bytes(m.description@)),
        ("metric_unit"@, Val::Bytes(m.unit@)),
        ("value"@, Val::Float(bits)),
        ("attributes"@, Val::Object(entries_view(p.attributes@))),
        ("flags"@, Val::Integer(p.flags as i64)),
        ("exemplars"@, exemplars_val(p.exemplars@)),
        ("resource"@, resource_val(res)),
        ("scope"@, scope_val(sc)),
    ];
    match sum {
        None => common,
        Some((t, mono)) => common + seq![
            ("aggregation_temporality"@, Val::Integer(t as i64)),
            ("is_monotonic"@, Val::Boolean(mono)),
        ],
    }
}

/// The row of a gauge or sum point.
pub fn number_row(
    res: &Resource,
    sc: &Scope,
    m: &Metric,
    p: &NumberDataPoint,
    bits: u64,
    sum: Option<(i32, bool)>,
) -> (r: Value)
    ensures
        r@ == Val::Object(number_entries(*res, *sc, *m, *p, bits, sum)),
{
    let mut e: Vec<(String, Value)> = Vec::new();
    push_entry(&mut e, "time_unix_nano", Value::Integer(p.time_unix_nano as i64));
    push_entry(&mut e, "start_time_unix_nano", Value::Integer(p.start_time_unix_nano as i64));
    push_entry(&mut e, "metric_name", Value::Bytes(m.name.clone()));
    push_entry(&mut e, "metric_description", Value::Bytes(m.description.clone()));
    push_entry(&mut e, "metric_unit", Value::Bytes(m.unit.clone()));
    push_entry(&mut e, "value", Value::Float(bits));
    push_entry(&mut e, "attributes", Value::Object(clone_entries(&p.attributes)));
    push_entry(&mut e, "flags", Value::Integer(p.flags as i64));
    push_entry(&mut e, "exemplars", exemplars_value(&p.exemplars));
    push_entry(&mut e, "resource", res.to_value());
    push_entry(&mut e, "scope", sc.to_value());
    if let Some((t, mono)) = sum {
        push_entry(&mut e, "aggregation_temporality", Value::Integer(t as i64));
        push_entry(&mut e, "is_monotonic", Value::Boolean(mono));
    }
    proof {
        assert(entries_view(e@) =~= number_entries(*res, *sc, *m, *p, bits, sum));
    }
    Value::Object(e)
}

/// Whether a row carries, as its sixth column, a `value` that is a finite double.
pub open spec fn finite_value_row(v: Val) -> bool {
    &&& v is Object
    &&& v->Object_0.len() > 5
    &&& v->Object_0[5].0 == "value"@
    &&& v->Object_0[5].1 matches Val::Float(b) && bits_finite(b)
}

/// Whether every row carries a finite `value`.
pub open spec fn all_finite_rows(s: Seq<Val>) -> bool {
    forall|i: int| 0 <= i < s.len() ==> finite_value_row(#[trigger] s[i])
}

/// A count that stops at the largest `usize`.
pub open spec fn sat_add(a: usize, n: nat) -> usize {
    if a + n > usize::MAX {
        usize::MAX
    } else {
        (a + n) as usize
    }
}

fn sat_inc(a: usize) -> (r: usize)
    ensures
        r == sat_add(a, 1),
{
    if a < usize::MAX {
        a + 1
    } else {
        a
    }
}

/// The number of points whose value is present but not finite.
pub open spec fn count_non_finite(ps: Seq<NumberDataPoint>) -> nat
    decreases ps.len(),
{
    if ps.len() == 0 {
        0
    } else {
        count_non_finite(ps.drop_last()) + match number_bits(ps.last().value) {
            Some(b) => if bits_finite(b) {
                0nat
            } else {
                1nat
            },
            None => 0nat,
        }
    }
}

/// The number of points without a value.
pub open spec fn count_missing(ps: Seq<NumberDataPoint>) -> nat
    decreases ps.len(),
{
    if ps.len() == 0 {
        0
    } else {
        count_missing(ps.drop_last()) + if number_bits(ps.last().value) is None {
            1nat
        } else {
            0nat
        }
    }
}

/// The rows of the points of a gauge or a sum, in order: one per point whose
/// value is present and finite.
pub open spec fn number_rows(
    res: Resource,
    sc: Scope,
    m: Metric,
    ps: Seq<NumberDataPoint>,
    sum: Option<(i32, bool)>,
) -> Seq<Val>
    decreases ps.len(),
{
    if ps.len() == 0 {
        seq![]
    } else {
        number_rows(res, sc, m, ps.drop_last(), sum) + match number_bits(ps.last().value) {
            Some(b) => if bits_finite(b) {
                seq![Val::Object(number_entries(res, sc, m, ps.last(), b, sum))]
            } else {
                seq![]
            },
            None => seq![],
        }
    }
}

/// Finite-only metrics: every gauge or sum row carries a finite value.
pub proof fn lemma_number_rows_finite(
    res: Resource,
    sc: Scope,
    m: Metric,
    ps: Seq<NumberDataPoint>,
    sum: Option<(i32, bool)>,
)
    ensures
        all_finite_rows(number_rows(res, sc, m, ps, sum)),
    decreases ps.len(),
{
    if ps.len() > 0 {
        lemma_number_rows_finite(res, sc, m, ps.drop_last(), sum);
        let prev = number_rows(res, sc, m, ps.drop_last(), sum);
        let all = number_rows(res, sc, m, ps, sum);
        assert forall|i: int| 0 <= i < all.len() implies finite_value_row(#[trigger] all[i]) by {
            if i < prev.len() {
                assert(all[i] == prev[i]);
            } else {
                let b = number_bits(ps.last().value)->Some_0;
                let es = number_entries(res, sc, m, ps.last(), b, sum);
                assert(es[5] == ("value"@, Val::Float(b)));
            }
        }
    }
}

/// Denormalization of metric points: every gauge or sum row carries the
/// resource and the scope that its metric came under.
pub proof fn lemma_number_rows_denormalized(
    res: Resource,
    sc: Scope,
    m: Metric,
    ps: Seq<NumberDataPoint>,
    sum: Option<(i32, bool)>,
)
    ensures
        forall|i: int|
            0 <= i < number_rows(res, sc, m, ps, sum).len() ==> {
                &&& #[trigger] number_rows(res, sc, m, ps, sum)[i] is Object
                &&& number_rows(res, sc, m, ps, sum)[i]->Object_0[9] == ("resource"@, resource_val(res))
                &&& number_rows(res, sc, m, ps, sum)[i]->Object_0[10] == ("scope"@, scope_val(sc))
            },
    decreases ps.len(),
{
    if ps.len() > 0 {
        lemma_number_rows_denormalized(res, sc, m, ps.drop_last(), sum);
        let prev = number_rows(res, sc, m, ps.drop_last(), sum);
        let all = number_rows(res, sc, m, ps, sum);
        assert forall|i: int| 0 <= i < all.len() implies {
            &&& #[trigger] all[i] is Object
            &&& all[i]->Object_0[9] == ("resource"@, resource_val(res))
            &&& all[i]->Object_0[10] == ("scope"@, scope_val(sc))
        } by {
            if i < prev.len() {
                assert(all[i] == prev[i]);
            }
        }
    }
}

/// Rows of decoded metrics, one list per kind, with what was skipped.
pub struct DecodeMetricsResult {
    pub gauge: Vec<Value>,
    pub sum: Vec<Value>,
    pub histogram: Vec<Value>,
    pub exp_histogram: Vec<Value>,
    pub skipped: SkippedMetrics,
}

/// Append the rows of the points of a gauge or a sum to `out`: one per point
/// with a finite value; a point without a value, or with one that is not
/// finite, is counted instead.
fn push_number_rows(
    out: &mut Vec<Value>,
    skipped: &mut SkippedMetrics,
    res: &Resource,
    sc: &Scope,
    m: &Metric,
    points: &Vec<NumberDataPoint>,
    sum: Option<(i32, bool)>,
)
    requires
        all_finite_rows(values_view(old(out)@)),
    ensures
        all_finite_rows(values_view(final(out)@)),
        values_view(final(out)@) == values_view(old(out)@) + number_rows(
            *res,
            *sc,
            *m,
            points@,
            sum,
        ),
        final(skipped).summary == old(skipped).summary,
        final(skipped).non_finite == sat_add(old(skipped).non_finite, count_non_finite(points@)),
        final(skipped).missing_value == sat_add(
            old(skipped).missing_value,
            count_missing(points@),
        ),
{
    let mut k: usize = 0;
    while k < points.len()
        invariant
            k <= points@.len(),
            all_finite_rows(values_view(out@)),
            values_view(out@) == values_view(old(out)@) + number_rows(
                *res,
                *sc,
                *m,
                points@.subrange(0, k as int),
                sum,
            ),
            skipped.summary == old(skipped).summary,
            skipped.non_finite == sat_add(
                old(skipped).non_finite,
                count_non_finite(points@.subrange(0, k as int)),
            ),
            skipped.missing_value == sat_add(
                old(skipped).missing_value,
                count_missing(points@.subrange(0, k as int)),
            ),
        decreases points@.len() - k,
    {
        let p = &points[k];
        proof {
            assert(points@.subrange(0, k + 1).drop_last() =~= points@.subrange(0, k as int));
        }
        match number_value_bits(&p.value) {
            None => {
                skipped.missing_value = sat_inc(skipped.missing_value);
                proof {
                    assert(values_view(out@) =~= values_view(old(out)@) + number_rows(
                        *res,
                        *sc,
                        *m,
                        points@.subrange(0, k + 1),
                        sum,
                    ));
                }
            },
            Some(bits) => {
                if is_finite_bits(bits) {
                    let row = number_row(res, sc, m, p, bits, sum);
                    let ghost before = values_view(out@);
                    push_value(out, row);
                    proof {
                        assert(values_view(out@) == before.push(row@));
                        let es = number_entries(*res, *sc, *m, *p, bits, sum);
                        assert(es[5] == ("value"@, Val::Float(bits)));
                        assert(finite_value_row(row@));
                        assert forall|i: int| 0 <= i < values_view(out@).len() implies finite_value_row(
                            #[trigger] values_view(out@)[i],
                        ) by {
                            if i < before.len() {
                                assert(values_view(out@)[i] == before[i]);
                            }
                        }
                        assert(values_view(out@) =~= values_view(old(out)@) + number_rows(
                            *res,
                            *sc,
                            *m,
                            points@.subrange(0, k + 1),
                            sum,
                        ));
                    }
                } else {
                    skipped.non_finite = sat_inc(skipped.non_finite);
                    proof {
                        assert(values_view(out@) =~= values_view(old(out)@) + number_rows(
                            *res,
                            *sc,
                            *m,
                            points@.subrange(0, k + 1),
                            sum,
                        ));
                    }
                }
            },
        }
        k = k + 1;
    }
    proof {
        assert(points@.subrange(0, k as int) =~= points@);
    }
}

/// A list of integers, each as a signed 64-bit value.
pub open spec fn int_list_val(xs: Seq<u64>) -> Val {
    Val::Array(Seq::new(xs.len(), |i: int| Val::Integer(xs[i] as i64)))
}

/// A list of doubles, held as their bits.
pub open spec fn float_list_val(xs: Seq<u64>) -> Val {
    Val::Array(Seq::new(xs.len(), |i: int| Val::Float(xs[i])))
}

/// A list column of integers.
fn int_list_value(xs: &Vec<u64>) -> (r: Value)
    ensures
        r@ == int_list_val(xs@),
{
    let mut out: Vec<Value> = Vec::new();
    let mut k: usize = 0;
    while k < xs.len()
        invariant
            k <= xs@.len(),
            values_view(out@) == Seq::new(k as nat, |i: int| Val::Integer(xs@[i] as i64)),
        decreases xs@.len() - k,
    {
        push_value(&mut out, Value::Integer(xs[k] as i64));
        proof {
            assert(values_view(out@) =~= Seq::new((k + 1) as nat, |i: int| Val::Integer(xs@[i] as i64)));
        }
        k = k + 1;
    }
    Value::Array(out)
}

/// A list column of doubles, held as their bits.
fn float_list_value(xs: &Vec<u64>) -> (r: Value)
    ensures
        r@ == float_list_val(xs@),
{
    let mut out: Vec<Value> = Vec::new();
    let mut k: usize = 0;
    while k < xs.len()
        invariant
            k <= xs@.len(),
            values_view(out@) == Seq::new(k as nat, |i: int| Val::Float(xs@[i])),
        decreases xs@.len() - k,
    {
        push_value(&mut out, Value::Float(xs[k]));
        proof {
            assert(values_view(out@) =~= Seq::new((k + 1) as nat, |i: int| Val::Float(xs@[i])));
        }
        k = k + 1;
    }
    Value::Array(out)
}

/// The columns that every histogram row starts with.
pub open spec fn histogram_common_entries(
    res: Resource,
    sc: Scope,
    m: Metric,
    time: u64,
    start: u64,
    attributes: Seq<(String, Value)>,
    flags: u32,
    exemplars: Seq<Exemplar>,
    temporality: i32,
) -> Seq<(Seq<char>, Val)> {
    seq![
        ("time_unix_nano"@, Val::Integer(time as i64)),
        ("start_time_unix_nano"@, Val::Integer(start as i64)),
        ("metric_name"@, Val::Bytes(m.name@)),
        ("metric_description"@, Val::Bytes(m.description@)),
        ("metric_unit"@, Val::Bytes(m.unit@)),
        ("attributes"@, Val::Object(entries_view(attributes))),
        ("flags"@, Val::Integer(flags as i64)),
        ("exemplars"@, exemplars_val(exemplars)),
        ("resource"@, resource_val(res)),
        ("scope"@, scope_val(sc)),
        ("aggregation_temporality"@, Val::Integer(temporality as i64)),
    ]
}

fn histogram_common(
    res: &Resource,
    sc: &Scope,
    m: &Metric,
    time: u64,
    start: u64,
    attributes: &Vec<(String, Value)>,
    flags: u32,
    exemplars: &Vec<Exemplar>,
    temporality: i32,
) -> (r: Vec<(String, Value)>)
    ensures
        entries_view(r@) == histogram_common_entries(
            *res,
            *sc,
            *m,
            time,
            start,
            attributes@,
            flags,
            exemplars@,
            temporality,
        ),
{
    let mut e: Vec<(String, Value)> = Vec::new();
    push_entry(&mut e, "time_unix_nano", Value::Integer(time as i64));
    push_entry(&mut e, "start_time_unix_nano", Value::Integer(start as i64));
    push_entry(&mut e, "metric_name", Value::Bytes(m.name.clone()));
    push_entry(&mut e, "metric_description", Value::Bytes(m.description.clone()));
    push_entry(&mut e, "metric_unit", Value::Bytes(m.unit.clone()));
    push_entry(&mut e, "attributes", Value::Object(clone_entries(attributes)));
    push_entry(&mut e, "flags", Value::Integer(flags as i64));
    push_entry(&mut e, "exemplars", exemplars_value(exemplars));
    push_entry(&mut e, "resource", res.to_value());
    push_entry(&mut e, "scope", sc.to_value());
    push_entry(&mut e, "aggregation_temporality", Value::Integer(temporality as i64));
    proof {
        assert(entries_view(e@) =~= histogram_common_entries(
            *res,
            *sc,
            *m,
            time,
            start,
            attributes@,
            flags,
            exemplars@,
            temporality,
        ));
    }
    e
}

/// The row of a histogram point.
pub open spec fn histogram_row_val(res: Resource, sc: Scope, m: Metric, p: HistogramDataPoint, temporality: i32) -> Val {
    Val::Object(
        histogram_common_entries(
            res,
            sc,
            m,
            p.time_unix_nano,
            p.start_time_unix_nano,
            p.attributes@,
            p.flags,
            p.exemplars@,
            temporality,
        ) + seq![
            ("count"@, Val::Integer(p.count as i64)),
            ("sum"@, opt_float_val(p.sum)),
            ("min"@, opt_float_val(p.min)),
            ("max"@, opt_float_val(p.max)),
            ("bucket_counts"@, int_list_val(p.bucket_counts@)),
            ("explicit_bounds"@, float_list_val(p.explicit_bounds@)),
        ],
    )
}

/// The row of a histogram point.
pub fn histogram_row(res: &Resource, sc: &Scope, m: &Metric, p: &HistogramDataPoint, temporality: i32) -> (r: Value)
    ensures
        r@ == histogram_row_val(*res, *sc, *m, *p, temporality),
{
    let mut e = histogram_common(
        res,
        sc,
        m,
        p.time_unix_nano,
        p.start_time_unix_nano,
        &p.attributes,
        p.flags,
        &p.exemplars,
        temporality,
    );
    let ghost head = entries_view(e@);
    push_entry(&mut e, "count", Value::Integer(p.count as i64));
    push_entry(&mut e, "sum", opt_float_value(p.sum));
    push_entry(&mut e, "min", opt_float_value(p.min));
    push_entry(&mut e, "max", opt_float_value(p.max));
    push_entry(&mut e, "bucket_counts", int_list_value(&p.bucket_counts));
    push_entry(&mut e, "explicit_bounds", float_list_value(&p.explicit_bounds));
    proof {
        assert(entries_view(e@) =~= head + seq![
            ("count"@, Val::Integer(p.count as i64)),
            ("sum"@, opt_float_val(p.sum)),
            ("min"@, opt_float_val(p.min)),
            ("max"@, opt_float_val(p.max)),
            ("bucket_counts"@, int_list_val(p.bucket_counts@)),
            ("explicit_bounds"@, float_list_val(p.explicit_bounds@)),
        ]);
    }
    Value::Object(e)
}

/// The column of the buckets of one sign of an exponential histogram.
pub open spec fn buckets_val(bk: Buckets) -> Val {
    Val::Object(
        seq![
            ("offset"@, Val::Integer(bk.offset as i64)),
            ("bucket_counts"@, int_list_val(bk.bucket_counts@)),
        ],
    )
}

fn buckets_value(bk: &Buckets) -> (r: Value)
    ensures
        r@ == buckets_val(*bk),
{
    let mut e: Vec<(String, Value)> = Vec::new();
    push_entry(&mut e, "offset", Value::Integer(bk.offset as i64));
    push_entry(&mut e, "bucket_counts", int_list_value(&bk.bucket_counts));
    proof {
        assert(entries_view(e@) =~= seq![
            ("offset"@, Val::Integer(bk.offset as i64)),
            ("bucket_counts"@, int_list_val(bk.bucket_counts@)),
        ]);
    }
    Value::Object(e)
}

/// The row of an exponential histogram point.
pub open spec fn exp_histogram_row_val(
    res: Resource,
    sc: Scope,
    m: Metric,
    p: ExpHistogramDataPoint,
    temporality: i32,
) -> Val {
    Val::Object(
        histogram_common_entries(
            res,
            sc,
            m,
            p.time_unix_nano,
            p.start_time_unix_nano,
            p.attributes@,
            p.flags,
            p.exemplars@,
            temporality,
        ) + seq![
            ("count"@, Val::Integer(p.count as i64)),
            ("sum"@, opt_float_val(p.sum)),
            ("min"@, opt_float_val(p.min)),
            ("max"@, opt_float_val(p.max)),
            ("scale"@, Val::Integer(p.scale as i64)),
            ("zero_count"@, Val::Integer(p.zero_count as i64)),
            ("positive"@, buckets_val(p.positive)),
            ("negative"@, buckets_val(p.negative)),
        ],
    )
}

/// The row of an exponential histogram point.
pub fn exp_histogram_row(
    res: &Resource,
    sc: &Scope,
    m: &Metric,
    p: &ExpHistogramDataPoint,
    temporality: i32,
) -> (r: Value)
    ensures
        r@ == exp_histogram_row_val(*res, *sc, *m, *p, temporality),
{
    let mut e = histogram_common(
        res,
        sc,
        m,
        p.time_unix_nano,
        p.start_time_unix_nano,
        &p.attributes,
        p.flags,
        &p.exemplars,
        temporality,
    );
    let ghost head = entries_view(e@);
    push_entry(&mut e, "count", Value::Integer(p.count as i64));
    push_entry(&mut e, "sum", opt_float_value(p.sum));
    push_entry(&mut e, "min", opt_float_value(p.min));
    push_entry(&mut e, "max", opt_float_value(p.max));
    push_entry(&mut e, "scale", Value::Integer(p.scale as i64));
    push_entry(&mut e, "zero_count", Value::Integer(p.zero_count as i64));
    push_entry(&mut e, "positive", buckets_value(&p.positive));
    push_entry(&mut e, "negative", buckets_value(&p.negative));
    proof {
        assert(entries_view(e@) =~= head + seq![
            ("count"@, Val::Integer(p.count as i64)),
            ("sum"@, opt_float_val(p.sum)),
            ("min"@, opt_float_val(p.min)),
            ("max"@, opt_float_val(p.max)),
            ("scale"@, Val::Integer(p.scale as i64)),
            ("zero_count"@, Val::Integer(p.zero_count as i64)),
            ("positive"@, buckets_val(p.positive)),
            ("negative"@, buckets_val(p.negative)),
        ]);
    }
    Value::Object(e)
}

impl DecodeMetricsResult {
    pub fn new() -> (r: DecodeMetricsResult)
        ensures
            r.gauge@.len() == 0,
            r.sum@.len() == 0,
            r.histogram@.len() == 0,
            r.exp_histogram@.len() == 0,
            r.skipped.summary == 0 && r.skipped.non_finite == 0 && r.skipped.missing_value == 0,
    {
        DecodeMetricsResult {
            gauge: Vec::new(),
            sum: Vec::new(),
            histogram: Vec::new(),
            exp_histogram: Vec::new(),
            skipped: SkippedMetrics::new(),
        }
    }

    /// Whether every gauge and sum row carries a finite value.
    pub open spec fn finite(&self) -> bool {
        all_finite_rows(values_view(self.gauge@)) && all_finite_rows(values_view(self.sum@))
    }

    /// Add the rows of one metric: its points go to the list of its kind and
    /// to no other; a summary's points are counted as skipped.
    pub fn push_metric(&mut self, res: &Resource, sc: &Scope, m: &Metric)
        requires
            old(self).finite(),
        ensures
            final(self).finite(),
            m.data matches MetricData::Gauge(ps) ==> values_view(final(self).gauge@) == values_view(
                old(self).gauge@,
            ) + number_rows(*res, *sc, *m, ps@, None),
            m.data matches MetricData::Sum { points: ps, temporality: t, monotonic: mono }
                ==> values_view(final(self).sum@) == values_view(old(self).sum@) + number_rows(
                *res,
                *sc,
                *m,
                ps@,
                Some((t, mono)),
            ),
            m.data matches MetricData::Histogram { points: ps, temporality: t } ==> values_view(
                final(self).histogram@,
            ) == values_view(old(self).histogram@) + Seq::new(
                ps@.len(),
                |i: int| histogram_row_val(*res, *sc, *m, ps@[i], t),
            ),
            m.data matches MetricData::ExpHistogram { points: ps, temporality: t } ==> values_view(
                final(self).exp_histogram@,
            ) == values_view(old(self).exp_histogram@) + Seq::new(
                ps@.len(),
                |i: int| exp_histogram_row_val(*res, *sc, *m, ps@[i], t),
            ),
            !(m.data is Gauge) ==> final(self).gauge@ == old(self).gauge@,
            !(m.data is Sum) ==> final(self).sum@ == old(self).sum@,
            !(m.data is Histogram) ==> final(self).histogram@ == old(self).histogram@,
            !(m.data is ExpHistogram) ==> final(self).exp_histogram@ == old(self).exp_histogram@,
            m.data matches MetricData::Gauge(ps) ==> final(self).skipped.non_finite == sat_add(
                old(self).skipped.non_finite,
                count_non_finite(ps@),
            ) && final(self).skipped.missing_value == sat_add(
                old(self).skipped.missing_value,
                count_missing(ps@),
            ),
            m.data matches MetricData::Sum { points: ps, .. } ==> final(self).skipped.non_finite
                == sat_add(old(self).skipped.non_finite, count_non_finite(ps@))
                && final(self).skipped.missing_value == sat_add(
                old(self).skipped.missing_value,
                count_missing(ps@),
            ),
            m.data matches MetricData::Summary(n) ==> final(self).skipped.summary == sat_add(
                old(self).skipped.summary,
                n as nat,
            ),
            !(m.data is Summary) ==> final(self).skipped.summary == old(self).skipped.summary,
            !(m.data is Gauge || m.data is Sum) ==> final(self).skipped.non_finite == old(
                self,
            ).skipped.non_finite && final(self).skipped.missing_value == old(
                self,
            ).skipped.missing_value,
    {
        match &m.data {
            MetricData::Absent => {},
            MetricData::Gauge(ps) => {
                push_number_rows(&mut self.gauge, &mut self.skipped, res, sc, m, ps, None);
            },
            MetricData::Sum { points, temporality, monotonic } => {
                push_number_rows(
                    &mut self.sum,
                    &mut self.skipped,
                    res,
                    sc,
                    m,
                    points,
                    Some((*temporality, *monotonic)),
                );
            },
            MetricData::Histogram { points, temporality } => {
                let mut k: usize = 0;
                while k < points.len()
                    invariant
                        k <= points@.len(),
                        self.gauge == old(self).gauge,
                        self.sum == old(self).sum,
                        self.exp_histogram == old(self).exp_histogram,
                        self.skipped == old(self).skipped,
                        values_view(self.histogram@) == values_view(old(self).histogram@) + Seq::new(
                            k as nat,
                            |i: int| histogram_row_val(*res, *sc, *m, points@[i], *temporality),
                        ),
                    decreases points@.len() - k,
                {
                    let row = histogram_row(res, sc, m, &points[k], *temporality);
                    push_value(&mut self.histogram, row);
                    proof {
                        assert(values_view(self.histogram@) =~= values_view(old(self).histogram@)
                            + Seq::new(
                            (k + 1) as nat,
                            |i: int| histogram_row_val(*res, *sc, *m, points@[i], *temporality),
                        ));
                    }
                    k = k + 1;
                }
            },
            MetricData::ExpHistogram { points, temporality } => {
                let mut k: usize = 0;
                while k < points.len()
                    invariant
                        k <= points@.len(),
                        self.gauge == old(self).gauge,
                        self.sum == old(self).sum,
                        self.histogram == old(self).histogram,
                        self.skipped == old(self).skipped,
                        values_view(self.exp_histogram@) == values_view(old(self).exp_histogram@)
                            + Seq::new(
                            k as nat,
                            |i: int| exp_histogram_row_val(*res, *sc, *m, points@[i], *temporality),
                        ),
                    decreases points@.len() - k,
                {
                    let row = exp_histogram_row(res, sc, m, &points[k], *temporality);
                    push_value(&mut self.exp_histogram, row);
                    proof {
                        assert(values_view(self.exp_histogram@) =~= values_view(
                            old(self).exp_histogram@,
                        ) + Seq::new(
                            (k + 1) as nat,
                            |i: int| exp_histogram_row_val(*res, *sc, *m, points@[i], *temporality),
                        ));
                    }
                    k = k + 1;
                }
            },
            MetricData::Summary(n) => {
                let n = *n;
                if n > usize::MAX - self.skipped.summary {
                    self.skipped.summary = usize::MAX;
                } else {
                    self.skipped.summary = self.skipped.summary + n;
                }
            },
        }
    }
}

/// Kinds of rows: gauge, sum, histogram and exponential histogram.
pub const GAUGE_ROWS: u8 = 0;

pub const SUM_ROWS: u8 = 1;

pub const HISTOGRAM_ROWS: u8 = 2;

pub const EXP_HISTOGRAM_ROWS: u8 = 3;

/// The rows of one kind that a metric gives: its points' rows where the
/// metric is of that kind, none otherwise.
pub open spec fn metric_rows(res: Resource, sc: Scope, m: Metric, kind: u8) -> Seq<Val> {
    match m.data {
        MetricData::Gauge(ps) => if kind == GAUGE_ROWS {
            number_rows(res, sc, m, ps@, None)
        } else {
            seq![]
        },
        MetricData::Sum { points, temporality, monotonic } => if kind == SUM_ROWS {
            number_rows(res, sc, m, points@, Some((temporality, monotonic)))
        } else {
            seq![]
        },
        MetricData::Histogram { points, temporality } => if kind == HISTOGRAM_ROWS {
            Seq::new(points@.len(), |i: int| histogram_row_val(res, sc, m, points@[i], temporality))
        } else {
            seq![]
        },
        MetricData::ExpHistogram { points, temporality } => if kind == EXP_HISTOGRAM_ROWS {
            Seq::new(points@.len(), |i: int| exp_histogram_row_val(res, sc, m, points@[i], temporality))
        } else {
            seq![]
        },
        _ => seq![],
    }
}

/// The rows of one kind of a scope's metrics, metric after metric.
pub open spec fn metrics_rows(res: Resource, sc: Scope, ms: Seq<Metric>, kind: u8) -> Seq<Val>
    decreases ms.len(),
{
    if ms.len() == 0 {
        seq![]
    } else {
        metrics_rows(res, sc, ms.drop_last(), kind) + metric_rows(res, sc, ms.last(), kind)
    }
}

/// The rows of one kind of a resource's scopes, scope after scope.
pub open spec fn scopes_metric_rows(res: Resource, sms: Seq<ScopeMetrics>, kind: u8) -> Seq<Val>
    decreases sms.len(),
{
    if sms.len() == 0 {
        seq![]
    } else {
        scopes_metric_rows(res, sms.drop_last(), kind) + metrics_rows(
            res,
            sms.last().scope,
            sms.last().metrics@,
            kind,
        )
    }
}

/// The rows of one kind of a request, resource after resource.
pub open spec fn request_metric_rows(rms: Seq<ResourceMetrics>, kind: u8) -> Seq<Val>
    decreases rms.len(),
{
    if rms.len() == 0 {
        seq![]
    } else {
        request_metric_rows(rms.drop_last(), kind) + scopes_metric_rows(
            rms.last().resource,
            rms.last().scope_metrics@,
            kind,
        )
    }
}

/// Reasons to skip points: summaries, values that are not finite, missing values.
pub const SKIP_SUMMARY: u8 = 0;

pub const SKIP_NON_FINITE: u8 = 1;

pub const SKIP_MISSING: u8 = 2;

/// The points of one metric skipped for a reason.
pub open spec fn metric_skips(m: Metric, reason: u8) -> nat {
    match m.data {
        MetricData::Gauge(ps) => if reason == SKIP_NON_FINITE {
            count_non_finite(ps@)
        } else if reason == SKIP_MISSING {
            count_missing(ps@)
        } else {
            0
        },
        MetricData::Sum { points, .. } => if reason == SKIP_NON_FINITE {
            count_non_finite(points@)
        } else if reason == SKIP_MISSING {
            count_missing(points@)
        } else {
            0
        },
        MetricData::Summary(n) => if reason == SKIP_SUMMARY {
            n as nat
        } else {
            0
        },
        _ => 0,
    }
}

/// The points of a scope's metrics skipped for a reason.
pub open spec fn metrics_skips(ms: Seq<Metric>, reason: u8) -> nat
    decreases ms.len(),
{
    if ms.len() == 0 {
        0
    } else {
        metrics_skips(ms.drop_last(), reason) + metric_skips(ms.last(), reason)
    }
}

/// The points of a resource's scopes skipped for a reason.
pub open spec fn scopes_skips(sms: Seq<ScopeMetrics>, reason: u8) -> nat
    decreases sms.len(),
{
    if sms.len() == 0 {
        0
    } else {
        scopes_skips(sms.drop_last(), reason) + metrics_skips(sms.last().metrics@, reason)
    }
}

/// The points of a request skipped for a reason.
pub open spec fn request_skips(rms: Seq<ResourceMetrics>, reason: u8) -> nat
    decreases rms.len(),
{
    if rms.len() == 0 {
        0
    } else {
        request_skips(rms.drop_last(), reason) + scopes_skips(rms.last().scope_metrics@, reason)
    }
}

/// The count of skipped points for a reason.
pub open spec fn skip_count(sk: SkippedMetrics, reason: u8) -> usize {
    if reason == SKIP_SUMMARY {
        sk.summary
    } else if reason == SKIP_NON_FINITE {
        sk.non_finite
    } else {
        sk.missing_value
    }
}

proof fn lemma_sat_add_twice(a: usize, x: nat, y: nat)
    ensures
        sat_add(sat_add(a, x), y) == sat_add(a, x + y),
{
}

/// Dispatch the metrics of a decoded request by kind, resource after resource,
/// scope after scope, metric after metric: each list holds the rows of the
/// request's points of its kind (for gauges and sums, those whose value is
/// finite).
pub fn metrics_to_rows(rms: &Vec<ResourceMetrics>) -> (r: DecodeMetricsResult)
    ensures
        r.finite(),
        values_view(r.gauge@) == request_metric_rows(rms@, GAUGE_ROWS),
        values_view(r.sum@) == request_metric_rows(rms@, SUM_ROWS),
        values_view(r.histogram@) == request_metric_rows(rms@, HISTOGRAM_ROWS),
        values_view(r.exp_histogram@) == request_metric_rows(rms@, EXP_HISTOGRAM_ROWS),
        forall|k: u8|
            k <= SKIP_MISSING ==> #[trigger] skip_count(r.skipped, k) == sat_add(
                0,
                request_skips(rms@, k),
            ),
        rms@.len() == 0 ==> r.gauge@.len() == 0 && r.sum@.len() == 0 && r.histogram@.len() == 0
            && r.exp_histogram@.len() == 0,
{
    let mut out = DecodeMetricsResult::new();
    let mut i: usize = 0;
    proof {
        assert(values_view(out.gauge@) =~= seq![]);
        assert(values_view(out.sum@) =~= seq![]);
        assert(values_view(out.histogram@) =~= seq![]);
        assert(values_view(out.exp_histogram@) =~= seq![]);
    }
    while i < rms.len()
        invariant
            i <= rms@.len(),
            out.finite(),
            values_view(out.gauge@) == request_metric_rows(rms@.subrange(0, i as int), GAUGE_ROWS),
            values_view(out.sum@) == request_metric_rows(rms@.subrange(0, i as int), SUM_ROWS),
            values_view(out.histogram@) == request_metric_rows(rms@.subrange(0, i as int), HISTOGRAM_ROWS),
            values_view(out.exp_histogram@) == request_metric_rows(rms@.subrange(0, i as int), EXP_HISTOGRAM_ROWS),
            rms@.len() == 0 ==> out.gauge@.len() == 0 && out.sum@.len() == 0
                && out.histogram@.len() == 0 && out.exp_histogram@.len() == 0,
            forall|k: u8|
                k <= SKIP_MISSING ==> #[trigger] skip_count(out.skipped, k) == sat_add(
                    0,
                    request_skips(rms@.subrange(0, i as int), k),
                ),
        decreases rms@.len() - i,
    {
        let rm = &rms[i];
        let ghost g0 = values_view(out.gauge@);
        let ghost s0 = values_view(out.sum@);
        let ghost h0 = values_view(out.histogram@);
        let ghost e0 = values_view(out.exp_histogram@);
        let ghost k0 = out.skipped;
        let mut j: usize = 0;
        while j < rm.scope_metrics.len()
            invariant
                j <= rm.scope_metrics@.len(),
                out.finite(),
                values_view(out.gauge@) == g0 + scopes_metric_rows(rm.resource, rm.scope_metrics@.subrange(0, j as int), GAUGE_ROWS),
                values_view(out.sum@) == s0 + scopes_metric_rows(rm.resource, rm.scope_metrics@.subrange(0, j as int), SUM_ROWS),
                values_view(out.histogram@) == h0 + scopes_metric_rows(rm.resource, rm.scope_metrics@.subrange(0, j as int), HISTOGRAM_ROWS),
                values_view(out.exp_histogram@) == e0 + scopes_metric_rows(rm.resource, rm.scope_metrics@.subrange(0, j as int), EXP_HISTOGRAM_ROWS),
                forall|kk: u8|
                    kk <= SKIP_MISSING ==> #[trigger] skip_count(out.skipped, kk) == sat_add(
                        skip_count(k0, kk),
                        scopes_skips(rm.scope_metrics@.subrange(0, j as int), kk),
                    ),
            decreases rm.scope_metrics@.len() - j,
        {
            let sm = &rm.scope_metrics[j];
            let ghost g1 = values_view(out.gauge@);
            let ghost s1 = values_view(out.sum@);
            let ghost h1 = values_view(out.histogram@);
            let ghost e1 = values_view(out.exp_histogram@);
            let ghost k1 = out.skipped;
            let mut k: usize = 0;
            while k < sm.metrics.len()
                invariant
                    k <= sm.metrics@.len(),
                    out.finite(),
                    values_view(out.gauge@) == g1 + metrics_rows(rm.resource, sm.scope, sm.metrics@.subrange(0, k as int), GAUGE_ROWS),
                    values_view(out.sum@) == s1 + metrics_rows(rm.resource, sm.scope, sm.metrics@.subrange(0, k as int), SUM_ROWS),
                    values_view(out.histogram@) == h1 + metrics_rows(rm.resource, sm.scope, sm.metrics@.subrange(0, k as int), HISTOGRAM_ROWS),
                    values_view(out.exp_histogram@) == e1 + metrics_rows(rm.resource, sm.scope, sm.metrics@.subrange(0, k as int), EXP_HISTOGRAM_ROWS),
                    forall|kk: u8|
                        kk <= SKIP_MISSING ==> #[trigger] skip_count(out.skipped, kk) == sat_add(
                            skip_count(k1, kk),
                            metrics_skips(sm.metrics@.subrange(0, k as int), kk),
                        ),
                decreases sm.metrics@.len() - k,
            {
                let ghost g2 = values_view(out.gauge@);
                let ghost s2 = values_view(out.sum@);
                let ghost h2 = values_view(out.histogram@);
                let ghost e2 = values_view(out.exp_histogram@);
                let ghost k2 = out.skipped;
                out.push_metric(&rm.resource, &sm.scope, &sm.metrics[k]);
                proof {
                    assert forall|kk: u8| kk <= SKIP_MISSING implies #[trigger] skip_count(
                        out.skipped,
                        kk,
                    ) == sat_add(
                        skip_count(k1, kk),
                        metrics_skips(sm.metrics@.subrange(0, k + 1), kk),
                    ) by {
                        let ms = sm.metrics@.subrange(0, k + 1);
                        assert(ms.drop_last() =~= sm.metrics@.subrange(0, k as int));
                        assert(skip_count(out.skipped, kk) == sat_add(
                            skip_count(k2, kk),
                            metric_skips(sm.metrics@[k as int], kk),
                        ));
                        lemma_sat_add_twice(
                            skip_count(k1, kk),
                            metrics_skips(sm.metrics@.subrange(0, k as int), kk),
                            metric_skips(sm.metrics@[k as int], kk),
                        );
                    }
                    let ms = sm.metrics@.subrange(0, k + 1);
                    assert(ms.drop_last() =~= sm.metrics@.subrange(0, k as int));
                    let m = sm.metrics@[k as int];
                    assert(values_view(out.gauge@) == g2 + metric_rows(rm.resource, sm.scope, m, GAUGE_ROWS));
                    assert(values_view(out.gauge@) =~= g1 + metrics_rows(rm.resource, sm.scope, ms, GAUGE_ROWS));
                    assert(values_view(out.sum@) == s2 + metric_rows(rm.resource, sm.scope, m, SUM_ROWS));
                    assert(values_view(out.sum@) =~= s1 + metrics_rows(rm.resource, sm.scope, ms, SUM_ROWS));
                    assert(values_view(out.histogram@) == h2 + metric_rows(rm.resource, sm.scope, m, HISTOGRAM_ROWS));
                    assert(values_view(out.histogram@) =~= h1 + metrics_rows(rm.resource, sm.scope, ms, HISTOGRAM_ROWS));
                    assert(values_view(out.exp_histogram@) == e2 + metric_rows(rm.resource, sm.scope, m, EXP_HISTOGRAM_ROWS));
                    assert(values_view(out.exp_histogram@) =~= e1 + metrics_rows(rm.resource, sm.scope, ms, EXP_HISTOGRAM_ROWS));
                }
                k = k + 1;
            }
            proof {
                assert(sm.metrics@.subrange(0, k as int) =~= sm.metrics@);
                assert forall|kk: u8| kk <= SKIP_MISSING implies #[trigger] skip_count(
                    out.skipped,
                    kk,
                ) == sat_add(
                    skip_count(k0, kk),
                    scopes_skips(rm.scope_metrics@.subrange(0, j + 1), kk),
                ) by {
                    let ss0 = rm.scope_metrics@.subrange(0, j + 1);
                    assert(ss0.drop_last() =~= rm.scope_metrics@.subrange(0, j as int));
                    lemma_sat_add_twice(
                        skip_count(k0, kk),
                        scopes_skips(rm.scope_metrics@.subrange(0, j as int), kk),
                        metrics_skips(sm.metrics@, kk),
                    );
                }
                let ss = rm.scope_metrics@.subrange(0, j + 1);
                assert(ss.drop_last() =~= rm.scope_metrics@.subrange(0, j as int));
                assert(values_view(out.gauge@) =~= g0 + scopes_metric_rows(rm.resource, ss, GAUGE_ROWS));
                assert(values_view(out.sum@) =~= s0 + scopes_metric_rows(rm.resource, ss, SUM_ROWS));
                assert(values_view(out.histogram@) =~= h0 + scopes_metric_rows(rm.resource, ss, HISTOGRAM_ROWS));
                assert(values_view(out.exp_histogram@) =~= e0 + scopes_metric_rows(rm.resource, ss, EXP_HISTOGRAM_ROWS));
            }
            j = j + 1;
        }
        proof {
            assert(rm.scope_metrics@.subrange(0, j as int) =~= rm.scope_metrics@);
            let rr = rms@.subrange(0, i + 1);
            assert(rr.drop_last() =~= rms@.subrange(0, i as int));
            assert forall|kk: u8| kk <= SKIP_MISSING implies #[trigger] skip_count(
                out.skipped,
                kk,
            ) == sat_add(0, request_skips(rr, kk)) by {
                lemma_sat_add_twice(
                    0,
                    request_skips(rms@.subrange(0, i as int), kk),
                    scopes_skips(rm.scope_metrics@, kk),
                );
            }
        }
        i = i + 1;
    }
    proof {
        assert(rms@.subrange(0, i as int) =~= rms@);
    }
    out
}

/// The value of an OTLP-JSON point or exemplar: `asDouble` where it reads as
/// a double, else `asInt` where present, else none.
pub open spec fn value_json(j: JsonModel) -> NumberValue {
    match jdouble(jmember(j, "asDouble"@)) {
        Some(b) => NumberValue::Double(b),
        None => if jmember(j, "asInt"@) is Some {
            NumberValue::Int(ji64(jmember(j, "asInt"@)))
        } else {
            NumberValue::Absent
        },
    }
}

/// The exemplar that an OTLP-JSON exemplar object gives.
pub open spec fn exemplar_json(j: JsonModel) -> ExemplarModel {
    ExemplarModel {
        filtered_attributes: match jmember(j, "filteredAttributes"@) {
            Some(a) => kv_array_json(a),
            None => seq![],
        },
        time_unix_nano: ju64(jmember(j, "timeUnixNano"@)),
        value: value_json(j),
        span_id: jhex(jmember(j, "spanId"@)),
        trace_id: jhex(jmember(j, "traceId"@)),
    }
}

/// The exemplars of an OTLP-JSON point.
pub open spec fn exemplars_json(j: JsonModel) -> Seq<ExemplarModel> {
    let xs = jitems(jmember(j, "exemplars"@));
    Seq::new(xs.len(), |k: int| exemplar_json(xs[k]))
}

/// The unsigned integers of an array member.
pub open spec fn u64s_json(o: Option<JsonModel>) -> Seq<u64> {
    let xs = jitems(o);
    Seq::new(xs.len(), |k: int| ju64(Some(xs[k])))
}

/// The doubles of array items, those that do not read as one left out.
pub open spec fn doubles_from(xs: Seq<JsonModel>) -> Seq<u64>
    decreases xs.len(),
{
    if xs.len() == 0 {
        seq![]
    } else {
        doubles_from(xs.drop_last()) + match jdouble(Some(xs.last())) {
            Some(b) => seq![b],
            None => seq![],
        }
    }
}

/// The buckets that an OTLP-JSON `positive` or `negative` object gives.
pub open spec fn buckets_json(o: Option<JsonModel>) -> BucketsModel {
    match o {
        Some(b) => BucketsModel {
            offset: ji64(jmember(b, "offset"@)) as i32,
            bucket_counts: u64s_json(jmember(b, "bucketCounts"@)),
        },
        None => empty_buckets(),
    }
}

/// The gauge or sum point that an OTLP-JSON point object gives.
pub open spec fn number_point_json(p: JsonModel) -> NumberPointModel {
    NumberPointModel {
        attributes: attrs_json(p),
        start_time_unix_nano: ju64(jmember(p, "startTimeUnixNano"@)),
        time_unix_nano: ju64(jmember(p, "timeUnixNano"@)),
        value: value_json(p),
        exemplars: exemplars_json(p),
        flags: ju64(jmember(p, "flags"@)) as u32,
    }
}

/// The histogram point that an OTLP-JSON point object gives.
pub open spec fn hist_point_json(p: JsonModel) -> HistogramPointModel {
    HistogramPointModel {
        attributes: attrs_json(p),
        start_time_unix_nano: ju64(jmember(p, "startTimeUnixNano"@)),
        time_unix_nano: ju64(jmember(p, "timeUnixNano"@)),
        count: ju64(jmember(p, "count"@)),
        sum: jdouble(jmember(p, "sum"@)),
        bucket_counts: u64s_json(jmember(p, "bucketCounts"@)),
        explicit_bounds: doubles_from(jitems(jmember(p, "explicitBounds"@))),
        exemplars: exemplars_json(p),
        flags: ju64(jmember(p, "flags"@)) as u32,
        min: jdouble(jmember(p, "min"@)),
        max: jdouble(jmember(p, "max"@)),
    }
}

/// The exponential histogram point that an OTLP-JSON point object gives.
pub open spec fn exp_point_json(p: JsonModel) -> ExpPointModel {
    ExpPointModel {
        attributes: attrs_json(p),
        start_time_unix_nano: ju64(jmember(p, "startTimeUnixNano"@)),
        time_unix_nano: ju64(jmember(p, "timeUnixNano"@)),
        count: ju64(jmember(p, "count"@)),
        sum: jdouble(jmember(p, "sum"@)),
        scale: ji64(jmember(p, "scale"@)) as i32,
        zero_count: ju64(jmember(p, "zeroCount"@)),
        positive: buckets_json(jmember(p, "positive"@)),
        negative: buckets_json(jmember(p, "negative"@)),
        flags: ju64(jmember(p, "flags"@)) as u32,
        exemplars: exemplars_json(p),
        min: jdouble(jmember(p, "min"@)),
        max: jdouble(jmember(p, "max"@)),
    }
}

/// The points of a metric kind object.
pub open spec fn points_json(h: JsonModel) -> Seq<JsonModel> {
    jitems(jmember(h, "dataPoints"@))
}

/// The data that an OTLP-JSON metric object gives: of `summary`,
/// `exponentialHistogram`, `histogram`, `sum` and `gauge`, the first present
/// in that order (a summary's points only counted).
pub open spec fn metric_data_json(j: JsonModel) -> MetricDataModel {
    match jmember(j, "summary"@) {
        Some(sm) => MetricDataModel::Summary(points_json(sm).len()),
        None => match jmember(j, "exponentialHistogram"@) {
            Some(h) => MetricDataModel::ExpHistogram {
                epoints: Seq::new(points_json(h).len(), |k: int| exp_point_json(points_json(h)[k])),
                temporality: ji64(jmember(h, "aggregationTemporality"@)) as i32,
            },
            None => match jmember(j, "histogram"@) {
                Some(h) => MetricDataModel::Histogram {
                    hpoints: Seq::new(
                        points_json(h).len(),
                        |k: int| hist_point_json(points_json(h)[k]),
                    ),
                    temporality: ji64(jmember(h, "aggregationTemporality"@)) as i32,
                },
                None => match jmember(j, "sum"@) {
                    Some(h) => MetricDataModel::Sum {
                        points: Seq::new(
                            points_json(h).len(),
                            |k: int| number_point_json(points_json(h)[k]),
                        ),
                        temporality: ji64(jmember(h, "aggregationTemporality"@)) as i32,
                        monotonic: jbool(jmember(h, "isMonotonic"@)),
                    },
                    None => match jmember(j, "gauge"@) {
                        Some(h) => MetricDataModel::Gauge(
                            Seq::new(
                                points_json(h).len(),
                                |k: int| number_point_json(points_json(h)[k]),
                            ),
                        ),
                        None => MetricDataModel::Absent,
                    },
                },
            },
        },
    }
}

/// The metric that an OTLP-JSON metric object gives.
pub open spec fn metric_json(j: JsonModel) -> MetricModel {
    MetricModel {
        name: jtext(jmember(j, "name"@)),
        description: jtext(jmember(j, "description"@)),
        unit: jtext(jmember(j, "unit"@)),
        data: metric_data_json(j),
    }
}

/// The scope entry that an OTLP-JSON `scopeMetrics` item gives.
pub open spec fn scope_metrics_json(y: JsonModel) -> ScopeMetricsModel {
    let ms = jitems(jmember(y, "metrics"@));
    ScopeMetricsModel {
        scope: scope_json(jmember(y, "scope"@)),
        metrics: Seq::new(ms.len(), |k: int| metric_json(ms[k])),
    }
}

/// The resource entry that an OTLP-JSON `resourceMetrics` item gives.
pub open spec fn resource_metrics_json(x: JsonModel) -> ResourceMetricsModel {
    let sms = jitems(jmember(x, "scopeMetrics"@));
    ResourceMetricsModel {
        resource: resource_json(jmember(x, "resource"@)),
        scope_metrics: Seq::new(sms.len(), |k: int| scope_metrics_json(sms[k])),
    }
}

/// The resources that an OTLP-JSON metrics document gives, in order.
pub open spec fn metrics_json(d: JsonModel) -> Seq<ResourceMetricsModel> {
    let rms = jitems(jmember(d, "resourceMetrics"@));
    Seq::new(rms.len(), |k: int| resource_metrics_json(rms[k]))
}

/// The `asDouble` or `asInt` member of an OTLP-JSON point or exemplar.
fn value_of(j: &Json) -> (r: NumberValue)
    ensures
        r == value_json(json_view(*j)),
{
    if let Some(bits) = double_of(member(j, "asDouble")) {
        NumberValue::Double(bits)
    } else if let Some(_) = member(j, "asInt") {
        NumberValue::Int(i64_of(member(j, "asInt")))
    } else {
        NumberValue::Absent
    }
}

/// An exemplar of an OTLP-JSON data point.
fn exemplar_of(j: &Json) -> (r: Exemplar)
    ensures
        r@ == exemplar_json(json_view(*j)),
{
    Exemplar {
        filtered_attributes: match member(j, "filteredAttributes") {
            Some(a) => key_values_of(a),
            None => Vec::new(),
        },
        time_unix_nano: u64_of(member(j, "timeUnixNano")),
        value: value_of(j),
        span_id: hex_bytes_of(member(j, "spanId")),
        trace_id: hex_bytes_of(member(j, "traceId")),
    }
}

fn exemplars_of(j: &Json) -> (r: Vec<Exemplar>)
    ensures
        exemplar_views(r@) == exemplars_json(json_view(*j)),
{
    let mut out: Vec<Exemplar> = Vec::new();
    let xs = items(member(j, "exemplars"));
    let mut k: usize = 0;
    while k < xs.len()
        invariant
            k <= xs@.len(),
            jsons_view(xs@) == jitems(jmember(json_view(*j), "exemplars"@)),
            jsons_view(xs@).len() == xs@.len(),
            out@.len() == k,
            forall|t: int| 0 <= t < k ==> #[trigger] out@[t]@ == exemplar_json(jsons_view(xs@)[t]),
        decreases xs@.len() - k,
    {
        proof {
            lemma_jsons_view_index(xs@, k as int);
        }
        out.push(exemplar_of(&xs[k]));
        k = k + 1;
    }
    proof {
        assert(exemplar_views(out@) =~= exemplars_json(json_view(*j)));
    }
    out
}

fn u64_list_of(j: Option<&Json>) -> (r: Vec<u64>)
    ensures
        r@ == u64s_json(opt_view(j)),
{
    let mut out: Vec<u64> = Vec::new();
    let xs = items(j);
    let mut k: usize = 0;
    while k < xs.len()
        invariant
            k <= xs@.len(),
            jsons_view(xs@) == jitems(opt_view(j)),
            jsons_view(xs@).len() == xs@.len(),
            out@.len() == k,
            forall|t: int| 0 <= t < k ==> #[trigger] out@[t] == ju64(Some(jsons_view(xs@)[t])),
        decreases xs@.len() - k,
    {
        proof {
            lemma_jsons_view_index(xs@, k as int);
        }
        out.push(u64_of(Some(&xs[k])));
        k = k + 1;
    }
    proof {
        assert(out@ =~= u64s_json(opt_view(j)));
    }
    out
}

fn double_list_of(j: Option<&Json>) -> (r: Vec<u64>)
    ensures
        r@ == doubles_from(jitems(opt_view(j))),
{
    let mut out: Vec<u64> = Vec::new();
    let xs = items(j);
    let mut k: usize = 0;
    while k < xs.len()
        invariant
            k <= xs@.len(),
            jsons_view(xs@) == jitems(opt_view(j)),
            jsons_view(xs@).len() == xs@.len(),
            out@ == doubles_from(jsons_view(xs@).subrange(0, k as int)),
        decreases xs@.len() - k,
    {
        proof {
            lemma_jsons_view_index(xs@, k as int);
            let js = jsons_view(xs@);
            assert(js.subrange(0, k + 1).drop_last() =~= js.subrange(0, k as int));
        }
        if let Some(b) = double_of(Some(&xs[k])) {
            out.push(b);
        }
        proof {
            let js = jsons_view(xs@);
            assert(out@ =~= doubles_from(js.subrange(0, k + 1)));
        }
        k = k + 1;
    }
    proof {
        assert(jsons_view(xs@).subrange(0, xs@.len() as int) =~= jsons_view(xs@));
    }
    out
}

fn buckets_of(j: Option<&Json>) -> (r: Buckets)
    ensures
        r@ == buckets_json(opt_view(j)),
{
    match j {
        Some(b) => Buckets {
            offset: i64_of(member(b, "offset")) as i32,
            bucket_counts: u64_list_of(member(b, "bucketCounts")),
        },
        None => Buckets { offset: 0, bucket_counts: Vec::new() },
    }
}

/// A gauge or sum point of an OTLP-JSON document.
fn number_point_of(p: &Json) -> (r: NumberDataPoint)
    ensures
        r@ == number_point_json(json_view(*p)),
{
    NumberDataPoint {
        attributes: attributes_of(p),
        start_time_unix_nano: u64_of(member(p, "startTimeUnixNano")),
        time_unix_nano: u64_of(member(p, "timeUnixNano")),
        value: value_of(p),
        exemplars: exemplars_of(p),
        flags: u64_of(member(p, "flags")) as u32,
    }
}

/// A histogram point of an OTLP-JSON document.
fn hist_point_of(p: &Json) -> (r: HistogramDataPoint)
    ensures
        r@ == hist_point_json(json_view(*p)),
{
    HistogramDataPoint {
        attributes: attributes_of(p),
        start_time_unix_nano: u64_of(member(p, "startTimeUnixNano")),
        time_unix_nano: u64_of(member(p, "timeUnixNano")),
        count: u64_of(member(p, "count")),
        sum: double_of(member(p, "sum")),
        bucket_counts: u64_list_of(member(p, "bucketCounts")),
        explicit_bounds: double_list_of(member(p, "explicitBounds")),
        exemplars: exemplars_of(p),
        flags: u64_of(member(p, "flags")) as u32,
        min: double_of(member(p, "min")),
        max: double_of(member(p, "max")),
    }
}

/// An exponential histogram point of an OTLP-JSON document.
fn exp_point_of(p: &Json) -> (r: ExpHistogramDataPoint)
    ensures
        r@ == exp_point_json(json_view(*p)),
{
    ExpHistogramDataPoint {
        attributes: attributes_of(p),
        start_time_unix_nano: u64_of(member(p, "startTimeUnixNano")),
        time_unix_nano: u64_of(member(p, "timeUnixNano")),
        count: u64_of(member(p, "count")),
        sum: double_of(member(p, "sum")),
        scale: i64_of(member(p, "scale")) as i32,
        zero_count: u64_of(member(p, "zeroCount")),
        positive: buckets_of(member(p, "positive")),
        negative: buckets_of(member(p, "negative")),
        flags: u64_of(member(p, "flags")) as u32,
        exemplars: exemplars_of(p),
        min: double_of(member(p, "min")),
        max: double_of(member(p, "max")),
    }
}

fn number_points_of(h: &Json) -> (r: Vec<NumberDataPoint>)
    ensures
        Seq::new(r@.len(), |i: int| r@[i]@) == Seq::new(
            points_json(json_view(*h)).len(),
            |k: int| number_point_json(points_json(json_view(*h))[k]),
        ),
{
    let mut out: Vec<NumberDataPoint> = Vec::new();
    let ps = items(member(h, "dataPoints"));
    let mut k: usize = 0;
    while k < ps.len()
        invariant
            k <= ps@.len(),
            jsons_view(ps@) == points_json(json_view(*h)),
            jsons_view(ps@).len() == ps@.len(),
            out@.len() == k,
            forall|t: int| 0 <= t < k ==> #[trigger] out@[t]@ == number_point_json(jsons_view(ps@)[t]),
        decreases ps@.len() - k,
    {
        proof {
            lemma_jsons_view_index(ps@, k as int);
        }
        out.push(number_point_of(&ps[k]));
        k = k + 1;
    }
    proof {
        assert(Seq::new(out@.len(), |i: int| out@[i]@) =~= Seq::new(
            points_json(json_view(*h)).len(),
            |k: int| number_point_json(points_json(json_view(*h))[k]),
        ));
    }
    out
}

fn hist_points_of(h: &Json) -> (r: Vec<HistogramDataPoint>)
    ensures
        Seq::new(r@.len(), |i: int| r@[i]@) == Seq::new(
            points_json(json_view(*h)).len(),
            |k: int| hist_point_json(points_json(json_view(*h))[k]),
        ),
{
    let mut out: Vec<HistogramDataPoint> = Vec::new();
    let ps = items(member(h, "dataPoints"));
    let mut k: usize = 0;
    while k < ps.len()
        invariant
            k <= ps@.len(),
            jsons_view(ps@) == points_json(json_view(*h)),
            jsons_view(ps@).len() == ps@.len(),
            out@.len() == k,
            forall|t: int| 0 <= t < k ==> #[trigger] out@[t]@ == hist_point_json(jsons_view(ps@)[t]),
        decreases ps@.len() - k,
    {
        proof {
            lemma_jsons_view_index(ps@, k as int);
        }
        out.push(hist_point_of(&ps[k]));
        k = k + 1;
    }
    proof {
        assert(Seq::new(out@.len(), |i: int| out@[i]@) =~= Seq::new(
            points_json(json_view(*h)).len(),
            |k: int| hist_point_json(points_json(json_view(*h))[k]),
        ));
    }
    out
}

fn exp_points_of(h: &Json) -> (r: Vec<ExpHistogramDataPoint>)
    ensures
        Seq::new(r@.len(), |i: int| r@[i]@) == Seq::new(
            points_json(json_view(*h)).len(),
            |k: int| exp_point_json(points_json(json_view(*h))[k]),
        ),
{
    let mut out: Vec<ExpHistogramDataPoint> = Vec::new();
    let ps = items(member(h, "dataPoints"));
    let mut k: usize = 0;
    while k < ps.len()
        invariant
            k <= ps@.len(),
            jsons_view(ps@) == points_json(json_view(*h)),
            jsons_view(ps@).len() == ps@.len(),
            out@.len() == k,
            forall|t: int| 0 <= t < k ==> #[trigger] out@[t]@ == exp_point_json(jsons_view(ps@)[t]),
        decreases ps@.len() - k,
    {
        proof {
            lemma_jsons_view_index(ps@, k as int);
        }
        out.push(exp_point_of(&ps[k]));
        k = k + 1;
    }
    proof {
        assert(Seq::new(out@.len(), |i: int| out@[i]@) =~= Seq::new(
            points_json(json_view(*h)).len(),
            |k: int| exp_point_json(points_json(json_view(*h))[k]),
        ));
    }
    out
}

/// The data of an OTLP-JSON metric: of summary, exponential histogram,
/// histogram, sum and gauge, the first present in that order.
fn metric_data_of(j: &Json) -> (r: MetricData)
    ensures
        r@ == metric_data_json(json_view(*j)),
{
    if let Some(sm) = member(j, "summary") {
        let ps = items(member(sm, "dataPoints"));
        return MetricData::Summary(ps.len());
    }
    if let Some(h) = member(j, "exponentialHistogram") {
        return MetricData::ExpHistogram {
            points: exp_points_of(h),
            temporality: i64_of(member(h, "aggregationTemporality")) as i32,
        };
    }
    if let Some(h) = member(j, "histogram") {
        return MetricData::Histogram {
            points: hist_points_of(h),
            temporality: i64_of(member(h, "aggregationTemporality")) as i32,
        };
    }
    if let Some(h) = member(j, "sum") {
        return MetricData::Sum {
            points: number_points_of(h),
            temporality: i64_of(member(h, "aggregationTemporality")) as i32,
            monotonic: bool_of(member(h, "isMonotonic")),
        };
    }
    if let Some(h) = member(j, "gauge") {
        return MetricData::Gauge(number_points_of(h));
    }
    MetricData::Absent
}

/// A metric of an OTLP-JSON document.
fn metric_of(mj: &Json) -> (r: Metric)
    ensures
        r@ == metric_json(json_view(*mj)),
{
    Metric {
        name: text_of(member(mj, "name")),
        description: text_of(member(mj, "description")),
        unit: text_of(member(mj, "unit")),
        data: metric_data_of(mj),
    }
}

/// A scope entry of an OTLP-JSON metrics document.
fn scope_metrics_of(sj: &Json) -> (r: ScopeMetrics)
    ensures
        r@ == scope_metrics_json(json_view(*sj)),
{
    let mut metrics: Vec<Metric> = Vec::new();
    let ms = items(member(sj, "metrics"));
    let mut k: usize = 0;
    while k < ms.len()
        invariant
            k <= ms@.len(),
            jsons_view(ms@) == jitems(jmember(json_view(*sj), "metrics"@)),
            jsons_view(ms@).len() == ms@.len(),
            metrics@.len() == k,
            forall|t: int| 0 <= t < k ==> #[trigger] metrics@[t]@ == metric_json(jsons_view(ms@)[t]),
        decreases ms@.len() - k,
    {
        proof {
            lemma_jsons_view_index(ms@, k as int);
        }
        metrics.push(metric_of(&ms[k]));
        k = k + 1;
    }
    let sm = ScopeMetrics { scope: scope_of(member(sj, "scope")), metrics };
    proof {
        assert(sm@.metrics =~= scope_metrics_json(json_view(*sj)).metrics);
    }
    sm
}

/// A resource entry of an OTLP-JSON metrics document.
fn resource_metrics_of(rj: &Json) -> (r: ResourceMetrics)
    ensures
        r@ == resource_metrics_json(json_view(*rj)),
{
    let mut scope_metrics: Vec<ScopeMetrics> = Vec::new();
    let sms = items(member(rj, "scopeMetrics"));
    let mut k: usize = 0;
    while k < sms.len()
        invariant
            k <= sms@.len(),
            jsons_view(sms@) == jitems(jmember(json_view(*rj), "scopeMetrics"@)),
            jsons_view(sms@).len() == sms@.len(),
            scope_metrics@.len() == k,
            forall|t: int|
                0 <= t < k ==> #[trigger] scope_metrics@[t]@ == scope_metrics_json(jsons_view(sms@)[t]),
        decreases sms@.len() - k,
    {
        proof {
            lemma_jsons_view_index(sms@, k as int);
        }
        scope_metrics.push(scope_metrics_of(&sms[k]));
        k = k + 1;
    }
    let rm = ResourceMetrics { resource: resource_of(member(rj, "resource")), scope_metrics };
    proof {
        assert(rm@.scope_metrics =~= resource_metrics_json(json_view(*rj)).scope_metrics);
    }
    rm
}

/// The resources of an OTLP-JSON metrics document, in order.
pub fn metrics_of(doc: &Json) -> (r: Vec<ResourceMetrics>)
    ensures
        resource_metrics_views(r@) == metrics_json(json_view(*doc)),
{
    let mut out: Vec<ResourceMetrics> = Vec::new();
    let rms = items(member(doc, "resourceMetrics"));
    let mut k: usize = 0;
    while k < rms.len()
        invariant
            k <= rms@.len(),
            jsons_view(rms@) == jitems(jmember(json_view(*doc), "resourceMetrics"@)),
            jsons_view(rms@).len() == rms@.len(),
            out@.len() == k,
            forall|t: int|
                0 <= t < k ==> #[trigger] out@[t]@ == resource_metrics_json(jsons_view(rms@)[t]),
        decreases rms@.len() - k,
    {
        proof {
            lemma_jsons_view_index(rms@, k as int);
        }
        out.push(resource_metrics_of(&rms[k]));
        k = k + 1;
    }
    proof {
        assert(resource_metrics_views(out@) =~= metrics_json(json_view(*doc)));
    }
    out
}

/// Decode an OTLP-JSON metrics document: it must be a JSON object.
pub fn parse_metrics_json(b: &[u8]) -> (r: Result<Vec<ResourceMetrics>, DecodeError>)
    ensures
        r matches Err(e) ==> e is Json,
        r is Ok <==> json_doc_ok(b@) && opens_object(b@),
        r matches Ok(v) ==> (json_doc_model(b@) matches Some(m) && resource_metrics_views(v@)
            == metrics_json(m)),
{
    let doc = parse_json(b)?;
    if let Json::Object(_) = doc {
        Ok(metrics_of(&doc))
    } else {
        Err(json_error("invalid type: expected a metrics request object"))
    }
}

proof fn lemma_exemplars_val_views(x1: Seq<Exemplar>, x2: Seq<Exemplar>)
    requires
        exemplar_views(x1) == exemplar_views(x2),
    ensures
        exemplars_val(x1) == exemplars_val(x2),
{
    assert(exemplar_views(x1).len() == x2.len());
    let a = Seq::new(x1.len(), |i: int| exemplar_val(x1[i]));
    let b = Seq::new(x2.len(), |i: int| exemplar_val(x2[i]));
    assert forall|i: int| 0 <= i < a.len() implies a[i] == b[i] by {
        assert(exemplar_views(x1)[i] == x1[i]@);
        assert(exemplar_views(x2)[i] == x2[i]@);
    }
    assert(a =~= b);
}

proof fn lemma_number_rows_views(
    r1: Resource,
    r2: Resource,
    c1: Scope,
    c2: Scope,
    m1: Metric,
    m2: Metric,
    p1: Seq<NumberDataPoint>,
    p2: Seq<NumberDataPoint>,
    sum: Option<(i32, bool)>,
)
    requires
        r1@ == r2@,
        c1@ == c2@,
        m1.name@ == m2.name@,
        m1.description@ == m2.description@,
        m1.unit@ == m2.unit@,
        Seq::new(p1.len(), |i: int| p1[i]@) == Seq::new(p2.len(), |i: int| p2[i]@),
    ensures
        number_rows(r1, c1, m1, p1, sum) == number_rows(r2, c2, m2, p2, sum),
        count_non_finite(p1) == count_non_finite(p2),
        count_missing(p1) == count_missing(p2),
    decreases p1.len(),
{
    assert(Seq::new(p1.len(), |i: int| p1[i]@).len() == p2.len());
    if p1.len() > 0 {
        assert(Seq::new(p1.drop_last().len(), |i: int| p1.drop_last()[i]@) =~= Seq::new(
            p2.drop_last().len(),
            |i: int| p2.drop_last()[i]@,
        )) by {
            assert forall|i: int| 0 <= i < p1.len() - 1 implies p1[i]@ == p2[i]@ by {
                assert(Seq::new(p1.len(), |j: int| p1[j]@)[i] == p1[i]@);
                assert(Seq::new(p2.len(), |j: int| p2[j]@)[i] == p2[i]@);
            }
        }
        lemma_number_rows_views(r1, r2, c1, c2, m1, m2, p1.drop_last(), p2.drop_last(), sum);
        assert(Seq::new(p1.len(), |j: int| p1[j]@)[p1.len() - 1] == p1[p1.len() - 1]@);
        assert(Seq::new(p2.len(), |j: int| p2[j]@)[p1.len() - 1] == p2[p1.len() - 1]@);
        let a = p1.last();
        let b = p2.last();
        assert(a@ == b@);
        assert(a.value == b.value);
        lemma_exemplars_val_views(a.exemplars@, b.exemplars@);
        match number_bits(a.value) {
            Some(bits) => {
                assert(number_entries(r1, c1, m1, a, bits, sum) =~= number_entries(
                    r2,
                    c2,
                    m2,
                    b,
                    bits,
                    sum,
                ));
            },
            None => {},
        }
    }
}

proof fn lemma_metric_rows_views(r1: Resource, r2: Resource, c1: Scope, c2: Scope, m1: Metric, m2: Metric)
    requires
        r1@ == r2@,
        c1@ == c2@,
        m1@ == m2@,
    ensures
        forall|k: u8| #[trigger] metric_rows(r1, c1, m1, k) == metric_rows(r2, c2, m2, k),
        forall|k: u8| #[trigger] metric_skips(m1, k) == metric_skips(m2, k),
{
    match (m1.data, m2.data) {
        (MetricData::Gauge(a), MetricData::Gauge(b)) => {
            lemma_number_rows_views(r1, r2, c1, c2, m1, m2, a@, b@, None);
        },
        (
            MetricData::Sum { points: a, temporality: t1, monotonic: o1 },
            MetricData::Sum { points: b, temporality: t2, monotonic: o2 },
        ) => {
            lemma_number_rows_views(r1, r2, c1, c2, m1, m2, a@, b@, Some((t1, o1)));
        },
        (
            MetricData::Histogram { points: a, temporality: t1 },
            MetricData::Histogram { points: b, temporality: t2 },
        ) => {
            let x = Seq::new(a@.len(), |i: int| histogram_row_val(r1, c1, m1, a@[i], t1));
            let y = Seq::new(b@.len(), |i: int| histogram_row_val(r2, c2, m2, b@[i], t2));
            assert(m1@.data == m2@.data);
            assert(Seq::new(a@.len(), |i: int| a@[i]@).len() == b@.len());
            assert forall|i: int| 0 <= i < x.len() implies x[i] == y[i] by {
                assert(Seq::new(a@.len(), |j: int| a@[j]@)[i] == a@[i]@);
                assert(Seq::new(b@.len(), |j: int| b@[j]@)[i] == b@[i]@);
                lemma_exemplars_val_views(a@[i].exemplars@, b@[i].exemplars@);
                assert(histogram_common_entries(
                    r1,
                    c1,
                    m1,
                    a@[i].time_unix_nano,
                    a@[i].start_time_unix_nano,
                    a@[i].attributes@,
                    a@[i].flags,
                    a@[i].exemplars@,
                    t1,
                ) =~= histogram_common_entries(
                    r2,
                    c2,
                    m2,
                    b@[i].time_unix_nano,
                    b@[i].start_time_unix_nano,
                    b@[i].attributes@,
                    b@[i].flags,
                    b@[i].exemplars@,
                    t2,
                ));
                assert(histogram_row_val(r1, c1, m1, a@[i], t1) =~~= histogram_row_val(
                    r2,
                    c2,
                    m2,
                    b@[i],
                    t2,
                ));
            }
            assert(x =~= y);
        },
        (
            MetricData::ExpHistogram { points: a, temporality: t1 },
            MetricData::ExpHistogram { points: b, temporality: t2 },
        ) => {
            let x = Seq::new(a@.len(), |i: int| exp_histogram_row_val(r1, c1, m1, a@[i], t1));
            let y = Seq::new(b@.len(), |i: int| exp_histogram_row_val(r2, c2, m2, b@[i], t2));
            assert(m1@.data == m2@.data);
            assert(Seq::new(a@.len(), |i: int| a@[i]@).len() == b@.len());
            assert forall|i: int| 0 <= i < x.len() implies x[i] == y[i] by {
                assert(Seq::new(a@.len(), |j: int| a@[j]@)[i] == a@[i]@);
                assert(Seq::new(b@.len(), |j: int| b@[j]@)[i] == b@[i]@);
                lemma_exemplars_val_views(a@[i].exemplars@, b@[i].exemplars@);
                assert(histogram_common_entries(
                    r1,
                    c1,
                    m1,
                    a@[i].time_unix_nano,
                    a@[i].start_time_unix_nano,
                    a@[i].attributes@,
                    a@[i].flags,
                    a@[i].exemplars@,
                    t1,
                ) =~= histogram_common_entries(
                    r2,
                    c2,
                    m2,
                    b@[i].time_unix_nano,
                    b@[i].start_time_unix_nano,
                    b@[i].attributes@,
                    b@[i].flags,
                    b@[i].exemplars@,
                    t2,
                ));
                assert(exp_histogram_row_val(r1, c1, m1, a@[i], t1) =~~= exp_histogram_row_val(
                    r2,
                    c2,
                    m2,
                    b@[i],
                    t2,
                ));
            }
            assert(x =~= y);
        },
        _ => {},
    }
}

proof fn lemma_metrics_rows_views(r1: Resource, r2: Resource, c1: Scope, c2: Scope, s1: Seq<Metric>, s2: Seq<Metric>)
    requires
        r1@ == r2@,
        c1@ == c2@,
        Seq::new(s1.len(), |i: int| s1[i]@) == Seq::new(s2.len(), |i: int| s2[i]@),
    ensures
        forall|k: u8| #[trigger] metrics_rows(r1, c1, s1, k) == metrics_rows(r2, c2, s2, k),
        forall|k: u8| #[trigger] metrics_skips(s1, k) == metrics_skips(s2, k),
    decreases s1.len(),
{
    assert(Seq::new(s1.len(), |i: int| s1[i]@).len() == s2.len());
    if s1.len() > 0 {
        assert(Seq::new(s1.drop_last().len(), |i: int| s1.drop_last()[i]@) =~= Seq::new(
            s2.drop_last().len(),
            |i: int| s2.drop_last()[i]@,
        )) by {
            assert forall|i: int| 0 <= i < s1.len() - 1 implies s1[i]@ == s2[i]@ by {
                assert(Seq::new(s1.len(), |j: int| s1[j]@)[i] == s1[i]@);
                assert(Seq::new(s2.len(), |j: int| s2[j]@)[i] == s2[i]@);
            }
        }
        lemma_metrics_rows_views(r1, r2, c1, c2, s1.drop_last(), s2.drop_last());
        assert(Seq::new(s1.len(), |j: int| s1[j]@)[s1.len() - 1] == s1[s1.len() - 1]@);
        assert(Seq::new(s2.len(), |j: int| s2[j]@)[s1.len() - 1] == s2[s1.len() - 1]@);
        assert(s1.last()@ == s2.last()@);
        lemma_metric_rows_views(r1, r2, c1, c2, s1.last(), s2.last());
        assert forall|k: u8| #[trigger] metrics_rows(r1, c1, s1, k) == metrics_rows(r2, c2, s2, k) by {
            assert(metrics_rows(r1, c1, s1.drop_last(), k) == metrics_rows(r2, c2, s2.drop_last(), k));
            assert(metric_rows(r1, c1, s1.last(), k) == metric_rows(r2, c2, s2.last(), k));
        }
        assert forall|k: u8| #[trigger] metrics_skips(s1, k) == metrics_skips(s2, k) by {
            assert(metrics_skips(s1.drop_last(), k) == metrics_skips(s2.drop_last(), k));
            assert(metric_skips(s1.last(), k) == metric_skips(s2.last(), k));
        }
    }
}

proof fn lemma_scopes_metric_rows_views(r1: Resource, r2: Resource, s1: Seq<ScopeMetrics>, s2: Seq<ScopeMetrics>)
    requires
        r1@ == r2@,
        Seq::new(s1.len(), |i: int| s1[i]@) == Seq::new(s2.len(), |i: int| s2[i]@),
    ensures
        forall|k: u8| #[trigger] scopes_metric_rows(r1, s1, k) == scopes_metric_rows(r2, s2, k),
        forall|k: u8| #[trigger] scopes_skips(s1, k) == scopes_skips(s2, k),
    decreases s1.len(),
{
    assert(Seq::new(s1.len(), |i: int| s1[i]@).len() == s2.len());
    if s1.len() > 0 {
        assert(Seq::new(s1.drop_last().len(), |i: int| s1.drop_last()[i]@) =~= Seq::new(
            s2.drop_last().len(),
            |i: int| s2.drop_last()[i]@,
        )) by {
            assert forall|i: int| 0 <= i < s1.len() - 1 implies s1[i]@ == s2[i]@ by {
                assert(Seq::new(s1.len(), |j: int| s1[j]@)[i] == s1[i]@);
                assert(Seq::new(s2.len(), |j: int| s2[j]@)[i] == s2[i]@);
            }
        }
        lemma_scopes_metric_rows_views(r1, r2, s1.drop_last(), s2.drop_last());
        assert(Seq::new(s1.len(), |j: int| s1[j]@)[s1.len() - 1] == s1[s1.len() - 1]@);
        assert(Seq::new(s2.len(), |j: int| s2[j]@)[s1.len() - 1] == s2[s1.len() - 1]@);
        let a = s1.last();
        let b = s2.last();
        assert(a@ == b@);
        assert(a@.metrics == b@.metrics);
        lemma_metrics_rows_views(r1, r2, a.scope, b.scope, a.metrics@, b.metrics@);
        assert forall|k: u8| #[trigger] scopes_metric_rows(r1, s1, k) == scopes_metric_rows(r2, s2, k) by {
            assert(scopes_metric_rows(r1, s1.drop_last(), k) == scopes_metric_rows(r2, s2.drop_last(), k));
            assert(metrics_rows(r1, a.scope, a.metrics@, k) == metrics_rows(r2, b.scope, b.metrics@, k));
        }
        assert forall|k: u8| #[trigger] scopes_skips(s1, k) == scopes_skips(s2, k) by {
            assert(scopes_skips(s1.drop_last(), k) == scopes_skips(s2.drop_last(), k));
            assert(metrics_skips(a.metrics@, k) == metrics_skips(b.metrics@, k));
        }
    }
}

/// The rows and skipped counts of a request depend on the models of its
/// resources alone: two decodings that agree on them give the same rows
/// of every kind and the same counts.
pub proof fn lemma_metric_rows_by_models(v1: Seq<ResourceMetrics>, v2: Seq<ResourceMetrics>)
    requires
        resource_metrics_views(v1) == resource_metrics_views(v2),
    ensures
        forall|k: u8| #[trigger] request_metric_rows(v1, k) == request_metric_rows(v2, k),
        forall|k: u8| #[trigger] request_skips(v1, k) == request_skips(v2, k),
    decreases v1.len(),
{
    assert(resource_metrics_views(v1).len() == v2.len());
    if v1.len() > 0 {
        assert(resource_metrics_views(v1.drop_last()) =~= resource_metrics_views(v2.drop_last())) by {
            assert forall|i: int| 0 <= i < v1.len() - 1 implies v1[i]@ == v2[i]@ by {
                assert(resource_metrics_views(v1)[i] == v1[i]@);
                assert(resource_metrics_views(v2)[i] == v2[i]@);
            }
        }
        lemma_metric_rows_by_models(v1.drop_last(), v2.drop_last());
        assert(resource_metrics_views(v1)[v1.len() - 1] == v1[v1.len() - 1]@);
        assert(resource_metrics_views(v2)[v1.len() - 1] == v2[v1.len() - 1]@);
        let l1 = v1.last();
        let l2 = v2.last();
        assert(l1@ == l2@);
        assert(l1@.scope_metrics == l2@.scope_metrics);
        lemma_scopes_metric_rows_views(l1.resource, l2.resource, l1.scope_metrics@, l2.scope_metrics@);
        assert forall|k: u8| #[trigger] request_metric_rows(v1, k) == request_metric_rows(v2, k) by {
            assert(request_metric_rows(v1.drop_last(), k) == request_metric_rows(v2.drop_last(), k));
            assert(scopes_metric_rows(l1.resource, l1.scope_metrics@, k) == scopes_metric_rows(
                l2.resource,
                l2.scope_metrics@,
                k,
            ));
        }
        assert forall|k: u8| #[trigger] request_skips(v1, k) == request_skips(v2, k) by {
            assert(request_skips(v1.drop_last(), k) == request_skips(v2.drop_last(), k));
            assert(scopes_skips(l1.scope_metrics@, k) == scopes_skips(l2.scope_metrics@, k));
        }
    }
}

} // verus!
