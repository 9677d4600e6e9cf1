//! The schemas of the record batches: logs, traces, and each metric kind.

use vstd::prelude::*;
use vstd::string::*;
use crate::format::str_eq;

verus! {

/// The type of a column.
#[derive(Debug)]
pub enum DataType {
    Int64,
    Float64,
    Utf8,
    Boolean,
    /// A map from text keys to nullable text values, in source order.
    TextMap,
    /// A list whose items have the type, and the nullability, of the field.
    List(Box<SchemaField>),
    /// A struct with the given fields.
    Struct(Vec<SchemaField>),
}

/// A named column: its type, and whether it must hold a value in every row.
#[derive(Debug)]
pub struct SchemaField {
    pub name: String,
    pub field_type: DataType,
    pub required: bool,
}

/// A named schema: its fields in column order.
#[derive(Debug)]
pub struct SchemaDef {
    pub name: String,
    pub fields: Vec<SchemaField>,
}

/// The model of a column type.
pub ghost enum TypeModel {
    Int64,
    Float64,
    Utf8,
    Boolean,
    TextMap,
    List(Box<FieldModel>),
    Struct(Seq<FieldModel>),
}

/// The model of a field: its name, type, and whether it must hold a value.
pub ghost struct FieldModel {
    pub name: Seq<char>,
    pub ty: TypeModel,
    pub required: bool,
}

pub open spec fn field_view(f: SchemaField) -> FieldModel
    decreases f,
{
    FieldModel { name: f.name@, ty: type_view(f.field_type), required: f.required }
}

pub open spec fn type_view(t: DataType) -> TypeModel
    decreases t,
{
    match t {
        DataType::Int64 => TypeModel::Int64,
        DataType::Float64 => TypeModel::Float64,
        DataType::Utf8 => TypeModel::Utf8,
        DataType::Boolean => TypeModel::Boolean,
        DataType::TextMap => TypeModel::TextMap,
        DataType::List(item) => TypeModel::List(Box::new(field_view(*item))),
        DataType::Struct(fs) => TypeModel::Struct(fields_view(fs@)),
    }
}

/// The models of a sequence of fields.
pub open spec fn fields_view(s: Seq<SchemaField>) -> Seq<FieldModel>
    decreases s,
{
    if s.len() == 0 {
        seq![]
    } else {
        fields_view(s.drop_last()).push(field_view(s.last()))
    }
}

pub open spec fn fm(name: Seq<char>, ty: TypeModel, required: bool) -> FieldModel {
    FieldModel { name, ty, required }
}

pub open spec fn item_of(ty: TypeModel) -> TypeModel {
    TypeModel::List(Box::new(fm("item"@, ty, true)))
}

pub open spec fn resource_model() -> FieldModel {
    fm("resource"@, TypeModel::Struct(seq![fm("attributes"@, TypeModel::TextMap, false)]), true)
}

pub open spec fn scope_model() -> FieldModel {
    fm(
        "scope"@,
        TypeModel::Struct(
            seq![
                fm("name"@, TypeModel::Utf8, false),
                fm("version"@, TypeModel::Utf8, false),
                fm("attributes"@, TypeModel::TextMap, false),
            ],
        ),
        true,
    )
}

/// The fields of log rows.
pub open spec fn logs_model() -> Seq<FieldModel> {
    seq![
        fm("time_unix_nano"@, TypeModel::Int64, true),
        fm("observed_time_unix_nano"@, TypeModel::Int64, true),
        fm("severity_number"@, TypeModel::Int64, true),
        fm("severity_text"@, TypeModel::Utf8, true),
        fm("body"@, TypeModel::Utf8, false),
        fm("trace_id"@, TypeModel::Utf8, true),
        fm("span_id"@, TypeModel::Utf8, true),
        fm("attributes"@, TypeModel::TextMap, false),
        resource_model(),
        scope_model(),
    ]
}

/// The fields of span rows.
pub open spec fn traces_model() -> Seq<FieldModel> {
    seq![
        fm("trace_id"@, TypeModel::Utf8, true),
        fm("span_id"@, TypeModel::Utf8, true),
        fm("parent_span_id"@, TypeModel::Utf8, true),
        fm("trace_state"@, TypeModel::Utf8, true),
        fm("name"@, TypeModel::Utf8, true),
        fm("kind"@, TypeModel::Int64, true),
        fm("start_time_unix_nano"@, TypeModel::Int64, false),
        fm("end_time_unix_nano"@, TypeModel::Int64, false),
        fm("duration_ns"@, TypeModel::Int64, false),
        fm("attributes"@, TypeModel::TextMap, false),
        fm("status_code"@, TypeModel::Int64, true),
        fm("status_message"@, TypeModel::Utf8, true),
        fm(
            "events"@,
            item_of(
                TypeModel::Struct(
                    seq![
                        fm("time_unix_nano"@, TypeModel::Int64, true),
                        fm("name"@, TypeModel::Utf8, true),
                        fm("attributes"@, TypeModel::TextMap, false),
                        fm("dropped_attributes_count"@, TypeModel::Int64, true),
                    ],
                ),
            ),
            false,
        ),
        fm(
            "links"@,
            item_of(
                TypeModel::Struct(
                    seq![
                        fm("trace_id"@, TypeModel::Utf8, true),
                        fm("span_id"@, TypeModel::Utf8, true),
                        fm("trace_state"@, TypeModel::Utf8, true),
                        fm("attributes"@, TypeModel::TextMap, false),
                        fm("dropped_attributes_count"@, TypeModel::Int64, true),
                        fm("flags"@, TypeModel::Int64, true),
                    ],
                ),
            ),
            false,
        ),
        fm("dropped_attributes_count"@, TypeModel::Int64, true),
        fm("dropped_events_count"@, TypeModel::Int64, true),
        fm("dropped_links_count"@, TypeModel::Int64, true),
        fm("flags"@, TypeModel::Int64, true),
        resource_model(),
        scope_model(),
    ]
}

/// The fields that every metric schema starts with; `value` for gauges and sums.
pub open spec fn metric_model(with_value: bool) -> Seq<FieldModel> {
    let head = seq![
        fm("time_unix_nano"@, TypeModel::Int64, true),
        fm("start_time_unix_nano"@, TypeModel::Int64, true),
        fm("metric_name"@, TypeModel::Utf8, true),
        fm("metric_description"@, TypeModel::Utf8, true),
        fm("metric_unit"@, TypeModel::Utf8, true),
    ];
    let value: Seq<FieldModel> = if with_value {
        seq![fm("value"@, TypeModel::Float64, true)]
    } else {
        seq![]
    };
    head + value + seq![
        fm("attributes"@, TypeModel::TextMap, false),
        fm("flags"@, TypeModel::Int64, true),
        fm(
            "exemplars"@,
            item_of(
                TypeModel::Struct(
                    seq![
                        fm("time_unix_nano"@, TypeModel::Int64, true),
                        fm("value"@, TypeModel::Float64, false),
                        fm("span_id"@, TypeModel::Utf8, true),
                        fm("trace_id"@, TypeModel::Utf8, true),
                        fm("filtered_attributes"@, TypeModel::TextMap, false),
                    ],
                ),
            ),
            false,
        ),
        resource_model(),
        scope_model(),
    ]
}

/// The fields of gauge rows.
pub open spec fn gauge_model() -> Seq<FieldModel> {
    metric_model(true)
}

/// The fields of sum rows.
pub open spec fn sum_model() -> Seq<FieldModel> {
    metric_model(true) + seq![
        fm("aggregation_temporality"@, TypeModel::Int64, true),
        fm("is_monotonic"@, TypeModel::Boolean, true),
    ]
}

pub open spec fn histogram_head_model() -> Seq<FieldModel> {
    metric_model(false) + seq![
        fm("aggregation_temporality"@, TypeModel::Int64, true),
        fm("count"@, TypeModel::Int64, true),
        fm("sum"@, TypeModel::Float64, false),
        fm("min"@, TypeModel::Float64, false),
        fm("max"@, TypeModel::Float64, false),
    ]
}

/// The fields of histogram rows.
pub open spec fn histogram_model() -> Seq<FieldModel> {
    histogram_head_model() + seq![
        fm("bucket_counts"@, item_of(TypeModel::Int64), false),
        fm("explicit_bounds"@, item_of(TypeModel::Float64), false),
    ]
}

pub open spec fn buckets_model(name: Seq<char>) -> FieldModel {
    fm(
        name,
        TypeModel::Struct(
            seq![
                fm("offset"@, TypeModel::Int64, true),
                fm("bucket_counts"@, item_of(TypeModel::Int64), false),
            ],
        ),
        false,
    )
}

/// The fields of exponential histogram rows.
pub open spec fn exp_histogram_model() -> Seq<FieldModel> {
    histogram_head_model() + seq![
        fm("scale"@, TypeModel::Int64, true),
        fm("zero_count"@, TypeModel::Int64, true),
        buckets_model("positive"@),
        buckets_model("negative"@),
    ]
}

/// The names of the schemas that the registry holds.
pub open spec fn schema_names() -> Seq<Seq<char>> {
    seq!["logs"@, "traces"@, "gauge"@, "sum"@, "histogram"@, "exp_histogram"@]
}

/// The fields of the registry's schemas, in the order of their names.
pub open spec fn schema_models() -> Seq<Seq<FieldModel>> {
    seq![logs_model(), traces_model(), gauge_model(), sum_model(), histogram_model(), exp_histogram_model()]
}

/// Append a field to a list under construction.
fn push_field(fs: &mut Vec<SchemaField>, f: SchemaField)
    ensures
        fields_view(final(fs)@) == fields_view(old(fs)@).push(field_view(f)),
{
    fs.push(f);
    proof {
        assert(final(fs)@.drop_last() =~= old(fs)@);
    }
}

fn field(name: &str, field_type: DataType, required: bool) -> (r: SchemaField)
    ensures
        r.name@ == name@,
        r.field_type == field_type,
        r.required == required,
{
    SchemaField { name: String::from_str(name), field_type, required }
}

fn list_of(t: DataType) -> (r: DataType)
    ensures
        type_view(r) == item_of(type_view(t)),
{
    let r = DataType::List(Box::new(field("item", t, true)));
    proof {
        reveal_strlit("item");
    }
    r
}

fn attributes_field(name: &str) -> (r: SchemaField)
    ensures
        field_view(r) == fm(name@, TypeModel::TextMap, false),
{
    field(name, DataType::TextMap, false)
}

fn resource_field() -> (r: SchemaField)
    ensures
        field_view(r) == resource_model(),
{
    let mut fs: Vec<SchemaField> = Vec::new();
    push_field(&mut fs, attributes_field("attributes"));
    let r = field("resource", DataType::Struct(fs), true);
    proof {
        assert(fields_view(fs@) =~= seq![fm("attributes"@, TypeModel::TextMap, false)]);
    }
    r
}

fn scope_field() -> (r: SchemaField)
    ensures
        field_view(r) == scope_model(),
{
    let mut fs: Vec<SchemaField> = Vec::new();
    push_field(&mut fs, field("name", DataType::Utf8, false));
    push_field(&mut fs, field("version", DataType::Utf8, false));
    push_field(&mut fs, attributes_field("attributes"));
    let r = field("scope", DataType::Struct(fs), true);
    proof {
        assert(fields_view(fs@) =~= seq![
            fm("name"@, TypeModel::Utf8, false),
            fm("version"@, TypeModel::Utf8, false),
            fm("attributes"@, TypeModel::TextMap, false),
        ]);
    }
    r
}

/// The schema of log rows.
pub fn logs_schema() -> (r: SchemaDef)
    ensures
        r.name@ == "logs"@,
        fields_view(r.fields@) == logs_model(),
{
    let mut fs: Vec<SchemaField> = Vec::new();
    push_field(&mut fs, field("time_unix_nano", DataType::Int64, true));
    push_field(&mut fs, field("observed_time_unix_nano", DataType::Int64, true));
    push_field(&mut fs, field("severity_number", DataType::Int64, true));
    push_field(&mut fs, field("severity_text", DataType::Utf8, true));
    push_field(&mut fs, field("body", DataType::Utf8, false));
    push_field(&mut fs, field("trace_id", DataType::Utf8, true));
    push_field(&mut fs, field("span_id", DataType::Utf8, true));
    push_field(&mut fs, attributes_field("attributes"));
    push_field(&mut fs, resource_field());
    push_field(&mut fs, scope_field());
    proof {
        assert(fields_view(fs@) =~= logs_model());
    }
    SchemaDef { name: String::from_str("logs"), fields: fs }
}

fn struct_of(fs: Vec<SchemaField>) -> (r: DataType)
    ensures
        type_view(r) == TypeModel::Struct(fields_view(fs@)),
{
    DataType::Struct(fs)
}

/// The schema of span rows.
pub fn traces_schema() -> (r: SchemaDef)
    ensures
        r.name@ == "traces"@,
        fields_view(r.fields@) == traces_model(),
{
    let mut ev: Vec<SchemaField> = Vec::new();
    push_field(&mut ev, field("time_unix_nano", DataType::Int64, true));
    push_field(&mut ev, field("name", DataType::Utf8, true));
    push_field(&mut ev, attributes_field("attributes"));
    push_field(&mut ev, field("dropped_attributes_count", DataType::Int64, true));
    proof {
        assert(fields_view(ev@) =~= seq![
            fm("time_unix_nano"@, TypeModel::Int64, true),
            fm("name"@, TypeModel::Utf8, true),
            fm("attributes"@, TypeModel::TextMap, false),
            fm("dropped_attributes_count"@, TypeModel::Int64, true),
        ]);
    }
    let mut lk: Vec<SchemaField> = Vec::new();
    push_field(&mut lk, field("trace_id", DataType::Utf8, true));
    push_field(&mut lk, field("span_id", DataType::Utf8, true));
    push_field(&mut lk, field("trace_state", DataType::Utf8, true));
    push_field(&mut lk, attributes_field("attributes"));
    push_field(&mut lk, field("dropped_attributes_count", DataType::Int64, true));
    push_field(&mut lk, field("flags", DataType::Int64, true));
    proof {
        assert(fields_view(lk@) =~= seq![
            fm("trace_id"@, TypeModel::Utf8, true),
            fm("span_id"@, TypeModel::Utf8, true),
            fm("trace_state"@, TypeModel::Utf8, true),
            fm("attributes"@, TypeModel::TextMap, false),
            fm("dropped_attributes_count"@, TypeModel::Int64, true),
            fm("flags"@, TypeModel::Int64, true),
        ]);
    }
    let mut fs: Vec<SchemaField> = Vec::new();
    push_field(&mut fs, field("trace_id", DataType::Utf8, true));
    push_field(&mut fs, field("span_id", DataType::Utf8, true));
    push_field(&mut fs, field("parent_span_id", DataType::Utf8, true));
    push_field(&mut fs, field("trace_state", DataType::Utf8, true));
    push_field(&mut fs, field("name", DataType::Utf8, true));
    push_field(&mut fs, field("kind", DataType::Int64, true));
    push_field(&mut fs, field("start_time_unix_nano", DataType::Int64, false));
    push_field(&mut fs, field("end_time_unix_nano", DataType::Int64, false));
    push_field(&mut fs, field("duration_ns", DataType::Int64, false));
    push_field(&mut fs, attributes_field("attributes"));
    push_field(&mut fs, field("status_code", DataType::Int64, true));
    push_field(&mut fs, field("status_message", DataType::Utf8, true));
    push_field(&mut fs, field("events", list_of(struct_of(ev)), false));
    push_field(&mut fs, field("links", list_of(struct_of(lk)), false));
    push_field(&mut fs, field("dropped_attributes_count", DataType::Int64, true));
    push_field(&mut fs, field("dropped_events_count", DataType::Int64, true));
    push_field(&mut fs, field("dropped_links_count", DataType::Int64, true));
    push_field(&mut fs, field("flags", DataType::Int64, true));
    push_field(&mut fs, resource_field());
    push_field(&mut fs, scope_field());
    proof {
        assert(fields_view(fs@) =~= traces_model());
    }
    SchemaDef { name: String::from_str("traces"), fields: fs }
}

/// The columns that every metric schema starts with; `value` for gauges and sums.
fn metric_fields(with_value: bool) -> (r: Vec<SchemaField>)
    ensures
        fields_view(r@) == metric_model(with_value),
{
    let mut ex: Vec<SchemaField> = Vec::new();
    push_field(&mut ex, field("time_unix_nano", DataType::Int64, true));
    push_field(&mut ex, field("value", DataType::Float64, false));
    push_field(&mut ex, field("span_id", DataType::Utf8, true));
    push_field(&mut ex, field("trace_id", DataType::Utf8, true));
    push_field(&mut ex, attributes_field("filtered_attributes"));
    proof {
        assert(fields_view(ex@) =~= seq![
            fm("time_unix_nano"@, TypeModel::Int64, true),
            fm("value"@, TypeModel::Float64, false),
            fm("span_id"@, TypeModel::Utf8, true),
            fm("trace_id"@, TypeModel::Utf8, true),
            fm("filtered_attributes"@, TypeModel::TextMap, false),
        ]);
    }
    let mut fs: Vec<SchemaField> = Vec::new();
    push_field(&mut fs, field("time_unix_nano", DataType::Int64, true));
    push_field(&mut fs, field("start_time_unix_nano", DataType::Int64, true));
    push_field(&mut fs, field("metric_name", DataType::Utf8, true));
    push_field(&mut fs, field("metric_description", DataType::Utf8, true));
    push_field(&mut fs, field("metric_unit", DataType::Utf8, true));
    if with_value {
        push_field(&mut fs, field("value", DataType::Float64, true));
    }
    push_field(&mut fs, attributes_field("attributes"));
    push_field(&mut fs, field("flags", DataType::Int64, true));
    push_field(&mut fs, field("exemplars", list_of(struct_of(ex)), false));
    push_field(&mut fs, resource_field());
    push_field(&mut fs, scope_field());
    proof {
        assert(fields_view(fs@) =~= metric_model(with_value));
    }
    fs
}

/// The schema of gauge rows.
pub fn gauge_schema() -> (r: SchemaDef)
    ensures
        r.name@ == "gauge"@,
        fields_view(r.fields@) == gauge_model(),
{
    SchemaDef { name: String::from_str("gauge"), fields: metric_fields(true) }
}

/// The schema of sum rows: the gauge columns, temporality and monotonicity.
pub fn sum_schema() -> (r: SchemaDef)
    ensures
        r.name@ == "sum"@,
        fields_view(r.fields@) == sum_model(),
{
    let mut fs = metric_fields(true);
    push_field(&mut fs, field("aggregation_temporality", DataType::Int64, true));
    push_field(&mut fs, field("is_monotonic", DataType::Boolean, true));
    proof {
        assert(fields_view(fs@) =~= sum_model());
    }
    SchemaDef { name: String::from_str("sum"), fields: fs }
}

fn histogram_fields() -> (r: Vec<SchemaField>)
    ensures
        fields_view(r@) == histogram_head_model(),
{
    let mut fs = metric_fields(false);
    push_field(&mut fs, field("aggregation_temporality", DataType::Int64, true));
    push_field(&mut fs, field("count", DataType::Int64, true));
    push_field(&mut fs, field("sum", DataType::Float64, false));
    push_field(&mut fs, field("min", DataType::Float64, false));
    push_field(&mut fs, field("max", DataType::Float64, false));
    proof {
        assert(fields_view(fs@) =~= histogram_head_model());
    }
    fs
}

/// The schema of histogram rows.
pub fn histogram_schema() -> (r: SchemaDef)
    ensures
        r.name@ == "histogram"@,
        fields_view(r.fields@) == histogram_model(),
{
    let mut fs = histogram_fields();
    push_field(&mut fs, field("bucket_counts", list_of(DataType::Int64), false));
    push_field(&mut fs, field("explicit_bounds", list_of(DataType::Float64), false));
    proof {
        assert(fields_view(fs@) =~= histogram_model());
    }
    SchemaDef { name: String::from_str("histogram"), fields: fs }
}

fn buckets_field(name: &str) -> (r: SchemaField)
    ensures
        field_view(r) == buckets_model(name@),
{
    let mut fs: Vec<SchemaField> = Vec::new();
    push_field(&mut fs, field("offset", DataType::Int64, true));
    push_field(&mut fs, field("bucket_counts", list_of(DataType::Int64), false));
    proof {
        assert(fields_view(fs@) =~= seq![
            fm("offset"@, TypeModel::Int64, true),
            fm("bucket_counts"@, item_of(TypeModel::Int64), false),
        ]);
    }
    field(name, struct_of(fs), false)
}

/// The schema of exponential histogram rows.
pub fn exp_histogram_schema() -> (r: SchemaDef)
    ensures
        r.name@ == "exp_histogram"@,
        fields_view(r.fields@) == exp_histogram_model(),
{
    let mut fs = histogram_fields();
    push_field(&mut fs, field("scale", DataType::Int64, true));
    push_field(&mut fs, field("zero_count", DataType::Int64, true));
    push_field(&mut fs, buckets_field("positive"));
    push_field(&mut fs, buckets_field("negative"));
    proof {
        assert(fields_view(fs@) =~= exp_histogram_model());
    }
    SchemaDef { name: String::from_str("exp_histogram"), fields: fs }
}


/// Every schema of the registry: logs, traces, gauge, sum, histogram and
/// exponential histogram.
pub fn schema_defs() -> (r: Vec<SchemaDef>)
    ensures
        r@.len() == schema_names().len(),
        forall|i: int| 0 <= i < r@.len() ==> #[trigger] r@[i].name@ == schema_names()[i],
        forall|i: int| 0 <= i < r@.len() ==> fields_view(#[trigger] r@[i].fields@) == schema_models()[i],
{
    let mut v: Vec<SchemaDef> = Vec::new();
    v.push(logs_schema());
    v.push(traces_schema());
    v.push(gauge_schema());
    v.push(sum_schema());
    v.push(histogram_schema());
    v.push(exp_histogram_schema());
    v
}

/// The schema with the given name, if the registry holds one.
pub fn schema_def(name: &str) -> (r: Option<SchemaDef>)
    ensures
        r is Some <==> schema_names().contains(name@),
        r matches Some(d) ==> d.name@ == name@ && exists|i: int|
            0 <= i < schema_names().len() && schema_names()[i] == name@ && fields_view(d.fields@)
                == #[trigger] schema_models()[i],
{
    let ghost names = schema_names();
    proof {
        assert(names[0] == "logs"@);
        assert(names[1] == "traces"@);
        assert(names[2] == "gauge"@);
        assert(names[3] == "sum"@);
        assert(names[4] == "histogram"@);
        assert(names[5] == "exp_histogram"@);
    }
    if str_eq(name, "logs") {
        proof {
            assert(names[0] == name@);
            assert(schema_models()[0] == logs_model());
        }
        Some(logs_schema())
    } else if str_eq(name, "traces") {
        proof {
            assert(names[1] == name@);
            assert(schema_models()[1] == traces_model());
        }
        Some(traces_schema())
    } else if str_eq(name, "gauge") {
        proof {
            assert(names[2] == name@);
            assert(schema_models()[2] == gauge_model());
        }
        Some(gauge_schema())
    } else if str_eq(name, "sum") {
        proof {
            assert(names[3] == name@);
            assert(schema_models()[3] == sum_model());
        }
        Some(sum_schema())
    } else if str_eq(name, "histogram") {
        proof {
            assert(names[4] == name@);
            assert(schema_models()[4] == histogram_model());
        }
        Some(histogram_schema())
    } else if str_eq(name, "exp_histogram") {
        proof {
            assert(names[5] == name@);
            assert(schema_models()[5] == exp_histogram_model());
        }
        Some(exp_histogram_schema())
    } else {
        proof {
            assert forall|i: int| 0 <= i < names.len() implies names[i] != name@ by {}
        }
        None
    }
}

} // verus!
