//! OTLP logs: the `ExportLogsServiceRequest` message and its rows.

use vstd::prelude::*;
use crate::error::DecodeError;
use crate::proto::{
    keys_unique, add_attribute, bytes_at, expect_wire, fixed_at, key_at, len_at, parse_any_value, push_entry,
    skip_at, text_at, varint_at,
};
use crate::resource::{
    empty_resource, empty_scope, parse_resource, parse_scope, resource_from, resource_val, scope_from,
    scope_val, Resource, ResourceModel, Scope, ScopeModel,
};
use crate::proto::{any_value_from, attribute_next};
use crate::traces::{clamp_time, clamped};
use crate::wire::{fixed_next, key_next, len_next, skip_next, varint_next};
use vstd::utf8::valid_utf8;
use crate::value::{clone_value, clone_entries, entries_view, hex_encode, hex_of, value_view, values_view, push_value, Val, Value};
use crate::wire::{WIRE_FIXED32, WIRE_FIXED64, WIRE_LEN, WIRE_VARINT};
use crate::json::{json_doc_model, json_doc_ok, json_error, json_view, jsons_view, opens_object, parse_json, Json, JsonModel};
use crate::otlp_json::{
    any_json, any_value_of, attributes_of, attrs_json, hex_bytes_of, i64_of, items, jhex, ji64,
    jitems, jmember, jtext, ju64, lemma_jsons_view_index, member, resource_json, resource_of,
    scope_json, scope_of, text_of, u64_of,
};

verus! {

/// One log record.
pub struct LogRecord {
    pub time_unix_nano: u64,
    pub observed_time_unix_nano: u64,
    pub severity_number: i32,
    pub severity_text: Vec<u8>,
    pub body: Value,
    pub attributes: Vec<(String, Value)>,
    pub dropped_attributes_count: u32,
    pub flags: u32,
    pub trace_id: Vec<u8>,
    pub span_id: Vec<u8>,
}

/// The log records of one instrumentation scope.
pub struct ScopeLogs {
    pub scope: Scope,
    pub log_records: Vec<LogRecord>,
}

/// The log records of one resource, by scope.
pub struct ResourceLogs {
    pub resource: Resource,
    pub scope_logs: Vec<ScopeLogs>,
}

/// The model of a [`LogRecord`].
pub ghost struct LogRecordModel {
    pub time_unix_nano: u64,
    pub observed_time_unix_nano: u64,
    pub severity_number: i32,
    pub severity_text: Seq<u8>,
    pub body: Val,
    pub attributes: Seq<(Seq<char>, Val)>,
    pub dropped_attributes_count: u32,
    pub flags: u32,
    pub trace_id: Seq<u8>,
    pub span_id: Seq<u8>,
}

/// The model of a [`ScopeLogs`].
pub ghost struct ScopeLogsModel {
    pub scope: ScopeModel,
    pub log_records: Seq<LogRecordModel>,
}

/// The model of a [`ResourceLogs`].
pub ghost struct ResourceLogsModel {
    pub resource: ResourceModel,
    pub scope_logs: Seq<ScopeLogsModel>,
}

impl View for LogRecord {
    type V = LogRecordModel;

    open spec fn view(&self) -> LogRecordModel {
        LogRecordModel {
            time_unix_nano: self.time_unix_nano,
            observed_time_unix_nano: self.observed_time_unix_nano,
            severity_number: self.severity_number,
            severity_text: self.severity_text@,
            body: self.body@,
            attributes: entries_view(self.attributes@),
            dropped_attributes_count: self.dropped_attributes_count,
            flags: self.flags,
            trace_id: self.trace_id@,
            span_id: self.span_id@,
        }
    }
}

impl View for ScopeLogs {
    type V = ScopeLogsModel;

    open spec fn view(&self) -> ScopeLogsModel {
        ScopeLogsModel {
            scope: self.scope@,
            log_records: Seq::new(self.log_records@.len(), |i: int| self.log_records@[i]@),
        }
    }
}

impl View for ResourceLogs {
    type V = ResourceLogsModel;

    open spec fn view(&self) -> ResourceLogsModel {
        ResourceLogsModel {
            resource: self.resource@,
            scope_logs: Seq::new(self.scope_logs@.len(), |i: int| self.scope_logs@[i]@),
        }
    }
}

/// The models of decoded resources.
pub open spec fn resource_logs_views(v: Seq<ResourceLogs>) -> Seq<ResourceLogsModel> {
    Seq::new(v.len(), |i: int| v[i]@)
}

pub open spec fn empty_log_record() -> LogRecordModel {
    LogRecordModel {
        time_unix_nano: 0,
        observed_time_unix_nano: 0,
        severity_number: 0,
        severity_text: seq![],
        body: Val::Null,
        attributes: seq![],
        dropped_attributes_count: 0,
        flags: 0,
        trace_id: seq![],
        span_id: seq![],
    }
}

/// What the fields of a `LogRecord` message in `b[pos..end]` decode to,
/// after `acc`: the last `time_unix_nano` (1), `severity_number` (2),
/// `severity_text` (3), `body` (5), `dropped_attributes_count` (7), `flags`
/// (8), `trace_id` (9), `span_id` (10) and `observed_time_unix_nano` (11),
/// and each `attributes` entry (6) bound in turn; other fields are skipped.
pub open spec fn log_record_from(b: Seq<u8>, pos: int, end: int, acc: LogRecordModel) -> Option<
    LogRecordModel,
>
    decreases end - pos,
{
    if pos >= end {
        Some(acc)
    } else {
        match key_next(b, pos, end) {
            None => None,
            Some((f, w, p)) => if f == 1 || f == 11 {
                if w != crate::wire::WIRE_FIXED64 {
                    None
                } else {
                    match fixed_next(b, p, end, 8) {
                        None => None,
                        Some((x, n)) => log_record_from(
                            b,
                            n,
                            end,
                            if f == 1 {
                                LogRecordModel { time_unix_nano: x, ..acc }
                            } else {
                                LogRecordModel { observed_time_unix_nano: x, ..acc }
                            },
                        ),
                    }
                }
            } else if f == 2 || f == 7 {
                if w != crate::wire::WIRE_VARINT {
                    None
                } else {
                    match varint_next(b, p, end) {
                        None => None,
                        Some((x, n)) => log_record_from(
                            b,
                            n,
                            end,
                            if f == 2 {
                                LogRecordModel { severity_number: x as i32, ..acc }
                            } else {
                                LogRecordModel { dropped_attributes_count: x as u32, ..acc }
                            },
                        ),
                    }
                }
            } else if f == 8 {
                if w != crate::wire::WIRE_FIXED32 {
                    None
                } else {
                    match fixed_next(b, p, end, 4) {
                        None => None,
                        Some((x, n)) => log_record_from(
                            b,
                            n,
                            end,
                            LogRecordModel { flags: x as u32, ..acc },
                        ),
                    }
                }
            } else if f == 6 {
                if w != crate::wire::WIRE_LEN {
                    None
                } else {
                    match attribute_next(b, p, end, acc.attributes) {
                        None => None,
                        Some((es, n)) => log_record_from(
                            b,
                            n,
                            end,
                            LogRecordModel { attributes: es, ..acc },
                        ),
                    }
                }
            } else if f == 3 || f == 5 || f == 9 || f == 10 {
                if w != crate::wire::WIRE_LEN {
                    None
                } else {
                    match len_next(b, p, end) {
                        None => None,
                        Some((s, e)) => {
                            let t = b.subrange(s, e);
                            if f == 3 {
                                if valid_utf8(t) {
                                    log_record_from(b, e, end, LogRecordModel { severity_text: t, ..acc })
                                } else {
                                    None
                                }
                            } else if f == 5 {
                                match any_value_from(b, s, e, Val::Null) {
                                    None => None,
                                    Some(v) => log_record_from(b, e, end, LogRecordModel { body: v, ..acc }),
                                }
                            } else if f == 9 {
                                log_record_from(b, e, end, LogRecordModel { trace_id: t, ..acc })
                            } else {
                                log_record_from(b, e, end, LogRecordModel { span_id: t, ..acc })
                            }
                        },
                    }
                }
            } else {
                match skip_next(b, p, end, w) {
                    None => None,
                    Some(n) => log_record_from(b, n, end, acc),
                }
            },
        }
    }
}

/// What the fields of a `ScopeLogs` message in `b[pos..end]` decode to,
/// after `acc`: the last `scope` (1) and each of the `log_records` (2) in
/// order; other fields are skipped.
pub open spec fn scope_logs_from(b: Seq<u8>, pos: int, end: int, acc: ScopeLogsModel) -> Option<
    ScopeLogsModel,
>
    decreases end - pos,
{
    if pos >= end {
        Some(acc)
    } else {
        match key_next(b, pos, end) {
            None => None,
            Some((f, w, p)) => if f == 1 || f == 2 {
                if w != crate::wire::WIRE_LEN {
                    None
                } else {
                    match len_next(b, p, end) {
                        None => None,
                        Some((s, e)) => if f == 1 {
                            match scope_from(b, s, e, empty_scope()) {
                                None => None,
                                Some(sc) => scope_logs_from(b, e, end, ScopeLogsModel { scope: sc, ..acc }),
                            }
                        } else {
                            match log_record_from(b, s, e, empty_log_record()) {
                                None => None,
                                Some(rec) => scope_logs_from(
                                    b,
                                    e,
                                    end,
                                    ScopeLogsModel { log_records: acc.log_records.push(rec), ..acc },
                                ),
                            }
                        },
                    }
                }
            } else {
                match skip_next(b, p, end, w) {
                    None => None,
                    Some(n) => scope_logs_from(b, n, end, acc),
                }
            },
        }
    }
}

/// What the fields of a `ResourceLogs` message in `b[pos..end]` decode to,
/// after `acc`: the last `resource` (1) and each of the `scope_logs` (2) in
/// order; other fields are skipped.
pub open spec fn resource_logs_from(b: Seq<u8>, pos: int, end: int, acc: ResourceLogsModel) -> Option<
    ResourceLogsModel,
>
    decreases end - pos,
{
    if pos >= end {
        Some(acc)
    } else {
        match key_next(b, pos, end) {
            None => None,
            Some((f, w, p)) => if f == 1 || f == 2 {
                if w != crate::wire::WIRE_LEN {
                    None
                } else {
                    match len_next(b, p, end) {
                        None => None,
                        Some((s, e)) => if f == 1 {
                            match resource_from(b, s, e, empty_resource()) {
                                None => None,
                                Some(r) => resource_logs_from(
                                    b,
                                    e,
                                    end,
                                    ResourceLogsModel { resource: r, ..acc },
                                ),
                            }
                        } else {
                            match scope_logs_from(
                                b,
                                s,
                                e,
                                ScopeLogsModel { scope: empty_scope(), log_records: seq![] },
                            ) {
                                None => None,
                                Some(sl) => resource_logs_from(
                                    b,
                                    e,
                                    end,
                                    ResourceLogsModel { scope_logs: acc.scope_logs.push(sl), ..acc },
                                ),
                            }
                        },
                    }
                }
            } else {
                match skip_next(b, p, end, w) {
                    None => None,
                    Some(n) => resource_logs_from(b, n, end, acc),
                }
            },
        }
    }
}

/// What the fields of an `ExportLogsServiceRequest` message in `b[pos..end]`
/// decode to, after `acc`: each of the `resource_logs` (1) in order; other
/// fields are skipped.
pub open spec fn logs_request_from(b: Seq<u8>, pos: int, end: int, acc: Seq<ResourceLogsModel>) -> Option<
    Seq<ResourceLogsModel>,
>
    decreases end - pos,
{
    if pos >= end {
        Some(acc)
    } else {
        match key_next(b, pos, end) {
            None => None,
            Some((f, w, p)) => if f == 1 {
                if w != crate::wire::WIRE_LEN {
                    None
                } else {
                    match len_next(b, p, end) {
                        None => None,
                        Some((s, e)) => match resource_logs_from(
                            b,
                            s,
                            e,
                            ResourceLogsModel { resource: empty_resource(), scope_logs: seq![] },
                        ) {
                            None => None,
                            Some(rl) => logs_request_from(b, e, end, acc.push(rl)),
                        },
                    }
                }
            } else {
                match skip_next(b, p, end, w) {
                    None => None,
                    Some(n) => logs_request_from(b, n, end, acc),
                }
            },
        }
    }
}

/// The resources that an `ExportLogsServiceRequest` message decodes to.
pub open spec fn logs_request_spec(b: Seq<u8>) -> Option<Seq<ResourceLogsModel>> {
    logs_request_from(b, 0, b.len() as int, seq![])
}

/// The row of one log record, with its resource and scope copied in.
pub open spec fn log_row(res: Resource, sc: Scope, rec: LogRecord) -> Val {
    Val::Object(log_entries(res, sc, rec))
}

/// The columns of the row of one log record, in schema order.
pub open spec fn log_entries(res: Resource, sc: Scope, rec: LogRecord) -> Seq<(Seq<char>, Val)> {
        seq![
            ("time_unix_nano"@, Val::Integer(clamped(rec.time_unix_nano))),
            ("observed_time_unix_nano"@, Val::Integer(clamped(rec.observed_time_unix_nano))),
            ("severity_number"@, Val::Integer(rec.severity_number as i64)),
            ("severity_text"@, Val::Bytes(rec.severity_text@)),
            ("body"@, value_view(rec.body)),
            ("trace_id"@, Val::Bytes(hex_of(rec.trace_id@))),
            ("span_id"@, Val::Bytes(hex_of(rec.span_id@))),
            ("attributes"@, Val::Object(entries_view(rec.attributes@))),
            ("resource"@, resource_val(res)),
            ("scope"@, scope_val(sc)),
        ]
}

/// The rows of the records of one scope, in order.
pub open spec fn scope_log_rows(res: Resource, sl: ScopeLogs) -> Seq<Val> {
    Seq::new(sl.log_records@.len(), |k: int| log_row(res, sl.scope, sl.log_records@[k]))
}

/// The rows of the records of a resource's scopes, scope after scope.
pub open spec fn scopes_log_rows(res: Resource, s: Seq<ScopeLogs>) -> Seq<Val>
    decreases s.len(),
{
    if s.len() == 0 {
        seq![]
    } else {
        scopes_log_rows(res, s.drop_last()) + scope_log_rows(res, s.last())
    }
}

/// The rows of a request: resource after resource, scope after scope, record after record.
pub open spec fn log_rows(rl: Seq<ResourceLogs>) -> Seq<Val>
    decreases rl.len(),
{
    if rl.len() == 0 {
        seq![]
    } else {
        log_rows(rl.drop_last()) + scopes_log_rows(rl.last().resource, rl.last().scope_logs@)
    }
}

impl LogRecord {
    pub fn empty() -> (r: LogRecord)
        ensures
            r.attributes@.len() == 0,
            r@ == empty_log_record(),
    {
        LogRecord {
            time_unix_nano: 0,
            observed_time_unix_nano: 0,
            severity_number: 0,
            severity_text: Vec::new(),
            body: Value::Null,
            attributes: Vec::new(),
            dropped_attributes_count: 0,
            flags: 0,
            trace_id: Vec::new(),
            span_id: Vec::new(),
        }
    }

    /// The row of this record under the given resource and scope.
    pub fn to_row(&self, res: &Resource, sc: &Scope) -> (r: Value)
        ensures
            r@ == log_row(*res, *sc, *self),
    {
        let mut e: Vec<(String, Value)> = Vec::new();
        push_entry(&mut e, "time_unix_nano", Value::Integer(clamp_time(self.time_unix_nano)));
        push_entry(
            &mut e,
            "observed_time_unix_nano",
            Value::Integer(clamp_time(self.observed_time_unix_nano)),
        );
        push_entry(&mut e, "severity_number", Value::Integer(self.severity_number as i64));
        push_entry(&mut e, "severity_text", Value::Bytes(self.severity_text.clone()));
        push_entry(&mut e, "body", clone_value(&self.body));
        push_entry(&mut e, "trace_id", Value::Bytes(hex_encode(self.trace_id.as_slice())));
        push_entry(&mut e, "span_id", Value::Bytes(hex_encode(self.span_id.as_slice())));
        push_entry(&mut e, "attributes", Value::Object(clone_entries(&self.attributes)));
        push_entry(&mut e, "resource", res.to_value());
        push_entry(&mut e, "scope", sc.to_value());
        proof {
            assert(entries_view(e@) =~= log_entries(*res, *sc, *self));
        }
        Value::Object(e)
    }
}

/// Decode a `LogRecord` message in `b[start..end]`.
pub fn parse_log_record(b: &[u8], start: usize, end: usize) -> (r: Result<LogRecord, DecodeError>)
    requires
        start <= end <= b@.len(),
    ensures
        r matches Err(e) ==> e is Proto,
        r matches Ok(x) ==> keys_unique(entries_view(x.attributes@)),
        match log_record_from(b@, start as int, end as int, empty_log_record()) {
            Some(m) => r matches Ok(x) && x@ == m,
            None => r is Err,
        },
{
    let mut rec = LogRecord::empty();
    let mut pos = start;
    while pos < end
        invariant
            start <= pos <= end <= b@.len(),
            keys_unique(entries_view(rec.attributes@)),
            log_record_from(b@, pos as int, end as int, rec@) == log_record_from(
                b@,
                start as int,
                end as int,
                empty_log_record(),
            ),
        decreases end - pos,
    {
        let (field, wire, p) = key_at(b, pos, end)?;
        if field == 1 {
            expect_wire(wire, WIRE_FIXED64)?;
            let (x, n) = fixed_at(b, p, end, 8)?;
            rec.time_unix_nano = x;
            pos = n;
        } else if field == 2 {
            expect_wire(wire, WIRE_VARINT)?;
            let (x, n) = varint_at(b, p, end)?;
            rec.severity_number = x as i32;
            pos = n;
        } else if field == 3 {
            expect_wire(wire, WIRE_LEN)?;
            let (t, n) = text_at(b, p, end)?;
            rec.severity_text = t;
            pos = n;
        } else if field == 5 {
            expect_wire(wire, WIRE_LEN)?;
            let (s, e) = len_at(b, p, end)?;
            rec.body = parse_any_value(b, s, e)?;
            pos = e;
        } else if field == 6 {
            expect_wire(wire, WIRE_LEN)?;
            pos = add_attribute(b, p, end, &mut rec.attributes)?;
        } else if field == 7 {
            expect_wire(wire, WIRE_VARINT)?;
            let (x, n) = varint_at(b, p, end)?;
            rec.dropped_attributes_count = x as u32;
            pos = n;
        } else if field == 8 {
            expect_wire(wire, WIRE_FIXED32)?;
            let (x, n) = fixed_at(b, p, end, 4)?;
            rec.flags = x as u32;
            pos = n;
        } else if field == 9 {
            expect_wire(wire, WIRE_LEN)?;
            let (t, n) = bytes_at(b, p, end)?;
            rec.trace_id = t;
            pos = n;
        } else if field == 10 {
            expect_wire(wire, WIRE_LEN)?;
            let (t, n) = bytes_at(b, p, end)?;
            rec.span_id = t;
            pos = n;
        } else if field == 11 {
            expect_wire(wire, WIRE_FIXED64)?;
            let (x, n) = fixed_at(b, p, end, 8)?;
            rec.observed_time_unix_nano = x;
            pos = n;
        } else {
            pos = skip_at(b, p, end, wire)?;
        }
    }
    Ok(rec)
}

/// Decode a `ScopeLogs` message in `b[start..end]`.
pub fn parse_scope_logs(b: &[u8], start: usize, end: usize) -> (r: Result<ScopeLogs, DecodeError>)
    requires
        start <= end <= b@.len(),
    ensures
        r matches Err(e) ==> e is Proto,
        match scope_logs_from(
            b@,
            start as int,
            end as int,
            ScopeLogsModel { scope: empty_scope(), log_records: seq![] },
        ) {
            Some(m) => r matches Ok(x) && x@ == m,
            None => r is Err,
        },
{
    let mut sl = ScopeLogs { scope: Scope::empty(), log_records: Vec::new() };
    let mut pos = start;
    proof {
        assert(sl@.log_records =~= seq![]);
    }
    while pos < end
        invariant
            start <= pos <= end <= b@.len(),
            scope_logs_from(b@, pos as int, end as int, sl@) == scope_logs_from(
                b@,
                start as int,
                end as int,
                ScopeLogsModel { scope: empty_scope(), log_records: seq![] },
            ),
        decreases end - pos,
    {
        let (field, wire, p) = key_at(b, pos, end)?;
        if field == 1 {
            expect_wire(wire, WIRE_LEN)?;
            let (s, e) = len_at(b, p, end)?;
            sl.scope = parse_scope(b, s, e)?;
            pos = e;
        } else if field == 2 {
            expect_wire(wire, WIRE_LEN)?;
            let (s, e) = len_at(b, p, end)?;
            let rec = parse_log_record(b, s, e)?;
            let ghost before = sl@;
            sl.log_records.push(rec);
            proof {
                assert(sl@.log_records =~= before.log_records.push(rec@));
            }
            pos = e;
        } else {
            pos = skip_at(b, p, end, wire)?;
        }
    }
    Ok(sl)
}

/// Decode a `ResourceLogs` message in `b[start..end]`.
pub fn parse_resource_logs(b: &[u8], start: usize, end: usize) -> (r: Result<ResourceLogs, DecodeError>)
    requires
        start <= end <= b@.len(),
    ensures
        r matches Err(e) ==> e is Proto,
        match resource_logs_from(
            b@,
            start as int,
            end as int,
            ResourceLogsModel { resource: empty_resource(), scope_logs: seq![] },
        ) {
            Some(m) => r matches Ok(x) && x@ == m,
            None => r is Err,
        },
{
    let mut rl = ResourceLogs { resource: Resource::empty(), scope_logs: Vec::new() };
    let mut pos = start;
    proof {
        assert(rl@.scope_logs =~= seq![]);
    }
    while pos < end
        invariant
            start <= pos <= end <= b@.len(),
            resource_logs_from(b@, pos as int, end as int, rl@) == resource_logs_from(
                b@,
                start as int,
                end as int,
                ResourceLogsModel { resource: empty_resource(), scope_logs: seq![] },
            ),
        decreases end - pos,
    {
        let (field, wire, p) = key_at(b, pos, end)?;
        if field == 1 {
            expect_wire(wire, WIRE_LEN)?;
            let (s, e) = len_at(b, p, end)?;
            rl.resource = parse_resource(b, s, e)?;
            pos = e;
        } else if field == 2 {
            expect_wire(wire, WIRE_LEN)?;
            let (s, e) = len_at(b, p, end)?;
            let sl = parse_scope_logs(b, s, e)?;
            let ghost before = rl@;
            rl.scope_logs.push(sl);
            proof {
                assert(rl@.scope_logs =~= before.scope_logs.push(sl@));
            }
            pos = e;
        } else {
            pos = skip_at(b, p, end, wire)?;
        }
    }
    Ok(rl)
}

/// Decode an `ExportLogsServiceRequest` message: its resources in order.
pub fn parse_logs_request(b: &[u8]) -> (r: Result<Vec<ResourceLogs>, DecodeError>)
    ensures
        r matches Err(e) ==> e is Proto,
        b@.len() == 0 ==> (r matches Ok(v) && v@.len() == 0),
        match logs_request_spec(b@) {
            Some(m) => r matches Ok(v) && resource_logs_views(v@) == m,
            None => r is Err,
        },
{
    let end = b.len();
    let mut out: Vec<ResourceLogs> = Vec::new();
    let mut pos: usize = 0;
    proof {
        assert(resource_logs_views(out@) =~= seq![]);
    }
    while pos < end
        invariant
            pos <= end == b@.len(),
            end == 0 ==> out@.len() == 0,
            logs_request_from(b@, pos as int, end as int, resource_logs_views(out@))
                == logs_request_spec(b@),
        decreases end - pos,
    {
        let (field, wire, p) = key_at(b, pos, end)?;
        if field == 1 {
            expect_wire(wire, WIRE_LEN)?;
            let (s, e) = len_at(b, p, end)?;
            let rl = parse_resource_logs(b, s, e)?;
            let ghost before = resource_logs_views(out@);
            out.push(rl);
            proof {
                assert(resource_logs_views(out@) =~= before.push(rl@));
            }
            pos = e;
        } else {
            pos = skip_at(b, p, end, wire)?;
        }
    }
    Ok(out)
}

/// Append the rows of one scope's records.
fn push_scope_log_rows(out: &mut Vec<Value>, res: &Resource, sl: &ScopeLogs)
    ensures
        values_view(final(out)@) == values_view(old(out)@) + scope_log_rows(*res, *sl),
{
    let mut k: usize = 0;
    while k < sl.log_records.len()
        invariant
            k <= sl.log_records@.len(),
            values_view(out@) == values_view(old(out)@) + scope_log_rows(*res, *sl).subrange(
                0,
                k as int,
            ),
        decreases sl.log_records@.len() - k,
    {
        let row = sl.log_records[k].to_row(res, &sl.scope);
        push_value(out, row);
        proof {
            assert(values_view(out@) =~= values_view(old(out)@) + scope_log_rows(
                *res,
                *sl,
            ).subrange(0, k + 1));
        }
        k = k + 1;
    }
    proof {
        assert(scope_log_rows(*res, *sl).subrange(0, k as int) =~= scope_log_rows(*res, *sl));
    }
}

/// Append the rows of one resource's records.
fn push_resource_log_rows(out: &mut Vec<Value>, rl: &ResourceLogs)
    ensures
        values_view(final(out)@) == values_view(old(out)@) + scopes_log_rows(
            rl.resource,
            rl.scope_logs@,
        ),
{
    let mut j: usize = 0;
    while j < rl.scope_logs.len()
        invariant
            j <= rl.scope_logs@.len(),
            values_view(out@) == values_view(old(out)@) + scopes_log_rows(
                rl.resource,
                rl.scope_logs@.subrange(0, j as int),
            ),
        decreases rl.scope_logs@.len() - j,
    {
        push_scope_log_rows(out, &rl.resource, &rl.scope_logs[j]);
        proof {
            assert(rl.scope_logs@.subrange(0, j + 1).drop_last() =~= rl.scope_logs@.subrange(
                0,
                j as int,
            ));
            assert(values_view(out@) =~= values_view(old(out)@) + scopes_log_rows(
                rl.resource,
                rl.scope_logs@.subrange(0, j + 1),
            ));
        }
        j = j + 1;
    }
    proof {
        assert(rl.scope_logs@.subrange(0, j as int) =~= rl.scope_logs@);
    }
}

/// The rows of a decoded request: one per log record, resource after
/// resource, scope after scope, each with its resource and scope copied in.
pub fn logs_to_rows(rls: &Vec<ResourceLogs>) -> (r: Vec<Value>)
    ensures
        values_view(r@) == log_rows(rls@),
{
    let mut out: Vec<Value> = Vec::new();
    let mut i: usize = 0;
    while i < rls.len()
        invariant
            i <= rls@.len(),
            values_view(out@) == log_rows(rls@.subrange(0, i as int)),
        decreases rls@.len() - i,
    {
        push_resource_log_rows(&mut out, &rls[i]);
        proof {
            assert(rls@.subrange(0, i + 1).drop_last() =~= rls@.subrange(0, i as int));
        }
        i = i + 1;
    }
    proof {
        assert(rls@.subrange(0, i as int) =~= rls@);
    }
    out
}

/// The log record that an OTLP-JSON log record object gives: camelCase
/// members, 64-bit integers as decimal strings or numbers, identifiers as
/// hexadecimal strings; a member that is absent or of the wrong type reads
/// as zero, empty or null.
pub open spec fn log_record_json(j: JsonModel) -> LogRecordModel {
    LogRecordModel {
        time_unix_nano: ju64(jmember(j, "timeUnixNano"@)),
        observed_time_unix_nano: ju64(jmember(j, "observedTimeUnixNano"@)),
        severity_number: ji64(jmember(j, "severityNumber"@)) as i32,
        severity_text: jtext(jmember(j, "severityText"@)),
        body: match jmember(j, "body"@) {
            Some(b) => any_json(b),
            None => Val::Null,
        },
        attributes: attrs_json(j),
        dropped_attributes_count: ju64(jmember(j, "droppedAttributesCount"@)) as u32,
        flags: ju64(jmember(j, "flags"@)) as u32,
        trace_id: jhex(jmember(j, "traceId"@)),
        span_id: jhex(jmember(j, "spanId"@)),
    }
}

/// The scope entry that an OTLP-JSON `scopeLogs` item gives.
pub open spec fn scope_logs_json(y: JsonModel) -> ScopeLogsModel {
    let recs = jitems(jmember(y, "logRecords"@));
    ScopeLogsModel {
        scope: scope_json(jmember(y, "scope"@)),
        log_records: Seq::new(recs.len(), |k: int| log_record_json(recs[k])),
    }
}

/// The resource entry that an OTLP-JSON `resourceLogs` item gives.
pub open spec fn resource_logs_json(x: JsonModel) -> ResourceLogsModel {
    let sls = jitems(jmember(x, "scopeLogs"@));
    ResourceLogsModel {
        resource: resource_json(jmember(x, "resource"@)),
        scope_logs: Seq::new(sls.len(), |k: int| scope_logs_json(sls[k])),
    }
}

/// The resources that an OTLP-JSON logs document gives, in order.
pub open spec fn logs_json(d: JsonModel) -> Seq<ResourceLogsModel> {
    let rls = jitems(jmember(d, "resourceLogs"@));
    Seq::new(rls.len(), |k: int| resource_logs_json(rls[k]))
}

/// A log record of an OTLP-JSON document.
pub fn log_record_of(j: &Json) -> (r: LogRecord)
    ensures
        r@ == log_record_json(json_view(*j)),
{
    LogRecord {
        time_unix_nano: u64_of(member(j, "timeUnixNano")),
        observed_time_unix_nano: u64_of(member(j, "observedTimeUnixNano")),
        severity_number: i64_of(member(j, "severityNumber")) as i32,
        severity_text: text_of(member(j, "severityText")),
        body: match member(j, "body") {
            Some(b) => any_value_of(b),
            None => Value::Null,
        },
        attributes: attributes_of(j),
        dropped_attributes_count: u64_of(member(j, "droppedAttributesCount")) as u32,
        flags: u64_of(member(j, "flags")) as u32,
        trace_id: hex_bytes_of(member(j, "traceId")),
        span_id: hex_bytes_of(member(j, "spanId")),
    }
}

/// A scope entry of an OTLP-JSON logs document.
fn scope_logs_of(sj: &Json) -> (r: ScopeLogs)
    ensures
        r@ == scope_logs_json(json_view(*sj)),
{
    let mut log_records: Vec<LogRecord> = Vec::new();
    let recs = items(member(sj, "logRecords"));
    let mut k: usize = 0;
    while k < recs.len()
        invariant
            k <= recs@.len(),
            jsons_view(recs@) == jitems(jmember(json_view(*sj), "logRecords"@)),
            jsons_view(recs@).len() == recs@.len(),
            log_records@.len() == k,
            forall|t: int|
                0 <= t < k ==> #[trigger] log_records@[t]@ == log_record_json(jsons_view(recs@)[t]),
        decreases recs@.len() - k,
    {
        proof {
            lemma_jsons_view_index(recs@, k as int);
        }
        log_records.push(log_record_of(&recs[k]));
        k = k + 1;
    }
    let sl = ScopeLogs { scope: scope_of(member(sj, "scope")), log_records };
    proof {
        assert(sl@.log_records =~= scope_logs_json(json_view(*sj)).log_records);
    }
    sl
}

/// A resource entry of an OTLP-JSON logs document.
fn resource_logs_of(rj: &Json) -> (r: ResourceLogs)
    ensures
        r@ == resource_logs_json(json_view(*rj)),
{
    let mut scope_logs: Vec<ScopeLogs> = Vec::new();
    let sls = items(member(rj, "scopeLogs"));
    let mut k: usize = 0;
    while k < sls.len()
        invariant
            k <= sls@.len(),
            jsons_view(sls@) == jitems(jmember(json_view(*rj), "scopeLogs"@)),
            jsons_view(sls@).len() == sls@.len(),
            scope_logs@.len() == k,
            forall|t: int|
                0 <= t < k ==> #[trigger] scope_logs@[t]@ == scope_logs_json(jsons_view(sls@)[t]),
        decreases sls@.len() - k,
    {
        proof {
            lemma_jsons_view_index(sls@, k as int);
        }
        scope_logs.push(scope_logs_of(&sls[k]));
        k = k + 1;
    }
    let rl = ResourceLogs { resource: resource_of(member(rj, "resource")), scope_logs };
    proof {
        assert(rl@.scope_logs =~= resource_logs_json(json_view(*rj)).scope_logs);
    }
    rl
}

/// The resources of an OTLP-JSON logs document, in order.
pub fn logs_of(doc: &Json) -> (r: Vec<ResourceLogs>)
    ensures
        resource_logs_views(r@) == logs_json(json_view(*doc)),
{
    let mut out: Vec<ResourceLogs> = Vec::new();
    let rls = items(member(doc, "resourceLogs"));
    let mut k: usize = 0;
    while k < rls.len()
        invariant
            k <= rls@.len(),
            jsons_view(rls@) == jitems(jmember(json_view(*doc), "resourceLogs"@)),
            jsons_view(rls@).len() == rls@.len(),
            out@.len() == k,
            forall|t: int|
                0 <= t < k ==> #[trigger] out@[t]@ == resource_logs_json(jsons_view(rls@)[t]),
        decreases rls@.len() - k,
    {
        proof {
            lemma_jsons_view_index(rls@, k as int);
        }
        out.push(resource_logs_of(&rls[k]));
        k = k + 1;
    }
    proof {
        assert(resource_logs_views(out@) =~= logs_json(json_view(*doc)));
    }
    out
}

/// Decode an OTLP-JSON logs document: it must be a JSON object.
pub fn parse_logs_json(b: &[u8]) -> (r: Result<Vec<ResourceLogs>, DecodeError>)
    ensures
        r matches Err(e) ==> e is Json,
        r is Ok <==> json_doc_ok(b@) && opens_object(b@),
        r matches Ok(v) ==> (json_doc_model(b@) matches Some(m) && resource_logs_views(v@)
            == logs_json(m)),
{
    let doc = parse_json(b)?;
    if let Json::Object(_) = doc {
        Ok(logs_of(&doc))
    } else {
        Err(json_error("invalid type: expected a logs request object"))
    }
}

/// The number of log records of a request's resources.
pub open spec fn log_record_count(rl: Seq<ResourceLogs>) -> nat
    decreases rl.len(),
{
    if rl.len() == 0 {
        0
    } else {
        log_record_count(rl.drop_last()) + scopes_log_record_count(rl.last().scope_logs@)
    }
}

/// The number of log records of a resource's scopes.
pub open spec fn scopes_log_record_count(s: Seq<ScopeLogs>) -> nat
    decreases s.len(),
{
    if s.len() == 0 {
        0
    } else {
        scopes_log_record_count(s.drop_last()) + s.last().log_records@.len()
    }
}

/// Denormalization of one scope: its N records give exactly N rows, in
/// order, and every row's resource and scope columns are the resource and
/// the scope that the records came under.
pub proof fn lemma_scope_logs_denormalized(res: Resource, sl: ScopeLogs)
    ensures
        scope_log_rows(res, sl).len() == sl.log_records@.len(),
        forall|k: int|
            #![trigger scope_log_rows(res, sl)[k]]
            0 <= k < sl.log_records@.len() ==> {
                &&& scope_log_rows(res, sl)[k] == log_row(res, sl.scope, sl.log_records@[k])
                &&& log_entries(res, sl.scope, sl.log_records@[k])[8] == ("resource"@, resource_val(res))
                &&& log_entries(res, sl.scope, sl.log_records@[k])[9] == ("scope"@, scope_val(sl.scope))
            },
{
}

/// Denormalization of a request: it gives exactly one row per log record.
pub proof fn lemma_log_rows_count(rl: Seq<ResourceLogs>)
    ensures
        log_rows(rl).len() == log_record_count(rl),
    decreases rl.len(),
{
    if rl.len() > 0 {
        lemma_log_rows_count(rl.drop_last());
        lemma_scopes_log_rows_count(rl.last().resource, rl.last().scope_logs@);
    }
}

proof fn lemma_scopes_log_rows_count(res: Resource, s: Seq<ScopeLogs>)
    ensures
        scopes_log_rows(res, s).len() == scopes_log_record_count(s),
    decreases s.len(),
{
    if s.len() > 0 {
        lemma_scopes_log_rows_count(res, s.drop_last());
    }
}

proof fn lemma_scope_log_rows_views(r1: Resource, r2: Resource, s1: ScopeLogs, s2: ScopeLogs)
    requires
        r1@ == r2@,
        s1@ == s2@,
    ensures
        scope_log_rows(r1, s1) == scope_log_rows(r2, s2),
{
    let a = scope_log_rows(r1, s1);
    let b = scope_log_rows(r2, s2);
    assert(s1.log_records@.len() == s1@.log_records.len());
    assert forall|k: int| 0 <= k < a.len() implies a[k] == b[k] by {
        assert(s1@.log_records[k] == s1.log_records@[k]@);
        assert(s2@.log_records[k] == s2.log_records@[k]@);
        assert(s1.log_records@[k]@ == s2.log_records@[k]@);
        assert(log_entries(r1, s1.scope, s1.log_records@[k]) =~= log_entries(
            r2,
            s2.scope,
            s2.log_records@[k],
        ));
    }
    assert(a =~= b);
}

proof fn lemma_scopes_log_rows_views(r1: Resource, r2: Resource, s1: Seq<ScopeLogs>, s2: Seq<ScopeLogs>)
    requires
        r1@ == r2@,
        Seq::new(s1.len(), |i: int| s1[i]@) == Seq::new(s2.len(), |i: int| s2[i]@),
    ensures
        scopes_log_rows(r1, s1) == scopes_log_rows(r2, s2),
    decreases s1.len(),
{
    assert(Seq::new(s1.len(), |i: int| s1[i]@).len() == s2.len());
    if s1.len() > 0 {
        assert(Seq::new(s1.drop_last().len(), |i: int| s1.drop_last()[i]@) =~= Seq::new(
            s2.drop_last().len(),
            |i: int| s2.drop_last()[i]@,
        )) by {
            assert forall|i: int| 0 <= i < s1.len() - 1 implies s1[i]@ == s2[i]@ by {
                assert(Seq::new(s1.len(), |j: int| s1[j]@)[i] == s1[i]@);
                assert(Seq::new(s2.len(), |j: int| s2[j]@)[i] == s2[i]@);
            }
        }
        lemma_scopes_log_rows_views(r1, r2, s1.drop_last(), s2.drop_last());
        assert(Seq::new(s1.len(), |j: int| s1[j]@)[s1.len() - 1] == s1[s1.len() - 1]@);
        assert(Seq::new(s2.len(), |j: int| s2[j]@)[s1.len() - 1] == s2[s1.len() - 1]@);
        assert(s1.last()@ == s2.last()@);
        lemma_scope_log_rows_views(r1, r2, s1.last(), s2.last());
    }
}

/// The rows of a request depend on the models of its resources alone: two
/// decodings that agree on them give the same rows. With the contracts of
/// the decoders, auto-detection that settles on JSON therefore gives the
/// rows that JSON mode gives.
pub proof fn lemma_log_rows_by_models(v1: Seq<ResourceLogs>, v2: Seq<ResourceLogs>)
    requires
        resource_logs_views(v1) == resource_logs_views(v2),
    ensures
        log_rows(v1) == log_rows(v2),
    decreases v1.len(),
{
    assert(resource_logs_views(v1).len() == v2.len());
    if v1.len() > 0 {
        assert(resource_logs_views(v1.drop_last()) =~= resource_logs_views(v2.drop_last())) by {
            assert forall|i: int| 0 <= i < v1.len() - 1 implies v1[i]@ == v2[i]@ by {
                assert(resource_logs_views(v1)[i] == v1[i]@);
                assert(resource_logs_views(v2)[i] == v2[i]@);
            }
        }
        lemma_log_rows_by_models(v1.drop_last(), v2.drop_last());
        assert(resource_logs_views(v1)[v1.len() - 1] == v1[v1.len() - 1]@);
        assert(resource_logs_views(v2)[v1.len() - 1] == v2[v1.len() - 1]@);
        let l1 = v1.last();
        let l2 = v2.last();
        assert(l1@ == l2@);
        assert(l1@.scope_logs == l2@.scope_logs);
        assert(l1.resource@ == l2.resource@);
        lemma_scopes_log_rows_views(l1.resource, l2.resource, l1.scope_logs@, l2.scope_logs@);
    }
}

} // verus!
