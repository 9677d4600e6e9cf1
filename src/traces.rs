//! OTLP traces: the `ExportTraceServiceRequest` message and its rows.

use vstd::prelude::*;
use crate::error::DecodeError;
use crate::json::{json_doc_model, json_doc_ok, json_error, json_view, jsons_view, opens_object, parse_json, Json, JsonModel};
use crate::otlp_json::{
    attributes_of, attrs_json, hex_bytes_of, i64_of, items, jhex, ji64, jitems, jmember, jtext, ju64,
    lemma_jsons_view_index, member, resource_json, resource_of, scope_json, scope_of, text_of,
    u64_of,
};
use crate::proto::{
    keys_unique, add_attribute, bytes_at, expect_wire, fixed_at, key_at, len_at, push_entry, skip_at, text_at,
    varint_at,
};
use crate::resource::{
    empty_resource, empty_scope, parse_resource, parse_scope, resource_from, resource_val, scope_from,
    scope_val, Resource, ResourceModel, Scope, ScopeModel,
};
use crate::proto::attribute_next;
use crate::wire::{fixed_next, key_next, len_next, skip_next, varint_next};
use vstd::utf8::valid_utf8;
use crate::value::{
    clone_entries, entries_view, hex_encode, hex_of, push_value, values_view, Val, Value,
};
use crate::wire::{WIRE_FIXED32, WIRE_FIXED64, WIRE_LEN, WIRE_VARINT};

verus! {

/// A time-stamped event of a span.
pub struct Event {
    pub time_unix_nano: u64,
    pub name: Vec<u8>,
    pub attributes: Vec<(String, Value)>,
    pub dropped_attributes_count: u32,
}

/// A link from a span to another span.
pub struct Link {
    pub trace_id: Vec<u8>,
    pub span_id: Vec<u8>,
    pub trace_state: Vec<u8>,
    pub attributes: Vec<(String, Value)>,
    pub dropped_attributes_count: u32,
    pub flags: u32,
}

/// One span.
pub struct Span {
    pub trace_id: Vec<u8>,
    pub span_id: Vec<u8>,
    pub trace_state: Vec<u8>,
    pub parent_span_id: Vec<u8>,
    pub flags: u32,
    pub name: Vec<u8>,
    pub kind: i32,
    pub start_time_unix_nano: u64,
    pub end_time_unix_nano: u64,
    pub attributes: Vec<(String, Value)>,
    pub dropped_attributes_count: u32,
    pub events: Vec<Event>,
    pub dropped_events_count: u32,
    pub links: Vec<Link>,
    pub dropped_links_count: u32,
    pub status_code: i32,
    pub status_message: Vec<u8>,
}

/// The spans of one instrumentation scope.
pub struct ScopeSpans {
    pub scope: Scope,
    pub spans: Vec<Span>,
}

/// The spans of one resource, by scope.
pub struct ResourceSpans {
    pub resource: Resource,
    pub scope_spans: Vec<ScopeSpans>,
}

/// The model of an [`Event`].
pub ghost struct EventModel {
    pub time_unix_nano: u64,
    pub name: Seq<u8>,
    pub attributes: Seq<(Seq<char>, Val)>,
    pub dropped_attributes_count: u32,
}

/// The model of a [`Link`].
pub ghost struct LinkModel {
    pub trace_id: Seq<u8>,
    pub span_id: Seq<u8>,
    pub trace_state: Seq<u8>,
    pub attributes: Seq<(Seq<char>, Val)>,
    pub dropped_attributes_count: u32,
    pub flags: u32,
}

/// The model of a [`Span`].
pub ghost struct SpanModel {
    pub trace_id: Seq<u8>,
    pub span_id: Seq<u8>,
    pub trace_state: Seq<u8>,
    pub parent_span_id: Seq<u8>,
    pub flags: u32,
    pub name: Seq<u8>,
    pub kind: i32,
    pub start_time_unix_nano: u64,
    pub end_time_unix_nano: u64,
    pub attributes: Seq<(Seq<char>, Val)>,
    pub dropped_attributes_count: u32,
    pub events: Seq<EventModel>,
    pub dropped_events_count: u32,
    pub links: Seq<LinkModel>,
    pub dropped_links_count: u32,
    pub status_code: i32,
    pub status_message: Seq<u8>,
}

/// The model of a [`ScopeSpans`].
pub ghost struct ScopeSpansModel {
    pub scope: ScopeModel,
    pub spans: Seq<SpanModel>,
}

/// The model of a [`ResourceSpans`].
pub ghost struct ResourceSpansModel {
    pub resource: ResourceModel,
    pub scope_spans: Seq<ScopeSpansModel>,
}

impl View for Event {
    type V = EventModel;

    open spec fn view(&self) -> EventModel {
        EventModel {
            time_unix_nano: self.time_unix_nano,
            name: self.name@,
            attributes: entries_view(self.attributes@),
            dropped_attributes_count: self.dropped_attributes_count,
        }
    }
}

impl View for Link {
    type V = LinkModel;

    open spec fn view(&self) -> LinkModel {
        LinkModel {
            trace_id: self.trace_id@,
            span_id: self.span_id@,
            trace_state: self.trace_state@,
            attributes: entries_view(self.attributes@),
            dropped_attributes_count: self.dropped_attributes_count,
            flags: self.flags,
        }
    }
}

impl View for Span {
    type V = SpanModel;

    open spec fn view(&self) -> SpanModel {
        SpanModel {
            trace_id: self.trace_id@,
            span_id: self.span_id@,
            trace_state: self.trace_state@,
            parent_span_id: self.parent_span_id@,
            flags: self.flags,
            name: self.name@,
            kind: self.kind,
            start_time_unix_nano: self.start_time_unix_nano,
            end_time_unix_nano: self.end_time_unix_nano,
            attributes: entries_view(self.attributes@),
            dropped_attributes_count: self.dropped_attributes_count,
            events: Seq::new(self.events@.len(), |i: int| self.events@[i]@),
            dropped_events_count: self.dropped_events_count,
            links: Seq::new(self.links@.len(), |i: int| self.links@[i]@),
            dropped_links_count: self.dropped_links_count,
            status_code: self.status_code,
            status_message: self.status_message@,
        }
    }
}

impl View for ScopeSpans {
    type V = ScopeSpansModel;

    open spec fn view(&self) -> ScopeSpansModel {
        ScopeSpansModel {
            scope: self.scope@,
            spans: Seq::new(self.spans@.len(), |i: int| self.spans@[i]@),
        }
    }
}

impl View for ResourceSpans {
    type V = ResourceSpansModel;

    open spec fn view(&self) -> ResourceSpansModel {
        ResourceSpansModel {
            resource: self.resource@,
            scope_spans: Seq::new(self.scope_spans@.len(), |i: int| self.scope_spans@[i]@),
        }
    }
}

/// The models of decoded resources.
pub open spec fn resource_spans_views(v: Seq<ResourceSpans>) -> Seq<ResourceSpansModel> {
    Seq::new(v.len(), |i: int| v[i]@)
}

pub open spec fn empty_event() -> EventModel {
    EventModel { time_unix_nano: 0, name: seq![], attributes: seq![], dropped_attributes_count: 0 }
}

pub open spec fn empty_link() -> LinkModel {
    LinkModel {
        trace_id: seq![],
        span_id: seq![],
        trace_state: seq![],
        attributes: seq![],
        dropped_attributes_count: 0,
        flags: 0,
    }
}

pub open spec fn empty_span() -> SpanModel {
    SpanModel {
        trace_id: seq![],
        span_id: seq![],
        trace_state: seq![],
        parent_span_id: seq![],
        flags: 0,
        name: seq![],
        kind: 0,
        start_time_unix_nano: 0,
        end_time_unix_nano: 0,
        attributes: seq![],
        dropped_attributes_count: 0,
        events: seq![],
        dropped_events_count: 0,
        links: seq![],
        dropped_links_count: 0,
        status_code: 0,
        status_message: seq![],
    }
}

/// What the fields of an `Event` message in `b[pos..end]` decode to, after
/// `acc`: the last `time_unix_nano` (1), `name` (2) and
/// `dropped_attributes_count` (4), each `attributes` entry (3) bound in turn.
pub open spec fn event_from(b: Seq<u8>, pos: int, end: int, acc: EventModel) -> Option<EventModel>
    decreases end - pos,
{
    if pos >= end {
        Some(acc)
    } else {
        match key_next(b, pos, end) {
            None => None,
            Some((f, w, p)) => if f == 1 {
                if w != WIRE_FIXED64 {
                    None
                } else {
                    match fixed_next(b, p, end, 8) {
                        None => None,
                        Some((x, n)) => event_from(b, n, end, EventModel { time_unix_nano: x, ..acc }),
                    }
                }
            } else if f == 2 {
                if w != WIRE_LEN {
                    None
                } else {
                    match len_next(b, p, end) {
                        None => None,
                        Some((s, e)) => if valid_utf8(b.subrange(s, e)) {
                            event_from(b, e, end, EventModel { name: b.subrange(s, e), ..acc })
                        } else {
                            None
                        },
                    }
                }
            } else if f == 3 {
                if w != WIRE_LEN {
                    None
                } else {
                    match attribute_next(b, p, end, acc.attributes) {
                        None => None,
                        Some((es, n)) => event_from(b, n, end, EventModel { attributes: es, ..acc }),
                    }
                }
            } else if f == 4 {
                if w != WIRE_VARINT {
                    None
                } else {
                    match varint_next(b, p, end) {
                        None => None,
                        Some((x, n)) => event_from(
                            b,
                            n,
                            end,
                            EventModel { dropped_attributes_count: x as u32, ..acc },
                        ),
                    }
                }
            } else {
                match skip_next(b, p, end, w) {
                    None => None,
                    Some(n) => event_from(b, n, end, acc),
                }
            },
        }
    }
}

/// What the fields of a `Link` message in `b[pos..end]` decode to, after
/// `acc`: the last `trace_id` (1), `span_id` (2), `trace_state` (3),
/// `dropped_attributes_count` (5) and `flags` (6), each `attributes` entry
/// (4) bound in turn.
pub open spec fn link_from(b: Seq<u8>, pos: int, end: int, acc: LinkModel) -> Option<LinkModel>
    decreases end - pos,
{
    if pos >= end {
        Some(acc)
    } else {
        match key_next(b, pos, end) {
            None => None,
            Some((f, w, p)) => if f == 1 || f == 2 || f == 3 {
                if w != WIRE_LEN {
                    None
                } else {
                    match len_next(b, p, end) {
                        None => None,
                        Some((s, e)) => {
                            let t = b.subrange(s, e);
                            if f == 1 {
                                link_from(b, e, end, LinkModel { trace_id: t, ..acc })
                            } else if f == 2 {
                                link_from(b, e, end, LinkModel { span_id: t, ..acc })
                            } else if valid_utf8(t) {
                                link_from(b, e, end, LinkModel { trace_state: t, ..acc })
                            } else {
                                None
                            }
                        },
                    }
                }
            } else if f == 4 {
                if w != WIRE_LEN {
                    None
                } else {
                    match attribute_next(b, p, end, acc.attributes) {
                        None => None,
                        Some((es, n)) => link_from(b, n, end, LinkModel { attributes: es, ..acc }),
                    }
                }
            } else if f == 5 {
                if w != WIRE_VARINT {
                    None
                } else {
                    match varint_next(b, p, end) {
                        None => None,
                        Some((x, n)) => link_from(
                            b,
                            n,
                            end,
                            LinkModel { dropped_attributes_count: x as u32, ..acc },
                        ),
                    }
                }
            } else if f == 6 {
                if w != WIRE_FIXED32 {
                    None
                } else {
                    match fixed_next(b, p, end, 4) {
                        None => None,
                        Some((x, n)) => link_from(b, n, end, LinkModel { flags: x as u32, ..acc }),
                    }
                }
            } else {
                match skip_next(b, p, end, w) {
                    None => None,
                    Some(n) => link_from(b, n, end, acc),
                }
            },
        }
    }
}

/// What the fields of a span's `Status` message in `b[pos..end]` make of
/// the span `acc`: the last `message` (2) and `code` (3).
pub open spec fn status_from(b: Seq<u8>, pos: int, end: int, acc: SpanModel) -> Option<SpanModel>
    decreases end - pos,
{
    if pos >= end {
        Some(acc)
    } else {
        match key_next(b, pos, end) {
            None => None,
            Some((f, w, p)) => if f == 2 {
                if w != WIRE_LEN {
                    None
                } else {
                    match len_next(b, p, end) {
                        None => None,
                        Some((s, e)) => if valid_utf8(b.subrange(s, e)) {
                            status_from(b, e, end, SpanModel { status_message: b.subrange(s, e), ..acc })
                        } else {
                            None
                        },
                    }
                }
            } else if f == 3 {
                if w != WIRE_VARINT {
                    None
                } else {
                    match varint_next(b, p, end) {
                        None => None,
                        Some((x, n)) => status_from(b, n, end, SpanModel { status_code: x as i32, ..acc }),
                    }
                }
            } else {
                match skip_next(b, p, end, w) {
                    None => None,
                    Some(n) => status_from(b, n, end, acc),
                }
            },
        }
    }
}

/// What the fields of a `Span` message in `b[pos..end]` decode to, after
/// `acc`: the last of each scalar field, each `attributes` entry (9) bound
/// in turn, `events` (11) and `links` (13) in order, the `status` (15)
/// applied; other fields are skipped.
pub open spec fn span_from(b: Seq<u8>, pos: int, end: int, acc: SpanModel) -> Option<SpanModel>
    decreases end - pos,
{
    if pos >= end {
        Some(acc)
    } else {
        match key_next(b, pos, end) {
            None => None,
            Some((f, w, p)) => if f == 1 || f == 2 || f == 4 || f == 3 || f == 5 {
                if w != WIRE_LEN {
                    None
                } else {
                    match len_next(b, p, end) {
                        None => None,
                        Some((s, e)) => {
                            let t = b.subrange(s, e);
                            if f == 1 {
                                span_from(b, e, end, SpanModel { trace_id: t, ..acc })
                            } else if f == 2 {
                                span_from(b, e, end, SpanModel { span_id: t, ..acc })
                            } else if f == 4 {
                                span_from(b, e, end, SpanModel { parent_span_id: t, ..acc })
                            } else if !valid_utf8(t) {
                                None
                            } else if f == 3 {
                                span_from(b, e, end, SpanModel { trace_state: t, ..acc })
                            } else {
                                span_from(b, e, end, SpanModel { name: t, ..acc })
                            }
                        },
                    }
                }
            } else if f == 6 || f == 10 || f == 12 || f == 14 {
                if w != WIRE_VARINT {
                    None
                } else {
                    match varint_next(b, p, end) {
                        None => None,
                        Some((x, n)) => span_from(
                            b,
                            n,
                            end,
                            if f == 6 {
                                SpanModel { kind: x as i32, ..acc }
                            } else if f == 10 {
                                SpanModel { dropped_attributes_count: x as u32, ..acc }
                            } else if f == 12 {
                                SpanModel { dropped_events_count: x as u32, ..acc }
                            } else {
                                SpanModel { dropped_links_count: x as u32, ..acc }
                            },
                        ),
                    }
                }
            } else if f == 7 || f == 8 {
                if w != WIRE_FIXED64 {
                    None
                } else {
                    match fixed_next(b, p, end, 8) {
                        None => None,
                        Some((x, n)) => span_from(
                            b,
                            n,
                            end,
                            if f == 7 {
                                SpanModel { start_time_unix_nano: x, ..acc }
                            } else {
                                SpanModel { end_time_unix_nano: x, ..acc }
                            },
                        ),
                    }
                }
            } else if f == 9 {
                if w != WIRE_LEN {
                    None
                } else {
                    match attribute_next(b, p, end, acc.attributes) {
                        None => None,
                        Some((es, n)) => span_from(b, n, end, SpanModel { attributes: es, ..acc }),
                    }
                }
            } else if f == 11 || f == 13 || f == 15 {
                if w != WIRE_LEN {
                    None
                } else {
                    match len_next(b, p, end) {
                        None => None,
                        Some((s, e)) => if f == 11 {
                            match event_from(b, s, e, empty_event()) {
                                None => None,
                                Some(ev) => span_from(
                                    b,
                                    e,
                                    end,
                                    SpanModel { events: acc.events.push(ev), ..acc },
                                ),
                            }
                        } else if f == 13 {
                            match link_from(b, s, e, empty_link()) {
                                None => None,
                                Some(l) => span_from(
                                    b,
                                    e,
                                    end,
                                    SpanModel { links: acc.links.push(l), ..acc },
                                ),
                            }
                        } else {
                            match status_from(b, s, e, acc) {
                                None => None,
                                Some(sp) => span_from(b, e, end, sp),
                            }
                        },
                    }
                }
            } else if f == 16 {
                if w != WIRE_FIXED32 {
                    None
                } else {
                    match fixed_next(b, p, end, 4) {
                        None => None,
                        Some((x, n)) => span_from(b, n, end, SpanModel { flags: x as u32, ..acc }),
                    }
                }
            } else {
                match skip_next(b, p, end, w) {
                    None => None,
                    Some(n) => span_from(b, n, end, acc),
                }
            },
        }
    }
}

/// What the fields of a `ScopeSpans` message in `b[pos..end]` decode to,
/// after `acc`: the last `scope` (1) and each of the `spans` (2) in order.
pub open spec fn scope_spans_from(b: Seq<u8>, pos: int, end: int, acc: ScopeSpansModel) -> Option<
    ScopeSpansModel,
>
    decreases end - pos,
{
    if pos >= end {
        Some(acc)
    } else {
        match key_next(b, pos, end) {
            None => None,
            Some((f, w, p)) => if f == 1 || f == 2 {
                if w != WIRE_LEN {
                    None
                } else {
                    match len_next(b, p, end) {
                        None => None,
                        Some((s, e)) => if f == 1 {
                            match scope_from(b, s, e, empty_scope()) {
                                None => None,
                                Some(sc) => scope_spans_from(b, e, end, ScopeSpansModel { scope: sc, ..acc }),
                            }
                        } else {
                            match span_from(b, s, e, empty_span()) {
                                None => None,
                                Some(sp) => scope_spans_from(
                                    b,
                                    e,
                                    end,
                                    ScopeSpansModel { spans: acc.spans.push(sp), ..acc },
                                ),
                            }
                        },
                    }
                }
            } else {
                match skip_next(b, p, end, w) {
                    None => None,
                    Some(n) => scope_spans_from(b, n, end, acc),
                }
            },
        }
    }
}

/// What the fields of a `ResourceSpans` message in `b[pos..end]` decode to,
/// after `acc`: the last `resource` (1) and each of the `scope_spans` (2) in order.
pub open spec fn resource_spans_from(b: Seq<u8>, pos: int, end: int, acc: ResourceSpansModel) -> Option<
    ResourceSpansModel,
>
    decreases end - pos,
{
    if pos >= end {
        Some(acc)
    } else {
        match key_next(b, pos, end) {
            None => None,
            Some((f, w, p)) => if f == 1 || f == 2 {
                if w != WIRE_LEN {
                    None
                } else {
                    match len_next(b, p, end) {
                        None => None,
                        Some((s, e)) => if f == 1 {
                            match resource_from(b, s, e, empty_resource()) {
                                None => None,
                                Some(r) => resource_spans_from(
                                    b,
                                    e,
                                    end,
                                    ResourceSpansModel { resource: r, ..acc },
                                ),
                            }
                        } else {
                            match scope_spans_from(
                                b,
                                s,
                                e,
                                ScopeSpansModel { scope: empty_scope(), spans: seq![] },
                            ) {
                                None => None,
                                Some(ss) => resource_spans_from(
                                    b,
                                    e,
                                    end,
                                    ResourceSpansModel { scope_spans: acc.scope_spans.push(ss), ..acc },
                                ),
                            }
                        },
                    }
                }
            } else {
                match skip_next(b, p, end, w) {
                    None => None,
                    Some(n) => resource_spans_from(b, n, end, acc),
                }
            },
        }
    }
}

/// What the fields of an `ExportTraceServiceRequest` message in
/// `b[pos..end]` decode to, after `acc`: each of the `resource_spans` (1) in order.
pub open spec fn traces_request_from(b: Seq<u8>, pos: int, end: int, acc: Seq<ResourceSpansModel>) -> Option<
    Seq<ResourceSpansModel>,
>
    decreases end - pos,
{
    if pos >= end {
        Some(acc)
    } else {
        match key_next(b, pos, end) {
            None => None,
            Some((f, w, p)) => if f == 1 {
                if w != WIRE_LEN {
                    None
                } else {
                    match len_next(b, p, end) {
                        None => None,
                        Some((s, e)) => match resource_spans_from(
                            b,
                            s,
                            e,
                            ResourceSpansModel { resource: empty_resource(), scope_spans: seq![] },
                        ) {
                            None => None,
                            Some(rs) => traces_request_from(b, e, end, acc.push(rs)),
                        },
                    }
                }
            } else {
                match skip_next(b, p, end, w) {
                    None => None,
                    Some(n) => traces_request_from(b, n, end, acc),
                }
            },
        }
    }
}

/// The resources that an `ExportTraceServiceRequest` message decodes to.
pub open spec fn traces_request_spec(b: Seq<u8>) -> Option<Seq<ResourceSpansModel>> {
    traces_request_from(b, 0, b.len() as int, seq![])
}

/// A timestamp column: null where the timestamp is absent (zero).
pub open spec fn time_val(t: u64) -> Val {
    if t == 0 {
        Val::Null
    } else {
        Val::Integer(clamped(t))
    }
}

/// A timestamp as a signed 64-bit value, saturated at the largest one.
pub open spec fn clamped(t: u64) -> i64 {
    if t > i64::MAX as u64 {
        i64::MAX
    } else {
        t as i64
    }
}

/// The duration of a span, from the values of its timestamp columns: end
/// minus start, or zero where the span ends before it starts; null where
/// either timestamp is absent.
pub open spec fn duration_val(start: u64, end: u64) -> Val {
    if start == 0 || end == 0 {
        Val::Null
    } else if clamped(end) >= clamped(start) {
        Val::Integer((clamped(end) - clamped(start)) as i64)
    } else {
        Val::Integer(0)
    }
}

pub(crate) fn clamp_time(t: u64) -> (r: i64)
    ensures
        r == clamped(t),
{
    if t > 0x7fff_ffff_ffff_ffff {
        0x7fff_ffff_ffff_ffff
    } else {
        t as i64
    }
}

pub open spec fn event_val(e: Event) -> Val {
    Val::Object(
        seq![
            ("time_unix_nano"@, Val::Integer(e.time_unix_nano as i64)),
            ("name"@, Val::Bytes(e.name@)),
            ("attributes"@, Val::Object(entries_view(e.attributes@))),
            ("dropped_attributes_count"@, Val::Integer(e.dropped_attributes_count as i64)),
        ],
    )
}

pub open spec fn link_val(l: Link) -> Val {
    Val::Object(
        seq![
            ("trace_id"@, Val::Bytes(hex_of(l.trace_id@))),
            ("span_id"@, Val::Bytes(hex_of(l.span_id@))),
            ("trace_state"@, Val::Bytes(l.trace_state@)),
            ("attributes"@, Val::Object(entries_view(l.attributes@))),
            ("dropped_attributes_count"@, Val::Integer(l.dropped_attributes_count as i64)),
            ("flags"@, Val::Integer(l.flags as i64)),
        ],
    )
}

/// The columns of the row of one span, in schema order.
pub open spec fn span_entries(res: Resource, sc: Scope, s: Span) -> Seq<(Seq<char>, Val)> {
    seq![
        ("trace_id"@, Val::Bytes(hex_of(s.trace_id@))),
        ("span_id"@, Val::Bytes(hex_of(s.span_id@))),
        ("parent_span_id"@, Val::Bytes(hex_of(s.parent_span_id@))),
        ("trace_state"@, Val::Bytes(s.trace_state@)),
        ("name"@, Val::Bytes(s.name@)),
        ("kind"@, Val::Integer(s.kind as i64)),
        ("start_time_unix_nano"@, time_val(s.start_time_unix_nano)),
        ("end_time_unix_nano"@, time_val(s.end_time_unix_nano)),
        ("duration_ns"@, duration_val(s.start_time_unix_nano, s.end_time_unix_nano)),
        ("attributes"@, Val::Object(entries_view(s.attributes@))),
        ("status_code"@, Val::Integer(s.status_code as i64)),
        ("status_message"@, Val::Bytes(s.status_message@)),
        ("events"@, Val::Array(Seq::new(s.events@.len(), |i: int| event_val(s.events@[i])))),
        ("links"@, Val::Array(Seq::new(s.links@.len(), |i: int| link_val(s.links@[i])))),
        ("dropped_attributes_count"@, Val::Integer(s.dropped_attributes_count as i64)),
        ("dropped_events_count"@, Val::Integer(s.dropped_events_count as i64)),
        ("dropped_links_count"@, Val::Integer(s.dropped_links_count as i64)),
        ("flags"@, Val::Integer(s.flags as i64)),
        ("resource"@, resource_val(res)),
        ("scope"@, scope_val(sc)),
    ]
}

/// The row of one span, with its resource and scope copied in.
pub open spec fn span_row(res: Resource, sc: Scope, s: Span) -> Val {
    Val::Object(span_entries(res, sc, s))
}

/// The rows of the spans of one scope, in order.
pub open spec fn scope_span_rows(res: Resource, ss: ScopeSpans) -> Seq<Val> {
    Seq::new(ss.spans@.len(), |k: int| span_row(res, ss.scope, ss.spans@[k]))
}

/// The rows of the spans of a resource's scopes, scope after scope.
pub open spec fn scopes_span_rows(res: Resource, s: Seq<ScopeSpans>) -> Seq<Val>
    decreases s.len(),
{
    if s.len() == 0 {
        seq![]
    } else {
        scopes_span_rows(res, s.drop_last()) + scope_span_rows(res, s.last())
    }
}

/// The rows of a request: resource after resource, scope after scope, span after span.
pub open spec fn span_rows(rs: Seq<ResourceSpans>) -> Seq<Val>
    decreases rs.len(),
{
    if rs.len() == 0 {
        seq![]
    } else {
        span_rows(rs.drop_last()) + scopes_span_rows(rs.last().resource, rs.last().scope_spans@)
    }
}

/// The value of a timestamp column.
fn time_value(t: u64) -> (r: Value)
    ensures
        r@ == time_val(t),
{
    if t == 0 {
        Value::Null
    } else {
        Value::Integer(clamp_time(t))
    }
}

/// The value of the `duration_ns` column.
pub fn duration_value(start: u64, end: u64) -> (r: Value)
    ensures
        r@ == duration_val(start, end),
{
    if start == 0 || end == 0 {
        Value::Null
    } else {
        let a = clamp_time(start);
        let e = clamp_time(end);
        if e >= a {
            Value::Integer(e - a)
        } else {
            Value::Integer(0)
        }
    }
}

impl Event {
    pub fn to_value(&self) -> (r: Value)
        ensures
            r@ == event_val(*self),
    {
        let mut e: Vec<(String, Value)> = Vec::new();
        push_entry(&mut e, "time_unix_nano", Value::Integer(self.time_unix_nano as i64));
        push_entry(&mut e, "name", Value::Bytes(self.name.clone()));
        push_entry(&mut e, "attributes", Value::Object(clone_entries(&self.attributes)));
        push_entry(
            &mut e,
            "dropped_attributes_count",
            Value::Integer(self.dropped_attributes_count as i64),
        );
        proof {
            assert(entries_view(e@) =~= seq![
                ("time_unix_nano"@, Val::Integer(self.time_unix_nano as i64)),
                ("name"@, Val::Bytes(self.name@)),
                ("attributes"@, Val::Object(entries_view(self.attributes@))),
                ("dropped_attributes_count"@, Val::Integer(self.dropped_attributes_count as i64)),
            ]);
        }
        Value::Object(e)
    }
}

impl Link {
    pub fn to_value(&self) -> (r: Value)
        ensures
            r@ == link_val(*self),
    {
        let mut e: Vec<(String, Value)> = Vec::new();
        push_entry(&mut e, "trace_id", Value::Bytes(hex_encode(self.trace_id.as_slice())));
        push_entry(&mut e, "span_id", Value::Bytes(hex_encode(self.span_id.as_slice())));
        push_entry(&mut e, "trace_state", Value::Bytes(self.trace_state.clone()));
        push_entry(&mut e, "attributes", Value::Object(clone_entries(&self.attributes)));
        push_entry(
            &mut e,
            "dropped_attributes_count",
            Value::Integer(self.dropped_attributes_count as i64),
        );
        push_entry(&mut e, "flags", Value::Integer(self.flags as i64));
        proof {
            assert(entries_view(e@) =~= seq![
                ("trace_id"@, Val::Bytes(hex_of(self.trace_id@))),
                ("span_id"@, Val::Bytes(hex_of(self.span_id@))),
                ("trace_state"@, Val::Bytes(self.trace_state@)),
                ("attributes"@, Val::Object(entries_view(self.attributes@))),
                ("dropped_attributes_count"@, Val::Integer(self.dropped_attributes_count as i64)),
                ("flags"@, Val::Integer(self.flags as i64)),
            ]);
        }
        Value::Object(e)
    }
}

fn events_value(ev: &Vec<Event>) -> (r: Value)
    ensures
        r@ == Val::Array(Seq::new(ev@.len(), |i: int| event_val(ev@[i]))),
{
    let mut out: Vec<Value> = Vec::new();
    let mut k: usize = 0;
    while k < ev.len()
        invariant
            k <= ev@.len(),
            values_view(out@) == Seq::new(k as nat, |i: int| event_val(ev@[i])),
        decreases ev@.len() - k,
    {
        push_value(&mut out, ev[k].to_value());
        proof {
            assert(values_view(out@) =~= Seq::new((k + 1) as nat, |i: int| event_val(ev@[i])));
        }
        k = k + 1;
    }
    Value::Array(out)
}

fn links_value(ls: &Vec<Link>) -> (r: Value)
    ensures
        r@ == Val::Array(Seq::new(ls@.len(), |i: int| link_val(ls@[i]))),
{
    let mut out: Vec<Value> = Vec::new();
    let mut k: usize = 0;
    while k < ls.len()
        invariant
            k <= ls@.len(),
            values_view(out@) == Seq::new(k as nat, |i: int| link_val(ls@[i])),
        decreases ls@.len() - k,
    {
        push_value(&mut out, ls[k].to_value());
        proof {
            assert(values_view(out@) =~= Seq::new((k + 1) as nat, |i: int| link_val(ls@[i])));
        }
        k = k + 1;
    }
    Value::Array(out)
}

impl Span {
    /// The row of this span under the given resource and scope.
    #[verifier::rlimit(40)]
    pub fn to_row(&self, res: &Resource, sc: &Scope) -> (r: Value)
        ensures
            r@ == span_row(*res, *sc, *self),
    {
        let mut e: Vec<(String, Value)> = Vec::new();
        push_entry(&mut e, "trace_id", Value::Bytes(hex_encode(self.trace_id.as_slice())));
        push_entry(&mut e, "span_id", Value::Bytes(hex_encode(self.span_id.as_slice())));
        push_entry(
            &mut e,
            "parent_span_id",
            Value::Bytes(hex_encode(self.parent_span_id.as_slice())),
        );
        push_entry(&mut e, "trace_state", Value::Bytes(self.trace_state.clone()));
        push_entry(&mut e, "name", Value::Bytes(self.name.clone()));
        push_entry(&mut e, "kind", Value::Integer(self.kind as i64));
        push_entry(&mut e, "start_time_unix_nano", time_value(self.start_time_unix_nano));
        push_entry(&mut e, "end_time_unix_nano", time_value(self.end_time_unix_nano));
        push_entry(
            &mut e,
            "duration_ns",
            duration_value(self.start_time_unix_nano, self.end_time_unix_nano),
        );
        push_entry(&mut e, "attributes", Value::Object(clone_entries(&self.attributes)));
        push_entry(&mut e, "status_code", Value::Integer(self.status_code as i64));
        push_entry(&mut e, "status_message", Value::Bytes(self.status_message.clone()));
        push_entry(&mut e, "events", events_value(&self.events));
        push_entry(&mut e, "links", links_value(&self.links));
        push_entry(
            &mut e,
            "dropped_attributes_count",
            Value::Integer(self.dropped_attributes_count as i64),
        );
        push_entry(&mut e, "dropped_events_count", Value::Integer(self.dropped_events_count as i64));
        push_entry(&mut e, "dropped_links_count", Value::Integer(self.dropped_links_count as i64));
        push_entry(&mut e, "flags", Value::Integer(self.flags as i64));
        push_entry(&mut e, "resource", res.to_value());
        push_entry(&mut e, "scope", sc.to_value());
        proof {
            assert(entries_view(e@) =~= span_entries(*res, *sc, *self));
        }
        Value::Object(e)
    }
}

/// Decode an `Event` message of a span in `b[start..end]`.
pub fn parse_event(b: &[u8], start: usize, end: usize) -> (r: Result<Event, DecodeError>)
    requires
        start <= end <= b@.len(),
    ensures
        r matches Err(e) ==> e is Proto,
        match event_from(b@, start as int, end as int, empty_event()) {
            Some(m) => r matches Ok(x) && x@ == m,
            None => r is Err,
        },
{
    let mut ev = Event {
        time_unix_nano: 0,
        name: Vec::new(),
        attributes: Vec::new(),
        dropped_attributes_count: 0,
    };
    let mut pos = start;
    while pos < end
        invariant
            start <= pos <= end <= b@.len(),
            event_from(b@, pos as int, end as int, ev@) == event_from(
                b@,
                start as int,
                end as int,
                empty_event(),
            ),
        decreases end - pos,
    {
        let (field, wire, p) = key_at(b, pos, end)?;
        if field == 1 {
            expect_wire(wire, WIRE_FIXED64)?;
            let (x, n) = fixed_at(b, p, end, 8)?;
            ev.time_unix_nano = x;
            pos = n;
        } else if field == 2 {
            expect_wire(wire, WIRE_LEN)?;
            let (t, n) = text_at(b, p, end)?;
            ev.name = t;
            pos = n;
        } else if field == 3 {
            expect_wire(wire, WIRE_LEN)?;
            pos = add_attribute(b, p, end, &mut ev.attributes)?;
        } else if field == 4 {
            expect_wire(wire, WIRE_VARINT)?;
            let (x, n) = varint_at(b, p, end)?;
            ev.dropped_attributes_count = x as u32;
            pos = n;
        } else {
            pos = skip_at(b, p, end, wire)?;
        }
    }
    Ok(ev)
}

/// Decode a `Link` message of a span in `b[start..end]`.
pub fn parse_link(b: &[u8], start: usize, end: usize) -> (r: Result<Link, DecodeError>)
    requires
        start <= end <= b@.len(),
    ensures
        r matches Err(e) ==> e is Proto,
        match link_from(b@, start as int, end as int, empty_link()) {
            Some(m) => r matches Ok(x) && x@ == m,
            None => r is Err,
        },
{
    let mut l = Link {
        trace_id: Vec::new(),
        span_id: Vec::new(),
        trace_state: Vec::new(),
        attributes: Vec::new(),
        dropped_attributes_count: 0,
        flags: 0,
    };
    let mut pos = start;
    while pos < end
        invariant
            start <= pos <= end <= b@.len(),
            link_from(b@, pos as int, end as int, l@) == link_from(
                b@,
                start as int,
                end as int,
                empty_link(),
            ),
        decreases end - pos,
    {
        let (field, wire, p) = key_at(b, pos, end)?;
        if field == 1 {
            expect_wire(wire, WIRE_LEN)?;
            let (t, n) = bytes_at(b, p, end)?;
            l.trace_id = t;
            pos = n;
        } else if field == 2 {
            expect_wire(wire, WIRE_LEN)?;
            let (t, n) = bytes_at(b, p, end)?;
            l.span_id = t;
            pos = n;
        } else if field == 3 {
            expect_wire(wire, WIRE_LEN)?;
            let (t, n) = text_at(b, p, end)?;
            l.trace_state = t;
            pos = n;
        } else if field == 4 {
            expect_wire(wire, WIRE_LEN)?;
            pos = add_attribute(b, p, end, &mut l.attributes)?;
        } else if field == 5 {
            expect_wire(wire, WIRE_VARINT)?;
            let (x, n) = varint_at(b, p, end)?;
            l.dropped_attributes_count = x as u32;
            pos = n;
        } else if field == 6 {
            expect_wire(wire, WIRE_FIXED32)?;
            let (x, n) = fixed_at(b, p, end, 4)?;
            l.flags = x as u32;
            pos = n;
        } else {
            pos = skip_at(b, p, end, wire)?;
        }
    }
    Ok(l)
}

/// Decode the `Status` message of a span in `b[start..end]` into `sp`.
fn parse_status(b: &[u8], start: usize, end: usize, sp: &mut Span) -> (r: Result<(), DecodeError>)
    requires
        start <= end <= b@.len(),
    ensures
        r matches Err(e) ==> e is Proto,
        final(sp).attributes == old(sp).attributes,
        match status_from(b@, start as int, end as int, old(sp)@) {
            Some(m) => r is Ok && final(sp)@ == m,
            None => r is Err,
        },
{
    let mut pos = start;
    while pos < end
        invariant
            start <= pos <= end <= b@.len(),
            sp.attributes == old(sp).attributes,
            status_from(b@, pos as int, end as int, sp@) == status_from(
                b@,
                start as int,
                end as int,
                old(sp)@,
            ),
        decreases end - pos,
    {
        let (field, wire, p) = key_at(b, pos, end)?;
        if field == 2 {
            expect_wire(wire, WIRE_LEN)?;
            let (t, n) = text_at(b, p, end)?;
            sp.status_message = t;
            pos = n;
        } else if field == 3 {
            expect_wire(wire, WIRE_VARINT)?;
            let (x, n) = varint_at(b, p, end)?;
            sp.status_code = x as i32;
            pos = n;
        } else {
            pos = skip_at(b, p, end, wire)?;
        }
    }
    Ok(())
}

impl Span {
    pub fn empty() -> (r: Span)
        ensures
            r.attributes@.len() == 0,
            r@ == empty_span(),
    {
        let r = Span {
            trace_id: Vec::new(),
            span_id: Vec::new(),
            trace_state: Vec::new(),
            parent_span_id: Vec::new(),
            flags: 0,
            name: Vec::new(),
            kind: 0,
            start_time_unix_nano: 0,
            end_time_unix_nano: 0,
            attributes: Vec::new(),
            dropped_attributes_count: 0,
            events: Vec::new(),
            dropped_events_count: 0,
            links: Vec::new(),
            dropped_links_count: 0,
            status_code: 0,
            status_message: Vec::new(),
        };
        proof {
            assert(r@.events =~= seq![]);
            assert(r@.links =~= seq![]);
        }
        r
    }
}

/// Decode a `Span` message in `b[start..end]`.
pub fn parse_span(b: &[u8], start: usize, end: usize) -> (r: Result<Span, DecodeError>)
    requires
        start <= end <= b@.len(),
    ensures
        r matches Err(e) ==> e is Proto,
        match span_from(b@, start as int, end as int, empty_span()) {
            Some(m) => r matches Ok(x) && x@ == m,
            None => r is Err,
        },
        r matches Ok(x) ==> keys_unique(entries_view(x.attributes@)),
{
    let mut sp = Span::empty();
    let mut pos = start;
    while pos < end
        invariant
            start <= pos <= end <= b@.len(),
            span_from(b@, pos as int, end as int, sp@) == span_from(
                b@,
                start as int,
                end as int,
                empty_span(),
            ),
            keys_unique(entries_view(sp.attributes@)),
        decreases end - pos,
    {
        let (field, wire, p) = key_at(b, pos, end)?;
        if field == 1 || field == 2 || field == 4 {
            expect_wire(wire, WIRE_LEN)?;
            let (t, n) = bytes_at(b, p, end)?;
            if field == 1 {
                sp.trace_id = t;
            } else if field == 2 {
                sp.span_id = t;
            } else {
                sp.parent_span_id = t;
            }
            pos = n;
        } else if field == 3 || field == 5 {
            expect_wire(wire, WIRE_LEN)?;
            let (t, n) = text_at(b, p, end)?;
            if field == 3 {
                sp.trace_state = t;
            } else {
                sp.name = t;
            }
            pos = n;
        } else if field == 6 || field == 10 || field == 12 || field == 14 {
            expect_wire(wire, WIRE_VARINT)?;
            let (x, n) = varint_at(b, p, end)?;
            if field == 6 {
                sp.kind = x as i32;
            } else if field == 10 {
                sp.dropped_attributes_count = x as u32;
            } else if field == 12 {
                sp.dropped_events_count = x as u32;
            } else {
                sp.dropped_links_count = x as u32;
            }
            pos = n;
        } else if field == 7 || field == 8 {
            expect_wire(wire, WIRE_FIXED64)?;
            let (x, n) = fixed_at(b, p, end, 8)?;
            if field == 7 {
                sp.start_time_unix_nano = x;
            } else {
                sp.end_time_unix_nano = x;
            }
            pos = n;
        } else if field == 9 {
            expect_wire(wire, WIRE_LEN)?;
            pos = add_attribute(b, p, end, &mut sp.attributes)?;
        } else if field == 11 {
            expect_wire(wire, WIRE_LEN)?;
            let (s, e) = len_at(b, p, end)?;
            let ev = parse_event(b, s, e)?;
            let ghost before = sp@;
            sp.events.push(ev);
            proof {
                assert(sp@.events =~= before.events.push(ev@));
                assert(sp@ == SpanModel { events: before.events.push(ev@), ..before });
            }
            pos = e;
        } else if field == 13 {
            expect_wire(wire, WIRE_LEN)?;
            let (s, e) = len_at(b, p, end)?;
            let l = parse_link(b, s, e)?;
            let ghost before = sp@;
            sp.links.push(l);
            proof {
                assert(sp@.links =~= before.links.push(l@));
                assert(sp@ == SpanModel { links: before.links.push(l@), ..before });
            }
            pos = e;
        } else if field == 15 {
            expect_wire(wire, WIRE_LEN)?;
            let (s, e) = len_at(b, p, end)?;
            parse_status(b, s, e, &mut sp)?;
            pos = e;
        } else if field == 16 {
            expect_wire(wire, WIRE_FIXED32)?;
            let (x, n) = fixed_at(b, p, end, 4)?;
            sp.flags = x as u32;
            pos = n;
        } else {
            pos = skip_at(b, p, end, wire)?;
        }
    }
    Ok(sp)
}

/// Decode a `ScopeSpans` message in `b[start..end]`.
pub fn parse_scope_spans(b: &[u8], start: usize, end: usize) -> (r: Result<ScopeSpans, DecodeError>)
    requires
        start <= end <= b@.len(),
    ensures
        r matches Err(e) ==> e is Proto,
        match scope_spans_from(b@, start as int, end as int, ScopeSpansModel { scope: empty_scope(), spans: seq![] }) {
            Some(m) => r matches Ok(x) && x@ == m,
            None => r is Err,
        },
{
    let mut ss = ScopeSpans { scope: Scope::empty(), spans: Vec::new() };
    let mut pos = start;
    proof {
        assert(ss@.spans =~= seq![]);
    }
    while pos < end
        invariant
            start <= pos <= end <= b@.len(),
            scope_spans_from(b@, pos as int, end as int, ss@) == scope_spans_from(
                b@,
                start as int,
                end as int,
                ScopeSpansModel { scope: empty_scope(), spans: seq![] },
            ),
        decreases end - pos,
    {
        let (field, wire, p) = key_at(b, pos, end)?;
        if field == 1 {
            expect_wire(wire, WIRE_LEN)?;
            let (s, e) = len_at(b, p, end)?;
            ss.scope = parse_scope(b, s, e)?;
            pos = e;
        } else if field == 2 {
            expect_wire(wire, WIRE_LEN)?;
            let (s, e) = len_at(b, p, end)?;
            let sp = parse_span(b, s, e)?;
            let ghost before = ss@;
            ss.spans.push(sp);
            proof {
                assert(ss@.spans =~= before.spans.push(sp@));
            }
            pos = e;
        } else {
            pos = skip_at(b, p, end, wire)?;
        }
    }
    Ok(ss)
}

/// Decode a `ResourceSpans` message in `b[start..end]`.
pub fn parse_resource_spans(b: &[u8], start: usize, end: usize) -> (r: Result<ResourceSpans, DecodeError>)
    requires
        start <= end <= b@.len(),
    ensures
        r matches Err(e) ==> e is Proto,
        match resource_spans_from(b@, start as int, end as int, ResourceSpansModel { resource: empty_resource(), scope_spans: seq![] }) {
            Some(m) => r matches Ok(x) && x@ == m,
            None => r is Err,
        },
{
    let mut rs = ResourceSpans { resource: Resource::empty(), scope_spans: Vec::new() };
    let mut pos = start;
    proof {
        assert(rs@.scope_spans =~= seq![]);
    }
    while pos < end
        invariant
            start <= pos <= end <= b@.len(),
            resource_spans_from(b@, pos as int, end as int, rs@) == resource_spans_from(
                b@,
                start as int,
                end as int,
                ResourceSpansModel { resource: empty_resource(), scope_spans: seq![] },
            ),
        decreases end - pos,
    {
        let (field, wire, p) = key_at(b, pos, end)?;
        if field == 1 {
            expect_wire(wire, WIRE_LEN)?;
            let (s, e) = len_at(b, p, end)?;
            rs.resource = parse_resource(b, s, e)?;
            pos = e;
        } else if field == 2 {
            expect_wire(wire, WIRE_LEN)?;
            let (s, e) = len_at(b, p, end)?;
            let ss = parse_scope_spans(b, s, e)?;
            let ghost before = rs@;
            rs.scope_spans.push(ss);
            proof {
                assert(rs@.scope_spans =~= before.scope_spans.push(ss@));
            }
            pos = e;
        } else {
            pos = skip_at(b, p, end, wire)?;
        }
    }
    Ok(rs)
}

/// Decode an `ExportTraceServiceRequest` message: its resources in order.
pub fn parse_traces_request(b: &[u8]) -> (r: Result<Vec<ResourceSpans>, DecodeError>)
    ensures
        r matches Err(e) ==> e is Proto,
        b@.len() == 0 ==> (r matches Ok(v) && v@.len() == 0),
        match traces_request_spec(b@) {
            Some(m) => r matches Ok(v) && resource_spans_views(v@) == m,
            None => r is Err,
        },
{
    let end = b.len();
    let mut out: Vec<ResourceSpans> = Vec::new();
    let mut pos: usize = 0;
    proof {
        assert(resource_spans_views(out@) =~= seq![]);
    }
    while pos < end
        invariant
            pos <= end == b@.len(),
            end == 0 ==> out@.len() == 0,
            traces_request_from(b@, pos as int, end as int, resource_spans_views(out@))
                == traces_request_spec(b@),
        decreases end - pos,
    {
        let (field, wire, p) = key_at(b, pos, end)?;
        if field == 1 {
            expect_wire(wire, WIRE_LEN)?;
            let (s, e) = len_at(b, p, end)?;
            let rs = parse_resource_spans(b, s, e)?;
            let ghost before = resource_spans_views(out@);
            out.push(rs);
            proof {
                assert(resource_spans_views(out@) =~= before.push(rs@));
            }
            pos = e;
        } else {
            pos = skip_at(b, p, end, wire)?;
        }
    }
    Ok(out)
}

/// Append the rows of one scope's spans.
fn push_scope_span_rows(out: &mut Vec<Value>, res: &Resource, ss: &ScopeSpans)
    ensures
        values_view(final(out)@) == values_view(old(out)@) + scope_span_rows(*res, *ss),
{
    let mut k: usize = 0;
    while k < ss.spans.len()
        invariant
            k <= ss.spans@.len(),
            values_view(out@) == values_view(old(out)@) + scope_span_rows(*res, *ss).subrange(
                0,
                k as int,
            ),
        decreases ss.spans@.len() - k,
    {
        let row = ss.spans[k].to_row(res, &ss.scope);
        push_value(out, row);
        proof {
            assert(values_view(out@) =~= values_view(old(out)@) + scope_span_rows(
                *res,
                *ss,
            ).subrange(0, k + 1));
        }
        k = k + 1;
    }
    proof {
        assert(scope_span_rows(*res, *ss).subrange(0, k as int) =~= scope_span_rows(*res, *ss));
    }
}

/// Append the rows of one resource's spans.
fn push_resource_span_rows(out: &mut Vec<Value>, rs: &ResourceSpans)
    ensures
        values_view(final(out)@) == values_view(old(out)@) + scopes_span_rows(
            rs.resource,
            rs.scope_spans@,
        ),
{
    let mut j: usize = 0;
    while j < rs.scope_spans.len()
        invariant
            j <= rs.scope_spans@.len(),
            values_view(out@) == values_view(old(out)@) + scopes_span_rows(
                rs.resource,
                rs.scope_spans@.subrange(0, j as int),
            ),
        decreases rs.scope_spans@.len() - j,
    {
        push_scope_span_rows(out, &rs.resource, &rs.scope_spans[j]);
        proof {
            assert(rs.scope_spans@.subrange(0, j + 1).drop_last() =~= rs.scope_spans@.subrange(
                0,
                j as int,
            ));
            assert(values_view(out@) =~= values_view(old(out)@) + scopes_span_rows(
                rs.resource,
                rs.scope_spans@.subrange(0, j + 1),
            ));
        }
        j = j + 1;
    }
    proof {
        assert(rs.scope_spans@.subrange(0, j as int) =~= rs.scope_spans@);
    }
}

/// The rows of a decoded request: one per span, resource after resource,
/// scope after scope, each with its resource and scope copied in.
pub fn traces_to_rows(rs: &Vec<ResourceSpans>) -> (r: Vec<Value>)
    ensures
        values_view(r@) == span_rows(rs@),
{
    let mut out: Vec<Value> = Vec::new();
    let mut i: usize = 0;
    while i < rs.len()
        invariant
            i <= rs@.len(),
            values_view(out@) == span_rows(rs@.subrange(0, i as int)),
        decreases rs@.len() - i,
    {
        push_resource_span_rows(&mut out, &rs[i]);
        proof {
            assert(rs@.subrange(0, i + 1).drop_last() =~= rs@.subrange(0, i as int));
        }
        i = i + 1;
    }
    proof {
        assert(rs@.subrange(0, i as int) =~= rs@);
    }
    out
}

/// The event that an OTLP-JSON span event object gives.
pub open spec fn event_json(j: JsonModel) -> EventModel {
    EventModel {
        time_unix_nano: ju64(jmember(j, "timeUnixNano"@)),
        name: jtext(jmember(j, "name"@)),
        attributes: attrs_json(j),
        dropped_attributes_count: ju64(jmember(j, "droppedAttributesCount"@)) as u32,
    }
}

/// The link that an OTLP-JSON span link object gives.
pub open spec fn link_json(j: JsonModel) -> LinkModel {
    LinkModel {
        trace_id: jhex(jmember(j, "traceId"@)),
        span_id: jhex(jmember(j, "spanId"@)),
        trace_state: jtext(jmember(j, "traceState"@)),
        attributes: attrs_json(j),
        dropped_attributes_count: ju64(jmember(j, "droppedAttributesCount"@)) as u32,
        flags: ju64(jmember(j, "flags"@)) as u32,
    }
}

/// The span that an OTLP-JSON span object gives: camelCase members, 64-bit
/// integers as decimal strings or numbers, identifiers as hexadecimal
/// strings; a member that is absent or of the wrong type reads as zero or
/// empty.
pub open spec fn span_json(j: JsonModel) -> SpanModel {
    let evs = jitems(jmember(j, "events"@));
    let ls = jitems(jmember(j, "links"@));
    let st = jmember(j, "status"@);
    SpanModel {
        trace_id: jhex(jmember(j, "traceId"@)),
        span_id: jhex(jmember(j, "spanId"@)),
        trace_state: jtext(jmember(j, "traceState"@)),
        parent_span_id: jhex(jmember(j, "parentSpanId"@)),
        flags: ju64(jmember(j, "flags"@)) as u32,
        name: jtext(jmember(j, "name"@)),
        kind: ji64(jmember(j, "kind"@)) as i32,
        start_time_unix_nano: ju64(jmember(j, "startTimeUnixNano"@)),
        end_time_unix_nano: ju64(jmember(j, "endTimeUnixNano"@)),
        attributes: attrs_json(j),
        dropped_attributes_count: ju64(jmember(j, "droppedAttributesCount"@)) as u32,
        events: Seq::new(evs.len(), |k: int| event_json(evs[k])),
        dropped_events_count: ju64(jmember(j, "droppedEventsCount"@)) as u32,
        links: Seq::new(ls.len(), |k: int| link_json(ls[k])),
        dropped_links_count: ju64(jmember(j, "droppedLinksCount"@)) as u32,
        status_code: match st {
            Some(x) => ji64(jmember(x, "code"@)) as i32,
            None => 0,
        },
        status_message: match st {
            Some(x) => jtext(jmember(x, "message"@)),
            None => seq![],
        },
    }
}

/// The scope entry that an OTLP-JSON `scopeSpans` item gives.
pub open spec fn scope_spans_json(y: JsonModel) -> ScopeSpansModel {
    let sps = jitems(jmember(y, "spans"@));
    ScopeSpansModel {
        scope: scope_json(jmember(y, "scope"@)),
        spans: Seq::new(sps.len(), |k: int| span_json(sps[k])),
    }
}

/// The resource entry that an OTLP-JSON `resourceSpans` item gives.
pub open spec fn resource_spans_json(x: JsonModel) -> ResourceSpansModel {
    let sss = jitems(jmember(x, "scopeSpans"@));
    ResourceSpansModel {
        resource: resource_json(jmember(x, "resource"@)),
        scope_spans: Seq::new(sss.len(), |k: int| scope_spans_json(sss[k])),
    }
}

/// The resources that an OTLP-JSON traces document gives, in order.
pub open spec fn traces_json(d: JsonModel) -> Seq<ResourceSpansModel> {
    let rss = jitems(jmember(d, "resourceSpans"@));
    Seq::new(rss.len(), |k: int| resource_spans_json(rss[k]))
}

/// An event of an OTLP-JSON span.
fn event_of(j: &Json) -> (r: Event)
    ensures
        r@ == event_json(json_view(*j)),
{
    Event {
        time_unix_nano: u64_of(member(j, "timeUnixNano")),
        name: text_of(member(j, "name")),
        attributes: attributes_of(j),
        dropped_attributes_count: u64_of(member(j, "droppedAttributesCount")) as u32,
    }
}

/// A link of an OTLP-JSON span.
fn link_of(j: &Json) -> (r: Link)
    ensures
        r@ == link_json(json_view(*j)),
{
    Link {
        trace_id: hex_bytes_of(member(j, "traceId")),
        span_id: hex_bytes_of(member(j, "spanId")),
        trace_state: text_of(member(j, "traceState")),
        attributes: attributes_of(j),
        dropped_attributes_count: u64_of(member(j, "droppedAttributesCount")) as u32,
        flags: u64_of(member(j, "flags")) as u32,
    }
}

/// A span of an OTLP-JSON document.
pub fn span_of(j: &Json) -> (r: Span)
    ensures
        r@ == span_json(json_view(*j)),
{
    let mut events: Vec<Event> = Vec::new();
    let evs = items(member(j, "events"));
    let mut k: usize = 0;
    while k < evs.len()
        invariant
            k <= evs@.len(),
            jsons_view(evs@) == jitems(jmember(json_view(*j), "events"@)),
            jsons_view(evs@).len() == evs@.len(),
            events@.len() == k,
            forall|t: int| 0 <= t < k ==> #[trigger] events@[t]@ == event_json(jsons_view(evs@)[t]),
        decreases evs@.len() - k,
    {
        proof {
            lemma_jsons_view_index(evs@, k as int);
        }
        events.push(event_of(&evs[k]));
        k = k + 1;
    }
    let mut links: Vec<Link> = Vec::new();
    let ls = items(member(j, "links"));
    let mut k: usize = 0;
    while k < ls.len()
        invariant
            k <= ls@.len(),
            jsons_view(ls@) == jitems(jmember(json_view(*j), "links"@)),
            jsons_view(ls@).len() == ls@.len(),
            links@.len() == k,
            forall|t: int| 0 <= t < k ==> #[trigger] links@[t]@ == link_json(jsons_view(ls@)[t]),
        decreases ls@.len() - k,
    {
        proof {
            lemma_jsons_view_index(ls@, k as int);
        }
        links.push(link_of(&ls[k]));
        k = k + 1;
    }
    let (status_code, status_message) = match member(j, "status") {
        Some(st) => (i64_of(member(st, "code")) as i32, text_of(member(st, "message"))),
        None => (0, Vec::new()),
    };
    let sp = Span {
        trace_id: hex_bytes_of(member(j, "traceId")),
        span_id: hex_bytes_of(member(j, "spanId")),
        trace_state: text_of(member(j, "traceState")),
        parent_span_id: hex_bytes_of(member(j, "parentSpanId")),
        flags: u64_of(member(j, "flags")) as u32,
        name: text_of(member(j, "name")),
        kind: i64_of(member(j, "kind")) as i32,
        start_time_unix_nano: u64_of(member(j, "startTimeUnixNano")),
        end_time_unix_nano: u64_of(member(j, "endTimeUnixNano")),
        attributes: attributes_of(j),
        dropped_attributes_count: u64_of(member(j, "droppedAttributesCount")) as u32,
        events,
        dropped_events_count: u64_of(member(j, "droppedEventsCount")) as u32,
        links,
        dropped_links_count: u64_of(member(j, "droppedLinksCount")) as u32,
        status_code,
        status_message,
    };
    proof {
        assert(sp@.events =~= span_json(json_view(*j)).events);
        assert(sp@.links =~= span_json(json_view(*j)).links);
    }
    sp
}

/// A scope entry of an OTLP-JSON traces document.
fn scope_spans_of(sj: &Json) -> (r: ScopeSpans)
    ensures
        r@ == scope_spans_json(json_view(*sj)),
{
    let mut spans: Vec<Span> = Vec::new();
    let sps = items(member(sj, "spans"));
    let mut k: usize = 0;
    while k < sps.len()
        invariant
            k <= sps@.len(),
            jsons_view(sps@) == jitems(jmember(json_view(*sj), "spans"@)),
            jsons_view(sps@).len() == sps@.len(),
            spans@.len() == k,
            forall|t: int| 0 <= t < k ==> #[trigger] spans@[t]@ == span_json(jsons_view(sps@)[t]),
        decreases sps@.len() - k,
    {
        proof {
            lemma_jsons_view_index(sps@, k as int);
        }
        spans.push(span_of(&sps[k]));
        k = k + 1;
    }
    let ss = ScopeSpans { scope: scope_of(member(sj, "scope")), spans };
    proof {
        assert(ss@.spans =~= scope_spans_json(json_view(*sj)).spans);
    }
    ss
}

/// A resource entry of an OTLP-JSON traces document.
fn resource_spans_of(rj: &Json) -> (r: ResourceSpans)
    ensures
        r@ == resource_spans_json(json_view(*rj)),
{
    let mut scope_spans: Vec<ScopeSpans> = Vec::new();
    let sss = items(member(rj, "scopeSpans"));
    let mut k: usize = 0;
    while k < sss.len()
        invariant
            k <= sss@.len(),
            jsons_view(sss@) == jitems(jmember(json_view(*rj), "scopeSpans"@)),
            jsons_view(sss@).len() == sss@.len(),
            scope_spans@.len() == k,
            forall|t: int|
                0 <= t < k ==> #[trigger] scope_spans@[t]@ == scope_spans_json(jsons_view(sss@)[t]),
        decreases sss@.len() - k,
    {
        proof {
            lemma_jsons_view_index(sss@, k as int);
        }
        scope_spans.push(scope_spans_of(&sss[k]));
        k = k + 1;
    }
    let rs = ResourceSpans { resource: resource_of(member(rj, "resource")), scope_spans };
    proof {
        assert(rs@.scope_spans =~= resource_spans_json(json_view(*rj)).scope_spans);
    }
    rs
}

/// The resources of an OTLP-JSON traces document, in order.
pub fn traces_of(doc: &Json) -> (r: Vec<ResourceSpans>)
    ensures
        resource_spans_views(r@) == traces_json(json_view(*doc)),
{
    let mut out: Vec<ResourceSpans> = Vec::new();
    let rss = items(member(doc, "resourceSpans"));
    let mut k: usize = 0;
    while k < rss.len()
        invariant
            k <= rss@.len(),
            jsons_view(rss@) == jitems(jmember(json_view(*doc), "resourceSpans"@)),
            jsons_view(rss@).len() == rss@.len(),
            out@.len() == k,
            forall|t: int|
                0 <= t < k ==> #[trigger] out@[t]@ == resource_spans_json(jsons_view(rss@)[t]),
        decreases rss@.len() - k,
    {
        proof {
            lemma_jsons_view_index(rss@, k as int);
        }
        out.push(resource_spans_of(&rss[k]));
        k = k + 1;
    }
    proof {
        assert(resource_spans_views(out@) =~= traces_json(json_view(*doc)));
    }
    out
}

/// Decode an OTLP-JSON traces document: it must be a JSON object.
pub fn parse_traces_json(b: &[u8]) -> (r: Result<Vec<ResourceSpans>, DecodeError>)
    ensures
        r matches Err(e) ==> e is Json,
        r is Ok <==> json_doc_ok(b@) && opens_object(b@),
        r matches Ok(v) ==> (json_doc_model(b@) matches Some(m) && resource_spans_views(v@)
            == traces_json(m)),
{
    let doc = parse_json(b)?;
    if let Json::Object(_) = doc {
        Ok(traces_of(&doc))
    } else {
        Err(json_error("invalid type: expected a traces request object"))
    }
}

/// Denormalization of one scope: its N spans give exactly N rows, in order,
/// and every row's resource and scope columns are the resource and the scope
/// that the spans came under.
pub proof fn lemma_scope_spans_denormalized(res: Resource, ss: ScopeSpans)
    ensures
        scope_span_rows(res, ss).len() == ss.spans@.len(),
        forall|k: int|
            #![trigger scope_span_rows(res, ss)[k]]
            0 <= k < ss.spans@.len() ==> {
                &&& scope_span_rows(res, ss)[k] == span_row(res, ss.scope, ss.spans@[k])
                &&& span_entries(res, ss.scope, ss.spans@[k])[18] == ("resource"@, resource_val(res))
                &&& span_entries(res, ss.scope, ss.spans@[k])[19] == ("scope"@, scope_val(ss.scope))
            },
{
}

/// Span derivation: where a span has both a start and an end (neither
/// zero), its row holds both timestamps, and its duration is the end column
/// minus the start column where the end is no earlier, zero otherwise; it is
/// never negative.
pub proof fn lemma_span_duration(res: Resource, sc: Scope, s: Span)
    requires
        s.start_time_unix_nano != 0,
        s.end_time_unix_nano != 0,
    ensures
        span_entries(res, sc, s)[6] == ("start_time_unix_nano"@, Val::Integer(
            clamped(s.start_time_unix_nano),
        )),
        span_entries(res, sc, s)[7] == ("end_time_unix_nano"@, Val::Integer(
            clamped(s.end_time_unix_nano),
        )),
        span_entries(res, sc, s)[8].0 == "duration_ns"@,
        span_entries(res, sc, s)[8].1 matches Val::Integer(d) && d >= 0 && (clamped(
            s.end_time_unix_nano,
        ) >= clamped(s.start_time_unix_nano) ==> d == clamped(s.end_time_unix_nano) - clamped(
            s.start_time_unix_nano,
        )),
{
}

proof fn lemma_span_row_views(r1: Resource, r2: Resource, c1: Scope, c2: Scope, a: Span, b: Span)
    requires
        r1@ == r2@,
        c1@ == c2@,
        a@ == b@,
    ensures
        span_row(r1, c1, a) == span_row(r2, c2, b),
{
    let ea = Seq::new(a.events@.len(), |i: int| event_val(a.events@[i]));
    let eb = Seq::new(b.events@.len(), |i: int| event_val(b.events@[i]));
    assert(a@.events.len() == a.events@.len());
    assert forall|i: int| 0 <= i < ea.len() implies ea[i] == eb[i] by {
        assert(a@.events[i] == a.events@[i]@);
        assert(b@.events[i] == b.events@[i]@);
    }
    assert(ea =~= eb);
    let la = Seq::new(a.links@.len(), |i: int| link_val(a.links@[i]));
    let lb = Seq::new(b.links@.len(), |i: int| link_val(b.links@[i]));
    assert(a@.links.len() == a.links@.len());
    assert forall|i: int| 0 <= i < la.len() implies la[i] == lb[i] by {
        assert(a@.links[i] == a.links@[i]@);
        assert(b@.links[i] == b.links@[i]@);
    }
    assert(la =~= lb);
    assert(span_entries(r1, c1, a) =~= span_entries(r2, c2, b));
}

proof fn lemma_scope_span_rows_views(r1: Resource, r2: Resource, s1: ScopeSpans, s2: ScopeSpans)
    requires
        r1@ == r2@,
        s1@ == s2@,
    ensures
        scope_span_rows(r1, s1) == scope_span_rows(r2, s2),
{
    let a = scope_span_rows(r1, s1);
    let b = scope_span_rows(r2, s2);
    assert(s1.spans@.len() == s1@.spans.len());
    assert forall|k: int| 0 <= k < a.len() implies a[k] == b[k] by {
        assert(s1@.spans[k] == s1.spans@[k]@);
        assert(s2@.spans[k] == s2.spans@[k]@);
        lemma_span_row_views(r1, r2, s1.scope, s2.scope, s1.spans@[k], s2.spans@[k]);
    }
    assert(a =~= b);
}

proof fn lemma_scopes_span_rows_views(r1: Resource, r2: Resource, s1: Seq<ScopeSpans>, s2: Seq<ScopeSpans>)
    requires
        r1@ == r2@,
        Seq::new(s1.len(), |i: int| s1[i]@) == Seq::new(s2.len(), |i: int| s2[i]@),
    ensures
        scopes_span_rows(r1, s1) == scopes_span_rows(r2, s2),
    decreases s1.len(),
{
    assert(Seq::new(s1.len(), |i: int| s1[i]@).len() == s2.len());
    if s1.len() > 0 {
        assert(Seq::new(s1.drop_last().len(), |i: int| s1.drop_last()[i]@) =~= Seq::new(
            s2.drop_last().len(),
            |i: int| s2.drop_last()[i]@,
        )) by {
            assert forall|i: int| 0 <= i < s1.len() - 1 implies s1[i]@ == s2[i]@ by {
                assert(Seq::new(s1.len(), |j: int| s1[j]@)[i] == s1[i]@);
                assert(Seq::new(s2.len(), |j: int| s2[j]@)[i] == s2[i]@);
            }
        }
        lemma_scopes_span_rows_views(r1, r2, s1.drop_last(), s2.drop_last());
        assert(Seq::new(s1.len(), |j: int| s1[j]@)[s1.len() - 1] == s1[s1.len() - 1]@);
        assert(Seq::new(s2.len(), |j: int| s2[j]@)[s1.len() - 1] == s2[s1.len() - 1]@);
        assert(s1.last()@ == s2.last()@);
        lemma_scope_span_rows_views(r1, r2, s1.last(), s2.last());
    }
}

/// The rows of a request depend on the models of its resources alone: two
/// decodings that agree on them give the same rows.
pub proof fn lemma_span_rows_by_models(v1: Seq<ResourceSpans>, v2: Seq<ResourceSpans>)
    requires
        resource_spans_views(v1) == resource_spans_views(v2),
    ensures
        span_rows(v1) == span_rows(v2),
    decreases v1.len(),
{
    assert(resource_spans_views(v1).len() == v2.len());
    if v1.len() > 0 {
        assert(resource_spans_views(v1.drop_last()) =~= resource_spans_views(v2.drop_last())) by {
            assert forall|i: int| 0 <= i < v1.len() - 1 implies v1[i]@ == v2[i]@ by {
                assert(resource_spans_views(v1)[i] == v1[i]@);
                assert(resource_spans_views(v2)[i] == v2[i]@);
            }
        }
        lemma_span_rows_by_models(v1.drop_last(), v2.drop_last());
        assert(resource_spans_views(v1)[v1.len() - 1] == v1[v1.len() - 1]@);
        assert(resource_spans_views(v2)[v1.len() - 1] == v2[v1.len() - 1]@);
        let l1 = v1.last();
        let l2 = v2.last();
        assert(l1@ == l2@);
        assert(l1@.scope_spans == l2@.scope_spans);
        lemma_scopes_span_rows_views(l1.resource, l2.resource, l1.scope_spans@, l2.scope_spans@);
    }
}

} // verus!
