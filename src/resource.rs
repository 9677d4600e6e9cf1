//! The resource and the instrumentation scope that each record is denormalized with.

use vstd::prelude::*;
use crate::error::DecodeError;
use crate::proto::{attribute_next, keys_unique, add_attribute, expect_wire, key_at, push_entry, skip_at, text_at, varint_at};
use crate::value::{clone_entries, entries_view, Val, Value};
use crate::wire::{key_next, len_next, skip_next, varint_next, WIRE_LEN, WIRE_VARINT};
use vstd::utf8::valid_utf8;

verus! {

/// The entity that produced telemetry: its attributes.
pub struct Resource {
    pub attributes: Vec<(String, Value)>,
    pub dropped_attributes_count: u32,
}

/// The instrumentation library that produced telemetry.
pub struct Scope {
    pub name: Vec<u8>,
    pub version: Vec<u8>,
    pub attributes: Vec<(String, Value)>,
    pub dropped_attributes_count: u32,
}

/// The model of a [`Resource`].
pub ghost struct ResourceModel {
    pub attributes: Seq<(Seq<char>, Val)>,
    pub dropped_attributes_count: u32,
}

/// The model of a [`Scope`].
pub ghost struct ScopeModel {
    pub name: Seq<u8>,
    pub version: Seq<u8>,
    pub attributes: Seq<(Seq<char>, Val)>,
    pub dropped_attributes_count: u32,
}

impl View for Resource {
    type V = ResourceModel;

    open spec fn view(&self) -> ResourceModel {
        ResourceModel {
            attributes: entries_view(self.attributes@),
            dropped_attributes_count: self.dropped_attributes_count,
        }
    }
}

impl View for Scope {
    type V = ScopeModel;

    open spec fn view(&self) -> ScopeModel {
        ScopeModel {
            name: self.name@,
            version: self.version@,
            attributes: entries_view(self.attributes@),
            dropped_attributes_count: self.dropped_attributes_count,
        }
    }
}

pub open spec fn empty_resource() -> ResourceModel {
    ResourceModel { attributes: seq![], dropped_attributes_count: 0 }
}

pub open spec fn empty_scope() -> ScopeModel {
    ScopeModel { name: seq![], version: seq![], attributes: seq![], dropped_attributes_count: 0 }
}

/// What the fields of a `Resource` message in `b[pos..end]` decode to, after
/// `acc`: each `attributes` entry (1) bound in turn, the last
/// `dropped_attributes_count` (2); other fields are skipped.
pub open spec fn resource_from(b: Seq<u8>, pos: int, end: int, acc: ResourceModel) -> Option<ResourceModel>
    decreases end - pos,
{
    if pos >= end {
        Some(acc)
    } else {
        match key_next(b, pos, end) {
            None => None,
            Some((f, w, p)) => if f == 1 {
                if w != WIRE_LEN {
                    None
                } else {
                    match attribute_next(b, p, end, acc.attributes) {
                        None => None,
                        Some((es, n)) => resource_from(
                            b,
                            n,
                            end,
                            ResourceModel {
                                attributes: es,
                                dropped_attributes_count: acc.dropped_attributes_count,
                            },
                        ),
                    }
                }
            } else if f == 2 {
                if w != WIRE_VARINT {
                    None
                } else {
                    match varint_next(b, p, end) {
                        None => None,
                        Some((x, n)) => resource_from(
                            b,
                            n,
                            end,
                            ResourceModel { attributes: acc.attributes, dropped_attributes_count: x as u32 },
                        ),
                    }
                }
            } else {
                match skip_next(b, p, end, w) {
                    None => None,
                    Some(n) => resource_from(b, n, end, acc),
                }
            },
        }
    }
}

/// What the fields of an `InstrumentationScope` message in `b[pos..end]`
/// decode to, after `acc`: the last `name` (1) and `version` (2), each
/// `attributes` entry (3) bound in turn, the last `dropped_attributes_count`
/// (4); other fields are skipped.
pub open spec fn scope_from(b: Seq<u8>, pos: int, end: int, acc: ScopeModel) -> Option<ScopeModel>
    decreases end - pos,
{
    if pos >= end {
        Some(acc)
    } else {
        match key_next(b, pos, end) {
            None => None,
            Some((f, w, p)) => if f == 1 || f == 2 {
                if w != WIRE_LEN {
                    None
                } else {
                    match len_next(b, p, end) {
                        None => None,
                        Some((s, e)) => if !valid_utf8(b.subrange(s, e)) {
                            None
                        } else if f == 1 {
                            scope_from(
                                b,
                                e,
                                end,
                                ScopeModel {
                                    name: b.subrange(s, e),
                                    version: acc.version,
                                    attributes: acc.attributes,
                                    dropped_attributes_count: acc.dropped_attributes_count,
                                },
                            )
                        } else {
                            scope_from(
                                b,
                                e,
                                end,
                                ScopeModel {
                                    name: acc.name,
                                    version: b.subrange(s, e),
                                    attributes: acc.attributes,
                                    dropped_attributes_count: acc.dropped_attributes_count,
                                },
                            )
                        },
                    }
                }
            } else if f == 3 {
                if w != WIRE_LEN {
                    None
                } else {
                    match attribute_next(b, p, end, acc.attributes) {
                        None => None,
                        Some((es, n)) => scope_from(
                            b,
                            n,
                            end,
                            ScopeModel {
                                name: acc.name,
                                version: acc.version,
                                attributes: es,
                                dropped_attributes_count: acc.dropped_attributes_count,
                            },
                        ),
                    }
                }
            } else if f == 4 {
                if w != WIRE_VARINT {
                    None
                } else {
                    match varint_next(b, p, end) {
                        None => None,
                        Some((x, n)) => scope_from(
                            b,
                            n,
                            end,
                            ScopeModel {
                                name: acc.name,
                                version: acc.version,
                                attributes: acc.attributes,
                                dropped_attributes_count: x as u32,
                            },
                        ),
                    }
                }
            } else {
                match skip_next(b, p, end, w) {
                    None => None,
                    Some(n) => scope_from(b, n, end, acc),
                }
            },
        }
    }
}

/// The `resource` column of a row: an object with the resource's attributes.
pub open spec fn resource_val(r: Resource) -> Val {
    Val::Object(seq![("attributes"@, Val::Object(entries_view(r.attributes@)))])
}

/// The `scope` column of a row: an object with the scope's name, version and attributes.
pub open spec fn scope_val(s: Scope) -> Val {
    Val::Object(
        seq![
            ("name"@, Val::Bytes(s.name@)),
            ("version"@, Val::Bytes(s.version@)),
            ("attributes"@, Val::Object(entries_view(s.attributes@))),
        ],
    )
}

impl Resource {
    pub fn empty() -> (r: Resource)
        ensures
            r.attributes@.len() == 0,
            r.dropped_attributes_count == 0,
            r@ == empty_resource(),
    {
        Resource { attributes: Vec::new(), dropped_attributes_count: 0 }
    }

    /// The value of the `resource` column, the attributes copied.
    pub fn to_value(&self) -> (r: Value)
        ensures
            r@ == resource_val(*self),
    {
        let mut e: Vec<(String, Value)> = Vec::new();
        push_entry(&mut e, "attributes", Value::Object(clone_entries(&self.attributes)));
        proof {
            assert(entries_view(e@) =~= seq![
                ("attributes"@, Val::Object(entries_view(self.attributes@))),
            ]);
        }
        Value::Object(e)
    }
}

impl Scope {
    pub fn empty() -> (r: Scope)
        ensures
            r.name@.len() == 0,
            r.version@.len() == 0,
            r.attributes@.len() == 0,
            r.dropped_attributes_count == 0,
            r@ == empty_scope(),
    {
        Scope {
            name: Vec::new(),
            version: Vec::new(),
            attributes: Vec::new(),
            dropped_attributes_count: 0,
        }
    }

    /// The value of the `scope` column, the attributes copied.
    pub fn to_value(&self) -> (r: Value)
        ensures
            r@ == scope_val(*self),
    {
        let mut e: Vec<(String, Value)> = Vec::new();
        push_entry(&mut e, "name", Value::Bytes(self.name.clone()));
        push_entry(&mut e, "version", Value::Bytes(self.version.clone()));
        push_entry(&mut e, "attributes", Value::Object(clone_entries(&self.attributes)));
        proof {
            assert(entries_view(e@) =~= seq![
                ("name"@, Val::Bytes(self.name@)),
                ("version"@, Val::Bytes(self.version@)),
                ("attributes"@, Val::Object(entries_view(self.attributes@))),
            ]);
        }
        Value::Object(e)
    }
}

/// Decode a `Resource` message in `b[start..end]`.
pub fn parse_resource(b: &[u8], start: usize, end: usize) -> (r: Result<Resource, DecodeError>)
    requires
        start <= end <= b@.len(),
    ensures
        r matches Err(e) ==> e is Proto,
        r matches Ok(x) ==> keys_unique(entries_view(x.attributes@)),
        match resource_from(b@, start as int, end as int, empty_resource()) {
            Some(m) => r matches Ok(x) && x@ == m,
            None => r is Err,
        },
{
    let mut res = Resource::empty();
    let mut pos = start;
    while pos < end
        invariant
            start <= pos <= end <= b@.len(),
            keys_unique(entries_view(res.attributes@)),
            resource_from(b@, pos as int, end as int, res@) == resource_from(
                b@,
                start as int,
                end as int,
                empty_resource(),
            ),
        decreases end - pos,
    {
        let (field, wire, p) = key_at(b, pos, end)?;
        if field == 1 {
            expect_wire(wire, WIRE_LEN)?;
            pos = add_attribute(b, p, end, &mut res.attributes)?;
        } else if field == 2 {
            expect_wire(wire, WIRE_VARINT)?;
            let (x, n) = varint_at(b, p, end)?;
            res.dropped_attributes_count = x as u32;
            pos = n;
        } else {
            pos = skip_at(b, p, end, wire)?;
        }
    }
    Ok(res)
}

/// Decode an `InstrumentationScope` message in `b[start..end]`.
pub fn parse_scope(b: &[u8], start: usize, end: usize) -> (r: Result<Scope, DecodeError>)
    requires
        start <= end <= b@.len(),
    ensures
        r matches Err(e) ==> e is Proto,
        r matches Ok(x) ==> keys_unique(entries_view(x.attributes@)),
        match scope_from(b@, start as int, end as int, empty_scope()) {
            Some(m) => r matches Ok(x) && x@ == m,
            None => r is Err,
        },
{
    let mut sc = Scope::empty();
    let mut pos = start;
    while pos < end
        invariant
            start <= pos <= end <= b@.len(),
            keys_unique(entries_view(sc.attributes@)),
            scope_from(b@, pos as int, end as int, sc@) == scope_from(
                b@,
                start as int,
                end as int,
                empty_scope(),
            ),
        decreases end - pos,
    {
        let (field, wire, p) = key_at(b, pos, end)?;
        if field == 1 {
            expect_wire(wire, WIRE_LEN)?;
            let (t, n) = text_at(b, p, end)?;
            sc.name = t;
            pos = n;
        } else if field == 2 {
            expect_wire(wire, WIRE_LEN)?;
            let (t, n) = text_at(b, p, end)?;
            sc.version = t;
            pos = n;
        } else if field == 3 {
            expect_wire(wire, WIRE_LEN)?;
            pos = add_attribute(b, p, end, &mut sc.attributes)?;
        } else if field == 4 {
            expect_wire(wire, WIRE_VARINT)?;
            let (x, n) = varint_at(b, p, end)?;
            sc.dropped_attributes_count = x as u32;
            pos = n;
        } else {
            pos = skip_at(b, p, end, wire)?;
        }
    }
    Ok(sc)
}

} // verus!
