//! Converting the value tree to a JSON value.

use vstd::prelude::*;
use crate::json::{json_view, jsons_view, members_view, Json, JsonModel};
use crate::text::{decimal_text, double_json_text, double_text, lossy_of, lossy_utf8, push_decimal};
use crate::value::{bits_finite, entries_view, value_view, values_view, Val, Value};

verus! {


/// The JSON form of a value: text as a string (decoded lossily), an integer as its decimal
/// text, a finite double as serde_json writes it, booleans and null as they
/// are, arrays item by item without the items that have no JSON form,
/// objects member by member without null members and members that have no
/// JSON form. A double that is not finite has none.
pub open spec fn to_json_model(v: Val) -> Option<JsonModel>
    decreases v,
{
    match v {
        Val::Null => Some(JsonModel::Null),
        Val::Boolean(b) => Some(JsonModel::Bool(b)),
        Val::Integer(i) => Some(JsonModel::Number(decimal_text(i as int))),
        Val::Float(b) => if bits_finite(b) {
            match double_json_text(b) {
                Some(t) => Some(JsonModel::Number(t)),
                None => None,
            }
        } else {
            None
        },
        Val::Bytes(t) => Some(JsonModel::Str(lossy_of(t))),
        Val::Array(items) => Some(JsonModel::Array(items_to_json(items))),
        Val::Object(es) => Some(JsonModel::Object(members_to_json(es))),
    }
}

/// The JSON forms of array items, those without one left out.
pub open spec fn items_to_json(s: Seq<Val>) -> Seq<JsonModel>
    decreases s,
{
    if s.len() == 0 {
        seq![]
    } else {
        items_to_json(s.drop_last()) + match to_json_model(s.last()) {
            Some(j) => seq![j],
            None => seq![],
        }
    }
}

/// The JSON forms of object members, null members and those without one
/// left out.
pub open spec fn members_to_json(s: Seq<(Seq<char>, Val)>) -> Seq<(Seq<char>, JsonModel)>
    decreases s,
{
    if s.len() == 0 {
        seq![]
    } else {
        members_to_json(s.drop_last()) + if s.last().1 == Val::Null {
            seq![]
        } else {
            match to_json_model(s.last().1) {
                Some(j) => seq![(s.last().0, j)],
                None => seq![],
            }
        }
    }
}

/// Convert a value to JSON: text becomes a string, numbers and booleans stay
/// what they are, arrays and objects are converted item by item. A double
/// that is not finite has no JSON form: it gives `None`, and is left out of
/// an enclosing array or object; an object also leaves out its null members.
#[verifier::loop_isolation(false)]
pub fn vrl_value_to_json(v: &Value) -> (r: Option<Json>)
    ensures
        r is None <==> (*v matches Value::Float(b) && !bits_finite(b)),
        *v matches Value::Null ==> r matches Some(Json::Null),
        *v matches Value::Boolean(b) ==> r matches Some(Json::Bool(x)) && x == b,
        *v matches Value::Integer(i) ==> r matches Some(Json::Number(t)) && t@ == decimal_text(i as int),
        (*v matches Value::Float(b) && bits_finite(b)) ==> (r matches Some(Json::Number(t)) && Some(
            t@,
        ) == double_json_text(v->Float_0)),
        *v matches Value::Bytes(t) ==> r matches Some(Json::Str(s)) && s@ == lossy_of(t@),
        *v is Array ==> r matches Some(Json::Array(_)),
        *v is Object ==> r matches Some(Json::Object(_)),
        match to_json_model(v@) {
            Some(m) => r matches Some(j) && json_view(j) == m,
            None => r is None,
        },
    decreases v,
{
    match v {
        Value::Bytes(b) => Some(Json::Str(lossy_utf8(b.as_slice()))),
        Value::Integer(i) => {
            let mut t: Vec<u8> = Vec::new();
            push_decimal(&mut t, *i);
            proof {
                assert(t@ =~= decimal_text(*i as int));
            }
            Some(Json::Number(t))
        },
        Value::Float(b) => {
            if !crate::value::is_finite_bits(*b) {
                return None;
            }
            match double_text(*b) {
                Some(t) => Some(Json::Number(t)),
                None => None,
            }
        },
        Value::Boolean(b) => Some(Json::Bool(*b)),
        Value::Null => Some(Json::Null),
        Value::Array(a) => {
            let mut items: Vec<Json> = Vec::new();
            let mut k: usize = 0;
            while k < a.len()
                invariant
                    k <= a@.len(),
                    jsons_view(items@) == items_to_json(values_view(a@.subrange(0, k as int))),
                decreases a@.len() - k,
            {
                proof {
                    assert(decreases_to!(a => a@));
                    assert(decreases_to!(a@ => a@[k as int]));
                    assert(a@.subrange(0, k + 1).drop_last() =~= a@.subrange(0, k as int));
                }
                let ghost old_items = items@;
                let ghost pv = values_view(a@.subrange(0, k as int));
                let ghost x = value_view(a@[k as int]);
                proof {
                    assert(values_view(a@.subrange(0, k + 1)) == pv.push(x));
                    assert(pv.push(x).drop_last() =~= pv);
                }
                if let Some(j) = vrl_value_to_json(&a[k]) {
                    items.push(j);
                    proof {
                        assert(items@.drop_last() =~= old_items);
                        assert(jsons_view(items@) =~= items_to_json(pv.push(x)));
                    }
                } else {
                    proof {
                        assert(jsons_view(items@) =~= items_to_json(pv.push(x)));
                    }
                }
                k = k + 1;
            }
            proof {
                assert(a@.subrange(0, a@.len() as int) =~= a@);
            }
            Some(Json::Array(items))
        },
        Value::Object(es) => {
            let mut members: Vec<(String, Json)> = Vec::new();
            let mut k: usize = 0;
            while k < es.len()
                invariant
                    k <= es@.len(),
                    members_view(members@) == members_to_json(entries_view(es@.subrange(0, k as int))),
                decreases es@.len() - k,
            {
                proof {
                    assert(decreases_to!(es => es@));
                    assert(decreases_to!(es@ => es@[k as int]));
                    assert(es@.subrange(0, k + 1).drop_last() =~= es@.subrange(0, k as int));
                }
                let ghost old_members = members@;
                let ghost pe = entries_view(es@.subrange(0, k as int));
                let ghost x = (es@[k as int].0@, value_view(es@[k as int].1));
                proof {
                    assert(entries_view(es@.subrange(0, k + 1)) == pe.push(x));
                    assert(pe.push(x).drop_last() =~= pe);
                }
                match &es[k].1 {
                    Value::Null => {
                        proof {
                            assert(members_view(members@) =~= members_to_json(pe.push(x)));
                        }
                    },
                    v1 => {
                        if let Some(j) = vrl_value_to_json(v1) {
                            members.push((es[k].0.clone(), j));
                            proof {
                                assert(members@.drop_last() =~= old_members);
                                assert(members_view(members@) =~= members_to_json(pe.push(x)));
                            }
                        } else {
                            proof {
                                assert(members_view(members@) =~= members_to_json(pe.push(x)));
                            }
                        }
                    },
                }
                k = k + 1;
            }
            proof {
                assert(es@.subrange(0, es@.len() as int) =~= es@);
            }
            Some(Json::Object(members))
        },
    }
}

/// Convert a value to JSON, with `null` where it has no JSON form.
pub fn vrl_value_to_json_lossy(v: &Value) -> (r: Json)
    ensures
        (*v matches Value::Float(b) && !bits_finite(b)) ==> r is Null,
        json_view(r) == match to_json_model(v@) {
            Some(m) => m,
            None => JsonModel::Null,
        },
{
    match vrl_value_to_json(v) {
        Some(j) => j,
        None => Json::Null,
    }
}

} // verus!
