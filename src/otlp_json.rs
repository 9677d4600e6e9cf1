//! Reading OTLP-JSON documents: camelCase members, 64-bit integers as decimal
//! strings, binary identifiers as hexadecimal strings. A member of the wrong
//! type is read as absent.

use vstd::prelude::*;
use crate::format::str_eq;
use crate::json::{
    hex_digit_value, hex_value, json_number_bits, json_view, jsons_view, lemma_member_key_prefix,
    lemma_members_view_index, lemma_members_view_len, lemma_members_view_prefix, members_view,
    number_bits, Json, JsonModel,
};
use crate::proto::{key_index, keys_unique, lemma_key_index_push, put_attribute, put_entry, utf8_string};
use crate::resource::{Resource, ResourceModel, Scope, ScopeModel};
use crate::value::{entries_view, push_value, values_view, Val, Value};
use vstd::utf8::{decode_utf8, valid_utf8};

verus! {

/// The value that a run of decimal digits denotes.
pub open spec fn decimal_value(s: Seq<u8>) -> nat
    decreases s.len(),
{
    if s.len() == 0 {
        0
    } else {
        decimal_value(s.drop_last()) * 10 + (s.last() - 0x30) as nat
    }
}

/// Whether every byte is a decimal digit.
pub open spec fn all_digits(s: Seq<u8>) -> bool {
    forall|k: int| 0 <= k < s.len() ==> 0x30 <= #[trigger] s[k] <= 0x39
}

/// Read a non-empty run of decimal digits whose value fits in 64 bits.
pub fn parse_decimal(s: &[u8]) -> (r: Option<u64>)
    ensures
        r matches Some(v) ==> s@.len() > 0 && all_digits(s@) && v as nat == decimal_value(s@),
        r is None ==> s@.len() == 0 || !all_digits(s@) || decimal_value(s@) > u64::MAX,
{
    if s.len() == 0 {
        return None;
    }
    let mut v: u64 = 0;
    let mut i: usize = 0;
    while i < s.len()
        invariant
            i <= s@.len(),
            all_digits(s@.subrange(0, i as int)),
            v as nat == decimal_value(s@.subrange(0, i as int)),
        decreases s@.len() - i,
    {
        let c = s[i];
        proof {
            assert(s@.subrange(0, i + 1).drop_last() =~= s@.subrange(0, i as int));
        }
        if !(0x30 <= c && c <= 0x39) {
            proof {
                assert(!(0x30 <= s@[i as int] <= 0x39));
            }
            return None;
        }
        let d = (c - 0x30) as u64;
        if v > (u64::MAX - d) / 10 {
            proof {
                lemma_decimal_prefix_grows(s@, (i + 1) as int);
            }
            return None;
        }
        v = v * 10 + d;
        i = i + 1;
    }
    proof {
        assert(s@.subrange(0, i as int) =~= s@);
    }
    Some(v)
}

proof fn lemma_decimal_monotone(s: Seq<u8>, n: int)
    requires
        0 <= n <= s.len(),
        all_digits(s),
    ensures
        decimal_value(s.subrange(0, n)) <= decimal_value(s),
    decreases s.len() - n,
{
    if n < s.len() {
        lemma_decimal_monotone(s, n + 1);
        assert(s.subrange(0, n + 1).drop_last() =~= s.subrange(0, n));
    } else {
        assert(s.subrange(0, n) =~= s);
    }
}

proof fn lemma_decimal_prefix_grows(s: Seq<u8>, n: int)
    requires
        0 < n <= s.len(),
        decimal_value(s.subrange(0, n)) > u64::MAX,
    ensures
        !all_digits(s) || decimal_value(s) > u64::MAX,
{
    if all_digits(s) {
        lemma_decimal_monotone(s, n);
    }
}

/// The models of a sequence of JSON values hold each one's model.
pub proof fn lemma_jsons_view_index(s: Seq<Json>, i: int)
    requires
        0 <= i < s.len(),
    ensures
        jsons_view(s).len() == s.len(),
        jsons_view(s)[i] == json_view(s[i]),
    decreases s.len(),
{
    lemma_jsons_view_len(s);
    lemma_jsons_view_len(s.drop_last());
    if i < s.len() - 1 {
        lemma_jsons_view_index(s.drop_last(), i);
    }
}

pub proof fn lemma_jsons_view_len(s: Seq<Json>)
    ensures
        jsons_view(s).len() == s.len(),
    decreases s.len(),
{
    if s.len() > 0 {
        lemma_jsons_view_len(s.drop_last());
    }
}

/// The model of an optional JSON value.
pub open spec fn opt_view(o: Option<&Json>) -> Option<JsonModel> {
    match o {
        Some(x) => Some(json_view(*x)),
        None => None,
    }
}

/// The member of an object under a key: the first one with that key.
pub open spec fn jmember(m: JsonModel, k: Seq<char>) -> Option<JsonModel> {
    match m {
        JsonModel::Object(ms) => match key_index(ms, k) {
            Some(i) => if 0 <= i < ms.len() {
                Some(ms[i].1)
            } else {
                None
            },
            None => None,
        },
        _ => None,
    }
}

/// Where the first member with a key stands among an object's members.
pub fn key_pos(ms: &Vec<(String, Json)>, key: &str) -> (r: Option<usize>)
    ensures
        members_view(ms@).len() == ms@.len(),
        match key_index(members_view(ms@), key@) {
            Some(i) => r matches Some(x) && x as int == i && 0 <= i < ms@.len() && members_view(
                ms@,
            )[i] == (ms@[i].0@, json_view(ms@[i].1)),
            None => r is None,
        },
{
    proof {
        lemma_members_view_len(ms@);
    }
    let mut i: usize = 0;
    while i < ms.len()
        invariant
            i <= ms@.len(),
            members_view(ms@).len() == ms@.len(),
            key_index(members_view(ms@.subrange(0, i as int)), key@) is None,
        decreases ms@.len() - i,
    {
        proof {
            lemma_members_view_prefix(ms@, i as int);
            lemma_key_index_push(
                members_view(ms@.subrange(0, i as int)),
                (ms@[i as int].0@, json_view(ms@[i as int].1)),
                key@,
            );
        }
        if str_eq(ms[i].0.as_str(), key) {
            proof {
                lemma_member_key_prefix(ms@, i as int, key@);
                lemma_members_view_index(ms@, i as int);
            }
            return Some(i);
        }
        i = i + 1;
    }
    proof {
        assert(ms@.subrange(0, ms@.len() as int) =~= ms@);
    }
    None
}

/// The member of an object with the given key, if any.
pub fn member<'a>(j: &'a Json, key: &str) -> (r: Option<&'a Json>)
    ensures
        opt_view(r) == jmember(json_view(*j), key@),
{
    match j {
        Json::Object(ms) => {
            let p = key_pos(ms, key);
            proof {
                assert(json_view(*j) == JsonModel::Object(members_view(ms@)));
            }
            match p {
                Some(i) => {
                    proof {
                        assert(key_index(members_view(ms@), key@) == Some(i as int));
                        assert(members_view(ms@)[i as int].1 == json_view(ms@[i as int].1));
                    }
                    Some(&ms[i].1)
                },
                None => None,
            }
        },
        _ => None,
    }
}

/// The items of an array member; none where it is absent or not an array.
pub open spec fn jitems(o: Option<JsonModel>) -> Seq<JsonModel> {
    match o {
        Some(JsonModel::Array(a)) => a,
        _ => seq![],
    }
}

/// The items of an array member; none where the member is absent or not an array.
pub fn items<'a>(j: Option<&'a Json>) -> (r: &'a [Json])
    ensures
        jsons_view(r@) == jitems(opt_view(j)),
        jsons_view(r@).len() == r@.len(),
{
    proof {
        lemma_jsons_view_len(seq![]);
    }
    match j {
        Some(Json::Array(a)) => {
            proof {
                lemma_jsons_view_len(a@);
            }
            a.as_slice()
        },
        _ => &[],
    }
}

/// The bytes of a string member; empty where it is absent or not a string.
pub open spec fn jtext(o: Option<JsonModel>) -> Seq<u8> {
    match o {
        Some(JsonModel::Str(t)) => t,
        _ => seq![],
    }
}

/// The bytes of a string member; empty where it is absent or not a string.
pub fn text_of(j: Option<&Json>) -> (r: Vec<u8>)
    ensures
        r@ == jtext(opt_view(j)),
{
    match j {
        Some(Json::Str(t)) => t.clone(),
        _ => Vec::new(),
    }
}

/// The digits of a number member, or of a string member.
pub open spec fn jdigits(o: Option<JsonModel>) -> Option<Seq<u8>> {
    match o {
        Some(JsonModel::Str(t)) => Some(t),
        Some(JsonModel::Number(t)) => Some(t),
        _ => None,
    }
}

/// An unsigned 64-bit member, written as a decimal string or a number; 0
/// where it is absent, not such a value, or out of range.
pub open spec fn ju64(o: Option<JsonModel>) -> u64 {
    match jdigits(o) {
        Some(t) => if t.len() > 0 && all_digits(t) && decimal_value(t) <= u64::MAX {
            decimal_value(t) as u64
        } else {
            0
        },
        None => 0,
    }
}

/// An unsigned 64-bit member, written as a decimal string or a number; 0
/// where it is absent or not such a value.
pub fn u64_of(j: Option<&Json>) -> (r: u64)
    ensures
        r == ju64(opt_view(j)),
{
    match j {
        Some(Json::Str(t)) | Some(Json::Number(t)) => match parse_decimal(t.as_slice()) {
            Some(v) => v,
            None => 0,
        },
        _ => 0,
    }
}

/// A signed 64-bit member, written as a decimal string or a number with an
/// optional minus sign; 0 where it is absent, not such a value, or out of range.
pub open spec fn ji64(o: Option<JsonModel>) -> i64 {
    match jdigits(o) {
        Some(t) => if t.len() > 0 && t[0] == 0x2d {
            let d = t.subrange(1, t.len() as int);
            if d.len() > 0 && all_digits(d) && decimal_value(d) <= 0x8000_0000_0000_0000 {
                (-(decimal_value(d) as int)) as i64
            } else {
                0
            }
        } else if t.len() > 0 && all_digits(t) && decimal_value(t) <= 0x7fff_ffff_ffff_ffff {
            decimal_value(t) as i64
        } else {
            0
        },
        None => 0,
    }
}

/// A signed 64-bit member, written as a decimal string or a number with an
/// optional minus sign; 0 where it is absent, not such a value, or out of range.
pub fn i64_of(j: Option<&Json>) -> (r: i64)
    ensures
        r == ji64(opt_view(j)),
{
    match j {
        Some(Json::Str(t)) | Some(Json::Number(t)) => {
            if t.len() > 0 && t[0] == 0x2d {
                let mut digits: Vec<u8> = Vec::new();
                let mut i: usize = 1;
                while i < t.len()
                    invariant
                        1 <= i <= t@.len(),
                        digits@ == t@.subrange(1, i as int),
                    decreases t@.len() - i,
                {
                    digits.push(t[i]);
                    proof {
                        assert(digits@ =~= t@.subrange(1, i + 1));
                    }
                    i = i + 1;
                }
                match parse_decimal(digits.as_slice()) {
                    Some(v) => if v <= 0x8000_0000_0000_0000 {
                        if v == 0x8000_0000_0000_0000 {
                            -0x8000_0000_0000_0000i64
                        } else {
                            -(v as i64)
                        }
                    } else {
                        0
                    },
                    None => 0,
                }
            } else {
                match parse_decimal(t.as_slice()) {
                    Some(v) => if v <= 0x7fff_ffff_ffff_ffff {
                        v as i64
                    } else {
                        0
                    },
                    None => 0,
                }
            }
        },
        _ => 0,
    }
}

/// A boolean member; false where it is absent or not a boolean.
pub open spec fn jbool(o: Option<JsonModel>) -> bool {
    match o {
        Some(JsonModel::Bool(x)) => x,
        _ => false,
    }
}

/// A boolean member; false where it is absent or not a boolean.
pub fn bool_of(j: Option<&Json>) -> (r: bool)
    ensures
        r == jbool(opt_view(j)),
{
    match j {
        Some(Json::Bool(x)) => *x,
        _ => false,
    }
}

/// A double member, as its bits: a number as serde_json reads it, or one of
/// the strings `NaN`, `Infinity` and `-Infinity`; `None` where it is absent
/// or not such a value.
pub open spec fn jdouble(o: Option<JsonModel>) -> Option<u64> {
    match o {
        Some(JsonModel::Number(t)) => json_number_bits(t),
        Some(JsonModel::Str(t)) => if t == seq![0x4eu8, 0x61u8, 0x4eu8] {
            Some(0x7ff8_0000_0000_0000)
        } else if t == seq![0x49u8, 0x6eu8, 0x66u8, 0x69u8, 0x6eu8, 0x69u8, 0x74u8, 0x79u8] {
            Some(0x7ff0_0000_0000_0000)
        } else if t == seq![0x2du8, 0x49u8, 0x6eu8, 0x66u8, 0x69u8, 0x6eu8, 0x69u8, 0x74u8, 0x79u8] {
            Some(0xfff0_0000_0000_0000)
        } else {
            None
        },
        _ => None,
    }
}

/// Whether a byte string is exactly `w`.
fn bytes_are(t: &[u8], w: &[u8]) -> (r: bool)
    ensures
        r == (t@ == w@),
{
    if t.len() != w.len() {
        return false;
    }
    let mut i: usize = 0;
    while i < t.len()
        invariant
            i <= t@.len(),
            t@.len() == w@.len(),
            forall|k: int| 0 <= k < i ==> t@[k] == w@[k],
        decreases t@.len() - i,
    {
        if t[i] != w[i] {
            return false;
        }
        i = i + 1;
    }
    proof {
        assert(t@ =~= w@);
    }
    true
}

/// A double member, as its bits: a number, or one of the strings `NaN`,
/// `Infinity` and `-Infinity`; `None` where it is absent or not such a value.
pub fn double_of(j: Option<&Json>) -> (r: Option<u64>)
    ensures
        r == jdouble(opt_view(j)),
{
    match j {
        Some(Json::Number(t)) => number_bits(t.as_slice()),
        Some(Json::Str(t)) => {
            let nan: [u8; 3] = [0x4e, 0x61, 0x4e];
            let inf: [u8; 8] = [0x49, 0x6e, 0x66, 0x69, 0x6e, 0x69, 0x74, 0x79];
            let ninf: [u8; 9] = [0x2d, 0x49, 0x6e, 0x66, 0x69, 0x6e, 0x69, 0x74, 0x79];
            proof {
                assert(nan@ =~= seq![0x4eu8, 0x61u8, 0x4eu8]);
                assert(inf@ =~= seq![0x49u8, 0x6eu8, 0x66u8, 0x69u8, 0x6eu8, 0x69u8, 0x74u8, 0x79u8]);
                assert(ninf@ =~= seq![
                    0x2du8,
                    0x49u8,
                    0x6eu8,
                    0x66u8,
                    0x69u8,
                    0x6eu8,
                    0x69u8,
                    0x74u8,
                    0x79u8,
                ]);
            }
            if bytes_are(t.as_slice(), &nan) {
                Some(0x7ff8_0000_0000_0000)
            } else if bytes_are(t.as_slice(), &inf) {
                Some(0x7ff0_0000_0000_0000)
            } else if bytes_are(t.as_slice(), &ninf) {
                Some(0xfff0_0000_0000_0000)
            } else {
                None
            }
        },
        _ => None,
    }
}

/// The bytes that the first `i` hexadecimal digits of `t` spell, two per byte.
pub open spec fn hex_pairs(t: Seq<u8>, i: nat) -> Option<Seq<u8>>
    decreases i,
{
    if i < 2 {
        Some(seq![])
    } else {
        match hex_pairs(t, (i - 2) as nat) {
            None => None,
            Some(x) => match (hex_digit_value(t[i - 2]), hex_digit_value(t[i - 1])) {
                (Some(h), Some(l)) => Some(x.push((h * 16 + l) as u8)),
                _ => None,
            },
        }
    }
}

proof fn lemma_hex_pairs_none(t: Seq<u8>, i: nat, m: nat)
    requires
        i <= m,
        i % 2 == 0,
        m % 2 == 0,
        hex_pairs(t, i) is None,
    ensures
        hex_pairs(t, m) is None,
    decreases m - i,
{
    if i < m {
        lemma_hex_pairs_none(t, i, (m - 2) as nat);
    }
}

/// The bytes that a hexadecimal string member spells; empty where it is
/// absent, not a string, or not an even run of hexadecimal digits.
pub open spec fn jhex(o: Option<JsonModel>) -> Seq<u8> {
    match o {
        Some(JsonModel::Str(t)) => if t.len() % 2 != 0 {
            seq![]
        } else {
            match hex_pairs(t, t.len()) {
                Some(x) => x,
                None => seq![],
            }
        },
        _ => seq![],
    }
}

/// The bytes that a hexadecimal string member spells; empty where it is
/// absent, not a string, or not an even run of hexadecimal digits.
#[verifier::loop_isolation(false)]
pub fn hex_bytes_of(j: Option<&Json>) -> (r: Vec<u8>)
    ensures
        r@ == jhex(opt_view(j)),
{
    match j {
        Some(Json::Str(t)) => {
            if t.len() % 2 != 0 {
                return Vec::new();
            }
            let mut out: Vec<u8> = Vec::new();
            let mut i: usize = 0;
            while i < t.len()
                invariant
                    i <= t@.len(),
                    i % 2 == 0,
                    t@.len() % 2 == 0,
                    hex_pairs(t@, i as nat) == Some(out@),
                decreases t@.len() - i,
            {
                match (hex_value(t[i]), hex_value(t[i + 1])) {
                    (Some(h), Some(l)) => out.push((h * 16 + l) as u8),
                    _ => {
                        proof {
                            assert(hex_pairs(t@, (i + 2) as nat) is None);
                            lemma_hex_pairs_none(t@, (i + 2) as nat, t@.len() as nat);
                        }
                        return Vec::new();
                    },
                }
                i = i + 2;
            }
            out
        },
        _ => Vec::new(),
    }
}

/// The value of an OTLP-JSON `AnyValue` object: of `stringValue`,
/// `boolValue`, `intValue`, `doubleValue`, `bytesValue` (kept as its base64
/// text), `arrayValue` and `kvlistValue`, the first present in that order
/// and of the right type; null where there is none.
pub open spec fn any_json(m: JsonModel) -> Val
    decreases m,
{
    match jmember(m, "stringValue"@) {
        Some(JsonModel::Str(t)) => Val::Bytes(t),
        _ => match jmember(m, "boolValue"@) {
            Some(JsonModel::Bool(x)) => Val::Boolean(x),
            _ => if jmember(m, "intValue"@) is Some {
                Val::Integer(ji64(jmember(m, "intValue"@)))
            } else {
                match jdouble(jmember(m, "doubleValue"@)) {
                    Some(b) => Val::Float(b),
                    None => match jmember(m, "bytesValue"@) {
                        Some(JsonModel::Str(t)) => Val::Bytes(t),
                        _ => match m {
                            JsonModel::Object(ms) => match key_index(ms, "arrayValue"@) {
                                Some(i) => if 0 <= i < ms.len() {
                                    Val::Array(array_value_json(ms[i].1))
                                } else {
                                    Val::Null
                                },
                                None => match key_index(ms, "kvlistValue"@) {
                                    Some(i) => if 0 <= i < ms.len() {
                                        Val::Object(kvlist_json(ms[i].1))
                                    } else {
                                        Val::Null
                                    },
                                    None => Val::Null,
                                },
                            },
                            _ => Val::Null,
                        },
                    },
                }
            },
        },
    }
}

/// The values of an `ArrayValue` object: its `values` array, item by item.
pub open spec fn array_value_json(v: JsonModel) -> Seq<Val>
    decreases v,
{
    match v {
        JsonModel::Object(ms) => match key_index(ms, "values"@) {
            Some(i) => if 0 <= i < ms.len() {
                match ms[i].1 {
                    JsonModel::Array(a) => items_json(a),
                    _ => seq![],
                }
            } else {
                seq![]
            },
            None => seq![],
        },
        _ => seq![],
    }
}

/// The entries of a `KeyValueList` object: its `values` array of key-value
/// objects.
pub open spec fn kvlist_json(v: JsonModel) -> Seq<(Seq<char>, Val)>
    decreases v,
{
    match v {
        JsonModel::Object(ms) => match key_index(ms, "values"@) {
            Some(i) => if 0 <= i < ms.len() {
                kv_array_json(ms[i].1)
            } else {
                seq![]
            },
            None => seq![],
        },
        _ => seq![],
    }
}

/// The entries of an array of key-value objects; none where it is no array.
pub open spec fn kv_array_json(v: JsonModel) -> Seq<(Seq<char>, Val)>
    decreases v,
{
    match v {
        JsonModel::Array(a) => kv_fold(a),
        _ => seq![],
    }
}

/// The values of array items, in order.
pub open spec fn items_json(a: Seq<JsonModel>) -> Seq<Val>
    decreases a,
{
    if a.len() == 0 {
        seq![]
    } else {
        items_json(a.drop_last()).push(any_json(a.last()))
    }
}

/// The key of a key-value object: its `key` string where it is well-formed
/// UTF-8, else empty.
pub open spec fn kv_key(ms: Seq<(Seq<char>, JsonModel)>) -> Seq<char> {
    match key_index(ms, "key"@) {
        Some(i) => if 0 <= i < ms.len() {
            match ms[i].1 {
                JsonModel::Str(t) => if valid_utf8(t) {
                    decode_utf8(t)
                } else {
                    seq![]
                },
                _ => seq![],
            }
        } else {
            seq![]
        },
        None => seq![],
    }
}

/// The value of a key-value object: its `value` as an `AnyValue`, else null.
pub open spec fn kv_value(ms: Seq<(Seq<char>, JsonModel)>) -> Val
    decreases ms,
{
    match key_index(ms, "value"@) {
        Some(i) => if 0 <= i < ms.len() {
            any_json(ms[i].1)
        } else {
            Val::Null
        },
        None => Val::Null,
    }
}

/// The entries of key-value objects, each bound in turn (the last write
/// wins); items that are not objects are skipped.
pub open spec fn kv_fold(a: Seq<JsonModel>) -> Seq<(Seq<char>, Val)>
    decreases a,
{
    if a.len() == 0 {
        seq![]
    } else {
        let acc = kv_fold(a.drop_last());
        match a.last() {
            JsonModel::Object(ms) => put_entry(acc, kv_key(ms), kv_value(ms)),
            _ => acc,
        }
    }
}

/// The value of an OTLP-JSON `AnyValue` object.
pub fn any_value_of(j: &Json) -> (r: Value)
    ensures
        r@ == any_json(json_view(*j)),
    decreases j, 2nat,
{
    if let Some(Json::Str(t)) = member(j, "stringValue") {
        return Value::Bytes(t.clone());
    }
    if let Some(Json::Bool(x)) = member(j, "boolValue") {
        return Value::Boolean(*x);
    }
    let iv = member(j, "intValue");
    if iv.is_some() {
        return Value::Integer(i64_of(iv));
    }
    if let Some(bits) = double_of(member(j, "doubleValue")) {
        return Value::Float(bits);
    }
    if let Some(Json::Str(t)) = member(j, "bytesValue") {
        return Value::Bytes(t.clone());
    }
    if let Json::Object(ms) = j {
        if let Some(i) = key_pos(ms, "arrayValue") {
            proof {
                assert(decreases_to!(j => ms));
                assert(decreases_to!(ms => ms@));
                assert(decreases_to!(ms@ => ms@[i as int]));
            }
            return Value::Array(array_value_of(&ms[i].1));
        }
        if let Some(i) = key_pos(ms, "kvlistValue") {
            proof {
                assert(decreases_to!(j => ms));
                assert(decreases_to!(ms => ms@));
                assert(decreases_to!(ms@ => ms@[i as int]));
            }
            return Value::Object(kvlist_of(&ms[i].1));
        }
    }
    Value::Null
}

/// The values of an `ArrayValue` object.
#[verifier::loop_isolation(false)]
fn array_value_of(v: &Json) -> (r: Vec<Value>)
    ensures
        values_view(r@) == array_value_json(json_view(*v)),
    decreases v, 1nat,
{
    let mut out: Vec<Value> = Vec::new();
    if let Json::Object(ms) = v {
        if let Some(i) = key_pos(ms, "values") {
            if let Json::Array(a) = &ms[i].1 {
                let mut k: usize = 0;
                while k < a.len()
                    invariant
                        k <= a@.len(),
                        values_view(out@) == items_json(jsons_view(a@.subrange(0, k as int))),
                    decreases a@.len() - k,
                {
                    proof {
                        assert(decreases_to!(v => ms));
                        assert(decreases_to!(ms => ms@));
                        assert(decreases_to!(ms@ => ms@[i as int]));
                        assert(decreases_to!(a => a@));
                        assert(decreases_to!(a@ => a@[k as int]));
                        assert(a@.subrange(0, k + 1).drop_last() =~= a@.subrange(0, k as int));
                        let pj = jsons_view(a@.subrange(0, k as int));
                        assert(jsons_view(a@.subrange(0, k + 1)) == pj.push(json_view(a@[k as int])));
                        assert(pj.push(json_view(a@[k as int])).drop_last() =~= pj);
                    }
                    push_value(&mut out, any_value_of(&a[k]));
                    k = k + 1;
                }
                proof {
                    assert(a@.subrange(0, a@.len() as int) =~= a@);
                }
            }
        }
    }
    out
}

/// The entries of a `KeyValueList` object.
fn kvlist_of(v: &Json) -> (r: Vec<(String, Value)>)
    ensures
        entries_view(r@) == kvlist_json(json_view(*v)),
        keys_unique(entries_view(r@)),
    decreases v, 1nat,
{
    if let Json::Object(ms) = v {
        if let Some(i) = key_pos(ms, "values") {
            proof {
                assert(decreases_to!(v => ms));
                assert(decreases_to!(ms => ms@));
                assert(decreases_to!(ms@ => ms@[i as int]));
            }
            return key_values_of(&ms[i].1);
        }
    }
    Vec::new()
}

/// The entries of an array of `KeyValue` objects; of repeated keys the last
/// value wins.
#[verifier::loop_isolation(false)]
pub fn key_values_of(j: &Json) -> (r: Vec<(String, Value)>)
    ensures
        entries_view(r@) == kv_array_json(json_view(*j)),
        keys_unique(entries_view(r@)),
    decreases j, 0nat,
{
    let mut out: Vec<(String, Value)> = Vec::new();
    if let Json::Array(a) = j {
        let mut k: usize = 0;
        while k < a.len()
            invariant
                k <= a@.len(),
                keys_unique(entries_view(out@)),
                entries_view(out@) == kv_fold(jsons_view(a@.subrange(0, k as int))),
            decreases a@.len() - k,
        {
            proof {
                assert(a@.subrange(0, k + 1).drop_last() =~= a@.subrange(0, k as int));
                let pj = jsons_view(a@.subrange(0, k as int));
                assert(jsons_view(a@.subrange(0, k + 1)) == pj.push(json_view(a@[k as int])));
                assert(pj.push(json_view(a@[k as int])).drop_last() =~= pj);
                assert(decreases_to!(j => a));
                assert(decreases_to!(a => a@));
                assert(decreases_to!(a@ => a@[k as int]));
            }
            if let Json::Object(ms) = &a[k] {
                let key = match key_pos(ms, "key") {
                    Some(i) => match &ms[i].1 {
                        Json::Str(t) => match utf8_string(t.clone()) {
                            Some(s) => s,
                            None => String::new(),
                        },
                        _ => String::new(),
                    },
                    None => String::new(),
                };
                let val = match key_pos(ms, "value") {
                    Some(i) => {
                        proof {
                            assert(decreases_to!(a@[k as int] => ms));
                            assert(decreases_to!(ms => ms@));
                            assert(decreases_to!(ms@ => ms@[i as int]));
                        }
                        any_value_of(&ms[i].1)
                    },
                    None => Value::Null,
                };
                proof {
                    assert(json_view(a@[k as int]) == JsonModel::Object(members_view(ms@)));
                    assert(key@ == kv_key(members_view(ms@)));
                    assert(val@ == kv_value(members_view(ms@)));
                }
                put_attribute(&mut out, key, val);
            }
            k = k + 1;
        }
        proof {
            assert(a@.subrange(0, a@.len() as int) =~= a@);
        }
    }
    out
}

/// The attributes of an object: its `attributes` array of key-value objects.
pub open spec fn attrs_json(m: JsonModel) -> Seq<(Seq<char>, Val)> {
    match jmember(m, "attributes"@) {
        Some(a) => kv_array_json(a),
        None => seq![],
    }
}

/// The attributes member of an object.
pub fn attributes_of(j: &Json) -> (r: Vec<(String, Value)>)
    ensures
        entries_view(r@) == attrs_json(json_view(*j)),
        keys_unique(entries_view(r@)),
{
    match member(j, "attributes") {
        Some(a) => key_values_of(a),
        None => Vec::new(),
    }
}

/// The resource that an OTLP-JSON `resource` object gives.
pub open spec fn resource_json(o: Option<JsonModel>) -> ResourceModel {
    match o {
        Some(r) => ResourceModel {
            attributes: attrs_json(r),
            dropped_attributes_count: ju64(jmember(r, "droppedAttributesCount"@)) as u32,
        },
        None => ResourceModel { attributes: seq![], dropped_attributes_count: 0 },
    }
}

/// The `resource` object of a resource entry.
pub fn resource_of(j: Option<&Json>) -> (r: Resource)
    ensures
        r@ == resource_json(opt_view(j)),
{
    match j {
        Some(r) => Resource {
            attributes: attributes_of(r),
            dropped_attributes_count: u64_of(member(r, "droppedAttributesCount")) as u32,
        },
        None => Resource::empty(),
    }
}

/// The scope that an OTLP-JSON `scope` object gives.
pub open spec fn scope_json(o: Option<JsonModel>) -> ScopeModel {
    match o {
        Some(s) => ScopeModel {
            name: jtext(jmember(s, "name"@)),
            version: jtext(jmember(s, "version"@)),
            attributes: attrs_json(s),
            dropped_attributes_count: ju64(jmember(s, "droppedAttributesCount"@)) as u32,
        },
        None => ScopeModel { name: seq![], version: seq![], attributes: seq![], dropped_attributes_count: 0 },
    }
}

/// The `scope` object of a scope entry.
pub fn scope_of(j: Option<&Json>) -> (r: Scope)
    ensures
        r@ == scope_json(opt_view(j)),
{
    match j {
        Some(s) => Scope {
            name: text_of(member(s, "name")),
            version: text_of(member(s, "version")),
            attributes: attributes_of(s),
            dropped_attributes_count: u64_of(member(s, "droppedAttributesCount")) as u32,
        },
        None => Scope::empty(),
    }
}

} // verus!
