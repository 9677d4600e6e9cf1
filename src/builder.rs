//! Projecting untyped rows onto a schema: one typed column per field, with
//! a validity flag per row.

use vstd::prelude::*;
use vstd::string::*;
use crate::schemas::{DataType, SchemaDef, SchemaField};
use crate::text::{text_form, to_text};
use crate::value::{
    bits_finite, entries_view, is_finite_bits, lemma_values_view_index, lemma_values_view_len,
    value_view, values_view, Val, Value,
};
use crate::proto::{
    key_index, lemma_entries_view_index, lemma_entries_view_prefix, lemma_key_index_prefix,
    lemma_key_index_push,
};
use vstd::arithmetic::power2::{lemma2_to64, lemma2_to64_rest, lemma_pow2_adds, lemma_pow2_pos, lemma_pow2_strictly_increases, pow2};
use vstd::arithmetic::div_mod::lemma_small_mod;

verus! {

/// The values of a column, one per row; a null row holds a placeholder.
/// Doubles are held as their bits, text as UTF-8 bytes.
pub enum ColumnData {
    Int64(Vec<i64>),
    Float64(Vec<u64>),
    Utf8(Vec<Vec<u8>>),
    Boolean(Vec<bool>),
    /// The entries of each row's map, in source order; a value may be null.
    TextMap(Vec<Vec<(Vec<u8>, Option<Vec<u8>>)>>),
    /// The number of items of each row, and the items of all rows in order.
    List { lengths: Vec<usize>, items: Box<Column> },
    /// One column per field of the struct.
    Struct(Vec<Column>),
}

/// A column: whether each row holds a value, and the values.
pub struct Column {
    pub validity: Vec<bool>,
    pub data: ColumnData,
}

/// A record batch: one column per field of its schema, all of one length.
pub struct Batch {
    pub num_rows: usize,
    pub columns: Vec<Column>,
}

/// Why rows could not be projected onto a schema.
#[derive(Debug)]
pub enum BuildError {
    /// A value that the field's type cannot take.
    TypeMismatch { field: String, expected: String, actual: String },
    /// A null, or no value, for a field that must hold one.
    NullInNonNullable { field: String },
}

/// The number of rows that the values of a column hold.
pub open spec fn data_len(d: ColumnData) -> nat {
    match d {
        ColumnData::Int64(v) => v@.len(),
        ColumnData::Float64(v) => v@.len(),
        ColumnData::Utf8(v) => v@.len(),
        ColumnData::Boolean(v) => v@.len(),
        ColumnData::TextMap(v) => v@.len(),
        ColumnData::List { lengths, .. } => lengths@.len(),
        ColumnData::Struct(cs) => if forall|i: int| 0 <= i < cs@.len() ==> #[trigger] cs@[i].validity@.len() == cs@[0].validity@.len() && cs@.len() > 0 {
            cs@[0].validity@.len()
        } else {
            0
        },
    }
}

/// A column of `n` rows: `n` validity flags and values for `n` rows; a
/// struct column's fields each hold `n` rows too.
pub open spec fn column_len_ok(c: Column, n: nat) -> bool {
    &&& c.validity@.len() == n
    &&& match c.data {
        ColumnData::Struct(cs) => forall|i: int| 0 <= i < cs@.len() ==> #[trigger] cs@[i].validity@.len() == n,
        _ => data_len(c.data) == n,
    }
}

/// Every row that is not masked by a null parent holds a value.
pub open spec fn no_nulls(c: Column, masked: Seq<bool>) -> bool {
    forall|i: int| 0 <= i < c.validity@.len() && !masked[i] ==> #[trigger] c.validity@[i]
}

fn type_error(f: &SchemaField, expected: &str, v: &Value) -> (r: BuildError)
    ensures
        r is TypeMismatch,
{
    let actual = match v {
        Value::Null => "null",
        Value::Boolean(_) => "boolean",
        Value::Integer(_) => "integer",
        Value::Float(b) => if is_finite_bits(*b) {
            "float"
        } else {
            "non-finite float"
        },
        Value::Bytes(_) => "bytes",
        Value::Array(_) => "array",
        Value::Object(_) => "object",
    };
    BuildError::TypeMismatch {
        field: f.name.clone(),
        expected: String::from_str(expected),
        actual: String::from_str(actual),
    }
}

fn null_error(f: &SchemaField) -> (r: BuildError)
    ensures
        r is NullInNonNullable,
{
    BuildError::NullInNonNullable { field: f.name.clone() }
}

/// The value of an object's member under a key: the first entry with that key.
pub open spec fn member_model(v: Val, k: Seq<char>) -> Option<Val> {
    match v {
        Val::Object(es) => match key_index(es, k) {
            Some(i) => Some(es[i].1),
            None => None,
        },
        _ => None,
    }
}

/// The value of an object's member, if the object has one under the key.
pub fn member_of<'a>(v: &'a Value, key: &String) -> (r: Option<&'a Value>)
    ensures
        cell_model(r) == member_model(v@, key@),
{
    match v {
        Value::Object(es) => {
            let mut i: usize = 0;
            while i < es.len()
                invariant
                    i <= es@.len(),
                    *v == Value::Object(*es),
                    key_index(entries_view(es@.subrange(0, i as int)), key@) is None,
                decreases es@.len() - i,
            {
                proof {
                    lemma_entries_view_prefix(es@, i as int);
                    lemma_key_index_push(
                        entries_view(es@.subrange(0, i as int)),
                        (es@[i as int].0@, value_view(es@[i as int].1)),
                        key@,
                    );
                }
                if es[i].0 == *key {
                    proof {
                        lemma_key_index_prefix(es@, i as int, key@);
                        lemma_entries_view_index(es@, i as int);
                    }
                    return Some(&es[i].1);
                }
                i = i + 1;
            }
            proof {
                assert(es@.subrange(0, es@.len() as int) =~= es@);
            }
            None
        },
        _ => None,
    }
}

/// Whether a cell holds no value: absent, or null.
fn is_null_cell(v: Option<&Value>) -> (r: bool)
    ensures
        r == (v is None || v matches Some(Value::Null)),
{
    match v {
        None => true,
        Some(Value::Null) => true,
        _ => false,
    }
}

/// The integer that an IEEE 754 double denotes, where it is an integer:
/// zero, or a normal double whose significand has no fraction left at its
/// exponent; `None` for fractions, NaN and the infinities.
pub open spec fn double_integer(bits: u64) -> Option<int> {
    let e = ((bits / 0x10_0000_0000_0000) % 0x800) as nat;
    let m = (bits % 0x10_0000_0000_0000) as nat;
    let neg = bits >= 0x8000_0000_0000_0000;
    if e == 0x7ff {
        None
    } else if e == 0 {
        if m == 0 {
            Some(0)
        } else {
            None
        }
    } else {
        let sig = m + 0x10_0000_0000_0000;
        let mag: Option<nat> = if e >= 1075 {
            Some(sig * pow2((e - 1075) as nat))
        } else if sig % pow2((1075 - e) as nat) == 0 {
            Some(sig / pow2((1075 - e) as nat))
        } else {
            None
        };
        match mag {
            Some(v) => Some(
                if neg {
                    -(v as int)
                } else {
                    v as int
                },
            ),
            None => None,
        }
    }
}

fn pow2_exec(k: u64) -> (r: u64)
    requires
        k < 64,
    ensures
        r as nat == pow2(k as nat),
        r > 0,
{
    let mut p: u64 = 1;
    let mut i: u64 = 0;
    proof {
        lemma2_to64();
    }
    while i < k
        invariant
            i <= k < 64,
            p as nat == pow2(i as nat),
        decreases k - i,
    {
        proof {
            lemma2_to64();
            lemma_pow2_adds(i as nat, 1);
            if i + 1 < 64 {
                lemma_pow2_strictly_increases((i + 1) as nat, 64);
            }
        }
        p = p * 2;
        i = i + 1;
    }
    proof {
        lemma_pow2_pos(k as nat);
    }
    p
}

proof fn lemma_large_out_of_range(sig: nat, shift: nat)
    requires
        sig >= 0x10_0000_0000_0000,
        shift >= 12,
    ensures
        sig * pow2(shift) > 0x8000_0000_0000_0000,
{
    lemma2_to64();
    if shift > 12 {
        lemma_pow2_strictly_increases(12, shift);
    }
    let p = pow2(shift);
    assert(sig * p > 0x8000_0000_0000_0000) by (nonlinear_arith)
        requires
            sig >= 0x10_0000_0000_0000,
            p >= 0x1000,
    ;
}

proof fn lemma_small_not_divisible(sig: nat, shift: nat)
    requires
        0x10_0000_0000_0000 <= sig < 0x20_0000_0000_0000,
        shift >= 53,
    ensures
        sig % pow2(shift) != 0,
{
    lemma2_to64();
    lemma2_to64_rest();
    if shift > 53 {
        lemma_pow2_strictly_increases(53, shift);
    }
    lemma_small_mod(sig, pow2(shift));
}

/// The signed 64-bit integer that a double denotes, where it denotes one
/// exactly and within range.
pub fn double_to_i64(bits: u64) -> (r: Option<i64>)
    ensures
        r matches Some(x) ==> double_integer(bits) == Some(x as int),
        r is None ==> match double_integer(bits) {
            Some(v) => v < i64::MIN || v > i64::MAX,
            None => true,
        },
{
    let e = (bits / 0x10_0000_0000_0000) % 0x800;
    let m = bits % 0x10_0000_0000_0000;
    let neg = bits >= 0x8000_0000_0000_0000;
    if e == 0x7ff {
        return None;
    }
    if e == 0 {
        return if m == 0 {
            Some(0)
        } else {
            None
        };
    }
    let sig = m + 0x10_0000_0000_0000;
    if e >= 1075 {
        let shift = e - 1075;
        if shift > 11 {
            proof {
                lemma_large_out_of_range(sig as nat, shift as nat);
            }
            return None;
        }
        let p = pow2_exec(shift);
        proof {
            lemma2_to64();
            if shift < 11 {
                lemma_pow2_strictly_increases(shift as nat, 11);
            }
            assert(sig as nat * (p as nat) <= 0x1f_ffff_ffff_ffff * 0x800) by (nonlinear_arith)
                requires
                    sig <= 0x1f_ffff_ffff_ffff,
                    p <= 0x800,
            ;
        }
        let mag = (sig as u128) * (p as u128);
        if neg {
            if mag <= 0x8000_0000_0000_0000 {
                if mag == 0x8000_0000_0000_0000 {
                    Some(i64::MIN)
                } else {
                    Some(-(mag as i64))
                }
            } else {
                None
            }
        } else {
            if mag <= 0x7fff_ffff_ffff_ffff {
                Some(mag as i64)
            } else {
                None
            }
        }
    } else {
        let shift = 1075 - e;
        if shift >= 53 {
            proof {
                lemma_small_not_divisible(sig as nat, shift as nat);
            }
            return None;
        }
        let p = pow2_exec(shift);
        if sig % p != 0 {
            return None;
        }
        let mag = sig / p;
        if neg {
            Some(-(mag as i64))
        } else {
            Some(mag as i64)
        }
    }
}

/// The model of a cell: the value of a row's member, if it has one.
pub open spec fn cell_model(c: Option<&Value>) -> Option<Val> {
    match c {
        Some(v) => Some(value_view(*v)),
        None => None,
    }
}

/// Whether a cell holds no value: absent, or null.
pub open spec fn null_cell(c: Option<Val>) -> bool {
    c is None || c == Some(Val::Null)
}

/// The integer that an integer column holds for a value: an integer as it
/// is, a boolean as 0 or 1, a double that is an integer within range.
pub open spec fn int_value(v: Val) -> Option<i64> {
    match v {
        Val::Integer(x) => Some(x),
        Val::Boolean(b) => Some(
            if b {
                1i64
            } else {
                0i64
            },
        ),
        Val::Float(bits) => match double_integer(bits) {
            Some(x) => if i64::MIN <= x <= i64::MAX {
                Some(x as i64)
            } else {
                None
            },
            None => None,
        },
        _ => None,
    }
}

/// Whether an integer column accepts a cell: null only where the field is
/// nullable; a double that is no integer in range only where it is
/// nullable (it becomes null); integers and booleans always.
pub open spec fn int_cell_ok(c: Option<Val>, required: bool) -> bool {
    if null_cell(c) {
        !required
    } else {
        match c->Some_0 {
            Val::Integer(_) => true,
            Val::Boolean(_) => true,
            Val::Float(_) => int_value(c->Some_0) is Some || !required,
            _ => false,
        }
    }
}

/// The double bits that a double column holds for a value: a finite double
/// as it is, an integer widened.
pub open spec fn float_value(v: Val) -> Option<u64> {
    match v {
        Val::Float(b) => if bits_finite(b) {
            Some(b)
        } else {
            None
        },
        Val::Integer(i) => Some(crate::metrics::int_double_bits(i)),
        _ => None,
    }
}

/// Whether a double column accepts a cell.
pub open spec fn float_cell_ok(c: Option<Val>, required: bool) -> bool {
    if null_cell(c) {
        !required
    } else {
        float_value(c->Some_0) is Some
    }
}

/// Whether a boolean column accepts a cell.
pub open spec fn bool_cell_ok(c: Option<Val>, required: bool) -> bool {
    if null_cell(c) {
        !required
    } else {
        c->Some_0 is Boolean
    }
}

/// The models of the cells of a column.
pub open spec fn cell_models(cells: Seq<Option<&Value>>) -> Seq<Option<Val>> {
    Seq::new(cells.len(), |i: int| cell_model(cells[i]))
}

/// The text that a text column holds for a cell, if any.
pub open spec fn text_cell(m: Option<Val>, masked: bool) -> Option<Seq<u8>> {
    if masked || null_cell(m) {
        None
    } else {
        text_form(m->Some_0)
    }
}

/// What a column holds for its cells, by the coercion of its type; a masked
/// cell (under a null parent) is null. A list column holds each cell's item
/// count and a column of all the items; a struct column a column per field
/// of the cells' members; a map column each member's key and text form.
pub open spec fn column_values(c: Column, f: SchemaField, cm: Seq<Option<Val>>, masked: Seq<bool>) -> bool
    decreases f,
{
    match f.field_type {
        DataType::Int64 => c.data matches ColumnData::Int64(out) && forall|i: int|
            0 <= i < cm.len() ==> {
                &&& c.validity@[i] == (!masked[i] && !null_cell(#[trigger] cm[i]) && int_value(
                    cm[i]->Some_0,
                ) is Some)
                &&& c.validity@[i] ==> out@[i] == int_value(cm[i]->Some_0)->Some_0
            },
        DataType::Float64 => c.data matches ColumnData::Float64(out) && forall|i: int|
            0 <= i < cm.len() ==> {
                &&& c.validity@[i] == (!masked[i] && !null_cell(#[trigger] cm[i]))
                &&& c.validity@[i] ==> out@[i] == float_value(cm[i]->Some_0)->Some_0
            },
        DataType::Boolean => c.data matches ColumnData::Boolean(out) && forall|i: int|
            0 <= i < cm.len() ==> {
                &&& c.validity@[i] == (!masked[i] && !null_cell(#[trigger] cm[i]))
                &&& c.validity@[i] ==> cm[i] == Some(Val::Boolean(out@[i]))
            },
        DataType::Utf8 => c.data matches ColumnData::Utf8(out) && forall|i: int|
            0 <= i < cm.len() ==> {
                &&& c.validity@[i] == (text_cell(#[trigger] cm[i], masked[i]) is Some || (!masked[i]
                    && f.required))
                &&& out@[i]@ == (match text_cell(cm[i], masked[i]) {
                    Some(x) => x,
                    None => seq![],
                })
            },
        DataType::TextMap => c.data matches ColumnData::TextMap(out) && forall|i: int|
            0 <= i < cm.len() ==> {
                &&& c.validity@[i] == (!masked[i] && !null_cell(#[trigger] cm[i]))
                &&& c.validity@[i] ==> map_entries(out@[i]@, cm[i]->Some_0->Object_0)
            },
        DataType::List(item) => c.data matches ColumnData::List { lengths, items } && lengths@.len()
            == cm.len() && (forall|i: int|
            0 <= i < cm.len() ==> #[trigger] lengths@[i] == cell_items(cm[i], masked[i]).len())
            && column_values(
            *items,
            *item,
            list_items(cm, masked),
            Seq::new(list_items(cm, masked).len(), |k: int| false),
        ),
        DataType::Struct(fs) => c.data matches ColumnData::Struct(cs) && fields_values(
            cs@,
            fs@,
            cm,
            masked,
        ),
        _ => true,
    }
}

/// Whether a map column accepts a cell: an object, or null where the field
/// is nullable.
pub open spec fn map_cell_ok(c: Option<Val>, required: bool) -> bool {
    if null_cell(c) {
        !required
    } else {
        c->Some_0 is Object
    }
}

/// Whether a list column accepts a cell: an array, or null where the field
/// is nullable.
pub open spec fn list_cell_ok(c: Option<Val>, required: bool) -> bool {
    if null_cell(c) {
        !required
    } else {
        c->Some_0 is Array
    }
}

/// Whether a struct column accepts a cell: an object, or null where the
/// field is nullable.
pub open spec fn struct_cell_ok(c: Option<Val>, required: bool) -> bool {
    if null_cell(c) {
        !required
    } else {
        c->Some_0 is Object
    }
}

/// The items of one list cell: those of an array that is not masked.
pub open spec fn cell_items(c: Option<Val>, masked: bool) -> Seq<Option<Val>> {
    match c {
        Some(Val::Array(xs)) => if masked {
            seq![]
        } else {
            Seq::new(xs.len(), |k: int| Some(xs[k]))
        },
        _ => seq![],
    }
}

/// The items of a list column's cells, in order: those of every cell that
/// is an array and not masked.
pub open spec fn list_items(cm: Seq<Option<Val>>, masked: Seq<bool>) -> Seq<Option<Val>>
    decreases cm.len(),
{
    if cm.len() == 0 {
        seq![]
    } else {
        list_items(cm.drop_last(), masked.drop_last()) + cell_items(cm.last(), masked.last())
    }
}

/// Whether a struct cell is null or masked, which masks its fields.
pub open spec fn child_mask(cm: Seq<Option<Val>>, masked: Seq<bool>) -> Seq<bool> {
    Seq::new(cm.len(), |k: int| masked[k] || null_cell(cm[k]))
}

/// The cells of a struct's field `name`: the member of each struct cell
/// that is neither null nor masked.
pub open spec fn field_cells(cm: Seq<Option<Val>>, masked: Seq<bool>, name: Seq<char>) -> Seq<
    Option<Val>,
> {
    Seq::new(
        cm.len(),
        |k: int|
            if masked[k] || null_cell(cm[k]) {
                None
            } else {
                member_model(cm[k]->Some_0, name)
            },
    )
}

/// Whether a column of field `f` accepts the cells `cm`, masked rows aside,
/// by the coercion table: scalar cells by their type, a map cell, a list
/// cell and its items, a struct cell and each of its fields.
pub open spec fn column_fits(f: SchemaField, cm: Seq<Option<Val>>, masked: Seq<bool>) -> bool
    decreases f,
{
    match f.field_type {
        DataType::Int64 => forall|i: int|
            0 <= i < cm.len() && !masked[i] ==> #[trigger] int_cell_ok(cm[i], f.required),
        DataType::Float64 => forall|i: int|
            0 <= i < cm.len() && !masked[i] ==> #[trigger] float_cell_ok(cm[i], f.required),
        DataType::Boolean => forall|i: int|
            0 <= i < cm.len() && !masked[i] ==> #[trigger] bool_cell_ok(cm[i], f.required),
        DataType::Utf8 => true,
        DataType::TextMap => forall|i: int|
            0 <= i < cm.len() && !masked[i] ==> #[trigger] map_cell_ok(cm[i], f.required),
        DataType::List(item) => {
            &&& forall|i: int|
                0 <= i < cm.len() && !masked[i] ==> #[trigger] list_cell_ok(cm[i], f.required)
            &&& column_fits(
                *item,
                list_items(cm, masked),
                Seq::new(list_items(cm, masked).len(), |k: int| false),
            )
        },
        DataType::Struct(fs) => {
            &&& forall|i: int|
                0 <= i < cm.len() && !masked[i] ==> #[trigger] struct_cell_ok(cm[i], f.required)
            &&& fields_fit(fs@, cm, masked)
        },
    }
}

/// Whether every field of a struct accepts its cells.
pub open spec fn fields_fit(fs: Seq<SchemaField>, cm: Seq<Option<Val>>, masked: Seq<bool>) -> bool
    decreases fs,
{
    if fs.len() == 0 {
        true
    } else {
        fields_fit(fs.drop_last(), cm, masked) && column_fits(
            fs.last(),
            field_cells(cm, masked, fs.last().name@),
            child_mask(cm, masked),
        )
    }
}

proof fn lemma_fields_fit_prefix(fs: Seq<SchemaField>, j: int, cm: Seq<Option<Val>>, masked: Seq<bool>)
    requires
        0 <= j <= fs.len(),
        fields_fit(fs, cm, masked),
    ensures
        fields_fit(fs.subrange(0, j), cm, masked),
    decreases fs.len(),
{
    if j < fs.len() {
        assert(fs.drop_last().subrange(0, j) =~= fs.subrange(0, j));
        lemma_fields_fit_prefix(fs.drop_last(), j, cm, masked);
    } else {
        assert(fs.subrange(0, j) =~= fs);
    }
}

/// The entries of a map cell: each member's key as UTF-8 and its value's
/// text form, in order; a value without one is null.
pub open spec fn map_entries(out: Seq<(Vec<u8>, Option<Vec<u8>>)>, es: Seq<(Seq<char>, Val)>) -> bool {
    &&& out.len() == es.len()
    &&& forall|k: int|
        0 <= k < es.len() ==> {
            &&& (#[trigger] out[k]).0@ == vstd::utf8::encode_utf8(es[k].0)
            &&& match text_form(es[k].1) {
                Some(t) => out[k].1 matches Some(x) && x@ == t,
                None => out[k].1 is None,
            }
        }
}

/// What the columns of a struct's fields hold, field by field.
pub open spec fn fields_values(cs: Seq<Column>, fs: Seq<SchemaField>, cm: Seq<Option<Val>>, masked: Seq<bool>) -> bool
    decreases fs,
{
    if fs.len() == 0 {
        cs.len() == 0
    } else {
        &&& cs.len() == fs.len()
        &&& fields_values(cs.drop_last(), fs.drop_last(), cm, masked)
        &&& column_values(
            cs.last(),
            fs.last(),
            field_cells(cm, masked, fs.last().name@),
            child_mask(cm, masked),
        )
    }
}

/// Build the column of one field from the cells of its rows. A masked row
/// (under a null parent) holds a null placeholder whatever its cell. It
/// succeeds exactly where the column accepts the cells.
pub fn build_column(f: &SchemaField, cells: &Vec<Option<&Value>>, masked: &Vec<bool>) -> (r: Result<
    Column,
    BuildError,
>)
    requires
        masked@.len() == cells@.len(),
    ensures
        r matches Ok(c) ==> column_len_ok(c, cells@.len()),
        r matches Ok(c) ==> f.required ==> no_nulls(c, masked@),
        r matches Ok(c) ==> column_values(c, *f, cell_models(cells@), masked@),
        r is Ok <==> column_fits(*f, cell_models(cells@), masked@),
    decreases f, 1nat,
{
    let r = build_column_cells(f, cells, masked);
    proof {
        let cm = cell_models(cells@);
        assert(forall|i: int|
            #![trigger cm[i]]
            #![trigger cell_model(cells@[i])]
            0 <= i < cells@.len() ==> cm[i] == cell_model(cells@[i]));
    }
    r
}

#[verifier::loop_isolation(false)]
fn build_column_cells(f: &SchemaField, cells: &Vec<Option<&Value>>, masked: &Vec<bool>) -> (r: Result<
    Column,
    BuildError,
>)
    requires
        masked@.len() == cells@.len(),
    ensures
        r matches Ok(c) ==> column_len_ok(c, cells@.len()),
        r matches Ok(c) ==> f.required ==> no_nulls(c, masked@),
        f.field_type is Int64 ==> (r is Ok <==> forall|i: int|
            0 <= i < cells@.len() && !masked@[i] ==> #[trigger] int_cell_ok(
                cell_model(cells@[i]),
                f.required,
            )),
        f.field_type is Float64 ==> (r is Ok <==> forall|i: int|
            0 <= i < cells@.len() && !masked@[i] ==> #[trigger] float_cell_ok(
                cell_model(cells@[i]),
                f.required,
            )),
        f.field_type is Boolean ==> (r is Ok <==> forall|i: int|
            0 <= i < cells@.len() && !masked@[i] ==> #[trigger] bool_cell_ok(
                cell_model(cells@[i]),
                f.required,
            )),
        f.field_type is Utf8 ==> r is Ok,
        f.field_type is TextMap ==> (r is Ok <==> forall|i: int|
            0 <= i < cells@.len() && !masked@[i] ==> #[trigger] map_cell_ok(
                cell_model(cells@[i]),
                f.required,
            )),
        f.field_type matches DataType::List(item) ==> (r is Ok <==> (forall|i: int|
            0 <= i < cells@.len() && !masked@[i] ==> #[trigger] list_cell_ok(
                cell_model(cells@[i]),
                f.required,
            )) && column_fits(
            *item,
            list_items(cell_models(cells@), masked@),
            Seq::new(list_items(cell_models(cells@), masked@).len(), |k: int| false),
        )),
        f.field_type matches DataType::Struct(fs) ==> (r is Ok <==> (forall|i: int|
            0 <= i < cells@.len() && !masked@[i] ==> #[trigger] struct_cell_ok(
                cell_model(cells@[i]),
                f.required,
            )) && fields_fit(fs@, cell_models(cells@), masked@)),
        r matches Ok(c) ==> column_values(c, *f, cell_models(cells@), masked@),
    decreases f, 0nat,
{
    let n = cells.len();
    let mut validity: Vec<bool> = Vec::new();
    match &f.field_type {
        DataType::Int64 => {
            let mut out: Vec<i64> = Vec::new();
            let mut i: usize = 0;
            while i < n
                invariant
                    i <= n,
                    validity@.len() == i,
                    out@.len() == i,
                    f.required ==> forall|k: int| 0 <= k < i && !masked@[k] ==> #[trigger] validity@[k],
                    forall|k: int|
                        0 <= k < i && !masked@[k] ==> #[trigger] int_cell_ok(
                            cell_model(cells@[k]),
                            f.required,
                        ),
                    forall|k: int|
                        0 <= k < i ==> {
                            let m = cell_model(#[trigger] cells@[k]);
                            &&& validity@[k] == (!masked@[k] && !null_cell(m) && int_value(
                                m->Some_0,
                            ) is Some)
                            &&& validity@[k] ==> out@[k] == int_value(m->Some_0)->Some_0
                        },
                decreases n - i,
            {
                let cell = cells[i];
                if masked[i] || is_null_cell(cell) {
                    if !masked[i] && f.required {
                        proof {
                            assert(!int_cell_ok(cell_model(cells@[i as int]), f.required));
                        }
                        return Err(null_error(f));
                    }
                    validity.push(false);
                    out.push(0);
                } else {
                    let v = cell.unwrap();
                    match v {
                        Value::Integer(x) => {
                            out.push(*x);
                            validity.push(true);
                        },
                        Value::Boolean(b) => {
                            out.push(if *b { 1 } else { 0 });
                            validity.push(true);
                        },
                        Value::Float(b) => match double_to_i64(*b) {
                            Some(x) => {
                                out.push(x);
                                validity.push(true);
                            },
                            None => {
                                if f.required {
                                    proof {
                                        assert(!int_cell_ok(cell_model(cells@[i as int]), f.required));
                                    }
                                    return Err(type_error(f, "integral float64 in int64 range", v));
                                }
                                out.push(0);
                                validity.push(false);
                            },
                        },
                        _ => {
                            proof {
                                assert(!int_cell_ok(cell_model(cells@[i as int]), f.required));
                            }
                            return Err(type_error(f, "int64", v));
                        },
                    }
                }
                i = i + 1;
            }
            Ok(Column { validity, data: ColumnData::Int64(out) })
        },
        DataType::Float64 => {
            let mut out: Vec<u64> = Vec::new();
            let mut i: usize = 0;
            while i < n
                invariant
                    i <= n,
                    validity@.len() == i,
                    out@.len() == i,
                    f.required ==> forall|k: int| 0 <= k < i && !masked@[k] ==> #[trigger] validity@[k],
                    forall|k: int|
                        0 <= k < i && !masked@[k] ==> #[trigger] float_cell_ok(
                            cell_model(cells@[k]),
                            f.required,
                        ),
                    forall|k: int|
                        0 <= k < i ==> {
                            let m = cell_model(#[trigger] cells@[k]);
                            &&& validity@[k] == (!masked@[k] && !null_cell(m))
                            &&& validity@[k] ==> out@[k] == float_value(m->Some_0)->Some_0
                        },
                decreases n - i,
            {
                let cell = cells[i];
                if masked[i] || is_null_cell(cell) {
                    if !masked[i] && f.required {
                        proof {
                            assert(!float_cell_ok(cell_model(cells@[i as int]), f.required));
                        }
                        return Err(null_error(f));
                    }
                    validity.push(false);
                    out.push(0);
                } else {
                    let v = cell.unwrap();
                    match v {
                        Value::Float(b) => {
                            if !is_finite_bits(*b) {
                                proof {
                                    assert(!float_cell_ok(cell_model(cells@[i as int]), f.required));
                                }
                                return Err(type_error(f, "finite float64", v));
                            }
                            out.push(*b);
                        },
                        Value::Integer(x) => out.push(crate::metrics::int_to_double_bits(*x)),
                        _ => {
                            proof {
                                assert(!float_cell_ok(cell_model(cells@[i as int]), f.required));
                            }
                            return Err(type_error(f, "float64", v));
                        },
                    }
                    validity.push(true);
                }
                i = i + 1;
            }
            Ok(Column { validity, data: ColumnData::Float64(out) })
        },
        DataType::Boolean => {
            let mut out: Vec<bool> = Vec::new();
            let mut i: usize = 0;
            while i < n
                invariant
                    i <= n,
                    validity@.len() == i,
                    out@.len() == i,
                    f.required ==> forall|k: int| 0 <= k < i && !masked@[k] ==> #[trigger] validity@[k],
                    forall|k: int|
                        0 <= k < i && !masked@[k] ==> #[trigger] bool_cell_ok(
                            cell_model(cells@[k]),
                            f.required,
                        ),
                    forall|k: int|
                        0 <= k < i ==> {
                            let m = cell_model(#[trigger] cells@[k]);
                            &&& validity@[k] == (!masked@[k] && !null_cell(m))
                            &&& validity@[k] ==> m == Some(Val::Boolean(out@[k]))
                        },
                decreases n - i,
            {
                let cell = cells[i];
                if masked[i] || is_null_cell(cell) {
                    if !masked[i] && f.required {
                        proof {
                            assert(!bool_cell_ok(cell_model(cells@[i as int]), f.required));
                        }
                        return Err(null_error(f));
                    }
                    validity.push(false);
                    out.push(false);
                } else {
                    let v = cell.unwrap();
                    match v {
                        Value::Boolean(b) => out.push(*b),
                        _ => {
                            proof {
                                assert(!bool_cell_ok(cell_model(cells@[i as int]), f.required));
                            }
                            return Err(type_error(f, "boolean", v));
                        },
                    }
                    validity.push(true);
                }
                i = i + 1;
            }
            Ok(Column { validity, data: ColumnData::Boolean(out) })
        },
        DataType::Utf8 => {
            let mut out: Vec<Vec<u8>> = Vec::new();
            let mut i: usize = 0;
            while i < n
                invariant
                    i <= n,
                    validity@.len() == i,
                    out@.len() == i,
                    f.required ==> forall|k: int| 0 <= k < i && !masked@[k] ==> #[trigger] validity@[k],
                    forall|k: int|
                        0 <= k < i ==> {
                            let m = cell_model(#[trigger] cells@[k]);
                            let t = if masked@[k] || null_cell(m) {
                                None
                            } else {
                                text_form(m->Some_0)
                            };
                            &&& validity@[k] == (t is Some || (!masked@[k] && f.required))
                            &&& out@[k]@ == (match t {
                                Some(x) => x,
                                None => seq![],
                            })
                        },
                decreases n - i,
            {
                let cell = cells[i];
                let text = if masked[i] || is_null_cell(cell) {
                    None
                } else {
                    to_text(cell.unwrap())
                };
                match text {
                    Some(t) => {
                        validity.push(true);
                        out.push(t);
                    },
                    None => {
                        validity.push(!masked[i] && f.required);
                        out.push(Vec::new());
                    },
                }
                i = i + 1;
            }
            Ok(Column { validity, data: ColumnData::Utf8(out) })
        },
        DataType::TextMap => {
            let mut out: Vec<Vec<(Vec<u8>, Option<Vec<u8>>)>> = Vec::new();
            let mut i: usize = 0;
            while i < n
                invariant
                    i <= n,
                    validity@.len() == i,
                    out@.len() == i,
                    f.required ==> forall|k: int| 0 <= k < i && !masked@[k] ==> #[trigger] validity@[k],
                    forall|k: int|
                        0 <= k < i && !masked@[k] ==> #[trigger] map_cell_ok(
                            cell_model(cells@[k]),
                            f.required,
                        ),
                    forall|k: int|
                        0 <= k < i ==> {
                            let m = cell_model(#[trigger] cells@[k]);
                            &&& validity@[k] == (!masked@[k] && !null_cell(m))
                            &&& validity@[k] ==> map_entries(out@[k]@, m->Some_0->Object_0)
                        },
                decreases n - i,
            {
                let cell = cells[i];
                if masked[i] || is_null_cell(cell) {
                    if !masked[i] && f.required {
                        proof {
                            assert(!map_cell_ok(cell_model(cells@[i as int]), f.required));
                        }
                        return Err(null_error(f));
                    }
                    validity.push(false);
                    out.push(Vec::new());
                } else {
                    let v = cell.unwrap();
                    match v {
                        Value::Object(es) => {
                            let mut entries: Vec<(Vec<u8>, Option<Vec<u8>>)> = Vec::new();
                            let mut k: usize = 0;
                            let ghost ev = entries_view(es@);
                            proof {
                                crate::proto::lemma_entries_view_len(es@);
                            }
                            while k < es.len()
                                invariant
                                    k <= es@.len(),
                                    ev == entries_view(es@),
                                    ev.len() == es@.len(),
                                    entries@.len() == k,
                                    forall|t: int|
                                        0 <= t < k ==> {
                                            &&& (#[trigger] entries@[t]).0@ == vstd::utf8::encode_utf8(
                                                ev[t].0,
                                            )
                                            &&& match text_form(ev[t].1) {
                                                Some(x) => entries@[t].1 matches Some(y) && y@ == x,
                                                None => entries@[t].1 is None,
                                            }
                                        },
                                decreases es@.len() - k,
                            {
                                proof {
                                    lemma_entries_view_index(es@, k as int);
                                }
                                let key = es[k].0.as_str().as_bytes_vec();
                                entries.push((key, to_text(&es[k].1)));
                                k = k + 1;
                            }
                            out.push(entries);
                        },
                        _ => {
                            proof {
                                assert(!map_cell_ok(cell_model(cells@[i as int]), f.required));
                            }
                            return Err(type_error(f, "map<utf8,utf8>", v));
                        },
                    }
                    validity.push(true);
                }
                i = i + 1;
            }
            Ok(Column { validity, data: ColumnData::TextMap(out) })
        },
        DataType::List(item) => {
            let mut lengths: Vec<usize> = Vec::new();
            let mut item_cells: Vec<Option<&Value>> = Vec::new();
            let mut item_masked: Vec<bool> = Vec::new();
            let mut i: usize = 0;
            while i < n
                invariant
                    i <= n,
                    validity@.len() == i,
                    lengths@.len() == i,
                    item_cells@.len() == item_masked@.len(),
                    f.required ==> forall|k: int| 0 <= k < i && !masked@[k] ==> #[trigger] validity@[k],
                    forall|k: int|
                        0 <= k < i && !masked@[k] ==> #[trigger] list_cell_ok(
                            cell_model(cells@[k]),
                            f.required,
                        ),
                    cell_models(item_cells@) == list_items(
                        cell_models(cells@).subrange(0, i as int),
                        masked@.subrange(0, i as int),
                    ),
                    forall|k: int| 0 <= k < item_masked@.len() ==> !#[trigger] item_masked@[k],
                    forall|k: int|
                        0 <= k < i ==> #[trigger] lengths@[k] == cell_items(
                            cell_models(cells@)[k],
                            masked@[k],
                        ).len(),
                decreases n - i,
            {
                let cell = cells[i];
                let ghost cm = cell_models(cells@);
                let ghost before = cell_models(item_cells@);
                proof {
                    assert(cm.subrange(0, i + 1).drop_last() =~= cm.subrange(0, i as int));
                    assert(masked@.subrange(0, i + 1).drop_last() =~= masked@.subrange(0, i as int));
                    assert(cm[i as int] == cell_model(cells@[i as int]));
                }
                if masked[i] || is_null_cell(cell) {
                    if !masked[i] && f.required {
                        proof {
                            assert(!list_cell_ok(cell_model(cells@[i as int]), f.required));
                        }
                        return Err(null_error(f));
                    }
                    validity.push(false);
                    lengths.push(0);
                    proof {
                        assert(cell_models(item_cells@) =~= list_items(
                            cm.subrange(0, i + 1),
                            masked@.subrange(0, i + 1),
                        ));
                    }
                } else {
                    let v = cell.unwrap();
                    match v {
                        Value::Array(xs) => {
                            let mut k: usize = 0;
                            while k < xs.len()
                                invariant
                                    k <= xs@.len(),
                                    item_cells@.len() == item_masked@.len(),
                                    forall|t: int| 0 <= t < item_masked@.len() ==> !#[trigger] item_masked@[t],
                                    cell_models(item_cells@) == before + Seq::new(
                                        k as nat,
                                        |t: int| Some(value_view(xs@[t])),
                                    ),
                                decreases xs@.len() - k,
                            {
                                let ghost old_cells = item_cells@;
                                item_cells.push(Some(&xs[k]));
                                item_masked.push(false);
                                proof {
                                    assert(cell_models(item_cells@) =~= cell_models(old_cells).push(
                                        Some(value_view(xs@[k as int])),
                                    ));
                                    assert(cell_models(item_cells@) =~= before + Seq::new(
                                        (k + 1) as nat,
                                        |t: int| Some(value_view(xs@[t])),
                                    ));
                                }
                                k = k + 1;
                            }
                            lengths.push(xs.len());
                            proof {
                                lemma_values_view_len(xs@);
                                assert forall|t: int| 0 <= t < xs@.len() implies values_view(xs@)[t]
                                    == value_view(xs@[t]) by {
                                    lemma_values_view_index(xs@, t);
                                }
                                assert(cell_items(cm[i as int], masked@[i as int]) =~= Seq::new(
                                    xs@.len() as nat,
                                    |t: int| Some(value_view(xs@[t])),
                                ));
                                assert(cell_models(item_cells@) =~= list_items(
                                    cm.subrange(0, i + 1),
                                    masked@.subrange(0, i + 1),
                                ));
                            }
                        },
                        _ => {
                            proof {
                                assert(!list_cell_ok(cell_model(cells@[i as int]), f.required));
                            }
                            return Err(type_error(f, "list", v));
                        },
                    }
                    validity.push(true);
                }
                i = i + 1;
            }
            proof {
                assert(cell_models(cells@).subrange(0, n as int) =~= cell_models(cells@));
                assert(masked@.subrange(0, n as int) =~= masked@);
                assert(item_masked@ =~= Seq::new(item_masked@.len(), |k: int| false));
            }
            let items = build_column(item, &item_cells, &item_masked)?;
            Ok(Column { validity, data: ColumnData::List { lengths, items: Box::new(items) } })
        },
        DataType::Struct(fs) => {
            let mut own_null: Vec<bool> = Vec::new();
            let mut i: usize = 0;
            while i < n
                invariant
                    i <= n,
                    validity@.len() == i,
                    own_null@.len() == i,
                    f.required ==> forall|k: int| 0 <= k < i && !masked@[k] ==> #[trigger] validity@[k],
                    forall|k: int|
                        0 <= k < i && !masked@[k] ==> #[trigger] struct_cell_ok(
                            cell_model(cells@[k]),
                            f.required,
                        ),
                    forall|k: int|
                        0 <= k < i ==> #[trigger] own_null@[k] == (masked@[k] || null_cell(
                            cell_model(cells@[k]),
                        )),
                decreases n - i,
            {
                let cell = cells[i];
                if masked[i] || is_null_cell(cell) {
                    if !masked[i] && f.required {
                        proof {
                            assert(!struct_cell_ok(cell_model(cells@[i as int]), f.required));
                        }
                        return Err(null_error(f));
                    }
                    validity.push(false);
                    own_null.push(true);
                } else {
                    let v = cell.unwrap();
                    match v {
                        Value::Object(_) => {},
                        _ => {
                            proof {
                                assert(!struct_cell_ok(cell_model(cells@[i as int]), f.required));
                            }
                            return Err(type_error(f, "struct", v));
                        },
                    }
                    validity.push(true);
                    own_null.push(false);
                }
                i = i + 1;
            }
            let mut children: Vec<Column> = Vec::new();
            let mut j: usize = 0;
            while j < fs.len()
                invariant
                    j <= fs@.len(),
                    own_null@.len() == n,
                    validity@.len() == n,
                    f.required ==> forall|k: int| 0 <= k < n && !masked@[k] ==> #[trigger] validity@[k],
                    forall|c: int| 0 <= c < children@.len() ==> #[trigger] children@[c].validity@.len() == n,
                    forall|k: int|
                        0 <= k < n && !masked@[k] ==> #[trigger] struct_cell_ok(
                            cell_model(cells@[k]),
                            f.required,
                        ),
                    forall|k: int|
                        0 <= k < n ==> #[trigger] own_null@[k] == (masked@[k] || null_cell(
                            cell_model(cells@[k]),
                        )),
                    fields_fit(fs@.subrange(0, j as int), cell_models(cells@), masked@),
                    fields_values(children@, fs@.subrange(0, j as int), cell_models(cells@), masked@),
                decreases fs@.len() - j,
            {
                let child = &fs[j];
                let mut child_cells: Vec<Option<&Value>> = Vec::new();
                let mut child_masked: Vec<bool> = Vec::new();
                let mut k: usize = 0;
                while k < n
                    invariant
                        k <= n,
                        child_cells@.len() == k,
                        child_masked@.len() == k,
                        forall|t: int|
                            0 <= t < k ==> cell_model(#[trigger] child_cells@[t]) == field_cells(
                                cell_models(cells@),
                                masked@,
                                child.name@,
                            )[t],
                        forall|t: int|
                            0 <= t < k ==> #[trigger] child_masked@[t] == child_mask(
                                cell_models(cells@),
                                masked@,
                            )[t],
                    decreases n - k,
                {
                    if own_null[k] {
                        child_cells.push(None);
                        child_masked.push(true);
                    } else {
                        let m = match cells[k] {
                            Some(v) => member_of(v, &child.name),
                            None => None,
                        };
                        child_cells.push(m);
                        child_masked.push(false);
                    }
                    k = k + 1;
                }
                proof {
                    assert(decreases_to!(fs => fs@));
                    assert(decreases_to!(fs@ => fs@[j as int]));
                }
                let ghost cm = cell_models(cells@);
                proof {
                    assert(cell_models(child_cells@) =~= field_cells(cm, masked@, child.name@));
                    assert(child_masked@ =~= child_mask(cm, masked@));
                    assert(fs@.subrange(0, j + 1).drop_last() =~= fs@.subrange(0, j as int));
                }
                let c = match build_column(child, &child_cells, &child_masked) {
                    Ok(c) => c,
                    Err(e) => {
                        proof {
                            if fields_fit(fs@, cm, masked@) {
                                lemma_fields_fit_prefix(fs@, j + 1, cm, masked@);
                            }
                        }
                        return Err(e);
                    },
                };
                let ghost old_children = children@;
                children.push(c);
                proof {
                    assert(children@.drop_last() =~= old_children);
                }
                j = j + 1;
            }
            proof {
                assert(fs@.subrange(0, j as int) =~= fs@);
            }
            Ok(Column { validity, data: ColumnData::Struct(children) })
        },
    }
}

/// The cells of a field in each row: the row's member under the field's name.
pub open spec fn row_cells(rows: Seq<Val>, k: Seq<char>) -> Seq<Option<Val>> {
    Seq::new(rows.len(), |i: int| member_model(rows[i], k))
}

/// No row masked.
pub open spec fn no_mask(n: nat) -> Seq<bool> {
    Seq::new(n, |i: int| false)
}

/// Whether rows fit a schema: every row is an object, and every field's
/// column accepts the row's members under its name.
pub open spec fn batch_fits(schema: SchemaDef, rows: Seq<Val>) -> bool {
    &&& forall|i: int| 0 <= i < rows.len() ==> #[trigger] rows[i] is Object
    &&& forall|j: int|
        0 <= j < schema.fields@.len() ==> column_fits(
            #[trigger] schema.fields@[j],
            row_cells(rows, schema.fields@[j].name@),
            no_mask(rows.len()),
        )
}

/// What a batch built from rows on a schema holds: one column per field, in
/// field order, each of one entry per row, by the coercion of its type; a
/// field that must hold a value holds one in every row.
pub open spec fn built(b: Batch, schema: SchemaDef, rows: Seq<Val>) -> bool {
    &&& b.num_rows == rows.len()
    &&& b.columns@.len() == schema.fields@.len()
    &&& forall|j: int|
        0 <= j < b.columns@.len() ==> column_len_ok(#[trigger] b.columns@[j], rows.len())
    &&& forall|j: int|
        0 <= j < b.columns@.len() ==> column_values(
            #[trigger] b.columns@[j],
            schema.fields@[j],
            row_cells(rows, schema.fields@[j].name@),
            no_mask(rows.len()),
        )
    &&& forall|j: int|
        0 <= j < b.columns@.len() && schema.fields@[j].required ==> forall|i: int|
            0 <= i < rows.len() ==> #[trigger] b.columns@[j].validity@[i]
}

proof fn lemma_column_fits_empty(f: SchemaField)
    ensures
        column_fits(f, seq![], seq![]),
    decreases f, 1nat,
{
    match f.field_type {
        DataType::List(item) => {
            assert(list_items(seq![], seq![]) =~= seq![]);
            assert(Seq::new(0nat, |k: int| false) =~= seq![]);
            lemma_column_fits_empty(*item);
        },
        DataType::Struct(fs) => {
            lemma_fields_fit_empty(fs@);
        },
        _ => {},
    }
}

proof fn lemma_fields_fit_empty(fs: Seq<SchemaField>)
    ensures
        fields_fit(fs, seq![], seq![]),
    decreases fs, 0nat,
{
    if fs.len() > 0 {
        lemma_fields_fit_empty(fs.drop_last());
        assert(field_cells(seq![], seq![], fs.last().name@) =~= seq![]);
        assert(child_mask(seq![], seq![]) =~= seq![]);
        lemma_column_fits_empty(fs.last());
    }
}

/// Project rows onto a schema: one column per field, in field order, each
/// holding one entry per row, in row order. A row that is not an object, a
/// value that a field's type cannot take, or a null in a field that must
/// hold a value fails the whole batch.
#[verifier::loop_isolation(false)]
pub fn build_batch(schema: &SchemaDef, rows: &Vec<Value>) -> (r: Result<Batch, BuildError>)
    ensures
        r is Ok <==> batch_fits(*schema, values_view(rows@)),
        rows@.len() == 0 ==> r is Ok,
        r matches Ok(b) ==> built(b, *schema, values_view(rows@)),
{
    let n = rows.len();
    proof {
        lemma_values_view_len(rows@);
        if n == 0 {
            assert forall|j: int| 0 <= j < schema.fields@.len() implies column_fits(
                #[trigger] schema.fields@[j],
                row_cells(values_view(rows@), schema.fields@[j].name@),
                no_mask(rows@.len()),
            ) by {
                assert(row_cells(values_view(rows@), schema.fields@[j].name@) =~= seq![]);
                assert(no_mask(rows@.len()) =~= seq![]);
                lemma_column_fits_empty(schema.fields@[j]);
            }
        }
        assert forall|i: int| 0 <= i < rows@.len() implies #[trigger] values_view(rows@)[i]
            == rows@[i]@ by {
            lemma_values_view_index(rows@, i);
        }
    }
    let mut k: usize = 0;
    let mut unmasked: Vec<bool> = Vec::new();
    while k < n
        invariant
            k <= n,
            n == rows@.len(),
            unmasked@.len() == k,
            forall|i: int| 0 <= i < k ==> !#[trigger] unmasked@[i],
            forall|i: int| 0 <= i < k ==> #[trigger] values_view(rows@)[i] is Object,
        decreases n - k,
    {
        match &rows[k] {
            Value::Object(_) => {},
            _ => {
                proof {
                    assert(!(values_view(rows@)[k as int] is Object));
                }
                return Err(BuildError::TypeMismatch {
                    field: String::new(),
                    expected: String::from_str("object"),
                    actual: String::from_str("non-object row"),
                });
            },
        }
        unmasked.push(false);
        k = k + 1;
    }
    let mut columns: Vec<Column> = Vec::new();
    let mut j: usize = 0;
    while j < schema.fields.len()
        invariant
            j <= schema.fields@.len(),
            n == rows@.len(),
            unmasked@.len() == n,
            forall|i: int| 0 <= i < n ==> !#[trigger] unmasked@[i],
            forall|i: int| 0 <= i < n ==> #[trigger] values_view(rows@)[i] is Object,
            forall|c: int|
                0 <= c < j ==> column_fits(
                    #[trigger] schema.fields@[c],
                    row_cells(values_view(rows@), schema.fields@[c].name@),
                    no_mask(rows@.len()),
                ),
            columns@.len() == j,
            forall|c: int| 0 <= c < j ==> column_len_ok(#[trigger] columns@[c], n as nat),
            forall|c: int|
                0 <= c < j ==> column_values(
                    #[trigger] columns@[c],
                    schema.fields@[c],
                    row_cells(values_view(rows@), schema.fields@[c].name@),
                    no_mask(rows@.len()),
                ),
            forall|c: int|
                0 <= c < j && schema.fields@[c].required ==> forall|i: int| 0 <= i < n ==> #[trigger] columns@[c].validity@[i],
        decreases schema.fields@.len() - j,
    {
        let f = &schema.fields[j];
        let mut cells: Vec<Option<&Value>> = Vec::new();
        let mut i: usize = 0;
        while i < n
            invariant
                i <= n,
                n == rows@.len(),
                cells@.len() == i,
                forall|k: int| 0 <= k < i ==> cell_model(#[trigger] cells@[k]) == member_model(values_view(rows@)[k], f.name@),
            decreases n - i,
        {
            cells.push(member_of(&rows[i], &f.name));
            i = i + 1;
        }
        proof {
            assert(cell_models(cells@) =~= row_cells(values_view(rows@), f.name@));
            assert(unmasked@ =~= no_mask(rows@.len()));
        }
        let c = build_column(f, &cells, &unmasked)?;
        proof {
            assert(column_fits(
                schema.fields@[j as int],
                row_cells(values_view(rows@), schema.fields@[j as int].name@),
                no_mask(rows@.len()),
            ));
        }
        proof {
            if f.required {
                assert forall|i: int| 0 <= i < n implies #[trigger] c.validity@[i] by {
                    assert(!unmasked@[i]);
                }
            }
        }
        columns.push(c);
        j = j + 1;
    }
    Ok(Batch { num_rows: n, columns })
}

} // verus!
