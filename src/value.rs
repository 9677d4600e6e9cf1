//! The untyped value tree that decoded records are made of.

use vstd::prelude::*;

verus! {

/// A value of a decoded record: a scalar, a sequence or a keyed mapping.
///
/// Text is held as its UTF-8 bytes; a floating-point number as its IEEE 754
/// bit pattern. An object keeps its entries in insertion order.
#[derive(Debug)]
pub enum Value {
    Null,
    Boolean(bool),
    Integer(i64),
    Float(u64),
    Bytes(Vec<u8>),
    Array(Vec<Value>),
    Object(Vec<(String, Value)>),
}

/// The mathematical model of a [`Value`].
pub ghost enum Val {
    Null,
    Boolean(bool),
    Integer(i64),
    Float(u64),
    Bytes(Seq<u8>),
    Array(Seq<Val>),
    Object(Seq<(Seq<char>, Val)>),
}

pub open spec fn value_view(v: Value) -> Val
    decreases v,
{
    match v {
        Value::Null => Val::Null,
        Value::Boolean(b) => Val::Boolean(b),
        Value::Integer(i) => Val::Integer(i),
        Value::Float(f) => Val::Float(f),
        Value::Bytes(b) => Val::Bytes(b@),
        Value::Array(a) => Val::Array(values_view(a@)),
        Value::Object(e) => Val::Object(entries_view(e@)),
    }
}

/// The models of a sequence of values.
pub open spec fn values_view(s: Seq<Value>) -> Seq<Val>
    decreases s,
{
    if s.len() == 0 {
        seq![]
    } else {
        values_view(s.drop_last()).push(value_view(s.last()))
    }
}

/// The models of an object's entries.
pub open spec fn entries_view(s: Seq<(String, Value)>) -> Seq<(Seq<char>, Val)>
    decreases s,
{
    if s.len() == 0 {
        seq![]
    } else {
        entries_view(s.drop_last()).push((s.last().0@, value_view(s.last().1)))
    }
}

impl View for Value {
    type V = Val;

    open spec fn view(&self) -> Val {
        value_view(*self)
    }
}

/// A copy of an object's entries.
pub fn clone_entries(e: &Vec<(String, Value)>) -> (r: Vec<(String, Value)>)
    ensures
        entries_view(r@) == entries_view(e@),
    decreases e, 0nat,
{
    let mut out: Vec<(String, Value)> = Vec::new();
    let mut i: usize = 0;
    while i < e.len()
        invariant
            i <= e@.len(),
            entries_view(out@) == entries_view(e@.subrange(0, i as int)),
        decreases e@.len() - i,
    {
        let k = e[i].0.clone();
        proof {
            assert(decreases_to!(e => e@));
            assert(decreases_to!(e@ => e@[i as int]));
        }
        let v = clone_value(&e[i].1);
        let ghost old_out = out@;
        out.push((k, v));
        proof {
            assert(out@.drop_last() =~= old_out);
            assert(e@.subrange(0, i + 1).drop_last() =~= e@.subrange(0, i as int));
        }
        i = i + 1;
    }
    proof {
        assert(e@.subrange(0, e@.len() as int) =~= e@);
    }
    out
}

/// A copy of a sequence of values.
pub fn clone_values(a: &Vec<Value>) -> (r: Vec<Value>)
    ensures
        values_view(r@) == values_view(a@),
    decreases a, 0nat,
{
    let mut out: Vec<Value> = Vec::new();
    let mut i: usize = 0;
    while i < a.len()
        invariant
            i <= a@.len(),
            values_view(out@) == values_view(a@.subrange(0, i as int)),
        decreases a@.len() - i,
    {
        proof {
            assert(decreases_to!(a => a@));
            assert(decreases_to!(a@ => a@[i as int]));
        }
        let x = clone_value(&a[i]);
        let ghost old_out = out@;
        out.push(x);
        proof {
            assert(out@.drop_last() =~= old_out);
            assert(a@.subrange(0, i + 1).drop_last() =~= a@.subrange(0, i as int));
        }
        i = i + 1;
    }
    proof {
        assert(a@.subrange(0, a@.len() as int) =~= a@);
    }
    out
}

/// A copy of a value.
pub fn clone_value(v: &Value) -> (r: Value)
    ensures
        r@ == v@,
    decreases v, 1nat,
{
    match v {
        Value::Null => Value::Null,
        Value::Boolean(b) => Value::Boolean(*b),
        Value::Integer(i) => Value::Integer(*i),
        Value::Float(f) => Value::Float(*f),
        Value::Bytes(b) => Value::Bytes(b.clone()),
        Value::Array(a) => Value::Array(clone_values(a)),
        Value::Object(e) => Value::Object(clone_entries(e)),
    }
}

/// Whether the IEEE 754 double with these bits is finite: its exponent bits
/// are not all set.
pub open spec fn bits_finite(bits: u64) -> bool {
    (bits / 0x10_0000_0000_0000) % 0x800 != 0x7ff
}

/// Whether the double with these bits is finite.
pub fn is_finite_bits(bits: u64) -> (r: bool)
    ensures
        r == bits_finite(bits),
{
    (bits / 0x10_0000_0000_0000) % 0x800 != 0x7ff
}

/// The lower case hexadecimal digit of a number below 16.
pub open spec fn hex_digit(n: u8) -> u8 {
    if n < 10 {
        (n + 48) as u8
    } else {
        (n + 87) as u8
    }
}

/// Lower case hexadecimal text of a byte string, two digits per byte.
pub open spec fn hex_of(b: Seq<u8>) -> Seq<u8>
    decreases b.len(),
{
    if b.len() == 0 {
        seq![]
    } else {
        hex_of(b.drop_last()) + seq![hex_digit(b.last() / 16), hex_digit(b.last() % 16)]
    }
}

/// Render a binary identifier as lower case hexadecimal text; an empty
/// identifier gives empty text.
pub fn hex_encode(b: &[u8]) -> (r: Vec<u8>)
    ensures
        r@ == hex_of(b@),
{
    let mut out: Vec<u8> = Vec::new();
    let mut i: usize = 0;
    while i < b.len()
        invariant
            i <= b@.len(),
            out@ == hex_of(b@.subrange(0, i as int)),
        decreases b@.len() - i,
    {
        let x = b[i];
        let hi = x / 16;
        let lo = x % 16;
        out.push(if hi < 10 { hi + 48 } else { hi + 87 });
        out.push(if lo < 10 { lo + 48 } else { lo + 87 });
        proof {
            assert(b@.subrange(0, i + 1).drop_last() =~= b@.subrange(0, i as int));
        }
        i = i + 1;
    }
    proof {
        assert(b@.subrange(0, b@.len() as int) =~= b@);
    }
    out
}

/// Append a value to a sequence under construction.
pub fn push_value(out: &mut Vec<Value>, v: Value)
    ensures
        values_view(final(out)@) == values_view(old(out)@).push(value_view(v)),
{
    out.push(v);
    proof {
        assert(final(out)@.drop_last() =~= old(out)@);
    }
}

/// A sequence of values and its models have the same length.
pub proof fn lemma_values_view_len(s: Seq<Value>)
    ensures
        values_view(s).len() == s.len(),
    decreases s.len(),
{
    if s.len() > 0 {
        lemma_values_view_len(s.drop_last());
    }
}

/// The model of a sequence of values holds the model of each, in order.
pub proof fn lemma_values_view_index(s: Seq<Value>, i: int)
    requires
        0 <= i < s.len(),
    ensures
        values_view(s)[i] == value_view(s[i]),
    decreases s.len(),
{
    lemma_values_view_len(s.drop_last());
    if i < s.len() - 1 {
        lemma_values_view_index(s.drop_last(), i);
    }
}

} // verus!
