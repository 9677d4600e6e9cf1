//! The textual form of values: decimal integers, and canonical JSON text for
//! arrays and objects.

use vstd::prelude::*;
use vstd::utf8::*;
use crate::value::{hex_digit, lemma_values_view_len, value_view, values_view, entries_view, Val, Value};

verus! {

/// The ASCII decimal digits of a natural number.
pub open spec fn digits(n: nat) -> Seq<u8>
    decreases n,
{
    if n < 10 {
        seq![(48 + n) as u8]
    } else {
        digits(n / 10) + seq![(48 + n % 10) as u8]
    }
}

/// The decimal text of an integer, with a minus sign where it is negative.
pub open spec fn decimal_text(i: int) -> Seq<u8> {
    if i < 0 {
        seq![45u8] + digits((-i) as nat)
    } else {
        digits(i as nat)
    }
}

fn push_digits(out: &mut Vec<u8>, n: u64)
    ensures
        final(out)@ == old(out)@ + digits(n as nat),
    decreases n,
{
    if n >= 10 {
        push_digits(out, n / 10);
    }
    out.push((48 + n % 10) as u8);
    proof {
        if n < 10 {
            assert(final(out)@ =~= old(out)@ + digits(n as nat));
        } else {
            assert(final(out)@ =~= old(out)@ + digits(n as nat));
        }
    }
}

/// Append the decimal text of an integer.
pub fn push_decimal(out: &mut Vec<u8>, i: i64)
    ensures
        final(out)@ == old(out)@ + decimal_text(i as int),
{
    if i < 0 {
        out.push(45u8);
        let m: u64 = if i == i64::MIN {
            0x8000_0000_0000_0000u64
        } else {
            (-i) as u64
        };
        let ghost mid = out@;
        push_digits(out, m);
        proof {
            assert(final(out)@ =~= old(out)@ + decimal_text(i as int));
        }
    } else {
        push_digits(out, i as u64);
    }
}

/// What `String::from_utf8_lossy` makes of a byte string, as UTF-8 bytes:
/// each invalid sequence replaced by U+FFFD.
pub uninterp spec fn lossy_of(b: Seq<u8>) -> Seq<u8>;

/// Relies on `String::from_utf8_lossy`: well-formed UTF-8 unchanged, each
/// invalid sequence replaced by U+FFFD; the result is well-formed UTF-8.
#[verifier::external_body]
pub fn lossy_utf8(b: &[u8]) -> (r: Vec<u8>)
    ensures
        r@ == lossy_of(b@),
        vstd::utf8::valid_utf8(b@) ==> r@ == b@,
        vstd::utf8::valid_utf8(r@),
{
    String::from_utf8_lossy(b).into_owned().into_bytes()
}

/// The JSON text that serde_json gives a finite double with these bits;
/// `None` where the double is not finite.
pub uninterp spec fn double_json_text(bits: u64) -> Option<Seq<u8>>;

/// Relies on `serde_json::Number::from_f64` and its `Display`: the shortest
/// text that reads back as the same double, for a finite double; `None`
/// (`from_f64` refuses them) for NaN and the infinities.
#[verifier::external_body]
pub fn double_text(bits: u64) -> (r: Option<Vec<u8>>)
    ensures
        r matches Some(t) ==> double_json_text(bits) == Some(t@),
        r is None ==> double_json_text(bits) is None,
        r is Some <==> crate::value::bits_finite(bits),
{
    let x = <arrow::datatypes::Float64Type as arrow::datatypes::ArrowPrimitiveType>::Native::from_bits(
        bits,
    );
    serde_json::Number::from_f64(x).map(|n| n.to_string().into_bytes())
}

/// How JSON text writes one byte of a string: quotes, backslashes and
/// control characters escaped, every other byte as it is.
pub open spec fn escape_byte(c: u8) -> Seq<u8> {
    if c == 0x22 {
        seq![0x5cu8, 0x22u8]
    } else if c == 0x5c {
        seq![0x5cu8, 0x5cu8]
    } else if c == 0x0a {
        seq![0x5cu8, 0x6eu8]
    } else if c == 0x0d {
        seq![0x5cu8, 0x72u8]
    } else if c == 0x09 {
        seq![0x5cu8, 0x74u8]
    } else if c == 0x08 {
        seq![0x5cu8, 0x62u8]
    } else if c == 0x0c {
        seq![0x5cu8, 0x66u8]
    } else if c < 0x20 {
        seq![0x5cu8, 0x75u8, 0x30u8, 0x30u8, hex_digit(c / 16), hex_digit(c % 16)]
    } else {
        seq![c]
    }
}

/// A string in JSON text: quoted, its bytes escaped.
pub open spec fn escaped(t: Seq<u8>) -> Seq<u8>
    decreases t.len(),
{
    if t.len() == 0 {
        seq![]
    } else {
        escaped(t.drop_last()) + escape_byte(t.last())
    }
}

pub open spec fn quoted(t: Seq<u8>) -> Seq<u8> {
    seq![0x22u8] + escaped(t) + seq![0x22u8]
}

/// The canonical JSON text of a value: `null`, `true`, `false`, decimal
/// integers, doubles as serde_json writes them (`null` where not finite),
/// quoted strings (invalid UTF-8 replaced by U+FFFD), and arrays and objects without white space.
pub open spec fn json_text(v: Val) -> Seq<u8>
    decreases v,
{
    match v {
        Val::Null => seq![0x6eu8, 0x75u8, 0x6cu8, 0x6cu8],
        Val::Boolean(b) => if b {
            seq![0x74u8, 0x72u8, 0x75u8, 0x65u8]
        } else {
            seq![0x66u8, 0x61u8, 0x6cu8, 0x73u8, 0x65u8]
        },
        Val::Integer(i) => decimal_text(i as int),
        Val::Float(b) => match double_json_text(b) {
            Some(t) => t,
            None => seq![0x6eu8, 0x75u8, 0x6cu8, 0x6cu8],
        },
        Val::Bytes(t) => quoted(lossy_of(t)),
        Val::Array(items) => seq![0x5bu8] + items_text(items) + seq![0x5du8],
        Val::Object(es) => seq![0x7bu8] + members_text(es) + seq![0x7du8],
    }
}

/// Array items in JSON text, separated by commas.
pub open spec fn items_text(s: Seq<Val>) -> Seq<u8>
    decreases s,
{
    if s.len() == 0 {
        seq![]
    } else if s.len() == 1 {
        json_text(s[0])
    } else {
        items_text(s.drop_last()) + seq![0x2cu8] + json_text(s.last())
    }
}

/// Object members in JSON text, `"key":value`, separated by commas.
pub open spec fn members_text(s: Seq<(Seq<char>, Val)>) -> Seq<u8>
    decreases s,
{
    if s.len() == 0 {
        seq![]
    } else if s.len() == 1 {
        quoted(encode_utf8(s[0].0)) + seq![0x3au8] + json_text(s[0].1)
    } else {
        members_text(s.drop_last()) + seq![0x2cu8] + quoted(encode_utf8(s.last().0)) + seq![
            0x3au8,
        ] + json_text(s.last().1)
    }
}

/// Append a string in JSON text.
pub fn push_quoted(out: &mut Vec<u8>, t: &[u8])
    ensures
        final(out)@ == old(out)@ + quoted(t@),
{
    out.push(0x22);
    let mut i: usize = 0;
    while i < t.len()
        invariant
            i <= t@.len(),
            out@ == old(out)@ + seq![0x22u8] + escaped(t@.subrange(0, i as int)),
        decreases t@.len() - i,
    {
        let c = t[i];
        let ghost before = out@;
        if c == 0x22 {
            out.push(0x5c);
            out.push(0x22);
        } else if c == 0x5c {
            out.push(0x5c);
            out.push(0x5c);
        } else if c == 0x0a {
            out.push(0x5c);
            out.push(0x6e);
        } else if c == 0x0d {
            out.push(0x5c);
            out.push(0x72);
        } else if c == 0x09 {
            out.push(0x5c);
            out.push(0x74);
        } else if c == 0x08 {
            out.push(0x5c);
            out.push(0x62);
        } else if c == 0x0c {
            out.push(0x5c);
            out.push(0x66);
        } else if c < 0x20 {
            out.push(0x5c);
            out.push(0x75);
            out.push(0x30);
            out.push(0x30);
            let hi = c / 16;
            let lo = c % 16;
            out.push(if hi < 10 { hi + 48 } else { hi + 87 });
            out.push(if lo < 10 { lo + 48 } else { lo + 87 });
        } else {
            out.push(c);
        }
        proof {
            assert(t@.subrange(0, i + 1).drop_last() =~= t@.subrange(0, i as int));
            assert(out@ =~= before + escape_byte(c));
            assert(out@ =~= old(out)@ + seq![0x22u8] + escaped(t@.subrange(0, i + 1)));
        }
        i = i + 1;
    }
    out.push(0x22);
    proof {
        assert(t@.subrange(0, t@.len() as int) =~= t@);
        assert(final(out)@ =~= old(out)@ + quoted(t@));
    }
}

/// Append the bytes of a word.
fn push_all(out: &mut Vec<u8>, w: &[u8])
    ensures
        final(out)@ == old(out)@ + w@,
{
    let mut i: usize = 0;
    while i < w.len()
        invariant
            i <= w@.len(),
            out@ == old(out)@ + w@.subrange(0, i as int),
        decreases w@.len() - i,
    {
        out.push(w[i]);
        proof {
            assert(out@ =~= old(out)@ + w@.subrange(0, i + 1));
        }
        i = i + 1;
    }
    proof {
        assert(w@.subrange(0, w@.len() as int) =~= w@);
    }
}

/// Append the canonical JSON text of a value.
pub fn push_json(out: &mut Vec<u8>, v: &Value)
    ensures
        final(out)@ == old(out)@ + json_text(v@),
    decreases v, 2nat,
{
    match v {
        Value::Null => {
            push_all(out, &[0x6e, 0x75, 0x6c, 0x6c]);
            proof {
                assert(final(out)@ =~= old(out)@ + json_text(v@));
            }
        },
        Value::Boolean(b) => {
            if *b {
                push_all(out, &[0x74, 0x72, 0x75, 0x65]);
            } else {
                push_all(out, &[0x66, 0x61, 0x6c, 0x73, 0x65]);
            }
            proof {
                assert(final(out)@ =~= old(out)@ + json_text(v@));
            }
        },
        Value::Integer(i) => push_decimal(out, *i),
        Value::Float(b) => {
            match double_text(*b) {
                Some(t) => push_all(out, t.as_slice()),
                None => push_all(out, &[0x6e, 0x75, 0x6c, 0x6c]),
            }
            proof {
                assert(final(out)@ =~= old(out)@ + json_text(v@));
            }
        },
        Value::Bytes(t) => push_quoted(out, lossy_utf8(t.as_slice()).as_slice()),
        Value::Array(items) => {
            out.push(0x5b);
            push_items(out, items);
            out.push(0x5d);
            proof {
                assert(final(out)@ =~= old(out)@ + json_text(v@));
            }
        },
        Value::Object(es) => {
            out.push(0x7b);
            push_members(out, es);
            out.push(0x7d);
            proof {
                assert(final(out)@ =~= old(out)@ + json_text(v@));
            }
        },
    }
}

proof fn lemma_entries_view_len(s: Seq<(String, Value)>)
    ensures
        entries_view(s).len() == s.len(),
    decreases s.len(),
{
    if s.len() > 0 {
        lemma_entries_view_len(s.drop_last());
    }
}

fn push_items(out: &mut Vec<u8>, items: &Vec<Value>)
    ensures
        final(out)@ == old(out)@ + items_text(values_view(items@)),
    decreases items, 0nat,
{
    let mut k: usize = 0;
    while k < items.len()
        invariant
            k <= items@.len(),
            out@ == old(out)@ + items_text(values_view(items@.subrange(0, k as int))),
        decreases items@.len() - k,
    {
        let ghost before = out@;
        let ghost prev = values_view(items@.subrange(0, k as int));
        if k > 0 {
            out.push(0x2c);
        }
        proof {
            assert(decreases_to!(items => items@));
            assert(decreases_to!(items@ => items@[k as int]));
        }
        let ghost mid = out@;
        push_json(out, &items[k]);
        proof {
            let cur = items@.subrange(0, k + 1);
            assert(cur.drop_last() =~= items@.subrange(0, k as int));
            lemma_values_view_len(items@.subrange(0, k as int));
            let vv = values_view(cur);
            assert(vv == prev.push(value_view(items@[k as int])));
            assert(vv.drop_last() =~= prev);
            if k == 0 {
                assert(out@ =~= old(out)@ + items_text(vv));
            } else {
                assert(out@ =~= old(out)@ + items_text(vv));
            }
        }
        k = k + 1;
    }
    proof {
        assert(items@.subrange(0, items@.len() as int) =~= items@);
    }
}

fn push_members(out: &mut Vec<u8>, es: &Vec<(String, Value)>)
    ensures
        final(out)@ == old(out)@ + members_text(entries_view(es@)),
    decreases es, 0nat,
{
    let mut k: usize = 0;
    while k < es.len()
        invariant
            k <= es@.len(),
            out@ == old(out)@ + members_text(entries_view(es@.subrange(0, k as int))),
        decreases es@.len() - k,
    {
        let ghost prev = entries_view(es@.subrange(0, k as int));
        if k > 0 {
            out.push(0x2c);
        }
        let key = es[k].0.as_str();
        push_quoted(out, key.as_bytes());
        out.push(0x3a);
        proof {
            assert(decreases_to!(es => es@));
            assert(decreases_to!(es@ => es@[k as int]));
        }
        push_json(out, &es[k].1);
        proof {
            let cur = es@.subrange(0, k + 1);
            assert(cur.drop_last() =~= es@.subrange(0, k as int));
            lemma_entries_view_len(es@.subrange(0, k as int));
            let ev = entries_view(cur);
            assert(ev == prev.push((es@[k as int].0@, value_view(es@[k as int].1))));
            assert(ev.drop_last() =~= prev);
            assert(out@ =~= old(out)@ + members_text(ev));
        }
        k = k + 1;
    }
    proof {
        assert(es@.subrange(0, es@.len() as int) =~= es@);
    }
}

/// The textual form of a value in a text column: a string as it is (invalid
/// UTF-8 replaced by U+FFFD), an integer in decimal, a boolean as `true` or `false`, a finite double as
/// JSON writes it, an array or an object as canonical JSON text; `None` for
/// null and for a double that is not finite.
pub open spec fn text_form(v: Val) -> Option<Seq<u8>> {
    match v {
        Val::Null => None,
        Val::Bytes(t) => Some(lossy_of(t)),
        Val::Float(b) => double_json_text(b),
        _ => Some(json_text(v)),
    }
}

/// The textual form of a value in a text column.
pub fn to_text(v: &Value) -> (r: Option<Vec<u8>>)
    ensures
        r matches Some(t) ==> text_form(v@) == Some(t@),
        r is None ==> text_form(v@) is None,
{
    match v {
        Value::Null => None,
        Value::Bytes(t) => Some(lossy_utf8(t.as_slice())),
        Value::Float(b) => double_text(*b),
        _ => {
            let mut out: Vec<u8> = Vec::new();
            push_json(&mut out, v);
            proof {
                assert(out@ =~= json_text(v@));
            }
            Some(out)
        },
    }
}

} // verus!
