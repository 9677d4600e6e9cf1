//! Field-level readers of OTLP protobuf messages, and the messages shared by
//! every signal: values, attributes, resources and scopes.

use vstd::prelude::*;
use vstd::utf8::*;
use crate::error::{proto_error, DecodeError};
use crate::value::{entries_view, push_value, value_view, values_view, Val, Value};
use crate::wire::{
    fixed_next, key_next, le_value, len_next, read_fixed, read_key, read_len, read_varint, skip_field,
    skip_next, varint_next, varint_value, WIRE_FIXED64, WIRE_LEN, WIRE_VARINT,
};

verus! {

/// Relies on `std::str::from_utf8`: it accepts exactly the well-formed UTF-8 byte strings.
#[verifier::external_body]
pub(crate) fn is_utf8(b: &[u8]) -> (r: bool)
    ensures
        r == valid_utf8(b@),
{
    std::str::from_utf8(b).is_ok()
}

/// Relies on `String::from_utf8`: it accepts exactly the well-formed UTF-8
/// byte strings, and the text is the characters that they encode.
#[verifier::external_body]
pub(crate) fn utf8_string(b: Vec<u8>) -> (r: Option<String>)
    ensures
        r is Some <==> valid_utf8(b@),
        r matches Some(s) ==> s@ == decode_utf8(b@),
{
    String::from_utf8(b).ok()
}

/// A copy of `b[start..end]`.
pub fn copy_range(b: &[u8], start: usize, end: usize) -> (r: Vec<u8>)
    requires
        start <= end <= b@.len(),
    ensures
        r@ == b@.subrange(start as int, end as int),
{
    let mut out: Vec<u8> = Vec::new();
    let mut i: usize = start;
    while i < end
        invariant
            start <= i <= end <= b@.len(),
            out@ == b@.subrange(start as int, i as int),
        decreases end - i,
    {
        out.push(b[i]);
        proof {
            assert(out@ =~= b@.subrange(start as int, i + 1));
        }
        i = i + 1;
    }
    out
}

/// Fail unless a field has the wire type that its declaration gives it.
pub fn expect_wire(wire: u64, want: u64) -> (r: Result<(), DecodeError>)
    ensures
        r matches Err(e) ==> e is Proto,
        r is Ok <==> wire == want,
{
    if wire == want {
        Ok(())
    } else {
        Err(proto_error("invalid wire type"))
    }
}

/// Read a field key at `pos`.
pub fn key_at(b: &[u8], pos: usize, end: usize) -> (r: Result<(u64, u64, usize), DecodeError>)
    requires
        pos < end <= b@.len(),
    ensures
        r matches Err(e) ==> e is Proto,
        r matches Ok((_, _, next)) ==> pos < next <= end,
        match key_next(b@, pos as int, end as int) {
            Some((f, w, n)) => r matches Ok(x) && x == (f, w, n as usize),
            None => r is Err,
        },
{
    match read_key(b, pos, end) {
        Some(k) => Ok(k),
        None => Err(proto_error("invalid field key")),
    }
}

/// Read a varint field value at `pos`.
pub fn varint_at(b: &[u8], pos: usize, end: usize) -> (r: Result<(u64, usize), DecodeError>)
    requires
        pos <= end <= b@.len(),
    ensures
        r matches Err(e) ==> e is Proto,
        r matches Ok((v, next)) ==> pos < next <= end && v as nat == varint_value(
            b@.subrange(pos as int, next as int),
        ),
        match varint_next(b@, pos as int, end as int) {
            Some((v, n)) => r matches Ok(x) && x == (v, n as usize),
            None => r is Err,
        },
{
    match read_varint(b, pos, end) {
        Some(x) => Ok(x),
        None => Err(proto_error("invalid varint")),
    }
}

/// Read a fixed-width field value at `pos`: eight bytes, or four.
pub fn fixed_at(b: &[u8], pos: usize, end: usize, width: usize) -> (r: Result<
    (u64, usize),
    DecodeError,
>)
    requires
        pos <= end <= b@.len(),
        width == 4 || width == 8,
    ensures
        r matches Err(e) ==> e is Proto,
        r matches Ok((v, next)) ==> next == pos + width && next <= end && v as nat == le_value(
            b@.subrange(pos as int, next as int),
        ),
        match fixed_next(b@, pos as int, end as int, width as int) {
            Some((v, n)) => r matches Ok(x) && x == (v, n as usize),
            None => r is Err,
        },
{
    match read_fixed(b, pos, end, width) {
        Some(x) => Ok(x),
        None => Err(proto_error("buffer underflow")),
    }
}

/// Read the bounds of a length-delimited field value at `pos`.
pub fn len_at(b: &[u8], pos: usize, end: usize) -> (r: Result<(usize, usize), DecodeError>)
    requires
        pos <= end <= b@.len(),
    ensures
        r matches Err(e) ==> e is Proto,
        r matches Ok((start, stop)) ==> pos < start <= stop <= end,
        match len_next(b@, pos as int, end as int) {
            Some((s, e)) => r matches Ok(x) && x == (s as usize, e as usize),
            None => r is Err,
        },
{
    match read_len(b, pos, end) {
        Some(x) => Ok(x),
        None => Err(proto_error("buffer underflow")),
    }
}

/// Read a length-delimited field value at `pos` as bytes.
pub fn bytes_at(b: &[u8], pos: usize, end: usize) -> (r: Result<(Vec<u8>, usize), DecodeError>)
    requires
        pos <= end <= b@.len(),
    ensures
        r matches Err(e) ==> e is Proto,
        r matches Ok((_, next)) ==> pos < next <= end,
        match len_next(b@, pos as int, end as int) {
            Some((s, e)) => r matches Ok((t, n)) && t@ == b@.subrange(s, e) && n == e,
            None => r is Err,
        },
{
    let (s, e) = len_at(b, pos, end)?;
    Ok((copy_range(b, s, e), e))
}

/// Read a string field value at `pos` as its UTF-8 bytes, which must be well formed.
pub fn text_at(b: &[u8], pos: usize, end: usize) -> (r: Result<(Vec<u8>, usize), DecodeError>)
    requires
        pos <= end <= b@.len(),
    ensures
        r matches Err(e) ==> e is Proto,
        r matches Ok((t, next)) ==> pos < next <= end && valid_utf8(t@),
        match len_next(b@, pos as int, end as int) {
            Some((s, e)) => if valid_utf8(b@.subrange(s, e)) {
                r matches Ok((t, n)) && t@ == b@.subrange(s, e) && n == e
            } else {
                r is Err
            },
            None => r is Err,
        },
{
    let (s, e) = len_at(b, pos, end)?;
    let t = copy_range(b, s, e);
    if is_utf8(t.as_slice()) {
        Ok((t, e))
    } else {
        Err(proto_error("invalid string value: data is not UTF-8 encoded"))
    }
}

/// Read a string field value at `pos` as a `String`.
pub fn string_at(b: &[u8], pos: usize, end: usize) -> (r: Result<(String, usize), DecodeError>)
    requires
        pos <= end <= b@.len(),
    ensures
        r matches Err(e) ==> e is Proto,
        r matches Ok((_, next)) ==> pos < next <= end,
        match len_next(b@, pos as int, end as int) {
            Some((s, e)) => if valid_utf8(b@.subrange(s, e)) {
                r matches Ok((t, n)) && t@ == decode_utf8(b@.subrange(s, e)) && n == e
            } else {
                r is Err
            },
            None => r is Err,
        },
{
    let (s, e) = len_at(b, pos, end)?;
    match utf8_string(copy_range(b, s, e)) {
        Some(t) => Ok((t, e)),
        None => Err(proto_error("invalid string value: data is not UTF-8 encoded")),
    }
}

/// Skip a field value of an undeclared field at `pos`.
pub fn skip_at(b: &[u8], pos: usize, end: usize, wire: u64) -> (r: Result<usize, DecodeError>)
    requires
        pos <= end <= b@.len(),
    ensures
        r matches Err(e) ==> e is Proto,
        r matches Ok(next) ==> pos < next <= end,
        match skip_next(b@, pos as int, end as int, wire) {
            Some(n) => r matches Ok(x) && x == n,
            None => r is Err,
        },
{
    match skip_field(b, pos, end, wire) {
        Some(n) => Ok(n),
        None => Err(proto_error("invalid field value")),
    }
}

/// Where a key occurs among an object's entries, or `None`.
pub open spec fn key_index<V>(s: Seq<(Seq<char>, V)>, k: Seq<char>) -> Option<int>
    decreases s.len(),
{
    if s.len() == 0 {
        None
    } else {
        match key_index(s.drop_last(), k) {
            Some(i) => Some(i),
            None => if s.last().0 == k {
                Some(s.len() - 1)
            } else {
                None
            },
        }
    }
}

/// The entries with `k` bound to `v`: a key already present keeps its place
/// and takes the new value (the last write wins); a new key goes to the end.
pub open spec fn put_entry<V>(s: Seq<(Seq<char>, V)>, k: Seq<char>, v: V) -> Seq<(Seq<char>, V)> {
    match key_index(s, k) {
        Some(i) => s.update(i, (k, v)),
        None => s.push((k, v)),
    }
}

pub(crate) proof fn lemma_entries_view_len(s: Seq<(String, Value)>)
    ensures
        entries_view(s).len() == s.len(),
    decreases s.len(),
{
    if s.len() > 0 {
        lemma_entries_view_len(s.drop_last());
    }
}

pub(crate) proof fn lemma_entries_view_index(s: Seq<(String, Value)>, i: int)
    requires
        0 <= i < s.len(),
    ensures
        entries_view(s)[i] == (s[i].0@, value_view(s[i].1)),
    decreases s.len(),
{
    lemma_entries_view_len(s.drop_last());
    if i < s.len() - 1 {
        lemma_entries_view_index(s.drop_last(), i);
    }
}

pub(crate) proof fn lemma_entries_view_prefix(s: Seq<(String, Value)>, i: int)
    requires
        0 <= i < s.len(),
    ensures
        entries_view(s.subrange(0, i + 1)) == entries_view(s.subrange(0, i)).push(
            (s[i].0@, value_view(s[i].1)),
        ),
{
    assert(s.subrange(0, i + 1).drop_last() =~= s.subrange(0, i));
}

proof fn lemma_entries_view_update(s: Seq<(String, Value)>, i: int, e: (String, Value))
    requires
        0 <= i < s.len(),
    ensures
        entries_view(s.update(i, e)) == entries_view(s).update(i, (e.0@, value_view(e.1))),
{
    let l = entries_view(s.update(i, e));
    let r = entries_view(s).update(i, (e.0@, value_view(e.1)));
    lemma_entries_view_len(s.update(i, e));
    lemma_entries_view_len(s);
    assert forall|j: int| 0 <= j < l.len() implies l[j] == r[j] by {
        lemma_entries_view_index(s.update(i, e), j);
        lemma_entries_view_index(s, j);
    }
    assert(l =~= r);
}

pub(crate) proof fn lemma_key_index_push<V>(t: Seq<(Seq<char>, V)>, x: (Seq<char>, V), k: Seq<char>)
    ensures
        key_index(t.push(x), k) == (match key_index(t, k) {
            Some(i) => Some(i),
            None => if x.0 == k {
                Some(t.len() as int)
            } else {
                None
            },
        }),
{
    assert(t.push(x).drop_last() =~= t);
}

/// Whether no key occurs twice among the entries.
pub open spec fn keys_unique(s: Seq<(Seq<char>, Val)>) -> bool {
    forall|i: int, j: int| 0 <= i < j < s.len() ==> #[trigger] s[i].0 != #[trigger] s[j].0
}

proof fn lemma_key_index_found(s: Seq<(Seq<char>, Val)>, k: Seq<char>)
    ensures
        key_index(s, k) matches Some(i) ==> 0 <= i < s.len() && s[i].0 == k,
        key_index(s, k) is None ==> forall|i: int| 0 <= i < s.len() ==> #[trigger] s[i].0 != k,
    decreases s.len(),
{
    if s.len() > 0 {
        lemma_key_index_found(s.drop_last(), k);
        if key_index(s, k) is None {
            assert forall|i: int| 0 <= i < s.len() implies #[trigger] s[i].0 != k by {
                if i < s.len() - 1 {
                    assert(s[i] == s.drop_last()[i]);
                }
            }
        }
    }
}

/// Binding a key keeps the keys of an object unique.
pub proof fn lemma_put_entry_unique(s: Seq<(Seq<char>, Val)>, k: Seq<char>, v: Val)
    requires
        keys_unique(s),
    ensures
        keys_unique(put_entry(s, k, v)),
{
    lemma_key_index_found(s, k);
    let t = put_entry(s, k, v);
    match key_index(s, k) {
        Some(i) => {
            assert forall|a: int, b: int| 0 <= a < b < t.len() implies #[trigger] t[a].0 != #[trigger] t[b].0 by {
                assert(t[a].0 == s[a].0);
                assert(t[b].0 == s[b].0);
            }
        },
        None => {
            assert forall|a: int, b: int| 0 <= a < b < t.len() implies #[trigger] t[a].0 != #[trigger] t[b].0 by {
                if b < s.len() {
                    assert(t[a] == s[a] && t[b] == s[b]);
                } else {
                    assert(t[a] == s[a]);
                }
            }
        },
    }
}

/// Bind `k` to `v` among the entries of an attribute list; the last write wins.
pub fn put_attribute(attrs: &mut Vec<(String, Value)>, k: String, v: Value)
    ensures
        entries_view(final(attrs)@) == put_entry(entries_view(old(attrs)@), k@, value_view(v)),
        keys_unique(entries_view(old(attrs)@)) ==> keys_unique(entries_view(final(attrs)@)),
{
    proof {
        if keys_unique(entries_view(old(attrs)@)) {
            lemma_put_entry_unique(entries_view(old(attrs)@), k@, value_view(v));
        }
    }
    let mut i: usize = 0;
    while i < attrs.len()
        invariant
            i <= attrs@.len(),
            attrs@ == old(attrs)@,
            key_index(entries_view(attrs@.subrange(0, i as int)), k@) is None,
        decreases attrs@.len() - i,
    {
        proof {
            lemma_entries_view_prefix(attrs@, i as int);
            lemma_key_index_push(
                entries_view(attrs@.subrange(0, i as int)),
                (attrs@[i as int].0@, value_view(attrs@[i as int].1)),
                k@,
            );
        }
        if attrs[i].0 == k {
            proof {
                lemma_key_index_prefix(attrs@, i as int, k@);
                lemma_entries_view_update(attrs@, i as int, (k, v));
                if keys_unique(entries_view(old(attrs)@)) {
                    lemma_put_entry_unique(entries_view(old(attrs)@), k@, value_view(v));
                }
            }
            attrs.set(i, (k, v));
            return;
        }
        i = i + 1;
    }
    proof {
        assert(attrs@.subrange(0, attrs@.len() as int) =~= attrs@);
        assert(old(attrs)@.push((k, v)).drop_last() =~= old(attrs)@);
    }
    attrs.push((k, v));
}

pub(crate) proof fn lemma_key_index_prefix(s: Seq<(String, Value)>, i: int, k: Seq<char>)
    requires
        0 <= i < s.len(),
        key_index(entries_view(s.subrange(0, i)), k) is None,
        s[i].0@ == k,
    ensures
        key_index(entries_view(s), k) == Some(i),
    decreases s.len(),
{
    lemma_entries_view_len(s.drop_last());
    lemma_key_index_push(entries_view(s.drop_last()), (s.last().0@, value_view(s.last().1)), k);
    if i + 1 < s.len() {
        assert(s.drop_last().subrange(0, i) =~= s.subrange(0, i));
        lemma_key_index_prefix(s.drop_last(), i, k);
    } else {
        assert(s.drop_last() =~= s.subrange(0, i));
    }
}

/// A digit of the standard base64 alphabet: `A`-`Z`, `a`-`z`, `0`-`9`,
/// `+` and `/`.
pub open spec fn base64_digit(n: int) -> u8 {
    if n < 26 {
        (65 + n) as u8
    } else if n < 52 {
        (97 + n - 26) as u8
    } else if n < 62 {
        (48 + n - 52) as u8
    } else if n == 62 {
        43u8
    } else {
        47u8
    }
}

/// Standard base64 with padding: each group of three bytes as four digits
/// of six bits each, most significant first; a final group of one or two
/// bytes padded with `=`.
pub open spec fn base64_of(b: Seq<u8>) -> Seq<u8>
    decreases b.len(),
{
    if b.len() == 0 {
        seq![]
    } else if b.len() == 1 {
        seq![base64_digit((b[0] as int) / 4), base64_digit(((b[0] as int) % 4) * 16), 61u8, 61u8]
    } else if b.len() == 2 {
        seq![
            base64_digit((b[0] as int) / 4),
            base64_digit(((b[0] as int) % 4) * 16 + (b[1] as int) / 16),
            base64_digit(((b[1] as int) % 16) * 4),
            61u8,
        ]
    } else {
        seq![
            base64_digit((b[0] as int) / 4),
            base64_digit(((b[0] as int) % 4) * 16 + (b[1] as int) / 16),
            base64_digit(((b[1] as int) % 16) * 4 + (b[2] as int) / 64),
            base64_digit((b[2] as int) % 64),
        ] + base64_of(b.subrange(3, b.len() as int))
    }
}

fn base64_digit_exec(n: u8) -> (r: u8)
    requires
        n < 64,
    ensures
        r == base64_digit(n as int),
{
    if n < 26 {
        65 + n
    } else if n < 52 {
        97 + n - 26
    } else if n < 62 {
        48 + n - 52
    } else if n == 62 {
        43
    } else {
        47
    }
}

/// Encode bytes as standard base64 with padding.
fn base64_encode(b: &[u8]) -> (r: Vec<u8>)
    ensures
        r@ == base64_of(b@),
{
    let mut out: Vec<u8> = Vec::new();
    let n = b.len();
    let mut i: usize = 0;
    proof {
        assert(b@.subrange(0, n as int) =~= b@);
    }
    while n - i >= 3
        invariant
            n == b@.len(),
            i <= n,
            out@ + base64_of(b@.subrange(i as int, n as int)) == base64_of(b@),
        decreases n - i,
    {
        let x = b[i];
        let y = b[i + 1];
        let z = b[i + 2];
        let ghost old_out = out@;
        out.push(base64_digit_exec(x / 4));
        out.push(base64_digit_exec((x % 4) * 16 + y / 16));
        out.push(base64_digit_exec((y % 16) * 4 + z / 64));
        out.push(base64_digit_exec(z % 64));
        proof {
            let t = b@.subrange(i as int, n as int);
            assert(t.subrange(3, t.len() as int) =~= b@.subrange(i + 3, n as int));
            assert(t[0] == x && t[1] == y && t[2] == z);
            assert(out@ =~= old_out + seq![
                base64_digit((t[0] as int) / 4),
                base64_digit(((t[0] as int) % 4) * 16 + (t[1] as int) / 16),
                base64_digit(((t[1] as int) % 16) * 4 + (t[2] as int) / 64),
                base64_digit((t[2] as int) % 64),
            ]);
            assert(out@ + base64_of(b@.subrange(i + 3, n as int)) =~= base64_of(b@));
        }
        i = i + 3;
    }
    let ghost old_out = out@;
    let rest = n - i;
    if rest == 1 {
        let x = b[i];
        out.push(base64_digit_exec(x / 4));
        out.push(base64_digit_exec((x % 4) * 16));
        out.push(61);
        out.push(61);
    } else if rest == 2 {
        let x = b[i];
        let y = b[i + 1];
        out.push(base64_digit_exec(x / 4));
        out.push(base64_digit_exec((x % 4) * 16 + y / 16));
        out.push(base64_digit_exec((y % 16) * 4));
        out.push(61);
    }
    proof {
        let t = b@.subrange(i as int, n as int);
        assert(out@ =~= old_out + base64_of(t));
    }
    out
}

/// What the fields of an `AnyValue` message in `b[pos..end]` decode to,
/// after the fields before `pos` gave `acc`: of `string_value` (1, well-formed
/// UTF-8), `bool_value` (2), `int_value` (3), `double_value` (4, its bits),
/// `array_value` (5), `kvlist_value` (6) and `bytes_value` (7, as base64
/// text) the last one given wins; other fields are skipped. `None` where the
/// bytes are not such a message.
pub open spec fn any_value_from(b: Seq<u8>, pos: int, end: int, acc: Val) -> Option<Val>
    decreases end - pos,
{
    if pos >= end {
        Some(acc)
    } else {
        match key_next(b, pos, end) {
            None => None,
            Some((f, w, p)) => if f == 1 || f == 5 || f == 6 || f == 7 {
                if w != WIRE_LEN {
                    None
                } else {
                    match len_next(b, p, end) {
                        None => None,
                        Some((s, e)) => {
                            let item: Option<Val> = if f == 1 {
                                if valid_utf8(b.subrange(s, e)) {
                                    Some(Val::Bytes(b.subrange(s, e)))
                                } else {
                                    None
                                }
                            } else if f == 5 {
                                match array_from(b, s, e, seq![]) {
                                    Some(items) => Some(Val::Array(items)),
                                    None => None,
                                }
                            } else if f == 6 {
                                match kvlist_from(b, s, e, seq![]) {
                                    Some(es) => Some(Val::Object(es)),
                                    None => None,
                                }
                            } else {
                                Some(Val::Bytes(base64_of(b.subrange(s, e))))
                            };
                            match item {
                                Some(x) => any_value_from(b, e, end, x),
                                None => None,
                            }
                        },
                    }
                }
            } else if f == 2 || f == 3 {
                if w != WIRE_VARINT {
                    None
                } else {
                    match varint_next(b, p, end) {
                        None => None,
                        Some((x, n)) => any_value_from(
                            b,
                            n,
                            end,
                            if f == 2 {
                                Val::Boolean(x != 0)
                            } else {
                                Val::Integer(x as i64)
                            },
                        ),
                    }
                }
            } else if f == 4 {
                if w != WIRE_FIXED64 {
                    None
                } else {
                    match fixed_next(b, p, end, 8) {
                        None => None,
                        Some((x, n)) => any_value_from(b, n, end, Val::Float(x)),
                    }
                }
            } else {
                match skip_next(b, p, end, w) {
                    None => None,
                    Some(n) => any_value_from(b, n, end, acc),
                }
            },
        }
    }
}

/// What the fields of an `ArrayValue` message in `b[pos..end]` decode to,
/// after `acc`: the `values` (1) in order; other fields are skipped.
pub open spec fn array_from(b: Seq<u8>, pos: int, end: int, acc: Seq<Val>) -> Option<Seq<Val>>
    decreases end - pos,
{
    if pos >= end {
        Some(acc)
    } else {
        match key_next(b, pos, end) {
            None => None,
            Some((f, w, p)) => if f == 1 {
                if w != WIRE_LEN {
                    None
                } else {
                    match len_next(b, p, end) {
                        None => None,
                        Some((s, e)) => match any_value_from(b, s, e, Val::Null) {
                            None => None,
                            Some(v) => array_from(b, e, end, acc.push(v)),
                        },
                    }
                }
            } else {
                match skip_next(b, p, end, w) {
                    None => None,
                    Some(n) => array_from(b, n, end, acc),
                }
            },
        }
    }
}

/// What the fields of a `KeyValue` message in `b[pos..end]` decode to,
/// after the key `k` and value `v`: the last `key` (1) and the last `value`
/// (2); other fields are skipped.
pub open spec fn key_value_from(b: Seq<u8>, pos: int, end: int, k: Seq<char>, v: Val) -> Option<
    (Seq<char>, Val),
>
    decreases end - pos,
{
    if pos >= end {
        Some((k, v))
    } else {
        match key_next(b, pos, end) {
            None => None,
            Some((f, w, p)) => if f == 1 || f == 2 {
                if w != WIRE_LEN {
                    None
                } else {
                    match len_next(b, p, end) {
                        None => None,
                        Some((s, e)) => if f == 1 {
                            if valid_utf8(b.subrange(s, e)) {
                                key_value_from(b, e, end, decode_utf8(b.subrange(s, e)), v)
                            } else {
                                None
                            }
                        } else {
                            match any_value_from(b, s, e, Val::Null) {
                                None => None,
                                Some(x) => key_value_from(b, e, end, k, x),
                            }
                        },
                    }
                }
            } else {
                match skip_next(b, p, end, w) {
                    None => None,
                    Some(n) => key_value_from(b, n, end, k, v),
                }
            },
        }
    }
}

/// What the fields of a `KeyValueList` message in `b[pos..end]` decode to,
/// after the entries `acc`: each of its `values` (1) bound in turn, the last
/// write winning; other fields are skipped.
pub open spec fn kvlist_from(b: Seq<u8>, pos: int, end: int, acc: Seq<(Seq<char>, Val)>) -> Option<
    Seq<(Seq<char>, Val)>,
>
    decreases end - pos,
{
    if pos >= end {
        Some(acc)
    } else {
        match key_next(b, pos, end) {
            None => None,
            Some((f, w, p)) => if f == 1 {
                if w != WIRE_LEN {
                    None
                } else {
                    match len_next(b, p, end) {
                        None => None,
                        Some((s, e)) => match key_value_from(b, s, e, seq![], Val::Null) {
                            None => None,
                            Some((k, v)) => kvlist_from(b, e, end, put_entry(acc, k, v)),
                        },
                    }
                }
            } else {
                match skip_next(b, p, end, w) {
                    None => None,
                    Some(n) => kvlist_from(b, n, end, acc),
                }
            },
        }
    }
}

/// Decode an `AnyValue` message in `b[start..end]`. A string is its UTF-8
/// bytes, binary data its base64 text, an integer an `Integer`, a double its
/// bits, an array or a key-value list an `Array` or an `Object`, and a message
/// with no value `Null`.
pub fn parse_any_value(b: &[u8], start: usize, end: usize) -> (r: Result<Value, DecodeError>)
    requires
        start <= end <= b@.len(),
    ensures
        r matches Err(e) ==> e is Proto,
        match any_value_from(b@, start as int, end as int, Val::Null) {
            Some(x) => r matches Ok(v) && v@ == x,
            None => r is Err,
        },
    decreases end - start, 1nat,
{
    let mut v = Value::Null;
    let mut pos = start;
    while pos < end
        invariant
            start <= pos <= end <= b@.len(),
            any_value_from(b@, pos as int, end as int, v@) == any_value_from(
                b@,
                start as int,
                end as int,
                Val::Null,
            ),
        decreases end - pos,
    {
        let (field, wire, p) = key_at(b, pos, end)?;
        if field == 1 {
            expect_wire(wire, WIRE_LEN)?;
            let (t, n) = text_at(b, p, end)?;
            v = Value::Bytes(t);
            pos = n;
        } else if field == 2 {
            expect_wire(wire, WIRE_VARINT)?;
            let (x, n) = varint_at(b, p, end)?;
            v = Value::Boolean(x != 0);
            pos = n;
        } else if field == 3 {
            expect_wire(wire, WIRE_VARINT)?;
            let (x, n) = varint_at(b, p, end)?;
            v = Value::Integer(x as i64);
            pos = n;
        } else if field == 4 {
            expect_wire(wire, WIRE_FIXED64)?;
            let (x, n) = fixed_at(b, p, end, 8)?;
            v = Value::Float(x);
            pos = n;
        } else if field == 5 {
            expect_wire(wire, WIRE_LEN)?;
            let (s, e) = len_at(b, p, end)?;
            v = Value::Array(parse_array_value(b, s, e)?);
            pos = e;
        } else if field == 6 {
            expect_wire(wire, WIRE_LEN)?;
            let (s, e) = len_at(b, p, end)?;
            v = Value::Object(parse_key_value_list(b, s, e)?);
            pos = e;
        } else if field == 7 {
            expect_wire(wire, WIRE_LEN)?;
            let (s, e) = len_at(b, p, end)?;
            let raw = copy_range(b, s, e);
            v = Value::Bytes(base64_encode(raw.as_slice()));
            pos = e;
        } else {
            pos = skip_at(b, p, end, wire)?;
        }
    }
    Ok(v)
}

/// Decode an `ArrayValue` message in `b[start..end]`: its values in order.
pub fn parse_array_value(b: &[u8], start: usize, end: usize) -> (r: Result<Vec<Value>, DecodeError>)
    requires
        start <= end <= b@.len(),
    ensures
        r matches Err(e) ==> e is Proto,
        match array_from(b@, start as int, end as int, seq![]) {
            Some(x) => r matches Ok(v) && values_view(v@) == x,
            None => r is Err,
        },
    decreases end - start, 0nat,
{
    let mut out: Vec<Value> = Vec::new();
    let mut pos = start;
    while pos < end
        invariant
            start <= pos <= end <= b@.len(),
            array_from(b@, pos as int, end as int, values_view(out@)) == array_from(
                b@,
                start as int,
                end as int,
                seq![],
            ),
        decreases end - pos,
    {
        let (field, wire, p) = key_at(b, pos, end)?;
        if field == 1 {
            expect_wire(wire, WIRE_LEN)?;
            let (s, e) = len_at(b, p, end)?;
            push_value(&mut out, parse_any_value(b, s, e)?);
            pos = e;
        } else {
            pos = skip_at(b, p, end, wire)?;
        }
    }
    Ok(out)
}

/// Decode a `KeyValue` message in `b[start..end]`: its key, and its value
/// (`Null` where it has none).
pub fn parse_key_value(b: &[u8], start: usize, end: usize) -> (r: Result<(String, Value), DecodeError>)
    requires
        start <= end <= b@.len(),
    ensures
        r matches Err(e) ==> e is Proto,
        match key_value_from(b@, start as int, end as int, seq![], Val::Null) {
            Some((kk, vv)) => r matches Ok((k, v)) && k@ == kk && v@ == vv,
            None => r is Err,
        },
    decreases end - start, 0nat,
{
    let mut k = String::new();
    let mut v = Value::Null;
    let mut pos = start;
    while pos < end
        invariant
            start <= pos <= end <= b@.len(),
            key_value_from(b@, pos as int, end as int, k@, v@) == key_value_from(
                b@,
                start as int,
                end as int,
                seq![],
                Val::Null,
            ),
        decreases end - pos,
    {
        let (field, wire, p) = key_at(b, pos, end)?;
        if field == 1 {
            expect_wire(wire, WIRE_LEN)?;
            let (t, n) = string_at(b, p, end)?;
            k = t;
            pos = n;
        } else if field == 2 {
            expect_wire(wire, WIRE_LEN)?;
            let (s, e) = len_at(b, p, end)?;
            v = parse_any_value(b, s, e)?;
            pos = e;
        } else {
            pos = skip_at(b, p, end, wire)?;
        }
    }
    Ok((k, v))
}

/// Decode a `KeyValueList` message in `b[start..end]` into entries; of
/// repeated keys the last value wins.
pub fn parse_key_value_list(b: &[u8], start: usize, end: usize) -> (r: Result<
    Vec<(String, Value)>,
    DecodeError,
>)
    requires
        start <= end <= b@.len(),
    ensures
        r matches Err(e) ==> e is Proto,
        match kvlist_from(b@, start as int, end as int, seq![]) {
            Some(x) => r matches Ok(es) && entries_view(es@) == x,
            None => r is Err,
        },
        r matches Ok(es) ==> keys_unique(entries_view(es@)),
    decreases end - start, 0nat,
{
    let mut out: Vec<(String, Value)> = Vec::new();
    let mut pos = start;
    while pos < end
        invariant
            start <= pos <= end <= b@.len(),
            kvlist_from(b@, pos as int, end as int, entries_view(out@)) == kvlist_from(
                b@,
                start as int,
                end as int,
                seq![],
            ),
            keys_unique(entries_view(out@)),
        decreases end - pos,
    {
        let (field, wire, p) = key_at(b, pos, end)?;
        if field == 1 {
            expect_wire(wire, WIRE_LEN)?;
            let (s, e) = len_at(b, p, end)?;
            let (k, v) = parse_key_value(b, s, e)?;
            put_attribute(&mut out, k, v);
            pos = e;
        } else {
            pos = skip_at(b, p, end, wire)?;
        }
    }
    Ok(out)
}

/// The entries after binding the `KeyValue` message that is the
/// length-delimited value at `pos`, and where the next field starts.
pub open spec fn attribute_next(b: Seq<u8>, pos: int, end: int, acc: Seq<(Seq<char>, Val)>) -> Option<
    (Seq<(Seq<char>, Val)>, int),
> {
    match len_next(b, pos, end) {
        None => None,
        Some((s, e)) => match key_value_from(b, s, e, seq![], Val::Null) {
            None => None,
            Some((k, v)) => Some((put_entry(acc, k, v), e)),
        },
    }
}

/// Decode the `KeyValue` message that is the length-delimited value at `pos`
/// and bind it among `attrs`; return where the next field starts.
pub fn add_attribute(b: &[u8], pos: usize, end: usize, attrs: &mut Vec<(String, Value)>) -> (r: Result<
    usize,
    DecodeError,
>)
    requires
        pos <= end <= b@.len(),
    ensures
        r matches Err(e) ==> e is Proto,
        r matches Ok(next) ==> pos < next <= end,
        keys_unique(entries_view(old(attrs)@)) ==> keys_unique(entries_view(final(attrs)@)),
        match attribute_next(b@, pos as int, end as int, entries_view(old(attrs)@)) {
            Some((es, n)) => r matches Ok(x) && x == n && entries_view(final(attrs)@) == es,
            None => r is Err,
        },
{
    let (s, e) = len_at(b, pos, end)?;
    let (k, v) = parse_key_value(b, s, e)?;
    put_attribute(attrs, k, v);
    Ok(e)
}

/// Append an entry to an object under construction.
pub fn push_entry(e: &mut Vec<(String, Value)>, k: &str, v: Value)
    ensures
        entries_view(final(e)@) == entries_view(old(e)@).push((k@, value_view(v))),
{
    e.push((String::from_str(k), v));
    proof {
        assert(final(e)@.drop_last() =~= old(e)@);
    }
}

} // verus!
