//! A reader of JSON text into the value tree.

use vstd::prelude::*;
use crate::error::DecodeError;
use crate::proto::{copy_range, is_utf8, key_index, lemma_key_index_push, put_entry, utf8_string};
use vstd::string::*;

verus! {

/// A JSON decode error with the given message.
pub fn json_error(m: &str) -> (r: DecodeError)
    ensures
        r matches DecodeError::Json(s) && s@ == m@,
{
    DecodeError::Json(String::from_str(m))
}

/// A JSON value. A number keeps its literal text, to be read as the field
/// that holds it requires; a string is held as its UTF-8 bytes.
#[derive(Debug)]
pub enum Json {
    Null,
    Bool(bool),
    Number(Vec<u8>),
    Str(Vec<u8>),
    Array(Vec<Json>),
    Object(Vec<(String, Json)>),
}

/// The mathematical model of a [`Json`] value.
pub ghost enum JsonModel {
    Null,
    Bool(bool),
    Number(Seq<u8>),
    Str(Seq<u8>),
    Array(Seq<JsonModel>),
    Object(Seq<(Seq<char>, JsonModel)>),
}

pub open spec fn json_view(j: Json) -> JsonModel
    decreases j,
{
    match j {
        Json::Null => JsonModel::Null,
        Json::Bool(b) => JsonModel::Bool(b),
        Json::Number(t) => JsonModel::Number(t@),
        Json::Str(t) => JsonModel::Str(t@),
        Json::Array(a) => JsonModel::Array(jsons_view(a@)),
        Json::Object(ms) => JsonModel::Object(members_view(ms@)),
    }
}

/// The models of a sequence of JSON values.
pub open spec fn jsons_view(s: Seq<Json>) -> Seq<JsonModel>
    decreases s,
{
    if s.len() == 0 {
        seq![]
    } else {
        jsons_view(s.drop_last()).push(json_view(s.last()))
    }
}

/// The models of an object's members.
pub open spec fn members_view(s: Seq<(String, Json)>) -> Seq<(Seq<char>, JsonModel)>
    decreases s,
{
    if s.len() == 0 {
        seq![]
    } else {
        members_view(s.drop_last()).push((s.last().0@, json_view(s.last().1)))
    }
}

/// What serde_json makes of a JSON number literal: the bits of the double
/// that its float parser gives, or `None` where it is out of range.
pub uninterp spec fn json_number_bits(text: Seq<u8>) -> Option<u64>;

/// Relies on `serde_json::from_slice::<serde_json::Number>` and
/// `Number::as_f64`: the double that serde_json reads from a number
/// literal, as its bits.
#[verifier::external_body]
pub fn number_bits(text: &[u8]) -> (r: Option<u64>)
    ensures
        r == json_number_bits(text@),
{
    serde_json::from_slice::<serde_json::Number>(text).ok().and_then(|n| n.as_f64()).map(
        |x| x.to_bits(),
    )
}

pub open spec fn is_json_space(c: u8) -> bool {
    c == 0x20 || c == 0x09 || c == 0x0a || c == 0x0d
}

/// The position of the first byte at or after `i` that is not JSON white space.
pub open spec fn space_end(b: Seq<u8>, i: int) -> int
    decreases b.len() - i,
{
    if 0 <= i < b.len() && is_json_space(b[i]) {
        space_end(b, i + 1)
    } else {
        i
    }
}

/// The position of the first byte at or after `pos` that is not JSON white space.
pub fn skip_space(b: &[u8], pos: usize) -> (r: usize)
    requires
        pos <= b@.len(),
    ensures
        r == space_end(b@, pos as int),
        pos <= r <= b@.len(),
        r < b@.len() ==> !is_json_space(b@[r as int]),
        forall|k: int| pos <= k < r ==> is_json_space(#[trigger] b@[k]),
{
    let mut i = pos;
    while i < b.len() && (b[i] == 0x20 || b[i] == 0x09 || b[i] == 0x0a || b[i] == 0x0d)
        invariant
            pos <= i <= b@.len(),
            forall|k: int| pos <= k < i ==> is_json_space(#[trigger] b@[k]),
            space_end(b@, i as int) == space_end(b@, pos as int),
        decreases b@.len() - i,
    {
        i = i + 1;
    }
    i
}

/// The value of a hexadecimal digit, or `None`.
pub open spec fn hex_digit_value(c: u8) -> Option<u32> {
    if 0x30 <= c <= 0x39 {
        Some((c - 0x30) as u32)
    } else if 0x61 <= c <= 0x66 {
        Some((c - 0x61 + 10) as u32)
    } else if 0x41 <= c <= 0x46 {
        Some((c - 0x41 + 10) as u32)
    } else {
        None
    }
}

/// The value of a hexadecimal digit, or `None`.
pub fn hex_value(c: u8) -> (r: Option<u32>)
    ensures
        r matches Some(v) ==> v < 16,
        r == hex_digit_value(c),
{
    if 0x30 <= c && c <= 0x39 {
        Some((c - 0x30) as u32)
    } else if 0x61 <= c && c <= 0x66 {
        Some((c - 0x61 + 10) as u32)
    } else if 0x41 <= c && c <= 0x46 {
        Some((c - 0x41 + 10) as u32)
    } else {
        None
    }
}

/// The number that the first `k` hexadecimal digits at `pos` spell.
pub open spec fn hex_prefix(b: Seq<u8>, pos: int, k: nat) -> Option<u32>
    decreases k,
{
    if k == 0 {
        Some(0)
    } else {
        match hex_prefix(b, pos, (k - 1) as nat) {
            None => None,
            Some(v) => match hex_digit_value(b[pos + k - 1]) {
                None => None,
                Some(d) => Some((v * 16 + d) as u32),
            },
        }
    }
}

proof fn lemma_hex_prefix_none(b: Seq<u8>, pos: int, k: nat, m: nat)
    requires
        k <= m,
        hex_prefix(b, pos, k) is None,
    ensures
        hex_prefix(b, pos, m) is None,
    decreases m - k,
{
    if k < m {
        lemma_hex_prefix_none(b, pos, k, (m - 1) as nat);
    }
}

/// The number that the four hexadecimal digits at `pos` spell.
pub open spec fn hex4_spec(b: Seq<u8>, pos: int) -> Option<u32> {
    if pos + 4 <= b.len() {
        hex_prefix(b, pos, 4)
    } else {
        None
    }
}

/// The four hexadecimal digits at `pos`, as a number.
fn hex4(b: &[u8], pos: usize) -> (r: Option<u32>)
    requires
        pos <= b@.len(),
    ensures
        r matches Some(v) ==> v < 0x10000 && pos + 4 <= b@.len(),
        r == hex4_spec(b@, pos as int),
{
    let len = b.len();
    if len - pos < 4 {
        return None;
    }
    let mut v: u32 = 0;
    let mut k: usize = 0;
    while k < 4
        invariant
            k <= 4,
            len == b@.len(),
            pos + 4 <= b@.len(),
            v < pow16(k as nat),
            hex_prefix(b@, pos as int, k as nat) == Some(v),
        decreases 4 - k,
    {
        match hex_value(b[pos + k]) {
            Some(d) => {
                proof {
                    reveal_with_fuel(pow16, 5);
                }
                v = v * 16 + d;
            },
            None => {
                proof {
                    lemma_hex_prefix_none(b@, pos as int, (k + 1) as nat, 4);
                }
                return None;
            },
        }
        k = k + 1;
    }
    proof {
        reveal_with_fuel(pow16, 5);
    }
    Some(v)
}

pub open spec fn pow16(n: nat) -> nat
    decreases n,
{
    if n == 0 {
        1
    } else {
        16 * pow16((n - 1) as nat)
    }
}

/// The UTF-8 encoding of a code point.
pub open spec fn utf8_of(c: u32) -> Seq<u8> {
    if c < 0x80 {
        seq![c as u8]
    } else if c < 0x800 {
        seq![(0xc0 + c / 64) as u8, (0x80 + c % 64) as u8]
    } else if c < 0x10000 {
        seq![(0xe0 + c / 4096) as u8, (0x80 + (c / 64) % 64) as u8, (0x80 + c % 64) as u8]
    } else {
        seq![
            (0xf0 + c / 262144) as u8,
            (0x80 + (c / 4096) % 64) as u8,
            (0x80 + (c / 64) % 64) as u8,
            (0x80 + c % 64) as u8,
        ]
    }
}

/// Append the UTF-8 encoding of a code point.
fn push_utf8(out: &mut Vec<u8>, c: u32)
    requires
        c < 0x110000,
    ensures
        final(out)@ == old(out)@ + utf8_of(c),
{
    if c < 0x80 {
        out.push(c as u8);
    } else if c < 0x800 {
        out.push((0xc0 + c / 64) as u8);
        out.push((0x80 + c % 64) as u8);
    } else if c < 0x10000 {
        out.push((0xe0 + c / 4096) as u8);
        out.push((0x80 + (c / 64) % 64) as u8);
        out.push((0x80 + c % 64) as u8);
    } else {
        out.push((0xf0 + c / 262144) as u8);
        out.push((0x80 + (c / 4096) % 64) as u8);
        out.push((0x80 + (c / 64) % 64) as u8);
        out.push((0x80 + c % 64) as u8);
    }
    proof {
        assert(final(out)@ =~= old(out)@ + utf8_of(c));
    }
}

/// The content of a string literal from `i` on, after the content `acc`
/// already read, and the position after its closing quote: escapes
/// resolved (`\uXXXX` as UTF-8, surrogate pairs joined), no raw control
/// characters, and well-formed UTF-8 as a whole.
pub open spec fn string_from(b: Seq<u8>, i: int, acc: Seq<u8>) -> Option<(Seq<u8>, int)>
    decreases b.len() - i,
{
    if i < 0 || i >= b.len() {
        None
    } else {
        let c = b[i];
        if c == 0x22 {
            if vstd::utf8::valid_utf8(acc) {
                Some((acc, i + 1))
            } else {
                None
            }
        } else if c < 0x20 {
            None
        } else if c == 0x5c {
            if i + 1 >= b.len() {
                None
            } else {
                let e = b[i + 1];
                if e == 0x22 || e == 0x5c || e == 0x2f {
                    string_from(b, i + 2, acc.push(e))
                } else if e == 0x62 {
                    string_from(b, i + 2, acc.push(0x08))
                } else if e == 0x66 {
                    string_from(b, i + 2, acc.push(0x0c))
                } else if e == 0x6e {
                    string_from(b, i + 2, acc.push(0x0a))
                } else if e == 0x72 {
                    string_from(b, i + 2, acc.push(0x0d))
                } else if e == 0x74 {
                    string_from(b, i + 2, acc.push(0x09))
                } else if e == 0x75 {
                    match hex4_spec(b, i + 2) {
                        None => None,
                        Some(hi) => if 0xd800 <= hi < 0xdc00 {
                            let j = i + 6;
                            if b.len() - j < 2 || b[j] != 0x5c || b[j + 1] != 0x75 {
                                None
                            } else {
                                match hex4_spec(b, j + 2) {
                                    None => None,
                                    Some(lo) => if !(0xdc00 <= lo < 0xe000) {
                                        None
                                    } else {
                                        string_from(
                                            b,
                                            j + 6,
                                            acc + utf8_of(
                                                (0x10000 + (hi - 0xd800) * 0x400 + (lo - 0xdc00)) as u32,
                                            ),
                                        )
                                    },
                                }
                            }
                        } else if 0xdc00 <= hi < 0xe000 {
                            None
                        } else {
                            string_from(b, i + 6, acc + utf8_of(hi))
                        },
                    }
                } else {
                    None
                }
            }
        } else {
            string_from(b, i + 1, acc.push(c))
        }
    }
}

/// Read the string literal that starts at `pos` (at its opening quote): its
/// content with escapes resolved, as UTF-8 bytes, and the position after it.
pub fn parse_string(b: &[u8], pos: usize) -> (r: Result<(Vec<u8>, usize), DecodeError>)
    requires
        pos < b@.len(),
        b@[pos as int] == 0x22,
    ensures
        r matches Ok((t, next)) ==> pos < next <= b@.len() && vstd::utf8::valid_utf8(t@),
        match string_from(b@, pos + 1, seq![]) {
            Some((t, n)) => r matches Ok((x, m)) && x@ == t && m == n,
            None => r is Err,
        },
{
    let len = b.len();
    let mut out: Vec<u8> = Vec::new();
    let mut i = pos + 1;
    loop
        invariant
            pos < i <= b@.len(),
            len == b@.len(),
            string_from(b@, i as int, out@) == string_from(b@, pos + 1, seq![]),
        decreases b@.len() - i,
    {
        if i >= b.len() {
            return Err(json_error("EOF while parsing a string"));
        }
        let c = b[i];
        if c == 0x22 {
            if is_utf8(out.as_slice()) {
                return Ok((out, i + 1));
            } else {
                return Err(json_error("invalid unicode code point"));
            }
        } else if c < 0x20 {
            return Err(json_error("control character found while parsing a string"));
        } else if c == 0x5c {
            if i + 1 >= b.len() {
                return Err(json_error("EOF while parsing a string"));
            }
            let e = b[i + 1];
            if e == 0x22 || e == 0x5c || e == 0x2f {
                out.push(e);
                i = i + 2;
            } else if e == 0x62 {
                out.push(0x08);
                i = i + 2;
            } else if e == 0x66 {
                out.push(0x0c);
                i = i + 2;
            } else if e == 0x6e {
                out.push(0x0a);
                i = i + 2;
            } else if e == 0x72 {
                out.push(0x0d);
                i = i + 2;
            } else if e == 0x74 {
                out.push(0x09);
                i = i + 2;
            } else if e == 0x75 {
                let hi = match hex4(b, i + 2) {
                    Some(v) => v,
                    None => return Err(json_error("invalid escape")),
                };
                i = i + 6;
                if 0xd800 <= hi && hi < 0xdc00 {
                    if b.len() - i < 2 || b[i] != 0x5c || b[i + 1] != 0x75 {
                        return Err(json_error("unexpected end of hex escape"));
                    }
                    let lo = match hex4(b, i + 2) {
                        Some(v) => v,
                        None => return Err(json_error("invalid escape")),
                    };
                    if !(0xdc00 <= lo && lo < 0xe000) {
                        return Err(json_error("lone leading surrogate in hex escape"));
                    }
                    push_utf8(&mut out, 0x10000 + (hi - 0xd800) * 0x400 + (lo - 0xdc00));
                    i = i + 6;
                } else if 0xdc00 <= hi && hi < 0xe000 {
                    return Err(json_error("lone leading surrogate in hex escape"));
                } else {
                    push_utf8(&mut out, hi);
                }
            } else {
                return Err(json_error("invalid escape"));
            }
        } else {
            out.push(c);
            i = i + 1;
        }
    }
}

/// The end of the run of decimal digits at `i`.
pub open spec fn digits_end(b: Seq<u8>, i: int) -> int
    decreases b.len() - i,
{
    if 0 <= i < b.len() && 0x30 <= b[i] <= 0x39 {
        digits_end(b, i + 1)
    } else {
        i
    }
}

/// The end of the number literal at `pos`: an optional minus sign, `0` or
/// a digit run without a leading zero, an optional fraction of one digit or
/// more, an optional exponent of one digit or more.
pub open spec fn number_end(b: Seq<u8>, pos: int) -> Option<int> {
    let i0 = if 0 <= pos < b.len() && b[pos] == 0x2d {
        pos + 1
    } else {
        pos
    };
    if i0 >= b.len() || !(0x30 <= b[i0] <= 0x39) {
        None
    } else {
        let i1 = if b[i0] == 0x30 {
            i0 + 1
        } else {
            digits_end(b, i0 + 1)
        };
        let frac: Option<int> = if i1 < b.len() && b[i1] == 0x2e {
            let d = digits_end(b, i1 + 1);
            if d == i1 + 1 {
                None
            } else {
                Some(d)
            }
        } else {
            Some(i1)
        };
        match frac {
            None => None,
            Some(i2) => if i2 < b.len() && (b[i2] == 0x65 || b[i2] == 0x45) {
                let i3 = i2 + 1;
                let i4 = if i3 < b.len() && (b[i3] == 0x2b || b[i3] == 0x2d) {
                    i3 + 1
                } else {
                    i3
                };
                let d = digits_end(b, i4);
                if d == i4 {
                    None
                } else {
                    Some(d)
                }
            } else {
                Some(i2)
            },
        }
    }
}

/// Read the number literal that starts at `pos`: an optional minus sign,
/// an integer part without leading zeros, an optional fraction and an
/// optional exponent. The value keeps the literal's text.
pub fn parse_number(b: &[u8], pos: usize) -> (r: Result<(Json, usize), DecodeError>)
    requires
        pos < b@.len(),
    ensures
        r matches Ok((Json::Number(t), next)) ==> pos < next <= b@.len() && t@ == b@.subrange(
            pos as int,
            next as int,
        ),
        r matches Ok((j, _)) ==> j is Number,
        match number_end(b@, pos as int) {
            Some(n) => r matches Ok((_, m)) && m == n,
            None => r is Err,
        },
{
    let mut i = pos;
    if b[i] == 0x2d {
        i = i + 1;
    }
    if i >= b.len() || !(0x30 <= b[i] && b[i] <= 0x39) {
        return Err(json_error("invalid number"));
    }
    let first = b[i];
    i = i + 1;
    let ghost run = i;
    if first != 0x30 {
        while i < b.len() && 0x30 <= b[i] && b[i] <= 0x39
            invariant
                pos < i <= b@.len(),
                digits_end(b@, i as int) == digits_end(b@, run as int),
            decreases b@.len() - i,
        {
            i = i + 1;
        }
    }
    if i < b.len() && b[i] == 0x2e {
        i = i + 1;
        let start = i;
        while i < b.len() && 0x30 <= b[i] && b[i] <= 0x39
            invariant
                pos < i <= b@.len(),
                start <= i,
                digits_end(b@, i as int) == digits_end(b@, start as int),
            decreases b@.len() - i,
        {
            i = i + 1;
        }
        if i == start {
            return Err(json_error("invalid number"));
        }
    }
    if i < b.len() && (b[i] == 0x65 || b[i] == 0x45) {
        i = i + 1;
        if i < b.len() && (b[i] == 0x2b || b[i] == 0x2d) {
            i = i + 1;
        }
        let start = i;
        while i < b.len() && 0x30 <= b[i] && b[i] <= 0x39
            invariant
                pos < i <= b@.len(),
                start <= i,
                digits_end(b@, i as int) == digits_end(b@, start as int),
            decreases b@.len() - i,
        {
            i = i + 1;
        }
        if i == start {
            return Err(json_error("invalid number"));
        }
    }
    Ok((Json::Number(copy_range(b, pos, i)), i))
}

/// Bind `k` to `v` among an object's members; a repeated key keeps its
/// place and takes the last value.
fn put_member(members: &mut Vec<(String, Json)>, k: String, v: Json)
    ensures
        members_view(final(members)@) == put_entry(members_view(old(members)@), k@, json_view(v)),
{
    let mut i: usize = 0;
    while i < members.len()
        invariant
            i <= members@.len(),
            members@ == old(members)@,
            key_index(members_view(members@.subrange(0, i as int)), k@) is None,
        decreases members@.len() - i,
    {
        proof {
            lemma_members_view_prefix(members@, i as int);
            lemma_key_index_push(
                members_view(members@.subrange(0, i as int)),
                (members@[i as int].0@, json_view(members@[i as int].1)),
                k@,
            );
        }
        if members[i].0 == k {
            proof {
                lemma_member_key_prefix(members@, i as int, k@);
                lemma_members_view_update(members@, i as int, (k, v));
            }
            members.set(i, (k, v));
            return;
        }
        i = i + 1;
    }
    proof {
        assert(members@.subrange(0, members@.len() as int) =~= members@);
        assert(old(members)@.push((k, v)).drop_last() =~= old(members)@);
    }
    members.push((k, v));
}

pub proof fn lemma_members_view_len(s: Seq<(String, Json)>)
    ensures
        members_view(s).len() == s.len(),
    decreases s.len(),
{
    if s.len() > 0 {
        lemma_members_view_len(s.drop_last());
    }
}

pub proof fn lemma_members_view_index(s: Seq<(String, Json)>, i: int)
    requires
        0 <= i < s.len(),
    ensures
        members_view(s)[i] == (s[i].0@, json_view(s[i].1)),
    decreases s.len(),
{
    lemma_members_view_len(s.drop_last());
    if i < s.len() - 1 {
        lemma_members_view_index(s.drop_last(), i);
    }
}

pub proof fn lemma_members_view_prefix(s: Seq<(String, Json)>, i: int)
    requires
        0 <= i < s.len(),
    ensures
        members_view(s.subrange(0, i + 1)) == members_view(s.subrange(0, i)).push(
            (s[i].0@, json_view(s[i].1)),
        ),
{
    assert(s.subrange(0, i + 1).drop_last() =~= s.subrange(0, i));
}

proof fn lemma_members_view_update(s: Seq<(String, Json)>, i: int, e: (String, Json))
    requires
        0 <= i < s.len(),
    ensures
        members_view(s.update(i, e)) == members_view(s).update(i, (e.0@, json_view(e.1))),
{
    let l = members_view(s.update(i, e));
    let r = members_view(s).update(i, (e.0@, json_view(e.1)));
    lemma_members_view_len(s.update(i, e));
    lemma_members_view_len(s);
    assert forall|j: int| 0 <= j < l.len() implies l[j] == r[j] by {
        lemma_members_view_index(s.update(i, e), j);
        lemma_members_view_index(s, j);
    }
    assert(l =~= r);
}

pub proof fn lemma_member_key_prefix(s: Seq<(String, Json)>, i: int, k: Seq<char>)
    requires
        0 <= i < s.len(),
        key_index(members_view(s.subrange(0, i)), k) is None,
        s[i].0@ == k,
    ensures
        key_index(members_view(s), k) == Some(i),
    decreases s.len(),
{
    lemma_members_view_len(s.drop_last());
    lemma_key_index_push(members_view(s.drop_last()), (s.last().0@, json_view(s.last().1)), k);
    if i + 1 < s.len() {
        assert(s.drop_last().subrange(0, i) =~= s.subrange(0, i));
        lemma_member_key_prefix(s.drop_last(), i, k);
    } else {
        assert(s.drop_last() =~= s.subrange(0, i));
    }
}

/// Whether the bytes at `i` spell `w`.
pub open spec fn word_at(b: Seq<u8>, i: int, w: Seq<u8>) -> bool {
    i + w.len() <= b.len() && b.subrange(i, i + w.len()) == w
}

/// Whether the bytes at `pos` spell `word`.
fn matches_word(b: &[u8], pos: usize, word: &[u8]) -> (r: bool)
    requires
        pos <= b@.len(),
    ensures
        r ==> pos + word@.len() <= b@.len(),
        r == word_at(b@, pos as int, word@),
{
    let len = b.len();
    if len - pos < word.len() {
        return false;
    }
    let mut k: usize = 0;
    while k < word.len()
        invariant
            k <= word@.len(),
            len == b@.len(),
            pos + word@.len() <= b@.len(),
            forall|j: int| 0 <= j < k ==> b@[pos + j] == #[trigger] word@[j],
        decreases word@.len() - k,
    {
        if b[pos + k] != word[k] {
            proof {
                assert(b@.subrange(pos as int, pos + word@.len())[k as int] != word@[k as int]);
            }
            return false;
        }
        k = k + 1;
    }
    proof {
        assert(b@.subrange(pos as int, pos + word@.len()) =~= word@);
    }
    true
}

/// The end of the JSON value that starts at `pos`, after any white space.
pub open spec fn value_end(b: Seq<u8>, pos: int) -> Option<int>
    decreases b.len() - pos, 1nat,
{
    let i = space_end(b, pos);
    if i < pos || i >= b.len() {
        None
    } else {
        let c = b[i];
        if c == 0x7b {
            object_end(b, i)
        } else if c == 0x5b {
            array_end(b, i)
        } else if c == 0x22 {
            match string_from(b, i + 1, seq![]) {
                Some((_, n)) => Some(n),
                None => None,
            }
        } else if c == 0x74 {
            if word_at(b, i, seq![0x74u8, 0x72u8, 0x75u8, 0x65u8]) {
                Some(i + 4)
            } else {
                None
            }
        } else if c == 0x66 {
            if word_at(b, i, seq![0x66u8, 0x61u8, 0x6cu8, 0x73u8, 0x65u8]) {
                Some(i + 5)
            } else {
                None
            }
        } else if c == 0x6e {
            if word_at(b, i, seq![0x6eu8, 0x75u8, 0x6cu8, 0x6cu8]) {
                Some(i + 4)
            } else {
                None
            }
        } else if c == 0x2d || (0x30 <= c <= 0x39) {
            number_end(b, i)
        } else {
            None
        }
    }
}

/// The end of the array that starts at `pos` (at its `[`).
pub open spec fn array_end(b: Seq<u8>, pos: int) -> Option<int>
    decreases b.len() - pos, 0nat,
{
    let i = space_end(b, pos + 1);
    if i < pos + 1 || i > b.len() {
        None
    } else if i < b.len() && b[i] == 0x5d {
        Some(i + 1)
    } else {
        array_items(b, i)
    }
}

/// The end of an array's items from `i` on: values separated by commas,
/// then `]`.
pub open spec fn array_items(b: Seq<u8>, i: int) -> Option<int>
    decreases b.len() - i, 2nat,
{
    match value_end(b, i) {
        None => None,
        Some(n) => if n <= i {
            None
        } else {
            let j = space_end(b, n);
            if j < n || j >= b.len() {
                None
            } else if b[j] == 0x2c {
                array_items(b, j + 1)
            } else if b[j] == 0x5d {
                Some(j + 1)
            } else {
                None
            }
        },
    }
}

/// The end of the object that starts at `pos` (at its `{`).
pub open spec fn object_end(b: Seq<u8>, pos: int) -> Option<int>
    decreases b.len() - pos, 0nat,
{
    let i = space_end(b, pos + 1);
    if i < pos + 1 || i > b.len() {
        None
    } else if i < b.len() && b[i] == 0x7d {
        Some(i + 1)
    } else {
        object_members(b, i)
    }
}

/// The end of an object's members from `i` on: `"key": value` pairs
/// separated by commas, then `}`.
pub open spec fn object_members(b: Seq<u8>, i: int) -> Option<int>
    decreases b.len() - i, 2nat,
{
    let k0 = space_end(b, i);
    if k0 < i || k0 >= b.len() || b[k0] != 0x22 {
        None
    } else {
        match string_from(b, k0 + 1, seq![]) {
            None => None,
            Some((_, n)) => if n <= k0 {
                None
            } else {
                let c = space_end(b, n);
                if c < n || c >= b.len() || b[c] != 0x3a {
                    None
                } else {
                    match value_end(b, c + 1) {
                        None => None,
                        Some(n2) => if n2 <= c {
                            None
                        } else {
                            let j = space_end(b, n2);
                            if j < n2 || j >= b.len() {
                                None
                            } else if b[j] == 0x2c {
                                object_members(b, j + 1)
                            } else if b[j] == 0x7d {
                                Some(j + 1)
                            } else {
                                None
                            }
                        },
                    }
                }
            },
        }
    }
}

/// Whether a document is one JSON value with nothing but white space around it.
pub open spec fn json_doc_ok(b: Seq<u8>) -> bool {
    match value_end(b, 0) {
        Some(n) => space_end(b, n) == b.len(),
        None => false,
    }
}

/// Whether a document's first byte that is not JSON white space opens an object.
pub open spec fn opens_object(b: Seq<u8>) -> bool {
    space_end(b, 0) < b.len() && b[space_end(b, 0)] == 0x7b
}

/// The JSON value that starts at `pos`, after any white space, and its end.
pub open spec fn value_from(b: Seq<u8>, pos: int) -> Option<(JsonModel, int)>
    decreases b.len() - pos, 1nat,
{
    let i = space_end(b, pos);
    if i < pos || i >= b.len() {
        None
    } else {
        let c = b[i];
        if c == 0x7b {
            object_from(b, i)
        } else if c == 0x5b {
            array_from(b, i)
        } else if c == 0x22 {
            match string_from(b, i + 1, seq![]) {
                Some((t, n)) => Some((JsonModel::Str(t), n)),
                None => None,
            }
        } else if c == 0x74 {
            if word_at(b, i, seq![0x74u8, 0x72u8, 0x75u8, 0x65u8]) {
                Some((JsonModel::Bool(true), i + 4))
            } else {
                None
            }
        } else if c == 0x66 {
            if word_at(b, i, seq![0x66u8, 0x61u8, 0x6cu8, 0x73u8, 0x65u8]) {
                Some((JsonModel::Bool(false), i + 5))
            } else {
                None
            }
        } else if c == 0x6e {
            if word_at(b, i, seq![0x6eu8, 0x75u8, 0x6cu8, 0x6cu8]) {
                Some((JsonModel::Null, i + 4))
            } else {
                None
            }
        } else if c == 0x2d || (0x30 <= c <= 0x39) {
            match number_end(b, i) {
                Some(n) => Some((JsonModel::Number(b.subrange(i, n)), n)),
                None => None,
            }
        } else {
            None
        }
    }
}

/// The array that starts at `pos` (at its `[`), and its end.
pub open spec fn array_from(b: Seq<u8>, pos: int) -> Option<(JsonModel, int)>
    decreases b.len() - pos, 0nat,
{
    let i = space_end(b, pos + 1);
    if i < pos + 1 || i > b.len() {
        None
    } else if i < b.len() && b[i] == 0x5d {
        Some((JsonModel::Array(seq![]), i + 1))
    } else {
        array_items_from(b, i, seq![])
    }
}

/// An array's items from `i` on, after the items `acc`, and its end.
pub open spec fn array_items_from(b: Seq<u8>, i: int, acc: Seq<JsonModel>) -> Option<(JsonModel, int)>
    decreases b.len() - i, 2nat,
{
    match value_from(b, i) {
        None => None,
        Some((v, n)) => if n <= i {
            None
        } else {
            let j = space_end(b, n);
            if j < n || j >= b.len() {
                None
            } else if b[j] == 0x2c {
                array_items_from(b, j + 1, acc.push(v))
            } else if b[j] == 0x5d {
                Some((JsonModel::Array(acc.push(v)), j + 1))
            } else {
                None
            }
        },
    }
}

/// The object that starts at `pos` (at its `{`), and its end; of repeated
/// keys the last value wins, in the place of the first.
pub open spec fn object_from(b: Seq<u8>, pos: int) -> Option<(JsonModel, int)>
    decreases b.len() - pos, 0nat,
{
    let i = space_end(b, pos + 1);
    if i < pos + 1 || i > b.len() {
        None
    } else if i < b.len() && b[i] == 0x7d {
        Some((JsonModel::Object(seq![]), i + 1))
    } else {
        object_members_from(b, i, seq![])
    }
}

/// An object's members from `i` on, after the members `acc`, and its end.
pub open spec fn object_members_from(b: Seq<u8>, i: int, acc: Seq<(Seq<char>, JsonModel)>) -> Option<
    (JsonModel, int),
>
    decreases b.len() - i, 2nat,
{
    let k0 = space_end(b, i);
    if k0 < i || k0 >= b.len() || b[k0] != 0x22 {
        None
    } else {
        match string_from(b, k0 + 1, seq![]) {
            None => None,
            Some((kt, n)) => if n <= k0 {
                None
            } else {
                let c = space_end(b, n);
                if c < n || c >= b.len() || b[c] != 0x3a {
                    None
                } else {
                    match value_from(b, c + 1) {
                        None => None,
                        Some((v, n2)) => if n2 <= c {
                            None
                        } else {
                            let j = space_end(b, n2);
                            let acc2 = put_entry(acc, vstd::utf8::decode_utf8(kt), v);
                            if j < n2 || j >= b.len() {
                                None
                            } else if b[j] == 0x2c {
                                object_members_from(b, j + 1, acc2)
                            } else if b[j] == 0x7d {
                                Some((JsonModel::Object(acc2), j + 1))
                            } else {
                                None
                            }
                        },
                    }
                }
            },
        }
    }
}

/// The JSON value that a document holds, where it is one value with nothing
/// but white space around it.
pub open spec fn json_doc_model(b: Seq<u8>) -> Option<JsonModel> {
    match value_from(b, 0) {
        Some((v, n)) => if space_end(b, n) == b.len() {
            Some(v)
        } else {
            None
        },
        None => None,
    }
}

/// Read the JSON value that starts at `pos`, after any white space.
pub fn parse_value(b: &[u8], pos: usize) -> (r: Result<(Json, usize), DecodeError>)
    requires
        pos <= b@.len(),
    ensures
        r matches Ok((_, next)) ==> pos < next <= b@.len(),
        match value_end(b@, pos as int) {
            Some(n) => r matches Ok((_, m)) && m == n,
            None => r is Err,
        },
        r matches Ok((j, _)) ==> (j is Object <==> b@[space_end(b@, pos as int)] == 0x7b),
        match value_from(b@, pos as int) {
            Some((m, n)) => r matches Ok((j, k)) && json_view(j) == m && k == n,
            None => r is Err,
        },
    decreases b@.len() - pos, 1nat,
{
    let i = skip_space(b, pos);
    if i >= b.len() {
        return Err(json_error("EOF while parsing a value"));
    }
    let c = b[i];
    if c == 0x7b {
        parse_object(b, i)
    } else if c == 0x5b {
        parse_array(b, i)
    } else if c == 0x22 {
        let (t, n) = parse_string(b, i)?;
        Ok((Json::Str(t), n))
    } else if c == 0x74 {
        if matches_word(b, i, &[0x74, 0x72, 0x75, 0x65]) {
            Ok((Json::Bool(true), i + 4))
        } else {
            Err(json_error("expected value"))
        }
    } else if c == 0x66 {
        if matches_word(b, i, &[0x66, 0x61, 0x6c, 0x73, 0x65]) {
            Ok((Json::Bool(false), i + 5))
        } else {
            Err(json_error("expected value"))
        }
    } else if c == 0x6e {
        if matches_word(b, i, &[0x6e, 0x75, 0x6c, 0x6c]) {
            Ok((Json::Null, i + 4))
        } else {
            Err(json_error("expected value"))
        }
    } else if c == 0x2d || (0x30 <= c && c <= 0x39) {
        parse_number(b, i)
    } else {
        Err(json_error("expected value"))
    }
}

/// Read the array that starts at `pos` (at its `[`).
pub fn parse_array(b: &[u8], pos: usize) -> (r: Result<(Json, usize), DecodeError>)
    requires
        pos < b@.len(),
    ensures
        r matches Ok((_, next)) ==> pos < next <= b@.len(),
        match array_end(b@, pos as int) {
            Some(n) => r matches Ok((_, m)) && m == n,
            None => r is Err,
        },
        r matches Ok((j, _)) ==> j is Array,
        match array_from(b@, pos as int) {
            Some((m, n)) => r matches Ok((j, k)) && json_view(j) == m && k == n,
            None => r is Err,
        },
    decreases b@.len() - pos, 0nat,
{
    let len = b.len();
    let mut items: Vec<Json> = Vec::new();
    let mut i = skip_space(b, pos + 1);
    if i < b.len() && b[i] == 0x5d {
        return Ok((Json::Array(items), i + 1));
    }
    loop
        invariant
            pos < i <= b@.len(),
            len == b@.len(),
            array_items(b@, i as int) == array_end(b@, pos as int),
            array_items_from(b@, i as int, jsons_view(items@)) == array_from(b@, pos as int),
        decreases b@.len() - i,
    {
        let (v, n) = parse_value(b, i)?;
        let ghost old_items = items@;
        items.push(v);
        proof {
            assert(items@.drop_last() =~= old_items);
        }
        let j = skip_space(b, n);
        if j >= b.len() {
            return Err(json_error("EOF while parsing a list"));
        }
        if b[j] == 0x2c {
            i = j + 1;
        } else if b[j] == 0x5d {
            return Ok((Json::Array(items), j + 1));
        } else {
            return Err(json_error("expected `,` or `]`"));
        }
    }
}

/// Read the object that starts at `pos` (at its `{`); of repeated keys the
/// last value wins.
pub fn parse_object(b: &[u8], pos: usize) -> (r: Result<(Json, usize), DecodeError>)
    requires
        pos < b@.len(),
    ensures
        r matches Ok((_, next)) ==> pos < next <= b@.len(),
        match object_end(b@, pos as int) {
            Some(n) => r matches Ok((_, m)) && m == n,
            None => r is Err,
        },
        r matches Ok((j, _)) ==> j is Object,
        match object_from(b@, pos as int) {
            Some((m, n)) => r matches Ok((j, k)) && json_view(j) == m && k == n,
            None => r is Err,
        },
    decreases b@.len() - pos, 0nat,
{
    let len = b.len();
    let mut entries: Vec<(String, Json)> = Vec::new();
    let mut i = skip_space(b, pos + 1);
    if i < b.len() && b[i] == 0x7d {
        return Ok((Json::Object(entries), i + 1));
    }
    loop
        invariant
            pos < i <= b@.len(),
            len == b@.len(),
            object_members(b@, i as int) == object_end(b@, pos as int),
            object_members_from(b@, i as int, members_view(entries@)) == object_from(b@, pos as int),
        decreases b@.len() - i,
    {
        let k0 = skip_space(b, i);
        if k0 >= b.len() || b[k0] != 0x22 {
            return Err(json_error("key must be a string"));
        }
        let (kb, n) = parse_string(b, k0)?;
        let key = match utf8_string(kb) {
            Some(s) => s,
            None => return Err(json_error("invalid unicode code point")),
        };
        let c = skip_space(b, n);
        if c >= b.len() || b[c] != 0x3a {
            return Err(json_error("expected `:`"));
        }
        let (v, n2) = parse_value(b, c + 1)?;
        put_member(&mut entries, key, v);
        let j = skip_space(b, n2);
        if j >= b.len() {
            return Err(json_error("EOF while parsing an object"));
        }
        if b[j] == 0x2c {
            i = j + 1;
        } else if b[j] == 0x7d {
            return Ok((Json::Object(entries), j + 1));
        } else {
            return Err(json_error("expected `,` or `}`"));
        }
    }
}

/// Read a JSON document: one value, with nothing but white space around it.
pub fn parse_json(b: &[u8]) -> (r: Result<Json, DecodeError>)
    ensures
        r matches Err(e) ==> e is Json,
        r is Ok <==> json_doc_ok(b@),
        r matches Ok(j) ==> json_doc_model(b@) == Some(json_view(j)),
        r matches Ok(j) ==> (j is Object <==> opens_object(b@)),
{
    let (v, n) = match parse_value(b, 0) {
        Ok(x) => x,
        Err(_) => return Err(json_error("invalid JSON document")),
    };
    let e = skip_space(b, n);
    if e != b.len() {
        return Err(json_error("trailing characters"));
    }
    Ok(v)
}

} // verus!
