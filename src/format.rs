//! Input formats and their names.

use vstd::prelude::*;
use vstd::string::*;

verus! {

/// Input format of an OTLP payload.
#[derive(Clone, Copy, Debug, PartialEq, Eq, Structural)]
pub enum InputFormat {
    /// Protocol Buffers binary encoding.
    Protobuf,
    /// Canonical OTLP-JSON encoding.
    Json,
    /// Sniff the payload, and fall back to the other decoder on failure.
    Auto,
}

/// Whether `c`, an ASCII upper case letter folded to lower case, is `d`.
pub open spec fn char_folds_to(c: char, d: char) -> bool {
    if 'A' <= c && c <= 'Z' {
        (c as u32) + 32 == d as u32
    } else {
        c == d
    }
}

/// Whether `s`, with its ASCII letters folded to lower case, is `t`.
pub open spec fn ascii_folds_to_spec(s: Seq<char>, t: Seq<char>) -> bool {
    s.len() == t.len() && forall|j: int| 0 <= j < s.len() ==> char_folds_to(#[trigger] s[j], t[j])
}

/// Whether `s`, with ASCII letters folded to lower case, is `lit`.
fn ascii_folds_to(s: &str, lit: &str) -> (r: bool)
    ensures
        r == ascii_folds_to_spec(s@, lit@),
{
    let n = s.unicode_len();
    let m = lit.unicode_len();
    if n != m {
        return false;
    }
    let mut i: usize = 0;
    while i < n
        invariant
            n == s@.len(),
            m == lit@.len(),
            n == m,
            i <= n,
            forall|j: int| 0 <= j < i ==> char_folds_to(#[trigger] s@[j], lit@[j]),
        decreases n - i,
    {
        let c = s.get_char(i);
        let d = lit.get_char(i);
        let same = if 'A' <= c && c <= 'Z' {
            (c as u32) + 32 == d as u32
        } else {
            c == d
        };
        if !same {
            return false;
        }
        i = i + 1;
    }
    true
}

/// Whether the two strings hold the same characters.
pub fn str_eq(a: &str, b: &str) -> (r: bool)
    ensures
        r == (a@ == b@),
{
    let n = a.unicode_len();
    let m = b.unicode_len();
    if n != m {
        return false;
    }
    let mut i: usize = 0;
    while i < n
        invariant
            n == a@.len(),
            m == b@.len(),
            n == m,
            i <= n,
            forall|j: int| 0 <= j < i ==> a@[j] == b@[j],
        decreases n - i,
    {
        if a.get_char(i) != b.get_char(i) {
            return false;
        }
        i = i + 1;
    }
    assert(a@ =~= b@);
    true
}

/// Whether a character has the Unicode White_Space property, as
/// `char::is_whitespace` tests it.
pub open spec fn is_white_space(c: char) -> bool {
    let u = c as u32;
    (0x09 <= u <= 0x0d) || u == 0x20 || u == 0x85 || u == 0xa0 || u == 0x1680 || (0x2000 <= u
        <= 0x200a) || u == 0x2028 || u == 0x2029 || u == 0x202f || u == 0x205f || u == 0x3000
}

/// The number of white-space characters that a string starts with.
pub open spec fn leading_space(s: Seq<char>) -> nat
    decreases s.len(),
{
    if s.len() > 0 && is_white_space(s[0]) {
        1 + leading_space(s.drop_first())
    } else {
        0
    }
}

/// The number of white-space characters that a string ends with.
pub open spec fn trailing_space(s: Seq<char>) -> nat
    decreases s.len(),
{
    if s.len() > 0 && is_white_space(s.last()) {
        1 + trailing_space(s.drop_last())
    } else {
        0
    }
}

/// What `str::trim` leaves of a string: the string without its leading and
/// trailing white space.
pub open spec fn trim_of(s: Seq<char>) -> Seq<char> {
    if leading_space(s) == s.len() {
        seq![]
    } else {
        s.subrange(leading_space(s) as int, s.len() - trailing_space(s))
    }
}

/// Relies on `str::trim`: the string without its leading and trailing
/// characters of the Unicode White_Space property.
#[verifier::external_body]
fn trim_str(s: &str) -> (r: &str)
    ensures
        r@ == trim_of(s@),
{
    s.trim()
}

/// What `str::to_lowercase` makes of a string.
pub uninterp spec fn lower_of(s: Seq<char>) -> Seq<char>;

/// Relies on `str::to_lowercase`: the string with every letter in lower case.
#[verifier::external_body]
fn lowercase(s: &str) -> (r: String)
    ensures
        r@ == lower_of(s@),
{
    s.to_lowercase()
}

/// The input format that a Content-Type header value names, once trimmed and
/// with its ASCII letters folded to lower case.
/// The input format that a trimmed Content-Type value names, its ASCII
/// letters folded to lower case: `application/json` is JSON;
/// `application/x-protobuf`, `application/protobuf` and `application/otlp`
/// are protobuf; anything else is auto-detected.
pub open spec fn trimmed_content_type_format(t: Seq<char>) -> InputFormat {
    if ascii_folds_to_spec(t, "application/json"@) {
        InputFormat::Json
    } else if ascii_folds_to_spec(t, "application/x-protobuf"@) || ascii_folds_to_spec(
        t,
        "application/protobuf"@,
    ) || ascii_folds_to_spec(t, "application/otlp"@) {
        InputFormat::Protobuf
    } else {
        InputFormat::Auto
    }
}

/// The input format that a trimmed Content-Type value names.
pub fn format_of_trimmed(t: &str) -> (r: InputFormat)
    ensures
        r == trimmed_content_type_format(t@),
{
    if ascii_folds_to(t, "application/json") {
        InputFormat::Json
    } else if ascii_folds_to(t, "application/x-protobuf") || ascii_folds_to(t, "application/protobuf")
        || ascii_folds_to(t, "application/otlp") {
        InputFormat::Protobuf
    } else {
        InputFormat::Auto
    }
}

/// The input format that a lower-cased format name gives.
pub open spec fn lowered_format(l: Seq<char>) -> Option<InputFormat> {
    if l == "protobuf"@ || l == "proto"@ {
        Some(InputFormat::Protobuf)
    } else if l == "json"@ {
        Some(InputFormat::Json)
    } else if l == "auto"@ {
        Some(InputFormat::Auto)
    } else {
        None
    }
}

/// The input format that a lower-cased format name gives: "protobuf" or
/// "proto", "json", or "auto".
pub fn format_of_lowered(l: &str) -> (r: Option<InputFormat>)
    ensures
        r == lowered_format(l@),
{
    if str_eq(l, "protobuf") || str_eq(l, "proto") {
        Some(InputFormat::Protobuf)
    } else if str_eq(l, "json") {
        Some(InputFormat::Json)
    } else if str_eq(l, "auto") {
        Some(InputFormat::Auto)
    } else {
        None
    }
}

pub open spec fn content_type_format(ct: Option<&str>) -> InputFormat {
    match ct {
        None => InputFormat::Auto,
        Some(s) => trimmed_content_type_format(trim_of(s@)),
    }
}

/// The message of the error on a format name that is not known.
pub open spec fn invalid_format_message(f: Seq<char>) -> Seq<char> {
    "Invalid format '"@ + f + "': expected 'protobuf', 'proto', 'json', or 'auto'"@
}

/// The input format that a name gives, compared after `str::to_lowercase`.
pub open spec fn format_of_name(f: Seq<char>) -> Option<InputFormat> {
    lowered_format(lower_of(f))
}

impl InputFormat {
    /// Infer the input format from a Content-Type header value.
    pub fn from_content_type(content_type: Option<&str>) -> (r: Self)
        ensures
            r == content_type_format(content_type),
    {
        match content_type {
            None => InputFormat::Auto,
            Some(s) => format_of_trimmed(trim_str(s)),
        }
    }
}

/// Parse a format name: "protobuf" or "proto", "json", or "auto", in any case.
pub fn parse_format(format: &str) -> (r: Result<InputFormat, String>)
    ensures
        match format_of_name(format@) {
            Some(f) => r == Ok::<InputFormat, String>(f),
            None => r is Err && r->Err_0@ == invalid_format_message(format@),
        },
{
    let l = lowercase(format);
    match format_of_lowered(l.as_str()) {
        Some(f) => Ok(f),
        None => {
            let mut msg = String::from_str("Invalid format '");
            msg.append(format);
            msg.append("': expected 'protobuf', 'proto', 'json', or 'auto'");
            Err(msg)
        },
    }
}

} // verus!
