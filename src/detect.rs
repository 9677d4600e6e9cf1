//! Telling JSON payloads from protobuf ones, and falling back from one
//! decoder to the other.

use vstd::prelude::*;
use vstd::string::*;
use crate::error::{decode_error_text, DecodeError};

verus! {

/// ASCII white space: space, tab, line feed, form feed and carriage return.
pub open spec fn is_ascii_space(c: u8) -> bool {
    c == 0x20 || c == 0x09 || c == 0x0a || c == 0x0c || c == 0x0d
}

/// The first byte of `s` that is not ASCII white space, if any.
pub open spec fn first_non_space(s: Seq<u8>) -> Option<u8>
    decreases s.len(),
{
    if s.len() == 0 {
        None
    } else if is_ascii_space(s[0]) {
        first_non_space(s.drop_first())
    } else {
        Some(s[0])
    }
}

/// Whether a payload looks like JSON: its first byte that is not white space
/// opens an object or an array.
pub open spec fn looks_like_json_spec(s: Seq<u8>) -> bool {
    first_non_space(s) == Some(0x7bu8) || first_non_space(s) == Some(0x5bu8)
}

/// Whether the first byte of the payload that is not white space is `{` or `[`.
pub fn looks_like_json(b: &[u8]) -> (r: bool)
    ensures
        r == looks_like_json_spec(b@),
{
    let mut i: usize = 0;
    proof {
        assert(b@.subrange(0, b@.len() as int) =~= b@);
    }
    while i < b.len()
        invariant
            i <= b@.len(),
            first_non_space(b@.subrange(i as int, b@.len() as int)) == first_non_space(b@),
        decreases b@.len() - i,
    {
        let c = b[i];
        if !(c == 0x20 || c == 0x09 || c == 0x0a || c == 0x0c || c == 0x0d) {
            return c == 0x7b || c == 0x5b;
        }
        proof {
            assert(b@.subrange(i as int, b@.len() as int).drop_first() =~= b@.subrange(
                i + 1,
                b@.len() as int,
            ));
        }
        i = i + 1;
    }
    false
}

/// The message of the error when both decoders fail; `json_first` says which
/// one was tried first.
pub open spec fn both_failed_message(json_first: bool, json_err: Seq<char>, proto_err: Seq<char>) -> Seq<char> {
    if json_first {
        "json decode failed: "@ + json_err + "; protobuf fallback failed: "@ + proto_err
    } else {
        "protobuf decode failed: "@ + proto_err + "; json fallback failed: "@ + json_err
    }
}

/// The error when both decoders failed: an `Unsupported` error whose message
/// holds both causes.
pub fn both_failed(json_first: bool, json_err: &DecodeError, proto_err: &DecodeError) -> (r: DecodeError)
    ensures
        r matches DecodeError::Unsupported(m) && m@ == both_failed_message(
            json_first,
            decode_error_text(*json_err),
            decode_error_text(*proto_err),
        ),
{
    let j = json_err.message();
    let p = proto_err.message();
    if json_first {
        let mut m = String::from_str("json decode failed: ");
        m.append(j.as_str());
        m.append("; protobuf fallback failed: ");
        m.append(p.as_str());
        DecodeError::Unsupported(m)
    } else {
        let mut m = String::from_str("protobuf decode failed: ");
        m.append(p.as_str());
        m.append("; json fallback failed: ");
        m.append(j.as_str());
        DecodeError::Unsupported(m)
    }
}

} // verus!
