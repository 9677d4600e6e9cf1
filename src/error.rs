//! Errors of decoding and of the public entry points.

use vstd::prelude::*;
use vstd::string::*;
use crate::builder::BuildError;


verus! {

#[verifier::external_type_specification]
#[verifier::external_body]
pub struct ExArrowError(arrow::error::ArrowError);

/// Why a payload could not be decoded.
#[derive(Debug)]
pub enum DecodeError {
    /// The payload is not a well-formed OTLP protobuf message.
    Proto(String),
    /// The payload is not well-formed OTLP-JSON.
    Json(String),
    /// Neither decoder accepted the payload, or the signal is not supported.
    Unsupported(String),
}

/// The text that a decode error displays.
pub open spec fn decode_error_text(e: DecodeError) -> Seq<char> {
    match e {
        DecodeError::Proto(m) => "protobuf decode error: "@ + m@,
        DecodeError::Json(m) => "json decode error: "@ + m@,
        DecodeError::Unsupported(m) => "unsupported: "@ + m@,
    }
}

impl DecodeError {
    /// The text of the error, with its kind in front.
    pub fn message(&self) -> (r: String)
        ensures
            r@ == decode_error_text(*self),
    {
        match self {
            DecodeError::Proto(m) => {
                let mut s = String::from_str("protobuf decode error: ");
                s.append(m.as_str());
                s
            },
            DecodeError::Json(m) => {
                let mut s = String::from_str("json decode error: ");
                s.append(m.as_str());
                s
            },
            DecodeError::Unsupported(m) => {
                let mut s = String::from_str("unsupported: ");
                s.append(m.as_str());
                s
            },
        }
    }
}

/// A protobuf decode error with the given message.
pub fn proto_error(m: &str) -> (r: DecodeError)
    ensures
        r matches DecodeError::Proto(s) && s@ == m@,
{
    DecodeError::Proto(String::from_str(m))
}

/// Errors of the transformation from payload to record batch and bytes.
#[derive(Debug)]
pub enum Error {
    /// The payload could not be decoded.
    Decode(DecodeError),
    /// The rows did not fit the schema.
    Build(BuildError),
    /// Arrow or Parquet could not write the batch.
    Arrow(arrow::error::ArrowError),
    /// The input was not acceptable.
    InvalidInput(String),
    /// A schema was not what was expected.
    SchemaMismatch(String),
}

} // verus!
