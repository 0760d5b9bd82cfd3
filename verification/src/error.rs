//! The error type shared by every part of the client.

use vstd::prelude::*;
use crate::text::{push_str, push_decimal, decimal};

verus! {

/// The unified error type returned by Electric client operations.
#[derive(Debug, Clone)]
pub enum ElectricError {
    /// An HTTP request failed with a non-retryable status code.
    Fetch { status: u16, body: String, headers: Vec<(String, String)>, url: String },
    /// The fetch was aborted while waiting inside the backoff loop.
    BackoffAborted,
    /// The stream's `url` option was empty.
    MissingShapeUrl,
    /// The stream's `table` option was empty.
    MissingShapeTable,
    /// A shape handle is required when the offset is not `Offset::Initial`.
    MissingShapeHandle,
    /// Custom params used reserved Electric parameter names.
    ReservedParam(Vec<String>),
    /// A NOT NULL column received a null value.
    ParserNullValue { column: String },
    /// A required response header was absent.
    MissingHeader { header: String },
    /// A network or transport error.
    Network(String),
    /// JSON decoding failed.
    Json(String),
    /// URL parsing failed.
    Url(String),
    /// An offset string could not be parsed.
    InvalidOffset(String),
    /// The streaming task was closed before the caller's future resolved.
    StreamClosed,
    /// A generic error message produced inside the streaming loop.
    Stream(String),
}


/// std's `Debug` text of a list of strings, as `format!("{:?}", list)` writes it.
pub uninterp spec fn spec_debug_string_list(items: Seq<Seq<char>>) -> Seq<char>;

/// `format!("{:?}", items)` for a vector of strings: the text depends on the
/// strings alone and is named by `spec_debug_string_list`.
#[verifier::external_body]
fn debug_string_list(items: &Vec<String>) -> (r: String)
    ensures
        r@ == spec_debug_string_list(items@.map_values(|s: String| s@)),
{
    format!("{:?}", items)
}

/// The human-readable message of an error.
pub open spec fn error_text(e: ElectricError) -> Seq<char> {
    match e {
        ElectricError::Fetch { status, body, url, .. } => "HTTP "@ + decimal(status as nat)
            + " from "@ + url@ + ": "@ + body@,
        ElectricError::BackoffAborted => "Fetch aborted during backoff"@,
        ElectricError::MissingShapeUrl => "Missing required option: url"@,
        ElectricError::MissingShapeTable => "Missing required option: table"@,
        ElectricError::MissingShapeHandle => "shape handle is required when offset is not -1"@,
        ElectricError::ReservedParam(names) => "Cannot use reserved Electric parameter names: "@
            + spec_debug_string_list(names@.map_values(|s: String| s@)),
        ElectricError::ParserNullValue { column } => "Column \""@ + column@
            + "\" is NOT NULL but received a null value"@,
        ElectricError::MissingHeader { header } => "Missing required response header: "@
            + header@,
        ElectricError::Network(m) => "Network error: "@ + m@,
        ElectricError::Json(m) => "JSON error: "@ + m@,
        ElectricError::Url(m) => "URL parse error: "@ + m@,
        ElectricError::InvalidOffset(m) => "Invalid offset string: \""@ + m@ + "\""@,
        ElectricError::StreamClosed => "Stream closed unexpectedly"@,
        ElectricError::Stream(m) => m@,
    }
}

impl ElectricError {
    /// The human-readable message of this error.
    pub fn to_string(&self) -> (r: String)
        ensures
            r@ == error_text(*self),
    {
        let mut out = String::new();
        match self {
            ElectricError::Fetch { status, body, url, .. } => {
                push_str(&mut out, "HTTP ");
                push_decimal(&mut out, *status as u64);
                push_str(&mut out, " from ");
                push_str(&mut out, url.as_str());
                push_str(&mut out, ": ");
                push_str(&mut out, body.as_str());
            },
            ElectricError::BackoffAborted => push_str(&mut out, "Fetch aborted during backoff"),
            ElectricError::MissingShapeUrl => push_str(&mut out, "Missing required option: url"),
            ElectricError::MissingShapeTable => push_str(
                &mut out,
                "Missing required option: table",
            ),
            ElectricError::MissingShapeHandle => push_str(
                &mut out,
                "shape handle is required when offset is not -1",
            ),
            ElectricError::ReservedParam(names) => {
                push_str(&mut out, "Cannot use reserved Electric parameter names: ");
                let list = debug_string_list(names);
                push_str(&mut out, list.as_str());
            },
            ElectricError::ParserNullValue { column } => {
                push_str(&mut out, "Column \"");
                push_str(&mut out, column.as_str());
                push_str(&mut out, "\" is NOT NULL but received a null value");
            },
            ElectricError::MissingHeader { header } => {
                push_str(&mut out, "Missing required response header: ");
                push_str(&mut out, header.as_str());
            },
            ElectricError::Network(m) => {
                push_str(&mut out, "Network error: ");
                push_str(&mut out, m.as_str());
            },
            ElectricError::Json(m) => {
                push_str(&mut out, "JSON error: ");
                push_str(&mut out, m.as_str());
            },
            ElectricError::Url(m) => {
                push_str(&mut out, "URL parse error: ");
                push_str(&mut out, m.as_str());
            },
            ElectricError::InvalidOffset(m) => {
                push_str(&mut out, "Invalid offset string: \"");
                push_str(&mut out, m.as_str());
                push_str(&mut out, "\"");
            },
            ElectricError::StreamClosed => push_str(&mut out, "Stream closed unexpectedly"),
            ElectricError::Stream(m) => push_str(&mut out, m.as_str()),
        }
        assert(out@ =~= error_text(*self));
        out
    }
}

} // verus!
