//! Verified core of the Electric SQL shape-streaming client: the wire types
//! and their JSON decoding, the Postgres value parser, offsets, request
//! construction, the per-response state machine of the long-poll loop, the
//! retry decisions of exponential backoff, and the materialized row set of a
//! shape.

pub mod json;
pub mod assoc;
pub mod text;
pub mod error;
pub mod offset;
pub mod types;
pub mod parser;
pub mod constants;
pub mod fetch;
pub mod http_date;
pub mod stream;
pub mod shape;

pub use error::ElectricError;
pub use offset::Offset;
pub use types::{
    ChangeHeaders, ChangeMessage, ColumnInfo, ControlKind, ControlMessage, Message, Operation,
    Replica, Schema,
};
pub use json::{JsonNumber, JsonValue, Row};
pub use fetch::{ElectricRequest, ElectricResponse, parse_retry_after};
pub use parser::Parser;
pub use stream::{StreamConfig, StreamState};
pub use shape::ShapeData;
