//! Protocol constants: HTTP header names and query parameter names of the
//! Electric sync protocol.

use vstd::prelude::*;

verus! {

/// Response header carrying the next cursor for live requests.
pub const LIVE_CACHE_BUSTER_HEADER: &'static str = "electric-cursor";

/// Response header carrying the shape handle.
pub const SHAPE_HANDLE_HEADER: &'static str = "electric-handle";

/// Response header carrying the latest offset included in the response.
pub const CHUNK_LAST_OFFSET_HEADER: &'static str = "electric-offset";

/// Response header carrying the JSON schema (column name → column info).
pub const SHAPE_SCHEMA_HEADER: &'static str = "electric-schema";

/// Response header present when the response ends with an `up-to-date` message.
pub const CHUNK_UP_TO_DATE_HEADER: &'static str = "electric-up-to-date";

/// Query param: comma-separated list of columns to include.
pub const COLUMNS_QUERY_PARAM: &'static str = "columns";

/// Query param: cursor returned by the server, sent back on live requests.
pub const LIVE_CACHE_BUSTER_QUERY_PARAM: &'static str = "cursor";

/// Query param: previously expired shape handle.
pub const EXPIRED_HANDLE_QUERY_PARAM: &'static str = "expired_handle";

/// Query param: the shape handle obtained from a previous response.
pub const SHAPE_HANDLE_QUERY_PARAM: &'static str = "handle";

/// Query param: `"true"` to long-poll for live changes.
pub const LIVE_QUERY_PARAM: &'static str = "live";

/// Query param: current stream offset.
pub const OFFSET_QUERY_PARAM: &'static str = "offset";

/// Query param: root Postgres table.
pub const TABLE_QUERY_PARAM: &'static str = "table";

/// Query param: SQL WHERE clause.
pub const WHERE_QUERY_PARAM: &'static str = "where";

/// Query param: replica mode.
pub const REPLICA_PARAM: &'static str = "replica";

/// Query param: positional WHERE clause parameters (`params[1]=…`).
pub const WHERE_PARAMS_PARAM: &'static str = "params";

/// Query param: enables SSE streaming.
pub const LIVE_SSE_QUERY_PARAM: &'static str = "live_sse";

/// Query param: log mode.
pub const LOG_MODE_QUERY_PARAM: &'static str = "log";

/// Query param: random value that bypasses stale CDN responses.
pub const CACHE_BUSTER_QUERY_PARAM: &'static str = "cache-buster";

/// Whether `name` is one of the reserved parameter names that custom
/// params may not use: `cursor`, `handle`, `live`, `offset`, `cache-buster`.
pub open spec fn is_reserved_param(name: Seq<char>) -> bool {
    name == "cursor"@ || name == "handle"@ || name == "live"@ || name == "offset"@ || name
        == "cache-buster"@
}

/// Whether `name` is a reserved parameter name.
pub fn reserved_param(name: &str) -> (r: bool)
    ensures
        r == is_reserved_param(name@),
{
    crate::text::same_text(name, LIVE_CACHE_BUSTER_QUERY_PARAM) || crate::text::same_text(
        name,
        SHAPE_HANDLE_QUERY_PARAM,
    ) || crate::text::same_text(name, LIVE_QUERY_PARAM) || crate::text::same_text(
        name,
        OFFSET_QUERY_PARAM,
    ) || crate::text::same_text(name, CACHE_BUSTER_QUERY_PARAM)
}

} // verus!
