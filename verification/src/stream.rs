//! The shape stream protocol: option validation, request construction, and
//! the state transitions of the long-poll loop for each response.

use vstd::prelude::*;
use crate::constants::{
    CACHE_BUSTER_QUERY_PARAM, CHUNK_LAST_OFFSET_HEADER, CHUNK_UP_TO_DATE_HEADER,
    COLUMNS_QUERY_PARAM, LIVE_CACHE_BUSTER_HEADER, LIVE_CACHE_BUSTER_QUERY_PARAM,
    LIVE_QUERY_PARAM, OFFSET_QUERY_PARAM, REPLICA_PARAM, SHAPE_HANDLE_HEADER,
    SHAPE_HANDLE_QUERY_PARAM, SHAPE_SCHEMA_HEADER, TABLE_QUERY_PARAM, WHERE_PARAMS_PARAM,
    WHERE_QUERY_PARAM, is_reserved_param, reserved_param,
};
use crate::error::ElectricError;
use crate::fetch::{ElectricRequest, ElectricResponse, pairs_view, opt_string_view, header_get, copy_pairs};
use crate::json::{JsonValue, lookup, row_view};
use crate::offset::{Offset, offset_text, spec_parse_offset};
use crate::parser::{
    Parser, hooks_callable, json_gives, row_first_failure, row_parsed, row_result,
};
use crate::text::{push_str, same_text};
use crate::types::{
    ChangeHeaders, ChangeMessage, ColumnInfoView, ControlKind, ControlMessage, Message,
    MessageView, Replica, Schema, decode_messages, decode_schema, messages_from_json,
    messages_view, opt_str_view, schema_from_json, schema_view,
};

verus! {

// ── Options ─────────────────────────────────────────────────────────────────

/// The protocol options of a shape stream.
#[derive(Debug)]
pub struct StreamConfig {
    /// Electric endpoint URL.  Required.
    pub url: String,
    /// Root Postgres table.  Required.
    pub table: String,
    /// Starting offset.
    pub offset: Offset,
    /// Shape handle for resuming (required when `offset` is not `Initial`).
    pub handle: Option<String>,
    /// SQL WHERE clause for server-side filtering.
    pub where_clause: Option<String>,
    /// Positional params of the WHERE clause (keys `"1"`, `"2"`, …).
    pub params: Vec<(String, String)>,
    /// Column subset to sync.
    pub columns: Option<Vec<String>>,
    /// Replica mode.
    pub replica: Replica,
    /// Extra HTTP headers sent with every request.
    pub headers: Vec<(String, String)>,
    /// Keep long-polling after the first up-to-date (`true`), or stop there.
    pub subscribe: bool,
}

impl Default for StreamConfig {
    /// Empty url and table, the initial offset, no handle, filter, params,
    /// column subset or headers, the default replica mode, and subscribing.
    fn default() -> (r: StreamConfig)
        ensures
            r.url@.len() == 0,
            r.table@.len() == 0,
            r.offset == Offset::Initial,
            r.handle is None,
            r.where_clause is None,
            r.params@.len() == 0,
            r.columns is None,
            r.replica == Replica::Default,
            r.headers@.len() == 0,
            r.subscribe,
    {
        StreamConfig {
            url: String::new(),
            table: String::new(),
            offset: Offset::Initial,
            handle: None,
            where_clause: None,
            params: Vec::new(),
            columns: None,
            replica: Replica::Default,
            headers: Vec::new(),
            subscribe: true,
        }
    }
}

/// The names among `params` that are reserved, in order.
pub open spec fn reserved_names(params: Seq<(String, String)>) -> Seq<Seq<char>>
    decreases params.len(),
{
    if params.len() == 0 {
        Seq::empty()
    } else {
        let rest = reserved_names(params.drop_last());
        if is_reserved_param(params.last().0@) {
            rest.push(params.last().0@)
        } else {
            rest
        }
    }
}

/// What is wrong with a set of stream options.
pub enum ConfigProblem {
    MissingShapeUrl,
    MissingShapeTable,
    MissingShapeHandle,
    ReservedParam(Seq<Seq<char>>),
}

/// The first of these checks that fails: empty url, empty table, missing
/// handle with a non-initial offset, reserved parameter names in `params`.
pub open spec fn config_problem(c: StreamConfig) -> Option<ConfigProblem> {
    if c.url@.len() == 0 {
        Some(ConfigProblem::MissingShapeUrl)
    } else if c.table@.len() == 0 {
        Some(ConfigProblem::MissingShapeTable)
    } else if c.offset != Offset::Initial && c.handle is None {
        Some(ConfigProblem::MissingShapeHandle)
    } else if reserved_names(c.params@).len() > 0 {
        Some(ConfigProblem::ReservedParam(reserved_names(c.params@)))
    } else {
        None
    }
}

/// The error that reports a problem.
pub open spec fn reports(e: ElectricError, p: ConfigProblem) -> bool {
    match p {
        ConfigProblem::MissingShapeUrl => e is MissingShapeUrl,
        ConfigProblem::MissingShapeTable => e is MissingShapeTable,
        ConfigProblem::MissingShapeHandle => e is MissingShapeHandle,
        ConfigProblem::ReservedParam(names) => e matches ElectricError::ReservedParam(v)
            && v@.map_values(|s: String| s@) == names,
    }
}

/// Checks the options a stream is created with.
pub fn validate_options(c: &StreamConfig) -> (r: Result<(), ElectricError>)
    ensures
        r is Ok <==> config_problem(*c) is None,
        r matches Err(e) ==> config_problem(*c) matches Some(p) && reports(e, p),
{
    if c.url.as_str().is_empty() {
        return Err(ElectricError::MissingShapeUrl);
    }
    if c.table.as_str().is_empty() {
        return Err(ElectricError::MissingShapeTable);
    }
    let initial = match c.offset {
        Offset::Initial => true,
        _ => false,
    };
    if !initial && c.handle.is_none() {
        return Err(ElectricError::MissingShapeHandle);
    }
    let mut reserved: Vec<String> = Vec::new();
    let mut i: usize = 0;
    while i < c.params.len()
        invariant
            0 <= i <= c.params@.len(),
            reserved@.map_values(|s: String| s@) == reserved_names(c.params@.take(i as int)),
        decreases c.params@.len() - i,
    {
        let ghost before = reserved@;
        assert(c.params@.take(i + 1).drop_last() =~= c.params@.take(i as int));
        if reserved_param(c.params[i].0.as_str()) {
            reserved.push(c.params[i].0.clone());
            assert(reserved@.map_values(|s: String| s@) =~= before.map_values(|s: String| s@).push(
                c.params@[i as int].0@,
            ));
        }
        i += 1;
    }
    assert(c.params@.take(i as int) =~= c.params@);
    if reserved.len() > 0 {
        return Err(ElectricError::ReservedParam(reserved));
    }
    Ok(())
}

// ── Stream state ─────────────────────────────────────────────────────────────

/// Protocol state carried from one request to the next.
#[derive(Debug)]
pub struct StreamState {
    pub offset: Offset,
    pub handle: Option<String>,
    pub schema: Schema,
    pub cursor: Option<String>,
    pub is_loading: bool,
    pub is_up_to_date: bool,
    pub live: bool,
    pub last_synced_at: Option<u64>,
}

/// The view of a stream state: strings and the schema by their views.
pub struct StreamStateView {
    pub offset: Offset,
    pub handle: Option<Seq<char>>,
    pub schema: Seq<(Seq<char>, ColumnInfoView)>,
    pub cursor: Option<Seq<char>>,
    pub is_loading: bool,
    pub is_up_to_date: bool,
    pub live: bool,
    pub last_synced_at: Option<u64>,
}

impl View for StreamState {
    type V = StreamStateView;

    open spec fn view(&self) -> StreamStateView {
        StreamStateView {
            offset: self.offset,
            handle: opt_str_view(self.handle),
            schema: schema_view(self.schema@),
            cursor: opt_str_view(self.cursor),
            is_loading: self.is_loading,
            is_up_to_date: self.is_up_to_date,
            live: self.live,
            last_synced_at: self.last_synced_at,
        }
    }
}

impl StreamState {
    /// The state before the first request: loading, not live, no schema.
    pub fn initial(offset: Offset, handle: Option<String>) -> (r: StreamState)
        ensures
            r@ == fresh_view(offset, opt_str_view(handle)),
    {
        let r = StreamState {
            offset,
            handle,
            schema: Vec::new(),
            cursor: None,
            is_loading: true,
            is_up_to_date: false,
            live: false,
            last_synced_at: None,
        };
        assert(schema_view(r.schema@) =~= Seq::empty());
        r
    }
}


// ── Requests ─────────────────────────────────────────────────────────────────

/// Column names joined with commas.
pub open spec fn comma_join(cols: Seq<Seq<char>>) -> Seq<char>
    decreases cols.len(),
{
    if cols.len() == 0 {
        Seq::empty()
    } else if cols.len() == 1 {
        cols[0]
    } else {
        comma_join(cols.drop_last()) + ","@ + cols.last()
    }
}

/// The WHERE clause parameters as `params[k]=v` pairs.
pub open spec fn param_pairs(ps: Seq<(String, String)>) -> Seq<(Seq<char>, Seq<char>)> {
    Seq::new(ps.len(), |i: int| ("params["@ + ps[i].0@ + "]"@, ps[i].1@))
}

/// The views of a sequence of strings.
pub open spec fn string_views(v: Seq<String>) -> Seq<Seq<char>> {
    v.map_values(|s: String| s@)
}

/// The leading query parameters: table, offset, the handle (when the offset
/// is not initial), live mode (with the cursor when live), the cache buster,
/// and the WHERE clause.
pub open spec fn query_head(c: StreamConfig, st: StreamStateView, buster: Seq<char>) -> Seq<
    (Seq<char>, Seq<char>),
> {
    seq![("table"@, c.table@), ("offset"@, offset_text(st.offset))] + (if st.offset
        != Offset::Initial && st.handle is Some {
        seq![("handle"@, st.handle.unwrap())]
    } else {
        Seq::empty()
    }) + (if st.live {
        seq![("live"@, "true"@)] + match st.cursor {
            Some(cu) => seq![("cursor"@, cu)],
            None => Seq::empty(),
        }
    } else {
        seq![("live"@, "false"@)]
    }) + seq![("cache-buster"@, buster)] + match c.where_clause {
        Some(w) => seq![("where"@, w@)],
        None => Seq::empty(),
    }
}

/// The trailing query parameters: the column list and the replica mode when
/// it is `Full`.
pub open spec fn query_tail(c: StreamConfig) -> Seq<(Seq<char>, Seq<char>)> {
    (match c.columns {
        Some(cols) => seq![("columns"@, comma_join(string_views(cols@)))],
        None => Seq::empty(),
    }) + (if c.replica == Replica::Full {
        seq![("replica"@, "full"@)]
    } else {
        Seq::empty()
    })
}

/// The query parameters of the next request, in order.
pub open spec fn query_pairs_spec(c: StreamConfig, st: StreamStateView, buster: Seq<char>) -> Seq<
    (Seq<char>, Seq<char>),
> {
    query_head(c, st, buster) + param_pairs(c.params@) + query_tail(c)
}

fn push_pair(out: &mut Vec<(String, String)>, k: &str, v: &str)
    ensures
        pairs_view(final(out)@) == pairs_view(old(out)@).push((k@, v@)),
{
    let ghost before = out@;
    out.push((k.to_owned(), v.to_owned()));
    assert(pairs_view(out@) =~= pairs_view(before).push((k@, v@)));
}

/// Joins names with commas.
pub fn join_columns(cols: &Vec<String>) -> (r: String)
    ensures
        r@ == comma_join(string_views(cols@)),
{
    let mut out = String::new();
    let mut i: usize = 0;
    while i < cols.len()
        invariant
            0 <= i <= cols@.len(),
            out@ == comma_join(string_views(cols@).take(i as int)),
        decreases cols@.len() - i,
    {
        let ghost sv = string_views(cols@);
        assert(sv.take(i + 1).drop_last() =~= sv.take(i as int));
        if i > 0 {
            push_str(&mut out, ",");
        }
        push_str(&mut out, cols[i].as_str());
        proof {
            if i == 0 {
                assert(sv.take(1) =~= seq![sv[0]]);
            }
        }
        i += 1;
    }
    assert(string_views(cols@).take(i as int) =~= string_views(cols@));
    out
}

fn push_query_head(out: &mut Vec<(String, String)>, c: &StreamConfig, st: &StreamState, cache_buster: &str)
    ensures
        pairs_view(final(out)@) == pairs_view(old(out)@) + query_head(*c, st@, cache_buster@),
{
    let ghost o0 = pairs_view(out@);
    push_pair(out, TABLE_QUERY_PARAM, c.table.as_str());
    let off = st.offset.to_string();
    push_pair(out, OFFSET_QUERY_PARAM, off.as_str());
    let initial = match st.offset {
        Offset::Initial => true,
        _ => false,
    };
    if !initial {
        if let Some(h) = &st.handle {
            push_pair(out, SHAPE_HANDLE_QUERY_PARAM, h.as_str());
        }
    }
    if st.live {
        push_pair(out, LIVE_QUERY_PARAM, "true");
        if let Some(cu) = &st.cursor {
            push_pair(out, LIVE_CACHE_BUSTER_QUERY_PARAM, cu.as_str());
        }
    } else {
        push_pair(out, LIVE_QUERY_PARAM, "false");
    }
    push_pair(out, CACHE_BUSTER_QUERY_PARAM, cache_buster);
    if let Some(w) = &c.where_clause {
        push_pair(out, WHERE_QUERY_PARAM, w.as_str());
    }
    assert(pairs_view(out@) =~= o0 + query_head(*c, st@, cache_buster@));
}

fn push_param_pairs(out: &mut Vec<(String, String)>, params: &Vec<(String, String)>)
    ensures
        pairs_view(final(out)@) == pairs_view(old(out)@) + param_pairs(params@),
{
    let ghost o4 = pairs_view(out@);
    let mut i: usize = 0;
    assert(param_pairs(params@.take(0)) =~= Seq::<(Seq<char>, Seq<char>)>::empty());
    while i < params.len()
        invariant
            0 <= i <= params@.len(),
            pairs_view(out@) == o4 + param_pairs(params@.take(i as int)),
        decreases params@.len() - i,
    {
        let mut name = String::new();
        push_str(&mut name, "params[");
        push_str(&mut name, params[i].0.as_str());
        push_str(&mut name, "]");
        push_pair(out, name.as_str(), params[i].1.as_str());
        proof {
            assert(param_pairs(params@.take(i + 1)) =~= param_pairs(params@.take(i as int)).push(
                ("params["@ + params@[i as int].0@ + "]"@, params@[i as int].1@),
            ));
        }
        i += 1;
    }
    assert(params@.take(i as int) =~= params@);
}

/// The query parameters of the next request, given the cache-buster value.
pub fn query_pairs(c: &StreamConfig, st: &StreamState, cache_buster: &str) -> (r: Vec<(String, String)>)
    ensures
        pairs_view(r@) == query_pairs_spec(*c, st@, cache_buster@),
{
    let mut out: Vec<(String, String)> = Vec::new();
    assert(pairs_view(out@) =~= Seq::<(Seq<char>, Seq<char>)>::empty());
    push_query_head(&mut out, c, st, cache_buster);
    push_param_pairs(&mut out, &c.params);
    let ghost o5 = pairs_view(out@);
    if let Some(cols) = &c.columns {
        let joined = join_columns(cols);
        push_pair(&mut out, COLUMNS_QUERY_PARAM, joined.as_str());
    }
    match c.replica {
        Replica::Full => push_pair(&mut out, REPLICA_PARAM, "full"),
        Replica::Default => {},
    }
    assert(pairs_view(out@) =~= o5 + query_tail(*c));
    assert(pairs_view(out@) =~= query_pairs_spec(*c, st@, cache_buster@));
    out
}

/// The text of `base` with the query `pairs` appended (form-encoded), as the
/// `url` crate serialises it; `None` when `base` does not parse as a URL.
pub uninterp spec fn spec_url_with_params(
    base: Seq<char>,
    pairs: Seq<(Seq<char>, Seq<char>)>,
) -> Option<Seq<char>>;

/// `url::Url::parse_with_params(base, pairs)` followed by `to_string()`: the
/// URL's text, or the parse error's message.  The text depends on `base` and
/// `pairs` alone and is named by `spec_url_with_params`.
#[verifier::external_body]
fn url_with_params(base: &str, pairs: &Vec<(String, String)>) -> (r: Result<String, String>)
    ensures
        r is Ok <==> spec_url_with_params(base@, pairs_view(pairs@)) is Some,
        r matches Ok(u) ==> spec_url_with_params(base@, pairs_view(pairs@)) == Some(u@),
{
    match url::Url::parse_with_params(base, pairs) {
        Ok(u) => Ok(u.to_string()),
        Err(e) => Err(e.to_string()),
    }
}

/// A lower-case hexadecimal digit.
pub open spec fn is_lower_hex(c: char) -> bool {
    ('0' <= c && c <= '9') || ('a' <= c && c <= 'f')
}

/// The hyphenated lower-case text of a version-4 UUID: 36 characters, `-` at
/// 8, 13, 18 and 23, hexadecimal digits elsewhere, version digit `4`, and a
/// variant digit among `8`, `9`, `a`, `b`.
pub open spec fn uuid_v4_text(s: Seq<char>) -> bool {
    &&& s.len() == 36
    &&& forall|i: int| 0 <= i < 36 ==> if i == 8 || i == 13 || i == 18 || i == 23 {
        s[i] == '-'
    } else {
        is_lower_hex(#[trigger] s[i])
    }
    &&& s[14] == '4'
    &&& s[19] == '8' || s[19] == '9' || s[19] == 'a' || s[19] == 'b'
}

/// `uuid::Uuid::new_v4().to_string()`: a random UUID, written hyphenated in
/// lower case.  Its digits are random; only their form is stated.
#[verifier::external_body]
fn random_cache_buster() -> (r: String)
    ensures
        uuid_v4_text(r@),
{
    uuid::Uuid::new_v4().to_string()
}

/// The URL of the next request: the endpoint with the query parameters of
/// `query_pairs_spec` and a fresh random cache buster (a version-4 UUID).
pub fn build_url(c: &StreamConfig, st: &StreamState) -> (r: Result<String, ElectricError>)
    ensures
        exists|b: Seq<char>|
            uuid_v4_text(b) && #[trigger] spec_url_with_params(c.url@, query_pairs_spec(*c, st@, b))
                == match r {
                Ok(u) => Some(u@),
                Err(_) => None,
            },
        r matches Err(e) ==> e is Url,
{
    let buster = random_cache_buster();
    let pairs = query_pairs(c, st, buster.as_str());
    match url_with_params(c.url.as_str(), &pairs) {
        Ok(u) => Ok(u),
        Err(m) => Err(ElectricError::Url(m)),
    }
}

/// The next request of the stream: its URL and the configured headers.
pub fn next_request(c: &StreamConfig, st: &StreamState) -> (r: Result<ElectricRequest, ElectricError>)
    ensures
        exists|b: Seq<char>|
            uuid_v4_text(b) && #[trigger] spec_url_with_params(c.url@, query_pairs_spec(*c, st@, b))
                == match r {
                Ok(req) => Some(req.url@),
                Err(_) => None,
            },
        r matches Ok(req) ==> pairs_view(req.headers@) == pairs_view(c.headers@),
        r matches Err(e) ==> e is Url,
{
    let url = build_url(c, st)?;
    Ok(ElectricRequest { url, headers: copy_pairs(&c.headers) })
}


// ── Response bodies ──────────────────────────────────────────────────────────

/// The first cell of the decoded messages that cannot be parsed: in message
/// order, the `value` row before the `old_value` row.
pub open spec fn messages_first_failure(
    mvs: Seq<MessageView>,
    schema: Seq<(Seq<char>, ColumnInfoView)>,
) -> Option<Seq<char>>
    decreases mvs.len(),
{
    if mvs.len() == 0 {
        None
    } else {
        let here = match mvs[0] {
            MessageView::Change(c) => match row_first_failure(c.value, schema) {
                Some(col) => Some(col),
                None => match c.old_value {
                    Some(o) => row_first_failure(o, schema),
                    None => None,
                },
            },
            MessageView::Control(_) => None,
        };
        match here {
            Some(col) => Some(col),
            None => messages_first_failure(mvs.drop_first(), schema),
        }
    }
}

/// `m` is the decoded message `mv` with its rows parsed under `schema`.
pub open spec fn message_parsed<
    C: Fn(&String, &str) -> Option<JsonValue>,
    F: Fn(&str) -> JsonValue,
    J: Fn(&str) -> Result<JsonValue, String>,
>(
    h: Parser<C, F, J>,
    mv: MessageView,
    schema: Seq<(Seq<char>, ColumnInfoView)>,
    m: Message,
) -> bool {
    match mv {
        MessageView::Control(k) => m@ == MessageView::Control(k),
        MessageView::Change(c) => match m {
            Message::Change(x) => {
                &&& x.key@ == c.key
                &&& x.headers.operation == c.operation
                &&& x.headers.txids@ == c.txids
                &&& opt_str_view(x.headers.lsn) == c.lsn
                &&& row_parsed(h, c.value, schema, x.value@)
                &&& match c.old_value {
                    None => x.old_value is None,
                    Some(o) => x.old_value matches Some(ov) && row_parsed(h, o, schema, ov@),
                }
            },
            _ => false,
        },
    }
}

/// The messages of a decoded body: as decoded when the schema is empty, else
/// with every row parsed (or the error of the first cell that cannot be).
pub open spec fn body_messages<
    C: Fn(&String, &str) -> Option<JsonValue>,
    F: Fn(&str) -> JsonValue,
    J: Fn(&str) -> Result<JsonValue, String>,
>(
    h: Parser<C, F, J>,
    mvs: Seq<MessageView>,
    schema: Seq<(Seq<char>, ColumnInfoView)>,
    r: Result<Vec<Message>, ElectricError>,
) -> bool {
    if schema.len() == 0 {
        r matches Ok(ms) && messages_view(ms@) == mvs
    } else {
        match messages_first_failure(mvs, schema) {
            Some(col) => r matches Err(e) && e matches ElectricError::ParserNullValue { column }
                && column@ == col,
            None => r matches Ok(ms) && ms@.len() == mvs.len() && forall|i: int|
                0 <= i < mvs.len() ==> message_parsed(h, mvs[i], schema, #[trigger] ms@[i]),
        }
    }
}

/// The result of reading a response body: no messages for an empty body;
/// otherwise the body is decoded as JSON, then as an array of messages, then
/// the rows are parsed.  Decoding failures are `Json` errors.
pub open spec fn body_result<
    C: Fn(&String, &str) -> Option<JsonValue>,
    F: Fn(&str) -> JsonValue,
    J: Fn(&str) -> Result<JsonValue, String>,
>(
    h: Parser<C, F, J>,
    body: Seq<char>,
    schema: Seq<(Seq<char>, ColumnInfoView)>,
    r: Result<Vec<Message>, ElectricError>,
) -> bool {
    if body.len() == 0 {
        r matches Ok(ms) && ms@.len() == 0
    } else {
        exists|jr: Result<JsonValue, String>| #[trigger]
            json_gives(h.json, body, jr) && match jr {
                Err(m) => r matches Err(e) && e matches ElectricError::Json(t) && t@ == m@,
                Ok(v) => match decode_messages(v@) {
                    None => r matches Err(e) && e is Json,
                    Some(mvs) => body_messages(h, mvs, schema, r),
                },
            }
    }
}

fn copy_headers(h: &ChangeHeaders) -> (r: ChangeHeaders)
    ensures
        r.operation == h.operation,
        r.txids@ == h.txids@,
        opt_str_view(r.lsn) == opt_str_view(h.lsn),
{
    let mut txids: Vec<u64> = Vec::new();
    let mut i: usize = 0;
    while i < h.txids.len()
        invariant
            0 <= i <= h.txids@.len(),
            txids@ == h.txids@.take(i as int),
        decreases h.txids@.len() - i,
    {
        txids.push(h.txids[i]);
        i += 1;
        assert(txids@ =~= h.txids@.take(i as int));
    }
    assert(h.txids@.take(i as int) =~= h.txids@);
    let lsn = match &h.lsn {
        Some(l) => Some(l.clone()),
        None => None,
    };
    ChangeHeaders { operation: h.operation, txids, lsn }
}

impl<
    C: Fn(&String, &str) -> Option<JsonValue>,
    F: Fn(&str) -> JsonValue,
    J: Fn(&str) -> Result<JsonValue, String>,
> Parser<C, F, J> {
    /// Parses the rows of one decoded message.
    fn parse_message(&self, m: &Message, schema: &Schema) -> (r: Result<Message, ElectricError>)
        requires
            hooks_callable(*self),
            schema@.len() > 0,
        ensures
            match m@ {
                MessageView::Control(_) => r matches Ok(x) && x@ == m@,
                MessageView::Change(c) => {
                    let fail = match row_first_failure(c.value, schema_view(schema@)) {
                        Some(col) => Some(col),
                        None => match c.old_value {
                            Some(o) => row_first_failure(o, schema_view(schema@)),
                            None => None,
                        },
                    };
                    match fail {
                        Some(col) => r matches Err(e) && e matches ElectricError::ParserNullValue {
                            column,
                        } && column@ == col,
                        None => r matches Ok(x) && message_parsed(*self, m@, schema_view(schema@), x),
                    }
                },
            },
    {
        match m {
            Message::Control(c) => Ok(Message::Control(ControlMessage { control: c.control })),
            Message::Change(c) => {
                let value = self.parse_row(&c.value, schema)?;
                let old_value = match &c.old_value {
                    Some(o) => Some(self.parse_row(o, schema)?),
                    None => None,
                };
                Ok(
                    Message::Change(
                        ChangeMessage {
                            key: c.key.clone(),
                            value,
                            old_value,
                            headers: copy_headers(&c.headers),
                        },
                    ),
                )
            },
        }
    }

    /// Reads a response body: an empty body has no messages; otherwise the
    /// body is a JSON array of messages whose rows are parsed under `schema`
    /// (rows are kept as decoded when the schema is empty).
    pub fn parse_response_body(&self, body: &str, schema: &Schema) -> (r: Result<
        Vec<Message>,
        ElectricError,
    >)
        requires
            hooks_callable(*self),
        ensures
            body_result(*self, body@, schema_view(schema@), r),
    {
        if body.is_empty() {
            return Ok(Vec::new());
        }
        let json = &self.json;
        let jr = json(body);
        assert(json_gives(self.json, body@, jr));
        let v = match jr {
            Ok(v) => v,
            Err(m) => {
                return Err(ElectricError::Json(m));
            },
        };
        let decoded = match messages_from_json(&v) {
            Ok(ms) => ms,
            Err(m) => {
                return Err(ElectricError::Json(m));
            },
        };
        if schema.len() == 0 {
            assert(schema_view(schema@).len() == 0);
            return Ok(decoded);
        }
        let ghost sv = schema_view(schema@);
        let ghost mvs = messages_view(decoded@);
        let mut out: Vec<Message> = Vec::new();
        let mut i: usize = 0;
        assert(mvs.skip(0) =~= mvs);
        while i < decoded.len()
            invariant
                0 <= i <= decoded@.len(),
                hooks_callable(*self),
                schema@.len() > 0,
                sv == schema_view(schema@),
                mvs == messages_view(decoded@),
                body@.len() > 0,
                json_gives(self.json, body@, Ok(v)),
                decode_messages(v@) == Some(mvs),
                out@.len() == i,
                messages_first_failure(mvs, sv) == messages_first_failure(mvs.skip(i as int), sv),
                forall|j: int| 0 <= j < i ==> message_parsed(*self, mvs[j], sv, #[trigger] out@[j]),
            decreases decoded@.len() - i,
        {
            proof {
                assert(mvs.skip(i as int)[0] == mvs[i as int]);
                assert(mvs.skip(i as int).drop_first() =~= mvs.skip(i + 1));
            }
            let m = match self.parse_message(&decoded[i], schema) {
                Ok(m) => m,
                Err(e) => {
                    assert(messages_first_failure(mvs.skip(i as int), sv) is Some);
                    return Err(e);
                },
            };
            let ghost prev = out@;
            out.push(m);
            proof {
                assert forall|j: int| 0 <= j < i + 1 implies message_parsed(*self, mvs[j], sv, #[trigger] out@[j]) by {
                    if j < i {
                        assert(out@[j] == prev[j]);
                    }
                }
            }
            i += 1;
        }
        assert(mvs.skip(i as int).len() == 0);
        Ok(out)
    }
}


// ── Responses ────────────────────────────────────────────────────────────────

/// The schema after a response with headers `hv`: the schema header's value
/// decoded as JSON and then as a schema, when both succeed; else unchanged.
pub open spec fn schema_after<
    C: Fn(&String, &str) -> Option<JsonValue>,
    F: Fn(&str) -> JsonValue,
    J: Fn(&str) -> Result<JsonValue, String>,
>(
    h: Parser<C, F, J>,
    hv: Seq<(Seq<char>, Seq<char>)>,
    old: Seq<(Seq<char>, ColumnInfoView)>,
    new: Seq<(Seq<char>, ColumnInfoView)>,
) -> bool {
    match lookup(hv, "electric-schema"@) {
        None => new == old,
        Some(t) => exists|jr: Result<JsonValue, String>| #[trigger]
            json_gives(h.json, t, jr) && new == schema_from_reply(jr, old),
    }
}

/// The schema decoded from a JSON reply, or `old` when it does not decode.
pub open spec fn schema_from_reply(
    jr: Result<JsonValue, String>,
    old: Seq<(Seq<char>, ColumnInfoView)>,
) -> Seq<(Seq<char>, ColumnInfoView)> {
    match jr {
        Ok(v) => match decode_schema(v@) {
            Some(sch) => sch,
            None => old,
        },
        Err(_) => old,
    }
}

proof fn lemma_schema_after_intro<
    C: Fn(&String, &str) -> Option<JsonValue>,
    F: Fn(&str) -> JsonValue,
    J: Fn(&str) -> Result<JsonValue, String>,
>(
    h: Parser<C, F, J>,
    hv: Seq<(Seq<char>, Seq<char>)>,
    old: Seq<(Seq<char>, ColumnInfoView)>,
    new: Seq<(Seq<char>, ColumnInfoView)>,
    t: Seq<char>,
    jr: Result<JsonValue, String>,
)
    requires
        lookup(hv, "electric-schema"@) == Some(t),
        json_gives(h.json, t, jr),
        new == schema_from_reply(jr, old),
    ensures
        schema_after(h, hv, old, new),
{
    assert(exists|r: Result<JsonValue, String>| #[trigger] json_gives(h.json, t, r) && new == schema_from_reply(r, old));
    let l = lookup(hv, "electric-schema"@);
    assert(l is Some);
    assert(l->0 == t);
    assert(schema_after(h, hv, old, new) == (exists|r: Result<JsonValue, String>| #[trigger] json_gives(h.json, t, r) && new == schema_from_reply(r, old)));
}

/// The offset after a response with headers `hv`: the offset header's value
/// when it parses, else unchanged.
pub open spec fn offset_after(hv: Seq<(Seq<char>, Seq<char>)>, old: Offset) -> Offset {
    match lookup(hv, "electric-offset"@) {
        Some(t) => match spec_parse_offset(t) {
            Some(o) => o,
            None => old,
        },
        None => old,
    }
}

/// A header value replaces the old one when present.
pub open spec fn header_or(hv: Seq<(Seq<char>, Seq<char>)>, name: Seq<char>, old: Option<Seq<char>>) -> Option<Seq<char>> {
    match lookup(hv, name) {
        Some(v) => Some(v),
        None => old,
    }
}

/// Some message of the batch is an up-to-date control message.
pub open spec fn has_up_to_date_message(ms: Seq<Message>) -> bool {
    exists|i: int| 0 <= i < ms.len() && #[trigger] ms[i]@ == MessageView::Control(ControlKind::UpToDate)
}

/// The state transition and result of a 200 response: the handle, offset,
/// schema and cursor headers update the state; the body is read under the new
/// schema; when the up-to-date header or an up-to-date message is present the
/// stream is no longer loading, is up to date, goes live iff it subscribes,
/// and records `now_ms` as its last sync.  The flag in the result says the
/// loop is done: up to date without subscribing.
pub open spec fn after_200<
    C: Fn(&String, &str) -> Option<JsonValue>,
    F: Fn(&str) -> JsonValue,
    J: Fn(&str) -> Result<JsonValue, String>,
>(
    h: Parser<C, F, J>,
    subscribe: bool,
    old: StreamStateView,
    new: StreamStateView,
    resp: ElectricResponse,
    now_ms: u64,
    r: Result<(Vec<Message>, bool), ElectricError>,
) -> bool {
    let hv = pairs_view(resp.headers@);
    let body_r: Result<Vec<Message>, ElectricError> = match r {
        Ok((ms, _)) => Ok(ms),
        Err(e) => Err(e),
    };
    &&& new.handle == header_or(hv, "electric-handle"@, old.handle)
    &&& new.offset == offset_after(hv, old.offset)
    &&& new.cursor == header_or(hv, "electric-cursor"@, old.cursor)
    &&& schema_after(h, hv, old.schema, new.schema)
    &&& body_result(h, resp.body@, new.schema, body_r)
    &&& match r {
        Ok((ms, done)) => {
            let utd = lookup(hv, "electric-up-to-date"@) is Some || has_up_to_date_message(ms@);
            &&& done == (utd && !subscribe)
            &&& utd ==> !new.is_loading && new.is_up_to_date && new.live == subscribe
                && new.last_synced_at == Some(now_ms)
            &&& !utd ==> new.is_loading == old.is_loading && new.is_up_to_date == old.is_up_to_date
                && new.live == old.live && new.last_synced_at == old.last_synced_at
        },
        Err(_) => new.is_loading == old.is_loading && new.is_up_to_date == old.is_up_to_date
            && new.live == old.live && new.last_synced_at == old.last_synced_at,
    }
}

/// The request after a 200 response resumes where the response left off:
/// it asks from the offset the response carried, with the handle it
/// carried, and once the stream is live it asks for live updates.
pub proof fn lemma_next_request_resumes<
    C: Fn(&String, &str) -> Option<JsonValue>,
    F: Fn(&str) -> JsonValue,
    J: Fn(&str) -> Result<JsonValue, String>,
>(
    h: Parser<C, F, J>,
    subscribe: bool,
    old: StreamStateView,
    new: StreamStateView,
    resp: ElectricResponse,
    now_ms: u64,
    r: Result<(Vec<Message>, bool), ElectricError>,
    c: StreamConfig,
    buster: Seq<char>,
    offset_header: Seq<char>,
    handle_header: Seq<char>,
)
    requires
        after_200(h, subscribe, old, new, resp, now_ms, r),
        lookup(pairs_view(resp.headers@), "electric-offset"@) == Some(offset_header),
        spec_parse_offset(offset_header) is Some,
        spec_parse_offset(offset_header) != Some(Offset::Initial),
        lookup(pairs_view(resp.headers@), "electric-handle"@) == Some(handle_header),
    ensures
        query_pairs_spec(c, new, buster)[1] == ("offset"@, offset_text(
            spec_parse_offset(offset_header)->0,
        )),
        query_pairs_spec(c, new, buster)[2] == ("handle"@, handle_header),
        new.live ==> query_pairs_spec(c, new, buster)[3] == ("live"@, "true"@),
{
    let q = query_pairs_spec(c, new, buster);
    assert(q[1] == query_head(c, new, buster)[1]);
    assert(q[2] == query_head(c, new, buster)[2]);
    assert(q[3] == query_head(c, new, buster)[3]);
}

/// The messages of a 409 body, or none when it cannot be read.
pub open spec fn body_or_nothing<
    C: Fn(&String, &str) -> Option<JsonValue>,
    F: Fn(&str) -> JsonValue,
    J: Fn(&str) -> Result<JsonValue, String>,
>(h: Parser<C, F, J>, body: Seq<char>, ms: Vec<Message>) -> bool {
    ||| body_result(h, body, Seq::empty(), Ok(ms))
    ||| ms@.len() == 0 && exists|e: ElectricError| #[trigger] body_result(h, body, Seq::empty(), Err(e))
}

/// The state after a 409 (shape rotation): back to the initial offset with
/// the handle of the response (if any), no schema or cursor, loading, not up
/// to date and not live.
pub open spec fn after_409(
    hv: Seq<(Seq<char>, Seq<char>)>,
    old: StreamStateView,
    new: StreamStateView,
) -> bool {
    new == StreamStateView {
        offset: Offset::Initial,
        handle: lookup(hv, "electric-handle"@),
        schema: Seq::empty(),
        cursor: None,
        is_loading: true,
        is_up_to_date: false,
        live: false,
        last_synced_at: old.last_synced_at,
    }
}

/// The state after a 204: up to date and no longer loading, synced at `now_ms`.
pub open spec fn after_204(old: StreamStateView, new: StreamStateView, now_ms: u64) -> bool {
    new == StreamStateView {
        is_loading: false,
        is_up_to_date: true,
        last_synced_at: Some(now_ms),
        ..old
    }
}

/// The view of a stream that has not made a request yet.
pub open spec fn fresh_view(offset: Offset, handle: Option<Seq<char>>) -> StreamStateView {
    StreamStateView {
        offset,
        handle,
        schema: Seq::empty(),
        cursor: None,
        is_loading: true,
        is_up_to_date: false,
        live: false,
        last_synced_at: None,
    }
}

/// After a shape rotation the stream starts over: its next request asks for
/// exactly what a new stream from the initial offset, holding the handle of
/// the 409 response, asks for (table, offset `-1`, not live, and no handle
/// or cursor parameter).
pub proof fn lemma_rotation_starts_over(
    c: StreamConfig,
    hv: Seq<(Seq<char>, Seq<char>)>,
    old: StreamStateView,
    new: StreamStateView,
    buster: Seq<char>,
)
    requires
        after_409(hv, old, new),
    ensures
        query_pairs_spec(c, new, buster) == query_pairs_spec(
            c,
            fresh_view(Offset::Initial, lookup(hv, "electric-handle"@)),
            buster,
        ),
        query_head(c, new, buster) == seq![
            ("table"@, c.table@),
            ("offset"@, offset_text(Offset::Initial)),
            ("live"@, "false"@),
            ("cache-buster"@, buster),
        ] + match c.where_clause {
            Some(w) => seq![("where"@, w@)],
            None => Seq::empty(),
        },
{
    assert(query_head(c, new, buster) =~= seq![
        ("table"@, c.table@),
        ("offset"@, offset_text(Offset::Initial)),
        ("live"@, "false"@),
        ("cache-buster"@, buster),
    ] + match c.where_clause {
        Some(w) => seq![("where"@, w@)],
        None => Seq::empty(),
    });
    assert(query_head(c, new, buster) =~= query_head(
        c,
        fresh_view(Offset::Initial, lookup(hv, "electric-handle"@)),
        buster,
    ));
}

fn has_up_to_date(ms: &Vec<Message>) -> (r: bool)
    ensures
        r == has_up_to_date_message(ms@),
{
    let mut i: usize = 0;
    while i < ms.len()
        invariant
            0 <= i <= ms@.len(),
            forall|j: int| 0 <= j < i ==> ms@[j]@ != MessageView::Control(ControlKind::UpToDate),
        decreases ms@.len() - i,
    {
        if ms[i].is_up_to_date() {
            return true;
        }
        i += 1;
    }
    false
}

impl<
    C: Fn(&String, &str) -> Option<JsonValue>,
    F: Fn(&str) -> JsonValue,
    J: Fn(&str) -> Result<JsonValue, String>,
> Parser<C, F, J> {
    /// Takes the handle, offset, schema and cursor headers of a response into
    /// the stream state.
    fn apply_headers(&self, st: &mut StreamState, headers: &Vec<(String, String)>)
        requires
            hooks_callable(*self),
        ensures
            final(st)@.handle == header_or(pairs_view(headers@), "electric-handle"@, old(st)@.handle),
            final(st)@.offset == offset_after(pairs_view(headers@), old(st)@.offset),
            final(st)@.cursor == header_or(pairs_view(headers@), "electric-cursor"@, old(st)@.cursor),
            schema_after(*self, pairs_view(headers@), old(st)@.schema, final(st)@.schema),
            final(st)@.is_loading == old(st)@.is_loading,
            final(st)@.is_up_to_date == old(st)@.is_up_to_date,
            final(st)@.live == old(st)@.live,
            final(st)@.last_synced_at == old(st)@.last_synced_at,
    {
        let ghost hv = pairs_view(headers@);
        if let Some(hd) = header_get(headers, SHAPE_HANDLE_HEADER) {
            st.handle = Some(hd.clone());
        }
        if let Some(t) = header_get(headers, CHUNK_LAST_OFFSET_HEADER) {
            if let Ok(o) = Offset::parse(t.as_str()) {
                st.offset = o;
            }
        }
        let ghost sch0 = schema_view(st.schema@);
        if let Some(t) = header_get(headers, SHAPE_SCHEMA_HEADER) {
            let json = &self.json;
            let jr = json(t.as_str());
            assert(json_gives(self.json, t@, jr));
            let ghost jr0 = jr;
            match jr {
                Ok(v) => {
                    if let Ok(sch) = schema_from_json(&v) {
                        st.schema = sch;
                    }
                },
                Err(_) => {},
            }
            assert(match jr0 {
                Ok(v) => match decode_schema(v@) {
                    Some(sch) => schema_view(st.schema@) == sch,
                    None => schema_view(st.schema@) == sch0,
                },
                Err(_) => schema_view(st.schema@) == sch0,
            });
            assert(lookup(hv, "electric-schema"@) == Some(t@));
            assert(json_gives(self.json, t@, jr0));
            let ghost new_s = schema_view(st.schema@);
            assert(exists|jr: Result<JsonValue, String>| #[trigger]
                json_gives(self.json, t@, jr) && match jr {
                    Ok(v) => match decode_schema(v@) {
                        Some(sch) => new_s == sch,
                        None => new_s == sch0,
                    },
                    Err(_) => new_s == sch0,
                });
            proof {
                lemma_schema_after_intro(*self, hv, sch0, schema_view(st.schema@), t@, jr0);
            }
        }
        if let Some(cu) = header_get(headers, LIVE_CACHE_BUSTER_HEADER) {
            st.cursor = Some(cu.clone());
        }
    }

    /// Applies a 200 response to the stream state and reads its messages.
    /// Returns the messages and whether the loop is done.
    pub fn handle_200(
        &self,
        subscribe: bool,
        st: &mut StreamState,
        resp: &ElectricResponse,
        now_ms: u64,
    ) -> (r: Result<(Vec<Message>, bool), ElectricError>)
        requires
            hooks_callable(*self),
        ensures
            after_200(*self, subscribe, old(st)@, final(st)@, *resp, now_ms, r),
    {
        self.apply_headers(st, &resp.headers);
        let header_up_to_date = header_get(&resp.headers, CHUNK_UP_TO_DATE_HEADER).is_some();
        let messages = self.parse_response_body(resp.body.as_str(), &st.schema)?;
        let utd = header_up_to_date || has_up_to_date(&messages);
        if utd {
            st.is_loading = false;
            st.is_up_to_date = true;
            st.live = subscribe;
            st.last_synced_at = Some(now_ms);
            if !subscribe {
                return Ok((messages, true));
            }
        }
        Ok((messages, false))
    }

    /// Applies a 409 response (shape rotation) to the stream state and reads
    /// the messages of its body, if any.
    pub fn handle_409(&self, st: &mut StreamState, body: &str, headers: &Vec<(String, String)>) -> (r: Vec<Message>)
        requires
            hooks_callable(*self),
        ensures
            after_409(pairs_view(headers@), old(st)@, final(st)@),
            body_or_nothing(*self, body@, r),
    {
        let new_handle = match header_get(headers, SHAPE_HANDLE_HEADER) {
            Some(hd) => Some(hd.clone()),
            None => None,
        };
        let empty: Schema = Vec::new();
        assert(schema_view(empty@) =~= Seq::<(Seq<char>, ColumnInfoView)>::empty());
        let messages = match self.parse_response_body(body, &empty) {
            Ok(ms) => ms,
            Err(e) => {
                assert(body_result(*self, body@, Seq::empty(), Err(e)));
                Vec::new()
            },
        };
        st.offset = Offset::Initial;
        st.handle = new_handle;
        st.schema = Vec::new();
        st.cursor = None;
        st.is_up_to_date = false;
        st.is_loading = true;
        st.live = false;
        assert(schema_view(st.schema@) =~= Seq::<(Seq<char>, ColumnInfoView)>::empty());
        messages
    }
}

/// Applies a 204 response (no content): up to date at `now_ms`.
pub fn handle_no_content(st: &mut StreamState, now_ms: u64)
    ensures
        after_204(old(st)@, final(st)@, now_ms),
{
    st.is_loading = false;
    st.is_up_to_date = true;
    st.last_synced_at = Some(now_ms);
}


// ── The polling loop ─────────────────────────────────────────────────────────

/// What the polling loop does after a response.
#[derive(Debug)]
pub enum StepNext {
    /// Send the next request.
    Continue,
    /// Stop cleanly (publishes the closed event).
    Close,
    /// Stop with this error message (publishes the error event).
    Fail(String),
}

/// The outcome of one response: a batch to publish (when not empty) and what
/// the loop does next.
#[derive(Debug)]
pub struct StepOutcome {
    pub batch: Vec<Message>,
    pub next: StepNext,
}

/// The loop stops with the error message `text`.
pub open spec fn fails_with(next: StepNext, text: Seq<char>) -> bool {
    next matches StepNext::Fail(m) && m@ == text
}

/// The message for a response with an unexpected status.
pub open spec fn unexpected_status_text(status: u16) -> Seq<char> {
    "Unexpected HTTP status "@ + crate::text::decimal(status as nat)
}

/// What one step of the polling loop does with the result of a fetch:
/// a 409 (as an error or a response) rotates the shape and continues; other
/// errors stop the loop; a 204 marks the stream up to date and stops it when
/// not subscribing; a 200 is applied and stops the loop when done; any other
/// status stops the loop with an error.
pub open spec fn step_result<
    C: Fn(&String, &str) -> Option<JsonValue>,
    F: Fn(&str) -> JsonValue,
    J: Fn(&str) -> Result<JsonValue, String>,
>(
    h: Parser<C, F, J>,
    subscribe: bool,
    old: StreamStateView,
    new: StreamStateView,
    fetched: Result<ElectricResponse, ElectricError>,
    now_ms: u64,
    out: StepOutcome,
) -> bool {
    match fetched {
        Err(ElectricError::Fetch { status, body, headers, .. }) => if status == 409 {
            after_409(pairs_view(headers@), old, new) && body_or_nothing(h, body@, out.batch)
                && out.next is Continue
        } else {
            new == old && out.batch@.len() == 0 && fails_with(out.next, crate::error::error_text(fetched->Err_0))
        },
        Err(e) => new == old && out.batch@.len() == 0 && fails_with(out.next, crate::error::error_text(e)),
        Ok(resp) => if resp.status == 204 {
            after_204(old, new, now_ms) && out.batch@.len() == 0 && (if subscribe {
                out.next is Continue
            } else {
                out.next is Close
            })
        } else if resp.status == 409 {
            after_409(pairs_view(resp.headers@), old, new) && body_or_nothing(
                h,
                resp.body@,
                out.batch,
            ) && out.next is Continue
        } else if resp.status == 200 {
            exists|r: Result<(Vec<Message>, bool), ElectricError>| #[trigger]
                after_200(h, subscribe, old, new, resp, now_ms, r) && match r {
                    Ok((ms, done)) => messages_view(out.batch@) == messages_view(ms@) && (if done {
                        out.next is Close
                    } else {
                        out.next is Continue
                    }),
                    Err(e) => out.batch@.len() == 0 && fails_with(out.next, crate::error::error_text(e)),
                }
        } else {
            new == old && out.batch@.len() == 0 && fails_with(out.next, unexpected_status_text(resp.status))
        },
    }
}

impl<
    C: Fn(&String, &str) -> Option<JsonValue>,
    F: Fn(&str) -> JsonValue,
    J: Fn(&str) -> Result<JsonValue, String>,
> Parser<C, F, J> {
    /// One step of the polling loop: applies the result of a fetch to the
    /// stream state and says what to publish and what to do next.
    pub fn stream_step(
        &self,
        subscribe: bool,
        st: &mut StreamState,
        fetched: Result<ElectricResponse, ElectricError>,
        now_ms: u64,
    ) -> (out: StepOutcome)
        requires
            hooks_callable(*self),
        ensures
            step_result(*self, subscribe, old(st)@, final(st)@, fetched, now_ms, out),
    {
        match fetched {
            Err(e) => {
                let is_409 = match &e {
                    ElectricError::Fetch { status, .. } => *status == 409,
                    _ => false,
                };
                if is_409 {
                    match &e {
                        ElectricError::Fetch { body, headers, .. } => {
                            let batch = self.handle_409(st, body.as_str(), headers);
                            StepOutcome { batch, next: StepNext::Continue }
                        },
                        _ => StepOutcome { batch: Vec::new(), next: StepNext::Continue },
                    }
                } else {
                    let m = e.to_string();
                    StepOutcome { batch: Vec::new(), next: StepNext::Fail(m) }
                }
            },
            Ok(resp) => {
                if resp.status == 204 {
                    handle_no_content(st, now_ms);
                    let next = if subscribe {
                        StepNext::Continue
                    } else {
                        StepNext::Close
                    };
                    StepOutcome { batch: Vec::new(), next }
                } else if resp.status == 409 {
                    let batch = self.handle_409(st, resp.body.as_str(), &resp.headers);
                    StepOutcome { batch, next: StepNext::Continue }
                } else if resp.status == 200 {
                    let r = self.handle_200(subscribe, st, &resp, now_ms);
                    let ghost r0 = r;
                    let out = match r {
                        Ok((batch, done)) => {
                            let next = if done {
                                StepNext::Close
                            } else {
                                StepNext::Continue
                            };
                            StepOutcome { batch, next }
                        },
                        Err(e) => StepOutcome {
                            batch: Vec::new(),
                            next: StepNext::Fail(e.to_string()),
                        },
                    };
                    assert(after_200(*self, subscribe, old(st)@, st@, resp, now_ms, r0));
                    out
                } else {
                    let mut m = String::new();
                    push_str(&mut m, "Unexpected HTTP status ");
                    crate::text::push_decimal(&mut m, resp.status as u64);
                    StepOutcome { batch: Vec::new(), next: StepNext::Fail(m) }
                }
            },
        }
    }
}

/// The schema that rows are parsed with changes only by a shape rotation
/// (a 409) or by a 200 response that carries an `electric-schema` header: a
/// 200 without that header keeps the schema (and its body is read under
/// it), and a 204 or a failure leaves it as it was.
pub proof fn lemma_schema_kept_without_header<
    C: Fn(&String, &str) -> Option<JsonValue>,
    F: Fn(&str) -> JsonValue,
    J: Fn(&str) -> Result<JsonValue, String>,
>(
    h: Parser<C, F, J>,
    subscribe: bool,
    old: StreamStateView,
    new: StreamStateView,
    fetched: Result<ElectricResponse, ElectricError>,
    now_ms: u64,
    out: StepOutcome,
)
    requires
        step_result(h, subscribe, old, new, fetched, now_ms, out),
        !(fetched matches Err(ElectricError::Fetch { status, .. }) && status == 409),
        !(fetched matches Ok(resp) && resp.status == 409),
        !(fetched matches Ok(resp) && resp.status == 200 && lookup(
            pairs_view(resp.headers@),
            "electric-schema"@,
        ) is Some),
    ensures
        new.schema == old.schema,
        fetched is Ok && fetched->Ok_0.status == 200 ==> exists|r: Result<Vec<Message>, ElectricError>|
            #[trigger] body_result(h, fetched->Ok_0.body@, old.schema, r),
{
    if let Ok(resp) = fetched {
        if resp.status == 200 {
            let r = choose|r: Result<(Vec<Message>, bool), ElectricError>| #[trigger]
                after_200(h, subscribe, old, new, resp, now_ms, r) && match r {
                    Ok((ms, done)) => messages_view(out.batch@) == messages_view(ms@) && (if done {
                        out.next is Close
                    } else {
                        out.next is Continue
                    }),
                    Err(e) => out.batch@.len() == 0 && fails_with(out.next, crate::error::error_text(e)),
                };
            let body_r: Result<Vec<Message>, ElectricError> = match r {
                Ok((ms, _)) => Ok(ms),
                Err(e) => Err(e),
            };
            assert(body_result(h, resp.body@, new.schema, body_r));
        }
    }
}

} // verus!
