//! Core data types of the Electric sync protocol and their JSON decoding.

use vstd::prelude::*;
use crate::json::{
    JsonValue, JsonView, JsonNumber, NumberView, Row, row_view, lookup, members_of, get_member,
    copy_row, lemma_object_view, view_opt, items_view, lemma_array_view,
};
use crate::text::same_text;

verus! {

// ── Schema ───────────────────────────────────────────────────────────────────

/// Postgres column metadata, as sent in the `electric-schema` header.
#[derive(Debug)]
pub struct ColumnInfo {
    /// Postgres type name, e.g. `"int4"`, `"text"`, `"bool"`.
    pub pg_type: String,
    /// Array dimensionality: 0 = scalar.
    pub dimensions: u32,
    /// Whether the column has a NOT NULL constraint.
    pub not_null: bool,
    pub max_length: Option<u32>,
    pub length: Option<u32>,
    pub precision: Option<u32>,
    pub scale: Option<u32>,
}

/// The view of a column description.
pub struct ColumnInfoView {
    pub pg_type: Seq<char>,
    pub dimensions: u32,
    pub not_null: bool,
    pub max_length: Option<u32>,
    pub length: Option<u32>,
    pub precision: Option<u32>,
    pub scale: Option<u32>,
}

impl View for ColumnInfo {
    type V = ColumnInfoView;

    open spec fn view(&self) -> ColumnInfoView {
        ColumnInfoView {
            pg_type: self.pg_type@,
            dimensions: self.dimensions,
            not_null: self.not_null,
            max_length: self.max_length,
            length: self.length,
            precision: self.precision,
            scale: self.scale,
        }
    }
}

impl ColumnInfo {
    /// A column of the given type with every other field at its default.
    pub fn of_type(pg_type: &str) -> (r: ColumnInfo)
        ensures
            r@ == (ColumnInfoView {
                pg_type: pg_type@,
                dimensions: 0,
                not_null: false,
                max_length: None,
                length: None,
                precision: None,
                scale: None,
            }),
    {
        ColumnInfo {
            pg_type: pg_type.to_owned(),
            dimensions: 0,
            not_null: false,
            max_length: None,
            length: None,
            precision: None,
            scale: None,
        }
    }

    /// Returns a copy of this column description.
    pub fn copy(&self) -> (r: ColumnInfo)
        ensures
            r@ == self@,
    {
        ColumnInfo {
            pg_type: self.pg_type.clone(),
            dimensions: self.dimensions,
            not_null: self.not_null,
            max_length: self.max_length,
            length: self.length,
            precision: self.precision,
            scale: self.scale,
        }
    }
}

impl Default for ColumnInfo {
    /// An untyped scalar column: empty type name, nullable, no size details.
    fn default() -> (r: ColumnInfo)
        ensures
            r@ == (ColumnInfoView {
                pg_type: Seq::empty(),
                dimensions: 0,
                not_null: false,
                max_length: None,
                length: None,
                precision: None,
                scale: None,
            }),
    {
        ColumnInfo {
            pg_type: String::new(),
            dimensions: 0,
            not_null: false,
            max_length: None,
            length: None,
            precision: None,
            scale: None,
        }
    }
}

/// Column name → column metadata.
pub type Schema = Vec<(String, ColumnInfo)>;

/// The view of a schema: column names with their descriptions.
pub open spec fn schema_view(s: Seq<(String, ColumnInfo)>) -> Seq<(Seq<char>, ColumnInfoView)> {
    Seq::new(s.len(), |i: int| (s[i].0@, s[i].1@))
}

/// The view of an optional column description.
pub open spec fn opt_column_view(c: Option<&ColumnInfo>) -> Option<ColumnInfoView> {
    match c {
        Some(c) => Some(c@),
        None => None,
    }
}

/// Looks up a column's metadata by name.
pub fn schema_get<'a>(schema: &'a Schema, name: &str) -> (r: Option<&'a ColumnInfo>)
    ensures
        opt_column_view(r) == lookup(schema_view(schema@), name@),
{
    let ghost sv = schema_view(schema@);
    let mut i: usize = 0;
    assert(sv.skip(0) =~= sv);
    while i < schema.len()
        invariant
            0 <= i <= schema@.len(),
            sv == schema_view(schema@),
            lookup(sv, name@) == lookup(sv.skip(i as int), name@),
        decreases schema@.len() - i,
    {
        let ghost rest = sv.skip(i as int);
        assert(rest[0] == (schema@[i as int].0@, schema@[i as int].1@));
        if same_text(schema[i].0.as_str(), name) {
            return Some(&schema[i].1);
        }
        assert(rest.drop_first() =~= sv.skip(i + 1));
        i += 1;
    }
    assert(sv.skip(i as int).len() == 0);
    None
}

// ── Messages ─────────────────────────────────────────────────────────────────

/// Row operation type.
#[derive(Debug, Clone, Copy, PartialEq, Eq, Structural)]
pub enum Operation {
    Insert,
    Update,
    Delete,
}

/// Headers attached to a change message.
#[derive(Debug)]
pub struct ChangeHeaders {
    pub operation: Operation,
    /// Transaction IDs from the Postgres WAL.
    pub txids: Vec<u64>,
    /// LSN string (only on streamed operations).
    pub lsn: Option<String>,
}

/// A row-level change event.
#[derive(Debug)]
pub struct ChangeMessage {
    /// The Electric row key.
    pub key: String,
    /// The current column values.
    pub value: Row,
    /// The previous values of changed columns (updates with `replica=full`).
    pub old_value: Option<Row>,
    pub headers: ChangeHeaders,
}

/// The kind of control event.
#[derive(Debug, Clone, Copy, PartialEq, Eq, Structural)]
pub enum ControlKind {
    /// All available data has been received.
    UpToDate,
    /// The shape log was truncated; local state must be discarded.
    MustRefetch,
}

/// A control message from the server.
#[derive(Debug)]
pub struct ControlMessage {
    pub control: ControlKind,
}

/// A single message of the sync protocol.
#[derive(Debug)]
pub enum Message {
    Change(ChangeMessage),
    Control(ControlMessage),
}

/// The view of a change message.
pub struct ChangeView {
    pub key: Seq<char>,
    pub value: Seq<(Seq<char>, JsonView)>,
    pub old_value: Option<Seq<(Seq<char>, JsonView)>>,
    pub operation: Operation,
    pub txids: Seq<u64>,
    pub lsn: Option<Seq<char>>,
}

/// The view of a message.
pub enum MessageView {
    Change(ChangeView),
    Control(ControlKind),
}

/// The view of an optional row.
pub open spec fn opt_row_view(r: Option<Row>) -> Option<Seq<(Seq<char>, JsonView)>> {
    match r {
        Some(r) => Some(row_view(r@)),
        None => None,
    }
}

/// The view of an optional string.
pub open spec fn opt_str_view(s: Option<String>) -> Option<Seq<char>> {
    match s {
        Some(s) => Some(s@),
        None => None,
    }
}

impl View for ChangeMessage {
    type V = ChangeView;

    open spec fn view(&self) -> ChangeView {
        ChangeView {
            key: self.key@,
            value: row_view(self.value@),
            old_value: opt_row_view(self.old_value),
            operation: self.headers.operation,
            txids: self.headers.txids@,
            lsn: opt_str_view(self.headers.lsn),
        }
    }
}

impl View for Message {
    type V = MessageView;

    open spec fn view(&self) -> MessageView {
        match self {
            Message::Change(c) => MessageView::Change(c@),
            Message::Control(c) => MessageView::Control(c.control),
        }
    }
}

/// The views of a sequence of messages.
pub open spec fn messages_view(ms: Seq<Message>) -> Seq<MessageView> {
    Seq::new(ms.len(), |i: int| ms[i]@)
}

impl Message {
    /// True if this is an `up-to-date` control message.
    pub fn is_up_to_date(&self) -> (r: bool)
        ensures
            r == (self@ == MessageView::Control(ControlKind::UpToDate)),
    {
        match self {
            Message::Control(c) => c.control == ControlKind::UpToDate,
            _ => false,
        }
    }

    /// True if this is a `must-refetch` control message.
    pub fn is_must_refetch(&self) -> (r: bool)
        ensures
            r == (self@ == MessageView::Control(ControlKind::MustRefetch)),
    {
        match self {
            Message::Control(c) => c.control == ControlKind::MustRefetch,
            _ => false,
        }
    }
}

/// Replica mode: how much data update/delete messages carry.
#[derive(Debug, Clone, Copy, PartialEq, Eq, Structural)]
pub enum Replica {
    /// Changed columns only in updates; primary key only in deletes.
    Default,
    /// Full rows in updates (with `old_value`) and deletes.
    Full,
}

impl Replica {
    /// The wire name of the replica mode.
    pub fn to_string(&self) -> (r: String)
        ensures
            r@ == (match *self {
                Replica::Default => "default"@,
                Replica::Full => "full"@,
            }),
    {
        match self {
            Replica::Default => "default".to_owned(),
            Replica::Full => "full".to_owned(),
        }
    }
}

impl Default for Replica {
    fn default() -> (r: Replica)
        ensures
            r == Replica::Default,
    {
        Replica::Default
    }
}

// ── Decoding from JSON ──────────────────────────────────────────────────────

/// A JSON number that is a `u32`.
pub open spec fn json_u32(v: JsonView) -> Option<u32> {
    match v {
        JsonView::Number(NumberView::PosInt(n)) => if n <= u32::MAX {
            Some(n as u32)
        } else {
            None
        },
        _ => None,
    }
}

/// An optional `u32` field: absent or null is `None`; otherwise it must be a `u32`.
pub open spec fn decode_opt_u32(f: Option<JsonView>) -> Option<Option<u32>> {
    match f {
        None => Some(None),
        Some(JsonView::Null) => Some(None),
        Some(x) => match json_u32(x) {
            Some(n) => Some(Some(n)),
            None => None,
        },
    }
}

/// Decoding of a column description: `type` is required; `dimensions` and
/// `not_null` default to 0 and false when absent; the length fields are optional.
pub open spec fn decode_column_info(v: JsonView) -> Option<ColumnInfoView> {
    match v {
        JsonView::Object(m) => {
            let t = lookup(m, "type"@);
            let d = match lookup(m, "dimensions"@) {
                None => Some(0u32),
                Some(x) => json_u32(x),
            };
            let nn = match lookup(m, "not_null"@) {
                None => Some(false),
                Some(JsonView::Bool(b)) => Some(b),
                Some(_) => None,
            };
            let ml = decode_opt_u32(lookup(m, "max_length"@));
            let l = decode_opt_u32(lookup(m, "length"@));
            let p = decode_opt_u32(lookup(m, "precision"@));
            let s = decode_opt_u32(lookup(m, "scale"@));
            match (t, d, nn, ml, l, p, s) {
                (
                    Some(JsonView::Str(t)),
                    Some(d),
                    Some(nn),
                    Some(ml),
                    Some(l),
                    Some(p),
                    Some(s),
                ) => Some(
                    ColumnInfoView {
                        pg_type: t,
                        dimensions: d,
                        not_null: nn,
                        max_length: ml,
                        length: l,
                        precision: p,
                        scale: s,
                    },
                ),
                _ => None,
            }
        },
        _ => None,
    }
}

/// Every member decodes as a column description.
pub open spec fn decode_schema_members(m: Seq<(Seq<char>, JsonView)>) -> Option<
    Seq<(Seq<char>, ColumnInfoView)>,
>
    decreases m.len(),
{
    if m.len() == 0 {
        Some(Seq::empty())
    } else {
        match (decode_column_info(m[0].1), decode_schema_members(m.drop_first())) {
            (Some(ci), Some(rest)) => Some(seq![(m[0].0, ci)] + rest),
            _ => None,
        }
    }
}

/// Decoding of a schema: an object mapping column names to column descriptions.
pub open spec fn decode_schema(v: JsonView) -> Option<Seq<(Seq<char>, ColumnInfoView)>> {
    match v {
        JsonView::Object(m) => decode_schema_members(m),
        _ => None,
    }
}

/// The control kind named by a `control` header value; unknown values count as up-to-date.
pub open spec fn control_kind_of(v: JsonView) -> ControlKind {
    match v {
        JsonView::Str(s) => if s == "must-refetch"@ {
            ControlKind::MustRefetch
        } else {
            ControlKind::UpToDate
        },
        _ => ControlKind::UpToDate,
    }
}

/// The operation named by a JSON string: `insert`, `update` or `delete`.
pub open spec fn decode_operation(v: JsonView) -> Option<Operation> {
    match v {
        JsonView::Str(s) => if s == "insert"@ {
            Some(Operation::Insert)
        } else if s == "update"@ {
            Some(Operation::Update)
        } else if s == "delete"@ {
            Some(Operation::Delete)
        } else {
            None
        },
        _ => None,
    }
}

/// Every item a `u64`.
pub open spec fn decode_txid_items(xs: Seq<JsonView>) -> Option<Seq<u64>>
    decreases xs.len(),
{
    if xs.len() == 0 {
        Some(Seq::empty())
    } else {
        match (xs[0], decode_txid_items(xs.drop_first())) {
            (JsonView::Number(NumberView::PosInt(n)), Some(rest)) => if n <= u64::MAX {
                Some(seq![n as u64] + rest)
            } else {
                None
            },
            _ => None,
        }
    }
}

/// `txids`: absent is empty; otherwise an array of `u64`.
pub open spec fn decode_txids(f: Option<JsonView>) -> Option<Seq<u64>> {
    match f {
        None => Some(Seq::empty()),
        Some(JsonView::Array(xs)) => decode_txid_items(xs),
        Some(_) => None,
    }
}

/// `lsn`: absent or null is `None`; otherwise a string.
pub open spec fn decode_lsn(f: Option<JsonView>) -> Option<Option<Seq<char>>> {
    match f {
        None => Some(None),
        Some(JsonView::Null) => Some(None),
        Some(JsonView::Str(s)) => Some(Some(s)),
        Some(_) => None,
    }
}

/// `old_value`: absent or null is `None`; otherwise an object.
pub open spec fn decode_old_value(f: Option<JsonView>) -> Option<
    Option<Seq<(Seq<char>, JsonView)>>,
> {
    match f {
        None => Some(None),
        Some(JsonView::Null) => Some(None),
        Some(JsonView::Object(m)) => Some(Some(m)),
        Some(_) => None,
    }
}

/// Decoding of a change message: `key` (string), `value` (object), optional
/// `old_value`, and `headers` with `operation`, optional `txids` and `lsn`.
pub open spec fn decode_change(m: Seq<(Seq<char>, JsonView)>) -> Option<ChangeView> {
    let key = lookup(m, "key"@);
    let value = lookup(m, "value"@);
    let old = decode_old_value(lookup(m, "old_value"@));
    match (key, value, old, lookup(m, "headers"@)) {
        (
            Some(JsonView::Str(k)),
            Some(JsonView::Object(v)),
            Some(old),
            Some(JsonView::Object(h)),
        ) => match (
            lookup(h, "operation"@),
            decode_txids(lookup(h, "txids"@)),
            decode_lsn(lookup(h, "lsn"@)),
        ) {
            (Some(op), Some(txids), Some(lsn)) => match decode_operation(op) {
                Some(operation) => Some(
                    ChangeView { key: k, value: v, old_value: old, operation, txids, lsn },
                ),
                None => None,
            },
            _ => None,
        },
        _ => None,
    }
}

/// Decoding of one message.  The `headers` member decides: a `control`
/// header makes a control message, an `operation` header a change message,
/// and anything else is treated as up-to-date.
pub open spec fn decode_message(v: JsonView) -> Option<MessageView> {
    match lookup(members_of(v), "headers"@) {
        None => None,
        Some(h) => match lookup(members_of(h), "control"@) {
            Some(c) => Some(MessageView::Control(control_kind_of(c))),
            None => if lookup(members_of(h), "operation"@) is Some {
                match decode_change(members_of(v)) {
                    Some(c) => Some(MessageView::Change(c)),
                    None => None,
                }
            } else {
                Some(MessageView::Control(ControlKind::UpToDate))
            },
        },
    }
}

/// Every item a message.
pub open spec fn decode_message_items(xs: Seq<JsonView>) -> Option<Seq<MessageView>>
    decreases xs.len(),
{
    if xs.len() == 0 {
        Some(Seq::empty())
    } else {
        match (decode_message(xs[0]), decode_message_items(xs.drop_first())) {
            (Some(m), Some(rest)) => Some(seq![m] + rest),
            _ => None,
        }
    }
}

/// Decoding of a response body: an array of messages.
pub open spec fn decode_messages(v: JsonView) -> Option<Seq<MessageView>> {
    match v {
        JsonView::Array(xs) => decode_message_items(xs),
        _ => None,
    }
}


fn json_to_u32(v: &JsonValue) -> (r: Option<u32>)
    ensures
        r == json_u32(v@),
{
    match v {
        JsonValue::Number(JsonNumber::PosInt(n)) => if *n <= 0xffff_ffff {
            Some(*n as u32)
        } else {
            None
        },
        _ => None,
    }
}

fn decode_opt_u32_field(f: Option<&JsonValue>, name: &str) -> (r: Result<Option<u32>, String>)
    ensures
        r is Ok <==> decode_opt_u32(view_opt(f)) is Some,
        r matches Ok(x) ==> decode_opt_u32(view_opt(f)) == Some(x),
{
    match f {
        None => Ok(None),
        Some(JsonValue::Null) => Ok(None),
        Some(x) => match json_to_u32(x) {
            Some(n) => Ok(Some(n)),
            None => Err(invalid_field(name, "u32")),
        },
    }
}

fn invalid_field(name: &str, expected: &str) -> (r: String)
    ensures
        r@ == "invalid type for field `"@ + name@ + "`, expected "@ + expected@,
{
    let mut m = String::new();
    crate::text::push_str(&mut m, "invalid type for field `");
    crate::text::push_str(&mut m, name);
    crate::text::push_str(&mut m, "`, expected ");
    crate::text::push_str(&mut m, expected);
    m
}

fn missing_field(name: &str) -> (r: String)
    ensures
        r@ == "missing field `"@ + name@ + "`"@,
{
    let mut m = String::new();
    crate::text::push_str(&mut m, "missing field `");
    crate::text::push_str(&mut m, name);
    crate::text::push_str(&mut m, "`");
    m
}

/// Decodes a column description.
pub fn column_info_from_json(v: &JsonValue) -> (r: Result<ColumnInfo, String>)
    ensures
        r is Ok <==> decode_column_info(v@) is Some,
        r matches Ok(c) ==> decode_column_info(v@) == Some(c@),
{
    let m = match v {
        JsonValue::Object(m) => m,
        _ => {
            return Err("invalid type: expected struct ColumnInfo".to_owned());
        },
    };
    proof {
        lemma_object_view(*m, *v);
    }
    let pg_type = match get_member(v, "type") {
        Some(JsonValue::String(t)) => t.clone(),
        Some(_) => {
            return Err(invalid_field("type", "a string"));
        },
        None => {
            return Err(missing_field("type"));
        },
    };
    let dimensions = match get_member(v, "dimensions") {
        None => 0u32,
        Some(x) => match json_to_u32(x) {
            Some(d) => d,
            None => {
                return Err(invalid_field("dimensions", "u32"));
            },
        },
    };
    let not_null = match get_member(v, "not_null") {
        None => false,
        Some(JsonValue::Bool(b)) => *b,
        Some(_) => {
            return Err(invalid_field("not_null", "a boolean"));
        },
    };
    let max_length = decode_opt_u32_field(get_member(v, "max_length"), "max_length")?;
    let length = decode_opt_u32_field(get_member(v, "length"), "length")?;
    let precision = decode_opt_u32_field(get_member(v, "precision"), "precision")?;
    let scale = decode_opt_u32_field(get_member(v, "scale"), "scale")?;
    Ok(ColumnInfo { pg_type, dimensions, not_null, max_length, length, precision, scale })
}

/// Decodes a schema header value.
pub fn schema_from_json(v: &JsonValue) -> (r: Result<Schema, String>)
    ensures
        r is Ok <==> decode_schema(v@) is Some,
        r matches Ok(s) ==> decode_schema(v@) == Some(schema_view(s@)),
{
    let m = match v {
        JsonValue::Object(m) => m,
        _ => {
            return Err("invalid type: expected a map".to_owned());
        },
    };
    proof {
        lemma_object_view(*m, *v);
    }
    let ghost mv = row_view(m@);
    let mut out: Schema = Vec::new();
    let mut i: usize = 0;
    assert(mv.skip(0) =~= mv);
    assert(schema_view(out@) =~= Seq::<(Seq<char>, ColumnInfoView)>::empty());
    while i < m.len()
        invariant
            0 <= i <= m@.len(),
            out@.len() == i,
            mv == row_view(m@),
            v@ == JsonView::Object(mv),
            decode_schema_members(mv) == match decode_schema_members(mv.skip(i as int)) {
                Some(rest) => Some(schema_view(out@) + rest),
                None => None,
            },
        decreases m@.len() - i,
    {
        proof {
            assert(mv.skip(i as int)[0] == mv[i as int]);
            assert(mv.skip(i as int).drop_first() =~= mv.skip(i + 1));
        }
        let ci = match column_info_from_json(&m[i].1) {
            Ok(ci) => ci,
            Err(e) => {
                assert(decode_schema_members(mv.skip(i as int)) is None);
                return Err(e);
            },
        };
        let ghost before = out@;
        out.push((m[i].0.clone(), ci));
        proof {
            assert(schema_view(out@) =~= schema_view(before) + seq![(mv[i as int].0, out@[i as int].1@)]);
            if let Some(rest) = decode_schema_members(mv.skip(i + 1)) {
                assert(schema_view(out@) + rest =~= schema_view(before) + (seq![(mv[i as int].0, out@[i as int].1@)] + rest));
            }
        }
        i += 1;
    }
    proof {
        assert(mv.skip(i as int) =~= Seq::<(Seq<char>, JsonView)>::empty());
        assert(schema_view(out@) + Seq::<(Seq<char>, ColumnInfoView)>::empty() =~= schema_view(out@));
    }
    Ok(out)
}


fn txids_from_json(f: Option<&JsonValue>) -> (r: Result<Vec<u64>, String>)
    ensures
        r is Ok <==> decode_txids(view_opt(f)) is Some,
        r matches Ok(t) ==> decode_txids(view_opt(f)) == Some(t@),
{
    let xs = match f {
        None => {
            return Ok(Vec::new());
        },
        Some(JsonValue::Array(xs)) => xs,
        Some(_) => {
            return Err(invalid_field("txids", "a sequence"));
        },
    };
    proof {
        lemma_array_view(*xs, *f.unwrap());
    }
    let ghost xv = items_view(xs@);
    let mut out: Vec<u64> = Vec::new();
    let mut i: usize = 0;
    assert(xv.skip(0) =~= xv);
    while i < xs.len()
        invariant
            0 <= i <= xs@.len(),
            out@.len() == i,
            xv == items_view(xs@),
            view_opt(f) == Some(JsonView::Array(xv)),
            decode_txid_items(xv) == match decode_txid_items(xv.skip(i as int)) {
                Some(rest) => Some(out@ + rest),
                None => None,
            },
        decreases xs@.len() - i,
    {
        proof {
            assert(xv.skip(i as int)[0] == xv[i as int]);
            assert(xv.skip(i as int).drop_first() =~= xv.skip(i + 1));
        }
        let n = match &xs[i] {
            JsonValue::Number(JsonNumber::PosInt(n)) => *n,
            _ => {
                assert(decode_txid_items(xv.skip(i as int)) is None);
                return Err(invalid_field("txids", "a sequence of u64"));
            },
        };
        let ghost before = out@;
        out.push(n);
        proof {
            if let Some(rest) = decode_txid_items(xv.skip(i + 1)) {
                assert(out@ + rest =~= before + (seq![n] + rest));
            }
        }
        i += 1;
    }
    proof {
        assert(xv.skip(i as int) =~= Seq::<JsonView>::empty());
        assert(out@ + Seq::<u64>::empty() =~= out@);
    }
    Ok(out)
}

fn object_members(v: &JsonValue) -> (r: Option<&Row>)
    ensures
        r is Some <==> v@ is Object,
        r matches Some(m) ==> v@ == JsonView::Object(row_view(m@)),
{
    match v {
        JsonValue::Object(m) => {
            proof {
                lemma_object_view(*m, *v);
            }
            Some(m)
        },
        _ => None,
    }
}

/// Decodes a change message from the members of a message object.
pub fn change_from_json(v: &JsonValue) -> (r: Result<ChangeMessage, String>)
    ensures
        r is Ok <==> decode_change(members_of(v@)) is Some,
        r matches Ok(c) ==> decode_change(members_of(v@)) == Some(c@),
{
    let key = match get_member(v, "key") {
        Some(JsonValue::String(k)) => k.clone(),
        Some(_) => {
            return Err(invalid_field("key", "a string"));
        },
        None => {
            return Err(missing_field("key"));
        },
    };
    let value = match get_member(v, "value") {
        Some(x) => match object_members(x) {
            Some(m) => copy_row(m),
            None => {
                return Err(invalid_field("value", "a map"));
            },
        },
        None => {
            return Err(missing_field("value"));
        },
    };
    let old_value = match get_member(v, "old_value") {
        None => None,
        Some(JsonValue::Null) => None,
        Some(x) => match object_members(x) {
            Some(m) => Some(copy_row(m)),
            None => {
                return Err(invalid_field("old_value", "a map"));
            },
        },
    };
    let h = match get_member(v, "headers") {
        Some(h) => match object_members(h) {
            Some(_) => h,
            None => {
                return Err(invalid_field("headers", "a map"));
            },
        },
        None => {
            return Err(missing_field("headers"));
        },
    };
    let op = match get_member(h, "operation") {
        Some(x) => x,
        None => {
            return Err(missing_field("operation"));
        },
    };
    let txids = txids_from_json(get_member(h, "txids"))?;
    let lsn = match get_member(h, "lsn") {
        None => None,
        Some(JsonValue::Null) => None,
        Some(JsonValue::String(s)) => Some(s.clone()),
        Some(_) => {
            return Err(invalid_field("lsn", "a string"));
        },
    };
    let operation = match op {
        JsonValue::String(s) => {
            if same_text(s.as_str(), "insert") {
                Operation::Insert
            } else if same_text(s.as_str(), "update") {
                Operation::Update
            } else if same_text(s.as_str(), "delete") {
                Operation::Delete
            } else {
                return Err("unknown variant of operation, expected one of `insert`, `update`, `delete`".to_owned());
            }
        },
        _ => {
            return Err(invalid_field("operation", "a string"));
        },
    };
    Ok(ChangeMessage { key, value, old_value, headers: ChangeHeaders { operation, txids, lsn } })
}

/// Decodes one message of a response body.
pub fn message_from_json(v: &JsonValue) -> (r: Result<Message, String>)
    ensures
        r is Ok <==> decode_message(v@) is Some,
        r matches Ok(m) ==> decode_message(v@) == Some(m@),
{
    let h = match get_member(v, "headers") {
        Some(h) => h,
        None => {
            return Err(missing_field("headers"));
        },
    };
    match get_member(h, "control") {
        Some(c) => {
            let kind = match c {
                JsonValue::String(s) => if same_text(s.as_str(), "must-refetch") {
                    ControlKind::MustRefetch
                } else {
                    ControlKind::UpToDate
                },
                _ => ControlKind::UpToDate,
            };
            Ok(Message::Control(ControlMessage { control: kind }))
        },
        None => {
            if get_member(h, "operation").is_some() {
                let c = change_from_json(v)?;
                Ok(Message::Change(c))
            } else {
                Ok(Message::Control(ControlMessage { control: ControlKind::UpToDate }))
            }
        },
    }
}

/// Decodes a response body: an array of messages.
pub fn messages_from_json(v: &JsonValue) -> (r: Result<Vec<Message>, String>)
    ensures
        r is Ok <==> decode_messages(v@) is Some,
        r matches Ok(ms) ==> decode_messages(v@) == Some(messages_view(ms@)),
{
    let xs = match v {
        JsonValue::Array(xs) => xs,
        _ => {
            return Err("invalid type: expected a sequence of messages".to_owned());
        },
    };
    proof {
        lemma_array_view(*xs, *v);
    }
    let ghost xv = items_view(xs@);
    let mut out: Vec<Message> = Vec::new();
    let mut i: usize = 0;
    assert(xv.skip(0) =~= xv);
    assert(messages_view(out@) =~= Seq::<MessageView>::empty());
    while i < xs.len()
        invariant
            0 <= i <= xs@.len(),
            out@.len() == i,
            xv == items_view(xs@),
            v@ == JsonView::Array(xv),
            decode_message_items(xv) == match decode_message_items(xv.skip(i as int)) {
                Some(rest) => Some(messages_view(out@) + rest),
                None => None,
            },
        decreases xs@.len() - i,
    {
        proof {
            assert(xv.skip(i as int)[0] == xv[i as int]);
            assert(xv.skip(i as int).drop_first() =~= xv.skip(i + 1));
        }
        let m = match message_from_json(&xs[i]) {
            Ok(m) => m,
            Err(e) => {
                assert(decode_message_items(xv.skip(i as int)) is None);
                return Err(e);
            },
        };
        let ghost before = out@;
        out.push(m);
        proof {
            assert(messages_view(out@) =~= messages_view(before) + seq![out@[i as int]@]);
            if let Some(rest) = decode_message_items(xv.skip(i + 1)) {
                assert(messages_view(out@) + rest =~= messages_view(before) + (seq![out@[i as int]@] + rest));
            }
        }
        i += 1;
    }
    proof {
        assert(xv.skip(i as int) =~= Seq::<JsonView>::empty());
        assert(messages_view(out@) + Seq::<MessageView>::empty() =~= messages_view(out@));
    }
    Ok(out)
}

/// A column description keeps what its members say: the `type` string is
/// the type name, a `dimensions` number is the dimensionality (0 when the
/// member is absent), and a `not_null` boolean is the constraint (false when
/// absent).  An object with a `type` string and a `dimensions` number that
/// fits a `u32`, and no other members, decodes.
pub proof fn lemma_column_info_members(v: JsonView)
    ensures
        decode_column_info(v) matches Some(ci) ==> {
            &&& v is Object
            &&& lookup(members_of(v), "type"@) == Some(JsonView::Str(ci.pg_type))
            &&& match lookup(members_of(v), "dimensions"@) {
                None => ci.dimensions == 0,
                Some(JsonView::Number(NumberView::PosInt(n))) => ci.dimensions as nat == n,
                Some(_) => false,
            }
            &&& match lookup(members_of(v), "not_null"@) {
                None => !ci.not_null,
                Some(JsonView::Bool(b)) => ci.not_null == b,
                Some(_) => false,
            }
        },
        forall|t: Seq<char>, n: nat|
            n <= u32::MAX && v == JsonView::Object(
                seq![("type"@, JsonView::Str(t)), ("dimensions"@, JsonView::Number(NumberView::PosInt(n)))],
            ) ==> #[trigger] decode_column_info(v) == Some(
                ColumnInfoView {
                    pg_type: t,
                    dimensions: n as u32,
                    not_null: false,
                    max_length: None,
                    length: None,
                    precision: None,
                    scale: None,
                },
            ),
{
    reveal_strlit("type");
    reveal_strlit("dimensions");
    reveal_strlit("not_null");
    reveal_strlit("max_length");
    reveal_strlit("length");
    reveal_strlit("precision");
    reveal_strlit("scale");
    assert forall|t: Seq<char>, n: nat|
        n <= u32::MAX && v == JsonView::Object(
            seq![("type"@, JsonView::Str(t)), ("dimensions"@, JsonView::Number(NumberView::PosInt(n)))],
        ) implies #[trigger] decode_column_info(v) == Some(
            ColumnInfoView {
                pg_type: t,
                dimensions: n as u32,
                not_null: false,
                max_length: None,
                length: None,
                precision: None,
                scale: None,
            },
        ) by {
        reveal_strlit("type");
        reveal_strlit("dimensions");
        reveal_strlit("not_null");
        reveal_strlit("max_length");
        reveal_strlit("length");
        reveal_strlit("precision");
        reveal_strlit("scale");
        assert("type"@.len() == 4 && "dimensions"@.len() == 10 && "not_null"@.len() == 8);
        assert("max_length"@.len() == 10 && "length"@.len() == 6 && "precision"@.len() == 9);
        assert("scale"@.len() == 5);
        assert("dimensions"@[0] == 'd' && "max_length"@[0] == 'm');
        let m = seq![("type"@, JsonView::Str(t)), ("dimensions"@, JsonView::Number(NumberView::PosInt(n)))];
        lemma_lookup_two(m, "type"@);
        lemma_lookup_two(m, "dimensions"@);
        lemma_lookup_two(m, "not_null"@);
        lemma_lookup_two(m, "max_length"@);
        lemma_lookup_two(m, "length"@);
        lemma_lookup_two(m, "precision"@);
        lemma_lookup_two(m, "scale"@);
        assert("type"@ != "dimensions"@);
    }
}

proof fn lemma_lookup_two(m: Seq<(Seq<char>, JsonView)>, k: Seq<char>)
    requires
        m.len() == 2,
    ensures
        lookup(m, k) == if m[0].0 == k {
            Some(m[0].1)
        } else if m[1].0 == k {
            Some(m[1].1)
        } else {
            None::<JsonView>
        },
{
    reveal_with_fuel(lookup, 3);
    assert(m.drop_first()[0] == m[1]);
    assert(m.drop_first().drop_first().len() == 0);
}

} // verus!
