//! Postgres value parsing: converts the text values that Electric sends into
//! typed JSON values, including Postgres array literals.

use vstd::prelude::*;
use crate::json::{JsonValue, JsonView, JsonNumber, NumberView, Row, lookup, row_view};
use crate::text::{chars_of, string_from_chars, same_text, parse_i64_chars, spec_parse_i64};
use crate::types::{ColumnInfo, ColumnInfoView, Schema, schema_view, schema_get, opt_column_view};
use crate::error::ElectricError;

verus! {

// ── Array literals ──────────────────────────────────────────────────────────

/// The structure of a Postgres array literal: elements are `NULL` (`None`),
/// text, or nested arrays.
pub enum PgTree {
    Leaf(Option<Seq<char>>),
    Node(Seq<PgTree>),
}

/// Reads a quoted element starting after its opening quote: backslash escapes
/// the next character, a quote ends the element.  Returns the text and the
/// position after it.
pub open spec fn scan_quoted(s: Seq<char>, p: int, acc: Seq<char>) -> (Seq<char>, int)
    decreases s.len() - p,
{
    if p < 0 || p >= s.len() {
        (acc, p)
    } else if s[p] == '\\' {
        if p + 1 < s.len() {
            scan_quoted(s, p + 2, acc.push(s[p + 1]))
        } else {
            (acc, p + 1)
        }
    } else if s[p] == '"' {
        (acc, p + 1)
    } else {
        scan_quoted(s, p + 1, acc.push(s[p]))
    }
}

/// Characters that end an unquoted array element.
pub open spec fn is_delimiter(c: char) -> bool {
    c == ',' || c == '}' || c == '{'
}

/// End of an unquoted element: the next `,`, `}` or `{`, or the end.
pub open spec fn token_end(s: Seq<char>, p: int) -> int
    decreases s.len() - p,
{
    if p < 0 || p >= s.len() || is_delimiter(s[p]) {
        p
    } else {
        token_end(s, p + 1)
    }
}

/// An unquoted element: `NULL` is the null element.
pub open spec fn unquoted_leaf(tok: Seq<char>) -> PgTree {
    if tok == "NULL"@ {
        PgTree::Leaf(None)
    } else {
        PgTree::Leaf(Some(tok))
    }
}

/// Reads the elements of one array level from position `p` up to and
/// including its closing `}` (or the end of the text), appending them to
/// `acc`.  Returns the elements and the position after the level.
pub open spec fn parse_items(s: Seq<char>, p: int, acc: Seq<PgTree>) -> (Seq<PgTree>, int)
    decreases s.len() - p,
{
    if p < 0 || p >= s.len() {
        (acc, p)
    } else if s[p] == '}' {
        (acc, p + 1)
    } else if s[p] == ',' {
        parse_items(s, p + 1, acc)
    } else if s[p] == '{' {
        let (sub, q) = parse_items(s, p + 1, Seq::empty());
        if q <= p || q > s.len() {
            (acc, p)
        } else {
            parse_items(s, q, acc.push(PgTree::Node(sub)))
        }
    } else if s[p] == '"' {
        let (t, q) = scan_quoted(s, p + 1, Seq::empty());
        if q <= p || q > s.len() {
            (acc, p)
        } else {
            parse_items(s, q, acc.push(PgTree::Leaf(Some(t))))
        }
    } else {
        let q = token_end(s, p);
        if q <= p || q > s.len() {
            (acc, p)
        } else {
            parse_items(s, q, acc.push(unquoted_leaf(s.subrange(p, q))))
        }
    }
}

/// The top-level elements of an array literal; a leading `{` is skipped.
pub open spec fn pg_array_elements(s: Seq<char>) -> Seq<PgTree> {
    if s.len() > 0 && s[0] == '{' {
        parse_items(s, 1, Seq::empty()).0
    } else {
        parse_items(s, 0, Seq::empty()).0
    }
}

/// `v` is the value of the tree `t` when each element is converted with `leaf`.
pub open spec fn tree_value(
    leaf: spec_fn(Option<Seq<char>>, JsonValue) -> bool,
    t: PgTree,
    v: JsonValue,
) -> bool
    decreases t,
{
    match t {
        PgTree::Leaf(l) => leaf(l, v),
        PgTree::Node(ts) => match v {
            JsonValue::Array(vs) => trees_value(leaf, ts, vs@),
            _ => false,
        },
    }
}

/// `vs` are the values of the trees `ts`, one for one.
pub open spec fn trees_value(
    leaf: spec_fn(Option<Seq<char>>, JsonValue) -> bool,
    ts: Seq<PgTree>,
    vs: Seq<JsonValue>,
) -> bool
    decreases ts,
{
    if ts.len() == 0 {
        vs.len() == 0
    } else {
        vs.len() == ts.len() && trees_value(leaf, ts.drop_last(), vs.drop_last()) && tree_value(
            leaf,
            ts.last(),
            vs.last(),
        )
    }
}

/// The view of an optional string slice.
pub open spec fn opt_str(x: Option<&str>) -> Option<Seq<char>> {
    match x {
        Some(s) => Some(s@),
        None => None,
    }
}

/// What `f` may return for the element `l`.
pub open spec fn converted_by<F: Fn(Option<&str>) -> JsonValue>(f: F) -> spec_fn(Option<Seq<char>>, JsonValue) -> bool {
    |l: Option<Seq<char>>, v: JsonValue| exists|x: Option<&str>| opt_str(x) == l && #[trigger] call_ensures(f, (x,), v)
}

proof fn lemma_scan_quoted_advances(s: Seq<char>, p: int, acc: Seq<char>)
    requires
        0 <= p,
    ensures
        scan_quoted(s, p, acc).1 >= p,
    decreases s.len() - p,
{
    if p < s.len() {
        if s[p] == '\\' {
            if p + 1 < s.len() {
                lemma_scan_quoted_advances(s, p + 2, acc.push(s[p + 1]));
            }
        } else if s[p] != '"' {
            lemma_scan_quoted_advances(s, p + 1, acc.push(s[p]));
        }
    }
}

proof fn lemma_token_end(s: Seq<char>, p: int)
    requires
        0 <= p,
    ensures
        p <= token_end(s, p) <= if p <= s.len() { s.len() as int } else { p },
    decreases s.len() - p,
{
    if p < s.len() && !is_delimiter(s[p]) {
        lemma_token_end(s, p + 1);
    }
}

proof fn lemma_parse_items_advances(s: Seq<char>, p: int, acc: Seq<PgTree>)
    requires
        0 <= p,
    ensures
        parse_items(s, p, acc).1 >= p,
    decreases s.len() - p,
{
    if p < s.len() {
        if s[p] == ',' {
            lemma_parse_items_advances(s, p + 1, acc);
        } else if s[p] == '{' {
            let (sub, q) = parse_items(s, p + 1, Seq::empty());
            if q > p && q <= s.len() {
                lemma_parse_items_advances(s, q, acc.push(PgTree::Node(sub)));
            }
        } else if s[p] == '"' {
            let (t, q) = scan_quoted(s, p + 1, Seq::empty());
            if q > p && q <= s.len() {
                lemma_parse_items_advances(s, q, acc.push(PgTree::Leaf(Some(t))));
            }
        } else if s[p] != '}' {
            let q = token_end(s, p);
            if q > p && q <= s.len() {
                lemma_parse_items_advances(s, q, acc.push(unquoted_leaf(s.subrange(p, q))));
            }
        }
    }
}

/// Reads a quoted element of `cs` starting at `p` (after the opening quote).
fn read_quoted(cs: &Vec<char>, p: usize) -> (r: (String, usize))
    requires
        p <= cs@.len(),
    ensures
        (r.0@, r.1 as int) == scan_quoted(cs@, p as int, Seq::empty()),
        r.1 <= cs@.len(),
{
    let mut out = String::new();
    let mut i: usize = p;
    while i < cs.len()
        invariant
            p <= i <= cs@.len(),
            scan_quoted(cs@, p as int, Seq::empty()) == scan_quoted(cs@, i as int, out@),
        decreases cs@.len() - i,
    {
        let c = cs[i];
        if c == '\\' {
            if i + 1 < cs.len() {
                out.push(cs[i + 1]);
                i += 2;
            } else {
                return (out, i + 1);
            }
        } else if c == '"' {
            return (out, i + 1);
        } else {
            out.push(c);
            i += 1;
        }
    }
    (out, i)
}

/// The items of one array level starting at `start`, converted with `f`.
fn parse_level<F: Fn(Option<&str>) -> JsonValue>(cs: &Vec<char>, start: usize, f: &F) -> (r: (
    Vec<JsonValue>,
    usize,
))
    requires
        start <= cs@.len(),
        forall|x: Option<&str>| call_requires(*f, (x,)),
    ensures
        r.1 as int == parse_items(cs@, start as int, Seq::empty()).1,
        trees_value(converted_by(*f), parse_items(cs@, start as int, Seq::empty()).0, r.0@),
        r.1 <= cs@.len(),
    decreases cs@.len() - start,
{
    let ghost s = cs@;
    let ghost mut acc: Seq<PgTree> = Seq::empty();
    let ghost mut old_acc: Seq<PgTree> = Seq::empty();
    let mut vals: Vec<JsonValue> = Vec::new();
    let mut pos: usize = start;
    while pos < cs.len()
        invariant
            start <= pos <= cs@.len(),
            s == cs@,
            forall|x: Option<&str>| call_requires(*f, (x,)),
            parse_items(s, start as int, Seq::empty()) == parse_items(s, pos as int, acc),
            trees_value(converted_by(*f), acc, vals@),
        decreases cs@.len() - pos,
    {
        let c = cs[pos];
        if c == '}' {
            return (vals, pos + 1);
        } else if c == ',' {
            pos += 1;
        } else if c == '{' {
            let (sub, q) = parse_level(cs, pos + 1, f);
            proof {
                lemma_parse_items_advances(s, pos + 1, Seq::empty());
                let t = PgTree::Node(parse_items(s, pos + 1, Seq::empty()).0);
                old_acc = acc;
                acc = acc.push(t);
            }
            let ghost old_vals = vals@;
            let nested = JsonValue::Array(sub);
            assert(tree_value(converted_by(*f), acc.last(), nested));
            vals.push(nested);
            proof {
                assert(vals@.drop_last() =~= old_vals);
                assert(acc.drop_last() =~= old_acc);
                assert(tree_value(converted_by(*f), acc.last(), vals@.last()));
                assert(trees_value(converted_by(*f), acc, vals@));
            }
            pos = q;
        } else if c == '"' {
            let (text, q) = read_quoted(cs, pos + 1);
            proof {
                lemma_scan_quoted_advances(s, pos + 1, Seq::empty());
            }
            let ts = text.as_str();
            let v = f(Some(ts));
            proof {
                assert(opt_str(Some(ts)) == Some(text@));
                assert(converted_by(*f)(Some(text@), v));
                old_acc = acc;
                acc = acc.push(PgTree::Leaf(Some(text@)));
            }
            let ghost old_vals = vals@;
            vals.push(v);
            proof {
                assert(vals@.drop_last() =~= old_vals);
                assert(acc.drop_last() =~= old_acc);
                assert(tree_value(converted_by(*f), acc.last(), vals@.last()));
                assert(trees_value(converted_by(*f), acc, vals@));
            }
            pos = q;
        } else {
            let tok_start = pos;
            while pos < cs.len() && cs[pos] != ',' && cs[pos] != '}' && cs[pos] != '{'
                invariant
                    tok_start <= pos <= cs@.len(),
                    s == cs@,
                    token_end(s, tok_start as int) == token_end(s, pos as int),
                decreases cs@.len() - pos,
            {
                pos += 1;
            }
            let token = string_from_chars(cs, tok_start, pos);
            let ts = token.as_str();
            let v = if same_text(ts, "NULL") {
                f(None)
            } else {
                f(Some(ts))
            };
            proof {
                let tok = s.subrange(tok_start as int, pos as int);
                if tok == "NULL"@ {
                    assert(opt_str(None::<&str>) == None::<Seq<char>>);
                    assert(converted_by(*f)(None, v));
                } else {
                    assert(opt_str(Some(ts)) == Some(tok));
                    assert(converted_by(*f)(Some(tok), v));
                }
                old_acc = acc;
                acc = acc.push(unquoted_leaf(tok));
            }
            let ghost old_vals = vals@;
            vals.push(v);
            proof {
                assert(vals@.drop_last() =~= old_vals);
                assert(acc.drop_last() =~= old_acc);
                assert(tree_value(converted_by(*f), acc.last(), vals@.last()));
                assert(trees_value(converted_by(*f), acc, vals@));
            }
        }
    }
    (vals, pos)
}

/// Parses a Postgres array literal `{elem,elem,...}` (possibly nested) into a
/// JSON array, converting each element with `elem_parse` (`None` for `NULL`).
/// Quoted elements may contain backslash escapes.
pub fn pg_array_parse<F: Fn(Option<&str>) -> JsonValue>(text: &str, elem_parse: F) -> (r: JsonValue)
    requires
        forall|x: Option<&str>| call_requires(elem_parse, (x,)),
    ensures
        tree_value(converted_by(elem_parse), PgTree::Node(pg_array_elements(text@)), r),
{
    let cs = chars_of(text);
    let start: usize = if cs.len() > 0 && cs[0] == '{' { 1 } else { 0 };
    let (vals, _) = parse_level(&cs, start, &elem_parse);
    JsonValue::Array(vals)
}


/// An element that is written without quotes: not empty, and free of `,`,
/// `{`, `}` and `"`.
pub open spec fn plain_token(t: Seq<char>) -> bool {
    t.len() > 0 && forall|j: int| 0 <= j < t.len() ==> !is_delimiter(#[trigger] t[j]) && t[j] != '"'
}

/// The elements `ts` joined by commas, then the closing `}`.
pub open spec fn items_text(ts: Seq<Seq<char>>) -> Seq<char>
    decreases ts.len(),
{
    if ts.len() == 0 {
        seq!['}']
    } else if ts.len() == 1 {
        ts[0] + seq!['}']
    } else {
        ts[0] + seq![','] + items_text(ts.drop_first())
    }
}

/// The flat array literal `{t1,…,tn}`.
pub open spec fn flat_literal(ts: Seq<Seq<char>>) -> Seq<char> {
    seq!['{'] + items_text(ts)
}

proof fn lemma_token_end_exact(s: Seq<char>, p: int, n: int)
    requires
        0 <= p,
        0 <= n,
        p + n <= s.len(),
        forall|j: int| p <= j < p + n ==> !is_delimiter(#[trigger] s[j]),
        p + n == s.len() || is_delimiter(s[p + n]),
    ensures
        token_end(s, p) == p + n,
    decreases n,
{
    if n > 0 {
        lemma_token_end_exact(s, p + 1, n - 1);
    }
}

proof fn lemma_parse_plain_items(pre: Seq<char>, ts: Seq<Seq<char>>, acc: Seq<PgTree>)
    requires
        forall|i: int| 0 <= i < ts.len() ==> plain_token(#[trigger] ts[i]),
    ensures
        parse_items(pre + items_text(ts), pre.len() as int, acc) == (
            acc + Seq::new(ts.len(), |i: int| unquoted_leaf(ts[i])),
            (pre + items_text(ts)).len() as int,
        ),
    decreases ts.len(),
{
    let s = pre + items_text(ts);
    let p = pre.len() as int;
    let leaves = Seq::new(ts.len(), |i: int| unquoted_leaf(ts[i]));
    if ts.len() == 0 {
        assert(s[p] == '}');
        assert(parse_items(s, p, acc) == (acc, p + 1));
        assert(acc + leaves =~= acc);
    } else {
        let t0 = ts[0];
        assert(plain_token(t0));
        let rest = if ts.len() == 1 { seq!['}'] } else { seq![','] + items_text(ts.drop_first()) };
        assert(items_text(ts) =~= t0 + rest);
        assert(s =~= pre + t0 + rest);
        let q = p + t0.len();
        assert forall|j: int| p <= j < q implies !is_delimiter(#[trigger] s[j]) by {
            assert(s[j] == t0[j - p]);
        }
        assert(s[q] == rest[0]);
        lemma_token_end_exact(s, p, t0.len() as int);
        assert(s[p] == t0[0]);
        assert(!is_delimiter(t0[0]) && t0[0] != '"');
        assert(s.subrange(p, q) =~= t0);
        let acc1 = acc.push(unquoted_leaf(t0));
        assert(parse_items(s, p, acc) == parse_items(s, q, acc1));
        if ts.len() == 1 {
            assert(s[q] == '}');
            assert(parse_items(s, q, acc1) == (acc1, q + 1));
            assert(q + 1 == s.len());
            assert(acc1 =~= acc + leaves);
        } else {
            assert(s[q] == ',');
            assert(parse_items(s, q, acc1) == parse_items(s, q + 1, acc1));
            let pre2 = pre + t0 + seq![','];
            let tail = ts.drop_first();
            assert forall|i: int| 0 <= i < tail.len() implies plain_token(#[trigger] tail[i]) by {
                assert(tail[i] == ts[i + 1]);
            }
            lemma_parse_plain_items(pre2, tail, acc.push(unquoted_leaf(t0)));
            assert(pre2 + items_text(tail) =~= s);
            assert(pre2.len() == q + 1);
            assert(acc.push(unquoted_leaf(t0)) + Seq::new(tail.len(), |i: int| unquoted_leaf(tail[i]))
                =~= acc + leaves);
        }
    }
}

proof fn lemma_trees_value_items(
    leaf: spec_fn(Option<Seq<char>>, JsonValue) -> bool,
    ts: Seq<PgTree>,
    vs: Seq<JsonValue>,
)
    requires
        trees_value(leaf, ts, vs),
    ensures
        vs.len() == ts.len(),
        forall|i: int| 0 <= i < ts.len() ==> tree_value(leaf, ts[i], #[trigger] vs[i]),
    decreases ts.len(),
{
    if ts.len() > 0 {
        lemma_trees_value_items(leaf, ts.drop_last(), vs.drop_last());
        assert forall|i: int| 0 <= i < ts.len() implies tree_value(leaf, ts[i], #[trigger] vs[i]) by {
            if i < ts.len() - 1 {
                assert(ts.drop_last()[i] == ts[i]);
                assert(vs.drop_last()[i] == vs[i]);
            }
        }
    }
}

/// A flat array literal `{t1,…,tn}` of unquoted elements is read element by
/// element, left to right: the array has one value per element, each the
/// conversion of `None` for `NULL` and of the element's text otherwise;
/// `{}` has no elements.  With `leaf` the conversion of `pg_array_parse`'s
/// element hook, this is what its result is.
pub proof fn lemma_flat_array(
    tokens: Seq<Seq<char>>,
    leaf: spec_fn(Option<Seq<char>>, JsonValue) -> bool,
    r: JsonValue,
)
    requires
        forall|i: int| 0 <= i < tokens.len() ==> plain_token(#[trigger] tokens[i]),
        tree_value(leaf, PgTree::Node(pg_array_elements(flat_literal(tokens))), r),
    ensures
        pg_array_elements(flat_literal(tokens)) == Seq::new(
            tokens.len(),
            |i: int| unquoted_leaf(tokens[i]),
        ),
        r is Array,
        r->Array_0@.len() == tokens.len(),
        forall|i: int|
            0 <= i < tokens.len() ==> leaf(
                if tokens[i] == "NULL"@ {
                    None
                } else {
                    Some(tokens[i])
                },
                #[trigger] r->Array_0@[i],
            ),
{
    let s = flat_literal(tokens);
    lemma_parse_plain_items(seq!['{'], tokens, Seq::empty());
    assert(Seq::<PgTree>::empty() + Seq::new(tokens.len(), |i: int| unquoted_leaf(tokens[i]))
        =~= Seq::new(tokens.len(), |i: int| unquoted_leaf(tokens[i])));
    assert(s[0] == '{');
    let leaves = Seq::new(tokens.len(), |i: int| unquoted_leaf(tokens[i]));
    assert(pg_array_elements(s) == leaves);
    let vs = r->Array_0@;
    lemma_trees_value_items(leaf, leaves, vs);
}

/// An element of an array literal as written: quoted (`true`, its text
/// between double quotes) or bare.
pub open spec fn element_text(e: (bool, Seq<char>)) -> Seq<char> {
    if e.0 {
        seq!['"'] + e.1 + seq!['"']
    } else {
        e.1
    }
}

/// An element that can be written so: a quoted text without `"` or `\`, or
/// a bare token.
pub open spec fn writable_element(e: (bool, Seq<char>)) -> bool {
    if e.0 {
        forall|j: int| 0 <= j < e.1.len() ==> #[trigger] e.1[j] != '"' && e.1[j] != '\\'
    } else {
        plain_token(e.1)
    }
}

/// The elements written and joined by commas, then the closing `}`.
pub open spec fn elements_text(es: Seq<(bool, Seq<char>)>) -> Seq<char>
    decreases es.len(),
{
    if es.len() == 0 {
        seq!['}']
    } else if es.len() == 1 {
        element_text(es[0]) + seq!['}']
    } else {
        element_text(es[0]) + seq![','] + elements_text(es.drop_first())
    }
}

/// What an element reads as: the text of a quoted element, even when empty
/// or `NULL`; for a bare one, `NULL` is the null element.
pub open spec fn element_reading(e: (bool, Seq<char>)) -> Option<Seq<char>> {
    if !e.0 && e.1 == seq!['N', 'U', 'L', 'L'] {
        None
    } else {
        Some(e.1)
    }
}

proof fn lemma_scan_quoted_plain(s: Seq<char>, p: int, n: int, acc: Seq<char>)
    requires
        0 <= p,
        0 <= n,
        p + n < s.len(),
        forall|j: int| p <= j < p + n ==> #[trigger] s[j] != '"' && s[j] != '\\',
        s[p + n] == '"',
    ensures
        scan_quoted(s, p, acc) == (acc + s.subrange(p, p + n), p + n + 1),
    decreases n,
{
    if n == 0 {
        assert(acc + s.subrange(p, p) =~= acc);
    } else {
        lemma_scan_quoted_plain(s, p + 1, n - 1, acc.push(s[p]));
        assert(acc.push(s[p]) + s.subrange(p + 1, p + n) =~= acc + s.subrange(p, p + n));
    }
}

proof fn lemma_parse_elements(pre: Seq<char>, es: Seq<(bool, Seq<char>)>, acc: Seq<PgTree>)
    requires
        forall|i: int| 0 <= i < es.len() ==> writable_element(#[trigger] es[i]),
    ensures
        parse_items(pre + elements_text(es), pre.len() as int, acc) == (
            acc + Seq::new(es.len(), |i: int| PgTree::Leaf(element_reading(es[i]))),
            (pre + elements_text(es)).len() as int,
        ),
    decreases es.len(),
{
    reveal_strlit("NULL");
    assert("NULL"@ =~= seq!['N', 'U', 'L', 'L']);
    let s = pre + elements_text(es);
    let p = pre.len() as int;
    let leaves = Seq::new(es.len(), |i: int| PgTree::Leaf(element_reading(es[i])));
    if es.len() == 0 {
        assert(s[p] == '}');
        assert(parse_items(s, p, acc) == (acc, p + 1));
        assert(acc + leaves =~= acc);
    } else {
        let e0 = es[0];
        assert(writable_element(e0));
        let w0 = element_text(e0);
        let rest = if es.len() == 1 { seq!['}'] } else { seq![','] + elements_text(es.drop_first()) };
        assert(elements_text(es) =~= w0 + rest);
        assert(s =~= pre + w0 + rest);
        let q = p + w0.len();
        assert(s[q] == rest[0]);
        let acc1 = acc.push(PgTree::Leaf(element_reading(e0)));
        if e0.0 {
            let n = e0.1.len() as int;
            assert(s[p] == '"');
            assert forall|j: int| p + 1 <= j < p + 1 + n implies #[trigger] s[j] != '"' && s[j] != '\\' by {
                assert(s[j] == e0.1[j - p - 1]);
            }
            assert(s[p + 1 + n] == '"');
            lemma_scan_quoted_plain(s, p + 1, n, Seq::empty());
            assert(Seq::<char>::empty() + s.subrange(p + 1, p + 1 + n) =~= e0.1);
            assert(parse_items(s, p, acc) == parse_items(s, q, acc1));
        } else {
            assert(plain_token(e0.1));
            assert forall|j: int| p <= j < q implies !is_delimiter(#[trigger] s[j]) by {
                assert(s[j] == e0.1[j - p]);
            }
            lemma_token_end_exact(s, p, e0.1.len() as int);
            assert(s[p] == e0.1[0]);
            assert(!is_delimiter(e0.1[0]) && e0.1[0] != '"');
            assert(s.subrange(p, q) =~= e0.1);
            assert(unquoted_leaf(e0.1) == PgTree::Leaf(element_reading(e0)));
            assert(parse_items(s, p, acc) == parse_items(s, q, acc1));
        }
        if es.len() == 1 {
            assert(s[q] == '}');
            assert(parse_items(s, q, acc1) == (acc1, q + 1));
            assert(q + 1 == s.len());
            assert(acc1 =~= acc + leaves);
        } else {
            assert(s[q] == ',');
            assert(parse_items(s, q, acc1) == parse_items(s, q + 1, acc1));
            let pre2 = pre + w0 + seq![','];
            let tail = es.drop_first();
            assert forall|i: int| 0 <= i < tail.len() implies writable_element(#[trigger] tail[i]) by {
                assert(tail[i] == es[i + 1]);
            }
            lemma_parse_elements(pre2, tail, acc1);
            assert(pre2 + elements_text(tail) =~= s);
            assert(pre2.len() == q + 1);
            assert(acc1 + Seq::new(tail.len(), |i: int| PgTree::Leaf(element_reading(tail[i])))
                =~= acc + leaves);
        }
    }
}

/// A flat array literal `{e1,…,en}` whose elements are quoted texts or bare
/// tokens is read element by element, left to right: a quoted element is
/// converted from its text, even an empty text or `"NULL"`, and only a bare
/// `NULL` is converted as the null element.
pub proof fn lemma_flat_array_quoted(
    es: Seq<(bool, Seq<char>)>,
    leaf: spec_fn(Option<Seq<char>>, JsonValue) -> bool,
    r: JsonValue,
)
    requires
        forall|i: int| 0 <= i < es.len() ==> writable_element(#[trigger] es[i]),
        tree_value(leaf, PgTree::Node(pg_array_elements(seq!['{'] + elements_text(es))), r),
    ensures
        r is Array,
        r->Array_0@.len() == es.len(),
        forall|i: int|
            0 <= i < es.len() ==> leaf(
                if es[i].0 {
                    Some(es[i].1)
                } else if es[i].1 == "NULL"@ {
                    None
                } else {
                    Some(es[i].1)
                },
                #[trigger] r->Array_0@[i],
            ),
{
    reveal_strlit("NULL");
    assert("NULL"@ =~= seq!['N', 'U', 'L', 'L']);
    let s = seq!['{'] + elements_text(es);
    lemma_parse_elements(seq!['{'], es, Seq::empty());
    let leaves = Seq::new(es.len(), |i: int| PgTree::Leaf(element_reading(es[i])));
    assert(Seq::<PgTree>::empty() + leaves =~= leaves);
    assert(s[0] == '{');
    assert(pg_array_elements(s) == leaves);
    let vs = r->Array_0@;
    lemma_trees_value_items(leaf, leaves, vs);
    assert forall|i: int| 0 <= i < es.len() implies leaf(
        if es[i].0 {
            Some(es[i].1)
        } else if es[i].1 == "NULL"@ {
            None
        } else {
            Some(es[i].1)
        },
        #[trigger] vs[i],
    ) by {
        assert(tree_value(leaf, leaves[i], vs[i]));
    }
}

// ── Scalar values ───────────────────────────────────────────────────────────

/// Converts Electric's text-encoded column values into typed JSON values.
/// It takes from its caller the conversions it does not make itself:
/// per-type custom parsers (`custom(pg_type, text)` returns `Some` for a
/// type it handles; they take precedence over the built-in conversions),
/// floating-point conversion of text, and JSON decoding of text.
pub struct Parser<C, F, J> {
    pub custom: C,
    pub float: F,
    pub json: J,
}

/// Every hook may be called on any input.
pub open spec fn hooks_callable<
    C: Fn(&String, &str) -> Option<JsonValue>,
    F: Fn(&str) -> JsonValue,
    J: Fn(&str) -> Result<JsonValue, String>,
>(h: Parser<C, F, J>) -> bool {
    &&& forall|p: &String, x: &str| call_requires(h.custom, (p, x))
    &&& forall|x: &str| call_requires(h.float, (x,))
    &&& forall|x: &str| call_requires(h.json, (x,))
}

/// The custom hook may return `o` for type `pg` and text `v`.
pub open spec fn custom_gives<C: Fn(&String, &str) -> Option<JsonValue>>(
    c: C,
    pg: Seq<char>,
    v: Seq<char>,
    o: Option<JsonValue>,
) -> bool {
    exists|p: &String, x: &str| p@ == pg && x@ == v && #[trigger] call_ensures(c, (p, x), o)
}

/// The float hook may return `r` for the text `v`.
pub open spec fn float_gives<F: Fn(&str) -> JsonValue>(f: F, v: Seq<char>, r: JsonValue) -> bool {
    exists|x: &str| x@ == v && #[trigger] call_ensures(f, (x,), r)
}

/// The JSON hook may return `r` for the text `v`.
pub open spec fn json_gives<J: Fn(&str) -> Result<JsonValue, String>>(
    j: J,
    v: Seq<char>,
    r: Result<JsonValue, String>,
) -> bool {
    exists|x: &str| x@ == v && #[trigger] call_ensures(j, (x,), r)
}

/// The built-in conversion families of Postgres types.
#[derive(Debug, Clone, Copy, PartialEq, Eq, Structural)]
pub enum ScalarKind {
    /// `int2`, `int4`: an integer, or the text when it does not parse.
    Int,
    /// `int8`: kept as text (no precision loss).
    Int8,
    /// `float4`, `float8`, `numeric`: floating-point conversion.
    Float,
    /// `bool`: `true` for `"t"` and `"true"`.
    Bool,
    /// `json`, `jsonb`: decoded JSON, or the text when it does not decode.
    Json,
    /// Anything else: the text itself.
    Text,
}

/// The conversion family of a Postgres type name.
pub open spec fn scalar_kind(t: Seq<char>) -> ScalarKind {
    if t == "int2"@ || t == "int4"@ {
        ScalarKind::Int
    } else if t == "int8"@ {
        ScalarKind::Int8
    } else if t == "float4"@ || t == "float8"@ || t == "numeric"@ {
        ScalarKind::Float
    } else if t == "bool"@ {
        ScalarKind::Bool
    } else if t == "json"@ || t == "jsonb"@ {
        ScalarKind::Json
    } else {
        ScalarKind::Text
    }
}

/// The conversion family of a Postgres type name.
pub fn kind_of(pg_type: &str) -> (r: ScalarKind)
    ensures
        r == scalar_kind(pg_type@),
{
    if same_text(pg_type, "int2") || same_text(pg_type, "int4") {
        ScalarKind::Int
    } else if same_text(pg_type, "int8") {
        ScalarKind::Int8
    } else if same_text(pg_type, "float4") || same_text(pg_type, "float8") || same_text(
        pg_type,
        "numeric",
    ) {
        ScalarKind::Float
    } else if same_text(pg_type, "bool") {
        ScalarKind::Bool
    } else if same_text(pg_type, "json") || same_text(pg_type, "jsonb") {
        ScalarKind::Json
    } else {
        ScalarKind::Text
    }
}

/// An `int2`/`int4` value: the integer when the text parses as an `i64`, else the text.
pub open spec fn int_view(v: Seq<char>) -> JsonView {
    match spec_parse_i64(v) {
        Some(n) => if n >= 0 {
            JsonView::Number(NumberView::PosInt(n as nat))
        } else {
            JsonView::Number(NumberView::NegInt(n as int))
        },
        None => JsonView::Str(v),
    }
}

/// Converts `int2` / `int4` text.
pub fn parse_int(v: &str) -> (r: JsonValue)
    ensures
        r@ == int_view(v@),
{
    let cs = chars_of(v);
    match parse_i64_chars(&cs, 0, cs.len()) {
        Some(n) => {
            assert(cs@.subrange(0, cs@.len() as int) =~= v@);
            if n >= 0 {
                JsonValue::Number(JsonNumber::PosInt(n as u64))
            } else {
                JsonValue::Number(JsonNumber::NegInt(n))
            }
        },
        None => {
            assert(cs@.subrange(0, cs@.len() as int) =~= v@);
            JsonValue::String(v.to_owned())
        },
    }
}

/// Converts `int8` text: kept as a string.
pub fn parse_int8(v: &str) -> (r: JsonValue)
    ensures
        r@ == JsonView::Str(v@),
{
    JsonValue::String(v.to_owned())
}

/// Converts `bool` text: `"true"` and `"t"` are true, anything else false.
pub fn parse_bool(v: &str) -> (r: JsonValue)
    ensures
        r@ == JsonView::Bool(v@ == "true"@ || v@ == "t"@),
{
    JsonValue::Bool(same_text(v, "true") || same_text(v, "t"))
}

/// The value of the text `v` for type `pg` when no custom parser applies.
pub open spec fn builtin_value<
    C: Fn(&String, &str) -> Option<JsonValue>,
    F: Fn(&str) -> JsonValue,
    J: Fn(&str) -> Result<JsonValue, String>,
>(h: Parser<C, F, J>, pg: Seq<char>, v: Seq<char>, r: JsonValue) -> bool {
    match scalar_kind(pg) {
        ScalarKind::Int => r@ == int_view(v),
        ScalarKind::Int8 => r@ == JsonView::Str(v),
        ScalarKind::Float => float_gives(h.float, v, r),
        ScalarKind::Bool => r@ == JsonView::Bool(v == "true"@ || v == "t"@),
        ScalarKind::Json => exists|jr: Result<JsonValue, String>| #[trigger]
            json_gives(h.json, v, jr) && match jr {
                Ok(x) => r@ == x@,
                Err(_) => r@ == JsonView::Str(v),
            },
        ScalarKind::Text => r@ == JsonView::Str(v),
    }
}

/// The value of the non-null text `v` in a column of type `pg`: a custom
/// parser's result when one applies, else the built-in conversion.
pub open spec fn scalar_value<
    C: Fn(&String, &str) -> Option<JsonValue>,
    F: Fn(&str) -> JsonValue,
    J: Fn(&str) -> Result<JsonValue, String>,
>(h: Parser<C, F, J>, pg: Seq<char>, v: Seq<char>, r: JsonValue) -> bool {
    exists|o: Option<JsonValue>| #[trigger]
        custom_gives(h.custom, pg, v, o) && match o {
            Some(x) => r@ == x@,
            None => builtin_value(h, pg, v, r),
        }
}

/// The value of an array element: `NULL` is null, other text is a scalar of type `pg`.
pub open spec fn element_value<
    C: Fn(&String, &str) -> Option<JsonValue>,
    F: Fn(&str) -> JsonValue,
    J: Fn(&str) -> Result<JsonValue, String>,
>(h: Parser<C, F, J>, pg: Seq<char>) -> spec_fn(Option<Seq<char>>, JsonValue) -> bool {
    |l: Option<Seq<char>>, v: JsonValue|
        match l {
            None => v@ == JsonView::Null,
            Some(s) => scalar_value(h, pg, s, v),
        }
}

/// The result of parsing one column value (`None` for SQL NULL).
pub open spec fn value_result<
    C: Fn(&String, &str) -> Option<JsonValue>,
    F: Fn(&str) -> JsonValue,
    J: Fn(&str) -> Result<JsonValue, String>,
>(
    h: Parser<C, F, J>,
    value: Option<Seq<char>>,
    ci: ColumnInfoView,
    name: Seq<char>,
    r: Result<JsonValue, ElectricError>,
) -> bool {
    match value {
        None => if ci.not_null {
            r matches Err(ElectricError::ParserNullValue { column }) && column@ == name
        } else {
            r matches Ok(x) && x@ == JsonView::Null
        },
        Some(v) => r matches Ok(x) && if ci.dimensions > 0 {
            tree_value(element_value(h, ci.pg_type), PgTree::Node(pg_array_elements(v)), x)
        } else {
            scalar_value(h, ci.pg_type, v, x)
        },
    }
}

/// The result of parsing one raw cell of a row, given the column's metadata
/// (`None` when the schema does not list the column): strings and nulls are
/// parsed, other values and unknown columns pass through.
pub open spec fn cell_result<
    C: Fn(&String, &str) -> Option<JsonValue>,
    F: Fn(&str) -> JsonValue,
    J: Fn(&str) -> Result<JsonValue, String>,
>(
    h: Parser<C, F, J>,
    ci: Option<ColumnInfoView>,
    name: Seq<char>,
    raw: JsonView,
    r: Result<JsonValue, ElectricError>,
) -> bool {
    match ci {
        None => r matches Ok(x) && x@ == raw,
        Some(ci) => match raw {
            JsonView::Str(s) => value_result(h, Some(s), ci, name, r),
            JsonView::Null => value_result(h, None, ci, name, r),
            _ => r matches Ok(x) && x@ == raw,
        },
    }
}

/// A cell that cannot be parsed: null in a NOT NULL column.
pub open spec fn cell_fails(ci: Option<ColumnInfoView>, raw: JsonView) -> bool {
    ci matches Some(c) && c.not_null && raw is Null
}

/// The name of the first cell of `raw` that cannot be parsed under `schema`.
pub open spec fn row_first_failure(
    raw: Seq<(Seq<char>, JsonView)>,
    schema: Seq<(Seq<char>, ColumnInfoView)>,
) -> Option<Seq<char>>
    decreases raw.len(),
{
    if raw.len() == 0 {
        None
    } else if cell_fails(lookup(schema, raw[0].0), raw[0].1) {
        Some(raw[0].0)
    } else {
        row_first_failure(raw.drop_first(), schema)
    }
}

/// `out` holds every cell of `raw`, in order, parsed under `schema`.
pub open spec fn row_parsed<
    C: Fn(&String, &str) -> Option<JsonValue>,
    F: Fn(&str) -> JsonValue,
    J: Fn(&str) -> Result<JsonValue, String>,
>(
    h: Parser<C, F, J>,
    raw: Seq<(Seq<char>, JsonView)>,
    schema: Seq<(Seq<char>, ColumnInfoView)>,
    out: Seq<(String, JsonValue)>,
) -> bool {
    out.len() == raw.len() && forall|i: int|
        0 <= i < raw.len() ==> (#[trigger] out[i]).0@ == raw[i].0 && cell_result(
            h,
            lookup(schema, raw[i].0),
            raw[i].0,
            raw[i].1,
            Ok(out[i].1),
        )
}

/// The result of parsing a row under a schema: every cell parsed in order, or
/// the error of the first cell that cannot be parsed.
pub open spec fn row_result<
    C: Fn(&String, &str) -> Option<JsonValue>,
    F: Fn(&str) -> JsonValue,
    J: Fn(&str) -> Result<JsonValue, String>,
>(
    h: Parser<C, F, J>,
    raw: Seq<(Seq<char>, JsonView)>,
    schema: Seq<(Seq<char>, ColumnInfoView)>,
    r: Result<Row, ElectricError>,
) -> bool {
    match row_first_failure(raw, schema) {
        Some(col) => r matches Err(e) && e matches ElectricError::ParserNullValue { column }
            && column@ == col,
        None => r matches Ok(out) && row_parsed(h, raw, schema, out@),
    }
}

proof fn lemma_tree_value_weaken(
    p: spec_fn(Option<Seq<char>>, JsonValue) -> bool,
    q: spec_fn(Option<Seq<char>>, JsonValue) -> bool,
    t: PgTree,
    v: JsonValue,
)
    requires
        forall|l: Option<Seq<char>>, x: JsonValue| #[trigger] p(l, x) ==> q(l, x),
        tree_value(p, t, v),
    ensures
        tree_value(q, t, v),
    decreases t,
{
    match t {
        PgTree::Leaf(l) => {},
        PgTree::Node(ts) => {
            if let JsonValue::Array(vs) = v {
                lemma_trees_value_weaken(p, q, ts, vs@);
            }
        },
    }
}

proof fn lemma_trees_value_weaken(
    p: spec_fn(Option<Seq<char>>, JsonValue) -> bool,
    q: spec_fn(Option<Seq<char>>, JsonValue) -> bool,
    ts: Seq<PgTree>,
    vs: Seq<JsonValue>,
)
    requires
        forall|l: Option<Seq<char>>, x: JsonValue| #[trigger] p(l, x) ==> q(l, x),
        trees_value(p, ts, vs),
    ensures
        trees_value(q, ts, vs),
    decreases ts,
{
    if ts.len() > 0 {
        lemma_trees_value_weaken(p, q, ts.drop_last(), vs.drop_last());
        lemma_tree_value_weaken(p, q, ts.last(), vs.last());
    }
}

impl<
    C: Fn(&String, &str) -> Option<JsonValue>,
    F: Fn(&str) -> JsonValue,
    J: Fn(&str) -> Result<JsonValue, String>,
> Parser<C, F, J> {
    /// Converts a non-null scalar text for the given column.
    pub fn parse_scalar(&self, v: &str, column_info: &ColumnInfo) -> (r: JsonValue)
        requires
            hooks_callable(*self),
        ensures
            scalar_value(*self, column_info.pg_type@, v@, r),
    {
        let custom = &self.custom;
        let o = custom(&column_info.pg_type, v);
        proof {
            assert(custom_gives(self.custom, column_info.pg_type@, v@, o));
        }
        match o {
            Some(x) => {
                proof {
                    assert(x@ == o.unwrap()@);
                }
                x
            },
            None => {
                let r = match kind_of(column_info.pg_type.as_str()) {
                    ScalarKind::Int => parse_int(v),
                    ScalarKind::Int8 => parse_int8(v),
                    ScalarKind::Float => {
                        let float = &self.float;
                        let r = float(v);
                        assert(float_gives(self.float, v@, r));
                        r
                    },
                    ScalarKind::Bool => parse_bool(v),
                    ScalarKind::Json => {
                        let json = &self.json;
                        let jr = json(v);
                        assert(json_gives(self.json, v@, jr));
                        match jr {
                            Ok(x) => x,
                            Err(_) => JsonValue::String(v.to_owned()),
                        }
                    },
                    ScalarKind::Text => JsonValue::String(v.to_owned()),
                };
                r
            },
        }
    }

    /// Parses one column value (`None` for SQL NULL) of the given column.
    /// Arrays (`dimensions > 0`) are parsed as array literals whose elements
    /// are scalars of the column's type.
    pub fn parse_value(&self, value: Option<&str>, column_info: &ColumnInfo, column_name: &str) -> (r:
        Result<JsonValue, ElectricError>)
        requires
            hooks_callable(*self),
        ensures
            value_result(*self, opt_str(value), column_info@, column_name@, r),
    {
        match value {
            None => {
                if column_info.not_null {
                    Err(ElectricError::ParserNullValue { column: column_name.to_owned() })
                } else {
                    Ok(JsonValue::Null)
                }
            },
            Some(v) => {
                if column_info.dimensions > 0 {
                    let elem_ci = ColumnInfo {
                        pg_type: column_info.pg_type.clone(),
                        dimensions: 0,
                        not_null: false,
                        max_length: None,
                        length: None,
                        precision: None,
                        scale: None,
                    };
                    let convert = |elem: Option<&str>| -> (r: JsonValue)
                        ensures
                            element_value(*self, column_info.pg_type@)(opt_str(elem), r),
                        {
                            match elem {
                                None => JsonValue::Null,
                                Some(s) => self.parse_scalar(s, &elem_ci),
                            }
                        };
                    let result = pg_array_parse(v, convert);
                    proof {
                        assert forall|l: Option<Seq<char>>, x: JsonValue| #[trigger]
                            converted_by(convert)(l, x) implies element_value(*self, column_info.pg_type@)(l, x) by {
                            let e = choose|e: Option<&str>| opt_str(e) == l && #[trigger] call_ensures(convert, (e,), x);
                        }
                        lemma_tree_value_weaken(
                            converted_by(convert),
                            element_value(*self, column_info.pg_type@),
                            PgTree::Node(pg_array_elements(v@)),
                            result,
                        );
                    }
                    Ok(result)
                } else {
                    Ok(self.parse_scalar(v, column_info))
                }
            },
        }
    }

    /// Parses every cell of a raw row with the schema.  String and null cells
    /// of listed columns are parsed; other cells are kept as they are.
    pub fn parse_row(&self, raw: &Row, schema: &Schema) -> (r: Result<Row, ElectricError>)
        requires
            hooks_callable(*self),
        ensures
            row_result(*self, row_view(raw@), schema_view(schema@), r),
    {
        let ghost sv = schema_view(schema@);
        let ghost rv = row_view(raw@);
        let mut out: Row = Vec::new();
        let mut i: usize = 0;
        assert(rv.skip(0) =~= rv);
        while i < raw.len()
            invariant
                0 <= i <= raw@.len(),
                hooks_callable(*self),
                sv == schema_view(schema@),
                rv == row_view(raw@),
                out@.len() == i,
                row_first_failure(rv, sv) == row_first_failure(rv.skip(i as int), sv),
                row_parsed(*self, rv.take(i as int), sv, out@),
            decreases raw@.len() - i,
        {
            let col = &raw[i].0;
            let raw_val = &raw[i].1;
            proof {
                assert(rv.skip(i as int)[0] == rv[i as int]);
                assert(rv.skip(i as int).drop_first() =~= rv.skip(i + 1));
            }
            let parsed = match schema_get(schema, col.as_str()) {
                Some(ci) => match raw_val {
                    JsonValue::String(s) => self.parse_value(Some(s.as_str()), ci, col.as_str()),
                    JsonValue::Null => self.parse_value(None, ci, col.as_str()),
                    other => Ok(other.copy()),
                },
                None => Ok(raw_val.copy()),
            };
            let v = match parsed {
                Ok(v) => v,
                Err(e) => {
                    return Err(e);
                },
            };
            let ghost prev = out@;
            out.push((col.clone(), v));
            proof {
                assert forall|j: int| 0 <= j < i + 1 implies (#[trigger] out@[j]).0@ == rv.take(i + 1)[j].0
                    && cell_result(*self, lookup(sv, rv.take(i + 1)[j].0), rv.take(i + 1)[j].0, rv.take(i + 1)[j].1, Ok(out@[j].1)) by {
                    if j < i {
                        assert(out@[j] == prev[j]);
                        assert(rv.take(i + 1)[j] == rv.take(i as int)[j]);
                    }
                }
            }
            i += 1;
        }
        assert(rv.take(i as int) =~= rv);
        assert(rv.skip(i as int).len() == 0);
        Ok(out)
    }
}

/// With no custom parser for its type, a non-null value in a scalar column
/// of type `numeric`, `float4` or `float8` is converted by the float hook:
/// parsing succeeds and gives what the hook gives for the text.
pub proof fn lemma_floating_point_columns<
    C: Fn(&String, &str) -> Option<JsonValue>,
    F: Fn(&str) -> JsonValue,
    J: Fn(&str) -> Result<JsonValue, String>,
>(
    h: Parser<C, F, J>,
    ci: ColumnInfoView,
    name: Seq<char>,
    v: Seq<char>,
    r: Result<JsonValue, ElectricError>,
)
    requires
        ci.pg_type == "numeric"@ || ci.pg_type == "float4"@ || ci.pg_type == "float8"@,
        ci.dimensions == 0,
        forall|o: Option<JsonValue>| #[trigger] custom_gives(h.custom, ci.pg_type, v, o) ==> o is None,
        value_result(h, Some(v), ci, name, r),
    ensures
        r is Ok,
        float_gives(h.float, v, r->Ok_0),
{
    reveal_strlit("numeric");
    reveal_strlit("float4");
    reveal_strlit("float8");
    reveal_strlit("int2");
    reveal_strlit("int4");
    reveal_strlit("int8");
    let t = ci.pg_type;
    assert(t.len() == 7 || t.len() == 6);
    if t.len() == 6 {
        assert(t[5] == '4' || t[5] == '8');
        assert(t != "int8"@);
        assert(t != "int2"@ && t != "int4"@);
    } else {
        assert(t != "int2"@ && t != "int4"@ && t != "int8"@);
    }
    assert(scalar_kind(ci.pg_type) == ScalarKind::Float);
    let x = r->Ok_0;
    let o = choose|o: Option<JsonValue>| #[trigger] custom_gives(h.custom, ci.pg_type, v, o) && match o {
        Some(y) => x@ == y@,
        None => builtin_value(h, ci.pg_type, v, x),
    };
    assert(o is None);
}

} // verus!
