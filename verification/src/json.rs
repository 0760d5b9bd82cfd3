//! A JSON value model used for message bodies, rows and schema headers.

use vstd::prelude::*;

verus! {

broadcast use vstd::std_specs::vec::group_vec_axioms;

/// A JSON number: non-negative integers, negative integers, and other numbers
/// (kept as their decimal text).
#[derive(Debug, PartialEq)]
pub enum JsonNumber {
    PosInt(u64),
    NegInt(i64),
    Float(String),
}

/// A JSON value.  Objects keep their members as (name, value) pairs.
#[derive(Debug, PartialEq)]
pub enum JsonValue {
    Null,
    Bool(bool),
    Number(JsonNumber),
    String(String),
    Array(Vec<JsonValue>),
    Object(Vec<(String, JsonValue)>),
}

/// Mathematical view of a JSON number.
pub enum NumberView {
    PosInt(nat),
    NegInt(int),
    Float(Seq<char>),
}

/// Mathematical view of a JSON value.
#[verifier::ext_equal]
pub enum JsonView {
    Null,
    Bool(bool),
    Number(NumberView),
    Str(Seq<char>),
    Array(Seq<JsonView>),
    Object(Seq<(Seq<char>, JsonView)>),
}

impl View for JsonNumber {
    type V = NumberView;

    open spec fn view(&self) -> NumberView {
        match self {
            JsonNumber::PosInt(n) => NumberView::PosInt(*n as nat),
            JsonNumber::NegInt(n) => NumberView::NegInt(*n as int),
            JsonNumber::Float(s) => NumberView::Float(s@),
        }
    }
}

/// The mathematical view of a JSON value.
pub open spec fn json_view(v: JsonValue) -> JsonView
    decreases v,
{
    match v {
        JsonValue::Null => JsonView::Null,
        JsonValue::Bool(b) => JsonView::Bool(b),
        JsonValue::Number(n) => JsonView::Number(n@),
        JsonValue::String(s) => JsonView::Str(s@),
        JsonValue::Array(items) => JsonView::Array(
            Seq::new(items@.len(), |i: int| if 0 <= i < items@.len() { json_view(items@[i]) } else { JsonView::Null }),
        ),
        JsonValue::Object(members) => JsonView::Object(
            Seq::new(members@.len(), |i: int| if 0 <= i < members@.len() { (members@[i].0@, json_view(members@[i].1)) } else { (Seq::empty(), JsonView::Null) }),
        ),
    }
}

/// A row (or JSON object): column name → value.
pub type Row = Vec<(String, JsonValue)>;

/// The view of a row's members.
pub open spec fn row_view(r: Seq<(String, JsonValue)>) -> Seq<(Seq<char>, JsonView)> {
    Seq::new(r.len(), |i: int| (r[i].0@, json_view(r[i].1)))
}

/// The first member named `k`.
pub open spec fn lookup<V>(m: Seq<(Seq<char>, V)>, k: Seq<char>) -> Option<V>
    decreases m.len(),
{
    if m.len() == 0 {
        None
    } else if m[0].0 == k {
        Some(m[0].1)
    } else {
        lookup(m.drop_first(), k)
    }
}

/// The members of an object view (none for any other value).
pub open spec fn members_of(v: JsonView) -> Seq<(Seq<char>, JsonView)> {
    match v {
        JsonView::Object(m) => m,
        _ => Seq::empty(),
    }
}

impl View for JsonValue {
    type V = JsonView;

    open spec fn view(&self) -> JsonView {
        json_view(*self)
    }
}


impl JsonNumber {
    /// Returns a copy of this number.
    pub fn copy(&self) -> (r: JsonNumber)
        ensures
            r@ == self@,
    {
        match self {
            JsonNumber::PosInt(n) => JsonNumber::PosInt(*n),
            JsonNumber::NegInt(n) => JsonNumber::NegInt(*n),
            JsonNumber::Float(s) => JsonNumber::Float(s.clone()),
        }
    }
}

impl JsonValue {
    /// Returns a deep copy of this value.
    pub fn copy(&self) -> (r: JsonValue)
        ensures
            r@ == self@,
        decreases self,
    {
        match self {
            JsonValue::Null => JsonValue::Null,
            JsonValue::Bool(b) => JsonValue::Bool(*b),
            JsonValue::Number(n) => JsonValue::Number(n.copy()),
            JsonValue::String(s) => JsonValue::String(s.clone()),
            JsonValue::Array(items) => {
                let mut out: Vec<JsonValue> = Vec::new();
                let mut i: usize = 0;
                while i < items.len()
                    invariant
                        *self == JsonValue::Array(*items),
                        0 <= i <= items@.len(),
                        out@.len() == i,
                        forall|j: int| 0 <= j < i ==> (#[trigger] out@[j])@ == items@[j]@,
                    decreases items@.len() - i,
                {
                    proof {
                        assert(decreases_to!(*self => (*self)->Array_0));
                        assert(decreases_to!(*items => items[i as int]));
                    }
                    let c = items[i].copy();
                    out.push(c);
                    i += 1;
                }
                let r = JsonValue::Array(out);
                assert(json_view(r)->Array_0 =~= json_view(*self)->Array_0);
                r
            },
            JsonValue::Object(members) => {
                let mut out: Vec<(String, JsonValue)> = Vec::new();
                let mut i: usize = 0;
                while i < members.len()
                    invariant
                        *self == JsonValue::Object(*members),
                        0 <= i <= members@.len(),
                        out@.len() == i,
                        forall|j: int| 0 <= j < i ==> (#[trigger] out@[j]).0@ == members@[j].0@ && out@[j].1@ == members@[j].1@,
                    decreases members@.len() - i,
                {
                    proof {
                        assert(decreases_to!(*self => (*self)->Object_0));
                        assert(decreases_to!(*members => members[i as int]));
                        assert(decreases_to!(members[i as int] => members[i as int].1));
                    }
                    let name = members[i].0.clone();
                    let c = members[i].1.copy();
                    out.push((name, c));
                    i += 1;
                }
                let r = JsonValue::Object(out);
                assert(json_view(r)->Object_0 =~= json_view(*self)->Object_0);
                r
            },
        }
    }
}


/// The view of an object is the view of its members.
pub proof fn lemma_object_view(m: Vec<(String, JsonValue)>, v: JsonValue)
    requires
        v == JsonValue::Object(m),
    ensures
        json_view(v) == JsonView::Object(row_view(m@)),
{
    assert(json_view(v)->Object_0 =~= row_view(m@));
}

/// The views of a sequence of values.
pub open spec fn items_view(s: Seq<JsonValue>) -> Seq<JsonView> {
    Seq::new(s.len(), |i: int| json_view(s[i]))
}

/// The view of an array is the view of its items.
pub proof fn lemma_array_view(items: Vec<JsonValue>, v: JsonValue)
    requires
        v == JsonValue::Array(items),
    ensures
        json_view(v) == JsonView::Array(items_view(items@)),
{
    assert(json_view(v)->Array_0 =~= items_view(items@));
}

/// Looks up the first member named `key` in an object's members.
pub fn find_member<'a>(members: &'a Vec<(String, JsonValue)>, key: &str) -> (r: Option<&'a JsonValue>)
    ensures
        r is Some <==> lookup(row_view(members@), key@) is Some,
        r matches Some(v) ==> lookup(row_view(members@), key@) == Some(v@),
{
    let mut i: usize = 0;
    assert(row_view(members@).skip(0) =~= row_view(members@));
    while i < members.len()
        invariant
            0 <= i <= members@.len(),
            lookup(row_view(members@), key@) == lookup(row_view(members@).skip(i as int), key@),
        decreases members@.len() - i,
    {
        let ghost rest = row_view(members@).skip(i as int);
        assert(rest[0] == (members@[i as int].0@, members@[i as int].1@));
        if crate::text::same_text(members[i].0.as_str(), key) {
            return Some(&members[i].1);
        }
        assert(rest.drop_first() =~= row_view(members@).skip(i + 1));
        i += 1;
    }
    assert(row_view(members@).skip(i as int).len() == 0);
    None
}

/// The view of an optional reference to a value.
pub open spec fn view_opt(f: Option<&JsonValue>) -> Option<JsonView> {
    match f {
        Some(x) => Some(x@),
        None => None,
    }
}

/// Looks up a member of `v` when it is an object.
pub fn get_member<'a>(v: &'a JsonValue, key: &str) -> (r: Option<&'a JsonValue>)
    ensures
        view_opt(r) == lookup(members_of(v@), key@),
        r is Some <==> lookup(members_of(v@), key@) is Some,
        r matches Some(x) ==> lookup(members_of(v@), key@) == Some(x@),
{
    match v {
        JsonValue::Object(m) => {
            proof {
                lemma_object_view(*m, *v);
            }
            find_member(m, key)
        },
        _ => None,
    }
}

/// Returns a copy of a row.
pub fn copy_row(r: &Row) -> (out: Row)
    ensures
        row_view(out@) == row_view(r@),
{
    let mut out: Row = Vec::new();
    let mut i: usize = 0;
    while i < r.len()
        invariant
            0 <= i <= r@.len(),
            out@.len() == i,
            forall|j: int| 0 <= j < i ==> (#[trigger] out@[j]).0@ == r@[j].0@ && out@[j].1@ == r@[j].1@,
        decreases r@.len() - i,
    {
        out.push((r[i].0.clone(), r[i].1.copy()));
        i += 1;
    }
    assert(row_view(out@) =~= row_view(r@));
    out
}

} // verus!
