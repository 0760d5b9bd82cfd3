//! The materialized view of a shape: rows keyed by their Electric key, kept
//! in key order, with inserts, updates (merging changed columns) and deletes
//! applied as message batches arrive.

use vstd::prelude::*;
use crate::assoc::{
    assoc_map, keys_unique, lemma_assoc_contains, lemma_assoc_index, lemma_assoc_update,
    lemma_assoc_insert_at, lemma_assoc_remove, lemma_assoc_push, lemma_assoc_len,
};
use crate::json::{JsonValue, JsonView, Row, row_view, copy_row};
use crate::text::{chars_of, same_text};
use crate::types::{ChangeMessage, ChangeView, ControlKind, Message, MessageView, Operation, messages_view};

verus! {

// ── Key order ────────────────────────────────────────────────────────────────

/// Lexicographic order of keys by character code (the order of `String`).
pub open spec fn key_lt(a: Seq<char>, b: Seq<char>) -> bool
    decreases a.len(),
{
    if a.len() == 0 {
        b.len() > 0
    } else if b.len() == 0 {
        false
    } else if a[0] != b[0] {
        (a[0] as int) < (b[0] as int)
    } else {
        key_lt(a.drop_first(), b.drop_first())
    }
}

/// No key comes before itself.
pub proof fn lemma_key_lt_irreflexive(a: Seq<char>)
    ensures
        !key_lt(a, a),
    decreases a.len(),
{
    if a.len() > 0 {
        lemma_key_lt_irreflexive(a.drop_first());
    }
}

/// Key order is transitive.
pub proof fn lemma_key_lt_transitive(a: Seq<char>, b: Seq<char>, c: Seq<char>)
    requires
        key_lt(a, b),
        key_lt(b, c),
    ensures
        key_lt(a, c),
    decreases a.len(),
{
    if a.len() > 0 && b.len() > 0 && c.len() > 0 {
        if a[0] == b[0] && b[0] == c[0] {
            lemma_key_lt_transitive(a.drop_first(), b.drop_first(), c.drop_first());
        }
    }
}

/// Of two different keys, one comes before the other.
pub proof fn lemma_key_lt_total(a: Seq<char>, b: Seq<char>)
    requires
        a != b,
    ensures
        key_lt(a, b) || key_lt(b, a),
    decreases a.len(),
{
    if a.len() > 0 && b.len() > 0 {
        if a[0] == b[0] {
            if a.drop_first() == b.drop_first() {
                assert(a =~= seq![a[0]] + a.drop_first());
                assert(b =~= seq![b[0]] + b.drop_first());
            }
            lemma_key_lt_total(a.drop_first(), b.drop_first());
        } else {
            assert((a[0] as int) != (b[0] as int));
        }
    } else if a.len() == 0 && b.len() == 0 {
        assert(a =~= b);
    }
}

/// Whether `a` comes before `b` in key order.
pub fn key_less(a: &str, b: &str) -> (r: bool)
    ensures
        r == key_lt(a@, b@),
{
    let x = chars_of(a);
    let y = chars_of(b);
    let mut i: usize = 0;
    assert(x@.skip(0) =~= x@);
    assert(y@.skip(0) =~= y@);
    while i < x.len() && i < y.len()
        invariant
            0 <= i <= x@.len(),
            i <= y@.len(),
            x@ == a@,
            y@ == b@,
            key_lt(a@, b@) == key_lt(x@.skip(i as int), y@.skip(i as int)),
        decreases x@.len() - i,
    {
        if x[i] != y[i] {
            return x[i] < y[i];
        }
        assert(x@.skip(i as int).drop_first() =~= x@.skip(i + 1));
        assert(y@.skip(i as int).drop_first() =~= y@.skip(i + 1));
        i += 1;
    }
    i == x.len() && i < y.len()
}

// ── Materialized rows ────────────────────────────────────────────────────────

/// The row of a column → value map.
pub open spec fn row_map(r: Seq<(String, JsonValue)>) -> Map<Seq<char>, JsonView> {
    assoc_map(row_view(r))
}

/// The rows after merging `changes` into `base`: changed columns replace
/// old values, other columns stay.
pub open spec fn merged(base: Map<Seq<char>, JsonView>, changes: Seq<(String, JsonValue)>) -> Map<
    Seq<char>,
    JsonView,
> {
    base.union_prefer_right(row_map(changes))
}

/// Merges the columns of `changes` into `base`, in order.
pub fn merge_row(base: &mut Row, changes: &Row)
    requires
        keys_unique(row_view(old(base)@)),
    ensures
        keys_unique(row_view(final(base)@)),
        row_map(final(base)@) == merged(row_map(old(base)@), changes@),
{
    let ghost b0 = row_map(base@);
    let mut i: usize = 0;
    assert(row_view(changes@.take(0)) =~= Seq::<(Seq<char>, JsonView)>::empty());
    assert(b0.union_prefer_right(Map::empty()) =~= b0);
    while i < changes.len()
        invariant
            0 <= i <= changes@.len(),
            keys_unique(row_view(base@)),
            row_map(base@) == b0.union_prefer_right(row_map(changes@.take(i as int))),
        decreases changes@.len() - i,
    {
        let k = &changes[i].0;
        let v = changes[i].1.copy();
        let ghost bv = row_view(base@);
        let mut j: usize = 0;
        while j < base.len() && !same_text(base[j].0.as_str(), k.as_str())
            invariant
                0 <= j <= base@.len(),
                bv == row_view(base@),
                forall|t: int| 0 <= t < j ==> base@[t].0@ != k@,
            decreases base@.len() - j,
        {
            j += 1;
        }
        proof {
            assert(row_view(changes@.take(i + 1)) =~= row_view(changes@.take(i as int)).push((k@, v@)));
            assert(row_view(changes@.take(i + 1)).drop_last() =~= row_view(changes@.take(i as int)));
        }
        if j < base.len() {
            let ghost key_j = bv[j as int].0;
            base.set(j, (base[j].0.clone(), v));
            proof {
                assert(row_view(base@) =~= bv.update(j as int, (key_j, bv[j as int].1)).update(j as int, (key_j, base@[j as int].1@)));
                lemma_assoc_update(bv, j as int, base@[j as int].1@);
                assert(bv.update(j as int, (bv[j as int].0, base@[j as int].1@)) =~= row_view(base@));
                assert(row_map(base@) =~= b0.union_prefer_right(row_map(changes@.take(i + 1))));
            }
        } else {
            proof {
                lemma_assoc_contains(bv, k@);
                assert(!assoc_map(bv).contains_key(k@)) by {
                    if assoc_map(bv).contains_key(k@) {
                        let t = choose|t: int| 0 <= t < bv.len() && #[trigger] bv[t].0 == k@;
                        assert(base@[t].0@ == k@);
                    }
                }
            }
            let ghost vv = v@;
            base.push((k.clone(), v));
            proof {
                lemma_assoc_push(bv, k@, vv);
                assert(row_view(base@) =~= bv.push((k@, vv)));
                assert(row_map(base@) =~= b0.union_prefer_right(row_map(changes@.take(i + 1))));
            }
        }
        i += 1;
    }
    assert(changes@.take(i as int) =~= changes@);
}

/// The entries of a shape, each key with its row as a column map.
pub open spec fn entries_view(e: Seq<(String, Row)>) -> Seq<(Seq<char>, Map<Seq<char>, JsonView>)> {
    Seq::new(e.len(), |i: int| (e[i].0@, row_map(e[i].1@)))
}

/// Well-formed entries: keys in strictly increasing order, each row without
/// repeated columns.
pub open spec fn entries_wf(e: Seq<(String, Row)>) -> bool {
    &&& forall|i: int, j: int| 0 <= i < j < e.len() ==> key_lt(#[trigger] e[i].0@, #[trigger] e[j].0@)
    &&& forall|i: int| 0 <= i < e.len() ==> keys_unique(#[trigger] row_view(e[i].1@))
}

proof fn lemma_sorted_unique(e: Seq<(String, Row)>)
    requires
        entries_wf(e),
    ensures
        keys_unique(entries_view(e)),
{
    let v = entries_view(e);
    assert forall|i: int, j: int| 0 <= i < v.len() && 0 <= j < v.len() && i != j implies v[i].0 != v[j].0 by {
        if i < j {
            assert(key_lt(e[i].0@, e[j].0@));
            lemma_key_lt_irreflexive(e[i].0@);
        } else {
            assert(key_lt(e[j].0@, e[i].0@));
            lemma_key_lt_irreflexive(e[j].0@);
        }
    }
}

/// The index of the row with key `key`.
fn entries_find(e: &Vec<(String, Row)>, key: &str) -> (r: Option<usize>)
    ensures
        match r {
            Some(i) => i < e@.len() && e@[i as int].0@ == key@,
            None => forall|t: int| 0 <= t < e@.len() ==> e@[t].0@ != key@,
        },
{
    let mut j: usize = 0;
    while j < e.len()
        invariant
            0 <= j <= e@.len(),
            forall|t: int| 0 <= t < j ==> e@[t].0@ != key@,
        decreases e@.len() - j,
    {
        if same_text(e[j].0.as_str(), key) {
            return Some(j);
        }
        j += 1;
    }
    None
}


/// Replaces (or adds, in key order) the row with key `key`.
fn entries_put(e: &mut Vec<(String, Row)>, key: &str, row: Row)
    requires
        entries_wf(old(e)@),
        keys_unique(row_view(row@)),
    ensures
        entries_wf(final(e)@),
        assoc_map(entries_view(final(e)@)) == assoc_map(entries_view(old(e)@)).insert(key@, row_map(row@)),
{
    let ghost ev = entries_view(e@);
    proof {
        lemma_sorted_unique(e@);
    }
    match entries_find(e, key) {
        Some(i) => {
            let ghost rm = row_map(row@);
            let name = e[i].0.clone();
            e.set(i, (name, row));
            proof {
                lemma_assoc_update(ev, i as int, rm);
                assert(entries_view(e@) =~= ev.update(i as int, (ev[i as int].0, rm)));
                assert forall|a: int, b: int| 0 <= a < b < e@.len() implies key_lt(
                    #[trigger] e@[a].0@,
                    #[trigger] e@[b].0@,
                ) by {
                    assert(e@[a].0@ == old(e)@[a].0@);
                    assert(e@[b].0@ == old(e)@[b].0@);
                }
                assert forall|a: int| 0 <= a < e@.len() implies keys_unique(
                    #[trigger] row_view(e@[a].1@),
                ) by {
                    if a != i {
                        assert(e@[a] == old(e)@[a]);
                    }
                }
            }
        },
        None => {
            let mut p: usize = 0;
            while p < e.len() && !key_less(key, e[p].0.as_str())
                invariant
                    0 <= p <= e@.len(),
                    e@ == old(e)@,
                    forall|t: int| 0 <= t < e@.len() ==> e@[t].0@ != key@,
                    forall|t: int| 0 <= t < p ==> key_lt(#[trigger] e@[t].0@, key@),
                decreases e@.len() - p,
            {
                proof {
                    lemma_key_lt_total(e@[p as int].0@, key@);
                }
                p += 1;
            }
            let ghost rm = row_map(row@);
            proof {
                lemma_assoc_contains(ev, key@);
                assert(!assoc_map(ev).contains_key(key@)) by {
                    if assoc_map(ev).contains_key(key@) {
                        let t = choose|t: int| 0 <= t < ev.len() && #[trigger] ev[t].0 == key@;
                        assert(e@[t].0@ == key@);
                    }
                }
                lemma_assoc_insert_at(ev, p as int, key@, rm);
            }
            let ghost e0 = e@;
            e.insert(p, (key.to_owned(), row));
            proof {
                assert(entries_view(e@) =~= ev.insert(p as int, (key@, rm)));
                assert forall|a: int, b: int| 0 <= a < b < e@.len() implies key_lt(
                    #[trigger] e@[a].0@,
                    #[trigger] e@[b].0@,
                ) by {
                    let e = e@;
                    if b < p {
                        assert(e[a] == e0[a] && e[b] == e0[b]);
                    } else if b == p {
                        assert(e[a] == e0[a]);
                    } else if a < p {
                        assert(e[a] == e0[a] && e[b] == e0[b - 1]);
                        assert(key_lt(key@, e0[p as int].0@));
                        if b - 1 > p {
                            lemma_key_lt_transitive(key@, e0[p as int].0@, e0[b - 1].0@);
                        }
                        lemma_key_lt_transitive(e0[a].0@, key@, e0[b - 1].0@);
                    } else if a == p {
                        assert(e[b] == e0[b - 1]);
                        assert(key_lt(key@, e0[p as int].0@));
                        if b - 1 > p {
                            lemma_key_lt_transitive(key@, e0[p as int].0@, e0[b - 1].0@);
                        }
                    } else {
                        assert(e[a] == e0[a - 1] && e[b] == e0[b - 1]);
                    }
                }
                assert forall|a: int| 0 <= a < e@.len() implies keys_unique(
                    #[trigger] row_view(e@[a].1@),
                ) by {
                    if a < p {
                        assert(e@[a] == e0[a]);
                    } else if a > p {
                        assert(e@[a] == e0[a - 1]);
                    }
                }
            }
        },
    }
}

/// The rows after one change: an insert sets the row, an update merges the
/// changed columns into the row (an absent row counts as empty), a delete
/// removes the row.
pub open spec fn after_change(
    data: Map<Seq<char>, Map<Seq<char>, JsonView>>,
    c: ChangeMessage,
) -> Map<Seq<char>, Map<Seq<char>, JsonView>> {
    match c.headers.operation {
        Operation::Insert => data.insert(c.key@, row_map(c.value@)),
        Operation::Update => data.insert(
            c.key@,
            merged(
                if data.contains_key(c.key@) {
                    data[c.key@]
                } else {
                    Map::empty()
                },
                c.value@,
            ),
        ),
        Operation::Delete => data.remove(c.key@),
    }
}

/// The rows after one message: a must-refetch clears them, an up-to-date
/// leaves them, a change applies.
pub open spec fn after_message(
    data: Map<Seq<char>, Map<Seq<char>, JsonView>>,
    m: Message,
) -> Map<Seq<char>, Map<Seq<char>, JsonView>> {
    match m {
        Message::Control(c) => if c.control == ControlKind::MustRefetch {
            Map::empty()
        } else {
            data
        },
        Message::Change(c) => after_change(data, c),
    }
}

/// The rows after a batch of messages, applied in order.
pub open spec fn after_batch(
    data: Map<Seq<char>, Map<Seq<char>, JsonView>>,
    ms: Seq<Message>,
) -> Map<Seq<char>, Map<Seq<char>, JsonView>>
    decreases ms.len(),
{
    if ms.len() == 0 {
        data
    } else {
        after_batch(after_message(data, ms[0]), ms.drop_first())
    }
}

/// Whether a batch ends a sync: it holds an up-to-date message and no
/// must-refetch message.
pub open spec fn batch_notifies(ms: Seq<Message>) -> bool {
    (exists|i: int| 0 <= i < ms.len() && #[trigger] ms[i]@ == MessageView::Control(ControlKind::UpToDate))
        && !(exists|i: int| 0 <= i < ms.len() && #[trigger] ms[i]@ == MessageView::Control(
        ControlKind::MustRefetch,
    ))
}

/// Removes the row with key `key`, if any.
fn entries_remove(e: &mut Vec<(String, Row)>, key: &str)
    requires
        entries_wf(old(e)@),
    ensures
        entries_wf(final(e)@),
        assoc_map(entries_view(final(e)@)) == assoc_map(entries_view(old(e)@)).remove(key@),
{
    let ghost ev = entries_view(e@);
    proof {
        lemma_sorted_unique(e@);
    }
    match entries_find(e, key) {
        Some(i) => {
            let ghost e0 = e@;
            e.remove(i);
            proof {
                lemma_assoc_remove(ev, i as int);
                assert(entries_view(e@) =~= ev.remove(i as int));
                assert forall|a: int, b: int| 0 <= a < b < e@.len() implies key_lt(
                    #[trigger] e@[a].0@,
                    #[trigger] e@[b].0@,
                ) by {
                    let ia = if a < i { a } else { a + 1 };
                    let ib = if b < i { b } else { b + 1 };
                    assert(e@[a] == e0[ia] && e@[b] == e0[ib]);
                }
                assert forall|a: int| 0 <= a < e@.len() implies keys_unique(
                    #[trigger] row_view(e@[a].1@),
                ) by {
                    let ia = if a < i { a } else { a + 1 };
                    assert(e@[a] == e0[ia]);
                }
            }
        },
        None => {
            proof {
                lemma_assoc_contains(ev, key@);
                assert(!assoc_map(ev).contains_key(key@)) by {
                    if assoc_map(ev).contains_key(key@) {
                        let t = choose|t: int| 0 <= t < ev.len() && #[trigger] ev[t].0 == key@;
                        assert(e@[t].0@ == key@);
                    }
                }
                assert(assoc_map(ev).remove(key@) =~= assoc_map(ev));
            }
        },
    }
}


/// Applies one change message to sorted entries.
fn entries_apply(e: &mut Vec<(String, Row)>, change: &ChangeMessage)
    requires
        entries_wf(old(e)@),
    ensures
        entries_wf(final(e)@),
        assoc_map(entries_view(final(e)@)) == after_change(assoc_map(entries_view(old(e)@)), *change),
{
    proof {
        lemma_sorted_unique(e@);
    }
    match change.headers.operation {
        Operation::Insert => {
            let mut row: Row = Vec::new();
            assert(row_view(row@) =~= Seq::<(Seq<char>, JsonView)>::empty());
            merge_row(&mut row, &change.value);
            assert(Map::<Seq<char>, JsonView>::empty().union_prefer_right(row_map(change.value@)) =~= row_map(change.value@));
            entries_put(e, change.key.as_str(), row);
        },
        Operation::Update => {
            let mut row: Row = match entries_find(e, change.key.as_str()) {
                Some(i) => {
                    proof {
                        lemma_assoc_index(entries_view(e@), i as int);
                    }
                    copy_row(&e[i].1)
                },
                None => {
                    proof {
                        let ev = entries_view(e@);
                        lemma_assoc_contains(ev, change.key@);
                        if assoc_map(ev).contains_key(change.key@) {
                            let t = choose|t: int| 0 <= t < ev.len() && #[trigger] ev[t].0 == change.key@;
                            assert(e@[t].0@ == change.key@);
                        }
                    }
                    let r: Row = Vec::new();
                    assert(row_view(r@) =~= Seq::<(Seq<char>, JsonView)>::empty());
                    r
                },
            };
            merge_row(&mut row, &change.value);
            entries_put(e, change.key.as_str(), row);
        },
        Operation::Delete => {
            entries_remove(e, change.key.as_str());
        },
    }
}


/// An event of the stream a shape follows.
pub enum ShapeInput<'a> {
    /// The messages of one response.
    Batch(&'a Vec<Message>),
    /// The stream stopped with this error.
    Error(String),
    /// The stream finished cleanly.
    Closed,
    /// The stream can no longer be received from.
    Disconnected,
}

/// What a shape's task does after an event.
#[derive(Debug)]
pub struct ShapeReaction {
    /// Call the subscribers with the rows.
    pub notify: bool,
    /// Mark the shape up to date (waking readers that wait for it).
    pub up_to_date: bool,
    /// Record this error as the shape's last error.
    pub error: Option<String>,
    /// Stop following the stream.
    pub stop: bool,
}

/// The rows of a shape, keyed by their Electric key and kept in key order.
pub struct ShapeData {
    entries: Vec<(String, Row)>,
}

impl View for ShapeData {
    type V = Map<Seq<char>, Map<Seq<char>, JsonView>>;

    closed spec fn view(&self) -> Map<Seq<char>, Map<Seq<char>, JsonView>> {
        assoc_map(entries_view(self.entries@))
    }
}

impl ShapeData {
    /// The keys of the rows, in the order `rows` returns them.
    pub closed spec fn keys(self) -> Seq<Seq<char>> {
        Seq::new(self.entries@.len(), |i: int| self.entries@[i].0@)
    }

    #[verifier::type_invariant]
    spec fn wf(self) -> bool {
        entries_wf(self.entries@)
    }

    /// An empty shape.
    pub fn new() -> (r: ShapeData)
        ensures
            r@ == Map::<Seq<char>, Map<Seq<char>, JsonView>>::empty(),
            r.keys().len() == 0,
    {
        let r = ShapeData { entries: Vec::new() };
        assert(entries_view(r.entries@) =~= Seq::<(Seq<char>, Map<Seq<char>, JsonView>)>::empty());
        r
    }

    /// The number of rows.
    pub fn len(&self) -> (r: usize)
        ensures
            r == self@.len(),
            r == self.keys().len(),
    {
        proof {
            use_type_invariant(self);
            lemma_sorted_unique(self.entries@);
            lemma_assoc_len(entries_view(self.entries@));
        }
        self.entries.len()
    }

    /// Applies one change message: an insert sets the row, an update merges
    /// the changed columns into it, a delete removes it.
    pub fn apply_change(&mut self, change: &ChangeMessage)
        ensures
            final(self)@ == after_change(old(self)@, *change),
    {
        proof {
            use_type_invariant(&*self);
        }
        let mut e: Vec<(String, Row)> = Vec::new();
        std::mem::swap(&mut e, &mut self.entries);
        entries_apply(&mut e, change);
        self.entries = e;
    }

    /// Applies a batch of messages in order.  Returns whether the batch ends
    /// a sync (an up-to-date message and no must-refetch), when subscribers
    /// are to be notified.
    pub fn process_batch(&mut self, messages: &Vec<Message>) -> (notify: bool)
        ensures
            final(self)@ == after_batch(old(self)@, messages@),
            notify == batch_notifies(messages@),
    {
        proof {
            use_type_invariant(&*self);
        }
        let mut e: Vec<(String, Row)> = Vec::new();
        std::mem::swap(&mut e, &mut self.entries);
        let ghost ms = messages@;
        let ghost start = assoc_map(entries_view(e@));
        let mut up_to_date = false;
        let mut must_refetch = false;
        let mut i: usize = 0;
        assert(ms.skip(0) =~= ms);
        while i < messages.len()
            invariant
                0 <= i <= ms.len(),
                ms == messages@,
                entries_wf(e@),
                after_batch(start, ms) == after_batch(assoc_map(entries_view(e@)), ms.skip(i as int)),
                up_to_date == exists|j: int| 0 <= j < i && #[trigger] ms[j]@ == MessageView::Control(ControlKind::UpToDate),
                must_refetch == exists|j: int| 0 <= j < i && #[trigger] ms[j]@ == MessageView::Control(ControlKind::MustRefetch),
            decreases ms.len() - i,
        {
            proof {
                assert(ms.skip(i as int)[0] == ms[i as int]);
                assert(ms.skip(i as int).drop_first() =~= ms.skip(i + 1));
            }
            let ghost cur = ms[i as int]@;
            match &messages[i] {
                Message::Control(c) => {
                    if c.control == ControlKind::MustRefetch {
                        must_refetch = true;
                        e = Vec::new();
                        assert(entries_view(e@) =~= Seq::<(Seq<char>, Map<Seq<char>, JsonView>)>::empty());
                    } else {
                        up_to_date = true;
                    }
                },
                Message::Change(c) => {
                    entries_apply(&mut e, c);
                },
            }
            proof {
                let k = i as int;
                if cur == MessageView::Control(ControlKind::UpToDate) {
                    assert(up_to_date);
                    assert(0 <= k < k + 1 && ms[k]@ == MessageView::Control(ControlKind::UpToDate));
                }
                if cur == MessageView::Control(ControlKind::MustRefetch) {
                    assert(must_refetch);
                    assert(0 <= k < k + 1 && ms[k]@ == MessageView::Control(ControlKind::MustRefetch));
                }
            }
            i += 1;
        }
        assert(ms.skip(i as int).len() == 0);
        self.entries = e;
        up_to_date && !must_refetch
    }

    /// What the shape does with one event of its stream: a batch is applied
    /// (and, when it ends a sync, subscribers are notified and the shape is
    /// marked up to date); an error is recorded, and it, the end of the
    /// stream, or the loss of the stream marks the shape up to date (so that
    /// waiting readers wake) and stops the shape's task.  Only a batch
    /// changes the rows.
    pub fn on_event(&mut self, event: ShapeInput<'_>) -> (r: ShapeReaction)
        ensures
            match event {
                ShapeInput::Batch(ms) => {
                    &&& final(self)@ == after_batch(old(self)@, ms@)
                    &&& r.notify == batch_notifies(ms@)
                    &&& r.up_to_date == batch_notifies(ms@)
                    &&& r.error is None
                    &&& !r.stop
                },
                ShapeInput::Error(e) => {
                    &&& final(self)@ == old(self)@
                    &&& !r.notify
                    &&& r.up_to_date
                    &&& r.error == Some(e)
                    &&& r.stop
                },
                _ => {
                    &&& final(self)@ == old(self)@
                    &&& !r.notify
                    &&& r.up_to_date
                    &&& r.error is None
                    &&& r.stop
                },
            },
    {
        match event {
            ShapeInput::Batch(ms) => {
                let notify = self.process_batch(ms);
                ShapeReaction { notify, up_to_date: notify, error: None, stop: false }
            },
            ShapeInput::Error(e) => ShapeReaction {
                notify: false,
                up_to_date: true,
                error: Some(e),
                stop: true,
            },
            ShapeInput::Closed => ShapeReaction {
                notify: false,
                up_to_date: true,
                error: None,
                stop: true,
            },
            ShapeInput::Disconnected => ShapeReaction {
                notify: false,
                up_to_date: true,
                error: None,
                stop: true,
            },
        }
    }

    /// Copies of all rows, in key order.
    pub fn rows(&self) -> (r: Vec<Row>)
        ensures
            r@.len() == self.keys().len(),
            forall|i: int| 0 <= i < r@.len() ==> self@[self.keys()[i]] == row_map(#[trigger] r@[i]@),
            forall|i: int, j: int| 0 <= i < j < r@.len() ==> key_lt(#[trigger] self.keys()[i], #[trigger] self.keys()[j]),
            forall|k: Seq<char>| self@.contains_key(k) <==> self.keys().contains(k),
    {
        proof {
            use_type_invariant(self);
            lemma_sorted_unique(self.entries@);
        }
        let ghost ev = entries_view(self.entries@);
        let mut out: Vec<Row> = Vec::new();
        let mut i: usize = 0;
        while i < self.entries.len()
            invariant
                0 <= i <= self.entries@.len(),
                ev == entries_view(self.entries@),
                keys_unique(ev),
                out@.len() == i,
                forall|j: int| 0 <= j < i ==> self@[self.keys()[j]] == row_map(#[trigger] out@[j]@),
            decreases self.entries@.len() - i,
        {
            proof {
                lemma_assoc_index(ev, i as int);
            }
            let r = copy_row(&self.entries[i].1);
            out.push(r);
            i += 1;
        }
        proof {
            assert forall|k: Seq<char>| self@.contains_key(k) <==> self.keys().contains(k) by {
                lemma_assoc_contains(ev, k);
                if self@.contains_key(k) {
                    let t = choose|t: int| 0 <= t < ev.len() && #[trigger] ev[t].0 == k;
                    assert(self.keys()[t] == k);
                }
                if self.keys().contains(k) {
                    let t = choose|t: int| 0 <= t < self.keys().len() && self.keys()[t] == k;
                    assert(ev[t].0 == k);
                }
            }
        }
        out
    }
}

/// A must-refetch message discards everything before it: the rows after a
/// batch are those the messages after its must-refetch build from nothing.
pub proof fn lemma_must_refetch_starts_over(
    data: Map<Seq<char>, Map<Seq<char>, JsonView>>,
    ms: Seq<Message>,
    i: int,
)
    requires
        0 <= i < ms.len(),
        ms[i]@ == MessageView::Control(ControlKind::MustRefetch),
    ensures
        after_batch(data, ms) == after_batch(Map::empty(), ms.skip(i + 1)),
    decreases i,
{
    if i == 0 {
        assert(ms.drop_first() =~= ms.skip(1));
        match ms[0] {
            Message::Control(c) => {
                assert(c.control == ControlKind::MustRefetch);
            },
            Message::Change(_) => {},
        }
    } else {
        let rest = ms.drop_first();
        assert(rest[i - 1] == ms[i]);
        lemma_must_refetch_starts_over(after_message(data, ms[0]), rest, i - 1);
        assert(rest.skip(i) =~= ms.skip(i + 1));
    }
}

/// An update merges: the columns it carries take its values, the other
/// columns of the row keep theirs, and the other rows are untouched.
pub proof fn lemma_update_merges_columns(
    data: Map<Seq<char>, Map<Seq<char>, JsonView>>,
    c: ChangeMessage,
    col: Seq<char>,
    other: Seq<char>,
)
    requires
        c.headers.operation == Operation::Update,
        other != c.key@,
    ensures
        after_change(data, c).contains_key(c.key@),
        row_map(c.value@).contains_key(col) ==> after_change(data, c)[c.key@][col] == row_map(
            c.value@,
        )[col],
        !row_map(c.value@).contains_key(col) && data.contains_key(c.key@) ==> (after_change(
            data,
            c,
        )[c.key@].contains_key(col) == data[c.key@].contains_key(col) && (data[c.key@].contains_key(
            col,
        ) ==> after_change(data, c)[c.key@][col] == data[c.key@][col])),
        after_change(data, c).contains_key(other) == data.contains_key(other),
        data.contains_key(other) ==> after_change(data, c)[other] == data[other],
{
}

/// A delete removes its row and only that row; an insert sets its row to
/// exactly the inserted columns.
pub proof fn lemma_insert_and_delete(
    data: Map<Seq<char>, Map<Seq<char>, JsonView>>,
    c: ChangeMessage,
    other: Seq<char>,
)
    requires
        other != c.key@,
    ensures
        c.headers.operation == Operation::Delete ==> !after_change(data, c).contains_key(c.key@),
        c.headers.operation == Operation::Insert ==> after_change(data, c)[c.key@] == row_map(
            c.value@,
        ),
        after_change(data, c).contains_key(other) == data.contains_key(other),
        data.contains_key(other) ==> after_change(data, c)[other] == data[other],
{
}

} // verus!
