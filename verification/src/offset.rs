//! Positions in the shape log and their wire format.

use vstd::prelude::*;
use core::cmp::Ordering;
use crate::error::ElectricError;
use crate::text::{
    chars_of, same_text, push_str, push_decimal, string_from_chars, parse_u64_chars, decimal,
    spec_parse_u64, lemma_decimal, all_digits, is_digit,
};

verus! {

/// A position in the Electric shape log.
///
/// Wire format: `"-1"` is `Initial`, `"now"` is `Now`, `"{tx}_{op}"` is `At`.
/// The live position `"{tx}_inf"` is stored with `op == OP_INF` (the largest
/// `u64`), so it sorts last and prints back as `inf`.
///
/// Offsets are ordered `Initial` < every `At` (by `tx`, then `op`) < `Now`.
#[derive(Debug, Clone, Copy, PartialEq, Eq, Structural, Ord)]
pub enum Offset {
    /// `-1`: the full history from the beginning.
    Initial,
    /// A concrete position `{tx}_{op}`.
    At { tx: u64, op: u64 },
    /// `now`: only future changes.
    Now,
}

/// The `op` value that stands for `inf`.
pub const OP_INF: u64 = 0xffff_ffff_ffff_ffff;

/// Index of the first `c` in `s`, if `k` is that index.
pub open spec fn first_at(s: Seq<char>, c: char, k: int) -> bool {
    0 <= k < s.len() && s[k] == c && forall|j: int| 0 <= j < k ==> s[j] != c
}

/// The first occurrence of a character is unique.
pub proof fn lemma_first_at_unique(s: Seq<char>, c: char, k1: int, k2: int)
    requires
        first_at(s, c, k1),
        first_at(s, c, k2),
    ensures
        k1 == k2,
{
}

/// The value of the part after the underscore: `inf` or a `u64`.
pub open spec fn spec_parse_op(s: Seq<char>) -> Option<u64> {
    if s == "inf"@ {
        Some(OP_INF)
    } else {
        spec_parse_u64(s)
    }
}

/// What `Offset::parse` gives for the text `s` (`None` for an invalid offset).
pub open spec fn spec_parse_offset(s: Seq<char>) -> Option<Offset> {
    if s == "-1"@ {
        Some(Offset::Initial)
    } else if s == "now"@ {
        Some(Offset::Now)
    } else if exists|k: int| first_at(s, '_', k) {
        let k = choose|k: int| first_at(s, '_', k);
        match (spec_parse_u64(s.take(k)), spec_parse_op(s.skip(k + 1))) {
            (Some(tx), Some(op)) => Some(Offset::At { tx, op }),
            _ => None,
        }
    } else {
        None
    }
}

/// The wire text of an offset.
pub open spec fn offset_text(o: Offset) -> Seq<char> {
    match o {
        Offset::Initial => "-1"@,
        Offset::Now => "now"@,
        Offset::At { tx, op } => if op == OP_INF {
            decimal(tx as nat) + "_inf"@
        } else {
            decimal(tx as nat) + "_"@ + decimal(op as nat)
        },
    }
}

/// Rank of the variant in the offset order.
pub open spec fn offset_rank(o: Offset) -> int {
    match o {
        Offset::Initial => 0,
        Offset::At { .. } => 1,
        Offset::Now => 2,
    }
}

/// `a` comes strictly before `b` in the log.
pub open spec fn offset_lt(a: Offset, b: Offset) -> bool {
    if offset_rank(a) != offset_rank(b) {
        offset_rank(a) < offset_rank(b)
    } else {
        match (a, b) {
            (Offset::At { tx: t1, op: o1 }, Offset::At { tx: t2, op: o2 }) => t1 < t2 || (t1 == t2
                && o1 < o2),
            _ => false,
        }
    }
}

/// The three-way comparison of two offsets.
pub open spec fn offset_order(a: Offset, b: Offset) -> Ordering {
    if offset_lt(a, b) {
        Ordering::Less
    } else if a == b {
        Ordering::Equal
    } else {
        Ordering::Greater
    }
}

impl Offset {
    /// Parses the wire format of an offset.
    pub fn parse(s: &str) -> (r: Result<Offset, ElectricError>)
        ensures
            r matches Ok(o) ==> spec_parse_offset(s@) == Some(o),
            r is Err ==> spec_parse_offset(s@) is None,
            r matches Err(e) ==> e matches ElectricError::InvalidOffset(t) && t@ == s@,
    {
        if same_text(s, "-1") {
            return Ok(Offset::Initial);
        }
        if same_text(s, "now") {
            return Ok(Offset::Now);
        }
        let cs = chars_of(s);
        let mut k: usize = 0;
        while k < cs.len() && cs[k] != '_'
            invariant
                0 <= k <= cs@.len(),
                cs@ == s@,
                forall|j: int| 0 <= j < k ==> cs@[j] != '_',
            decreases cs@.len() - k,
        {
            k += 1;
        }
        if k == cs.len() {
            proof {
                assert forall|k2: int| !first_at(s@, '_', k2) by {
                    if first_at(s@, '_', k2) {
                        assert(cs@[k2] != '_');
                    }
                }
            }
            return Err(ElectricError::InvalidOffset(s.to_owned()));
        }
        proof {
            assert(first_at(s@, '_', k as int));
            let kk = choose|kk: int| first_at(s@, '_', kk);
            lemma_first_at_unique(s@, '_', k as int, kk);
            assert(s@.take(k as int) =~= cs@.subrange(0, k as int));
            assert(s@.skip(k + 1) =~= cs@.subrange(k + 1, cs@.len() as int));
        }
        let tx = parse_u64_chars(&cs, 0, k);
        let rest = string_from_chars(&cs, k + 1, cs.len());
        let op = if same_text(rest.as_str(), "inf") {
            Some(OP_INF)
        } else {
            parse_u64_chars(&cs, k + 1, cs.len())
        };
        match (tx, op) {
            (Some(tx), Some(op)) => Ok(Offset::At { tx, op }),
            _ => Err(ElectricError::InvalidOffset(s.to_owned())),
        }
    }

    /// The wire text of this offset.
    pub fn to_string(&self) -> (r: String)
        ensures
            r@ == offset_text(*self),
    {
        let mut out = String::new();
        match self {
            Offset::Initial => push_str(&mut out, "-1"),
            Offset::Now => push_str(&mut out, "now"),
            Offset::At { tx, op } => {
                push_decimal(&mut out, *tx);
                if *op == OP_INF {
                    push_str(&mut out, "_inf");
                } else {
                    push_str(&mut out, "_");
                    push_decimal(&mut out, *op);
                }
            },
        }
        assert(out@ =~= offset_text(*self));
        out
    }

    /// Whether this offset is strictly before `other`.
    pub fn is_before(&self, other: &Offset) -> (r: bool)
        ensures
            r == offset_lt(*self, *other),
    {
        match (self, other) {
            (Offset::Initial, Offset::Initial) => false,
            (Offset::Initial, _) => true,
            (_, Offset::Initial) => false,
            (Offset::At { tx: t1, op: o1 }, Offset::At { tx: t2, op: o2 }) => *t1 < *t2 || (*t1
                == *t2 && *o1 < *o2),
            (Offset::At { .. }, Offset::Now) => true,
            (Offset::Now, _) => false,
        }
    }
}

impl core::str::FromStr for Offset {
    type Err = ElectricError;

    /// Parses the wire format of an offset, as `Offset::parse` does.
    fn from_str(s: &str) -> (r: Result<Offset, ElectricError>)
        ensures
            r matches Ok(o) ==> spec_parse_offset(s@) == Some(o),
            r is Err ==> spec_parse_offset(s@) is None,
            r matches Err(e) ==> e matches ElectricError::InvalidOffset(t) && t@ == s@,
    {
        Offset::parse(s)
    }
}

impl Default for Offset {
    fn default() -> (r: Offset)
        ensures
            r == Offset::Initial,
    {
        Offset::Initial
    }
}

impl PartialOrd for Offset {
    fn partial_cmp(&self, other: &Offset) -> (r: Option<Ordering>) {
        if self.is_before(other) {
            Some(Ordering::Less)
        } else if other.is_before(self) {
            Some(Ordering::Greater)
        } else {
            proof {
                lemma_offset_trichotomy(*self, *other);
            }
            Some(Ordering::Equal)
        }
    }
}

impl vstd::std_specs::cmp::PartialOrdSpecImpl for Offset {
    open spec fn obeys_partial_cmp_spec() -> bool {
        true
    }

    open spec fn partial_cmp_spec(&self, other: &Offset) -> Option<Ordering> {
        Some(offset_order(*self, *other))
    }
}

/// Exactly one of `a < b`, `a == b`, `b < a` holds.
pub proof fn lemma_offset_trichotomy(a: Offset, b: Offset)
    ensures
        offset_lt(a, b) || a == b || offset_lt(b, a),
        !(offset_lt(a, b) && offset_lt(b, a)),
        !(offset_lt(a, b) && a == b),
{
}


proof fn lemma_parse_decimal(n: u64)
    ensures
        spec_parse_u64(decimal(n as nat)) == Some(n),
        decimal(n as nat) != "inf"@,
        decimal(n as nat).len() >= 1,
        all_digits(decimal(n as nat)),
{
    lemma_decimal(n as nat);
    let d = decimal(n as nat);
    assert(is_digit(d[0]));
    reveal_strlit("inf");
    if d == "inf"@ {
        assert(d[0] == 'i');
    }
}

/// Reading back the wire text of any offset gives the same offset.
pub proof fn lemma_offset_text_roundtrip(o: Offset)
    ensures
        spec_parse_offset(offset_text(o)) == Some(o),
{
    reveal_strlit("-1");
    reveal_strlit("now");
    reveal_strlit("inf");
    reveal_strlit("_inf");
    reveal_strlit("_");
    match o {
        Offset::Initial => {},
        Offset::Now => {},
        Offset::At { tx, op } => {
            let s = offset_text(o);
            let dt = decimal(tx as nat);
            lemma_parse_decimal(tx);
            let k = dt.len() as int;
            let rest = if op == OP_INF { "inf"@ } else { decimal(op as nat) };
            if op != OP_INF {
                lemma_parse_decimal(op);
            }
            assert(s =~= dt + seq!['_'] + rest);
            assert(is_digit(s[0]));
            assert(s != "-1"@);
            assert(s != "now"@);
            assert forall|j: int| 0 <= j < k implies s[j] != '_' by {
                assert(s[j] == dt[j]);
                assert(is_digit(dt[j]));
            }
            assert(first_at(s, '_', k));
            let kk = choose|kk: int| first_at(s, '_', kk);
            lemma_first_at_unique(s, '_', k, kk);
            assert(s.take(k) =~= dt);
            assert(s.skip(k + 1) =~= rest);
        },
    }
}

/// The offset order is transitive.
pub proof fn lemma_offset_lt_transitive(a: Offset, b: Offset, c: Offset)
    requires
        offset_lt(a, b),
        offset_lt(b, c),
    ensures
        offset_lt(a, c),
{
}

/// No offset comes before itself.
pub proof fn lemma_offset_lt_irreflexive(a: Offset)
    ensures
        !offset_lt(a, a),
{
}

/// The live position `{tx}_inf` comes after every other position of the same transaction.
pub proof fn lemma_inf_is_last_in_tx(tx: u64, op: u64)
    requires
        op != OP_INF,
    ensures
        offset_lt(Offset::At { tx, op }, Offset::At { tx, op: OP_INF }),
{
}

} // verus!
