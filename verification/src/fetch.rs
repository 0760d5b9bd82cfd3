//! HTTP request/response descriptions, `Retry-After` parsing and the retry
//! decisions of exponential backoff.

use vstd::prelude::*;
use rand::Rng;
use crate::json::lookup;
use crate::error::ElectricError;
use crate::http_date::{http_date, http_date_ms, http_date_layout};
use crate::text::{same_text, chars_of, all_digits, digits_value, is_digit, digit_of};

verus! {

/// A minimal HTTP GET request.
#[derive(Debug)]
pub struct ElectricRequest {
    /// Full URL, query parameters included.
    pub url: String,
    /// HTTP request headers.
    pub headers: Vec<(String, String)>,
}

/// An HTTP response.
#[derive(Debug)]
pub struct ElectricResponse {
    /// HTTP status code.
    pub status: u16,
    /// Response headers (lower-case names, each name once).
    pub headers: Vec<(String, String)>,
    /// Response body.
    pub body: String,
}

/// The view of a list of (name, value) string pairs.
pub open spec fn pairs_view(h: Seq<(String, String)>) -> Seq<(Seq<char>, Seq<char>)> {
    Seq::new(h.len(), |i: int| (h[i].0@, h[i].1@))
}

/// The view of an optional string reference.
pub open spec fn opt_string_view(s: Option<&String>) -> Option<Seq<char>> {
    match s {
        Some(s) => Some(s@),
        None => None,
    }
}

/// Looks up a header value by name.
pub fn header_get<'a>(headers: &'a Vec<(String, String)>, name: &str) -> (r: Option<&'a String>)
    ensures
        opt_string_view(r) == lookup(pairs_view(headers@), name@),
{
    let ghost hv = pairs_view(headers@);
    let mut i: usize = 0;
    assert(hv.skip(0) =~= hv);
    while i < headers.len()
        invariant
            0 <= i <= headers@.len(),
            hv == pairs_view(headers@),
            lookup(hv, name@) == lookup(hv.skip(i as int), name@),
        decreases headers@.len() - i,
    {
        let ghost rest = hv.skip(i as int);
        assert(rest[0] == (headers@[i as int].0@, headers@[i as int].1@));
        if same_text(headers[i].0.as_str(), name) {
            return Some(&headers[i].1);
        }
        assert(rest.drop_first() =~= hv.skip(i + 1));
        i += 1;
    }
    assert(hv.skip(i as int).len() == 0);
    None
}

/// Returns a copy of a list of string pairs.
pub fn copy_pairs(h: &Vec<(String, String)>) -> (r: Vec<(String, String)>)
    ensures
        pairs_view(r@) == pairs_view(h@),
{
    let mut out: Vec<(String, String)> = Vec::new();
    let mut i: usize = 0;
    while i < h.len()
        invariant
            0 <= i <= h@.len(),
            out@.len() == i,
            forall|j: int| 0 <= j < i ==> (#[trigger] out@[j]).0@ == h@[j].0@ && out@[j].1@ == h@[j].1@,
        decreases h@.len() - i,
    {
        out.push((h[i].0.clone(), h[i].1.clone()));
        i += 1;
    }
    assert(pairs_view(out@) =~= pairs_view(h@));
    out
}

// ── Retry-After ──────────────────────────────────────────────────────────────

/// Rust's `char::is_whitespace`: the Unicode `White_Space` property.
pub open spec fn is_white_space(c: char) -> bool {
    ||| '\t' <= c && c <= '\r'
    ||| c == ' '
    ||| c == '\u{85}'
    ||| c == '\u{a0}'
    ||| c == '\u{1680}'
    ||| '\u{2000}' <= c && c <= '\u{200a}'
    ||| c == '\u{2028}'
    ||| c == '\u{2029}'
    ||| c == '\u{202f}'
    ||| c == '\u{205f}'
    ||| c == '\u{3000}'
}

/// `str::trim`: the text without leading and trailing white space.
pub open spec fn trimmed(s: Seq<char>) -> Seq<char>
    decreases s.len(),
{
    if s.len() > 0 && is_white_space(s[0]) {
        trimmed(s.drop_first())
    } else if s.len() > 0 && is_white_space(s.last()) {
        trimmed(s.drop_last())
    } else {
        s
    }
}

fn is_white_space_char(c: char) -> (r: bool)
    ensures
        r == is_white_space(c),
{
    ('\t' <= c && c <= '\r') || c == ' ' || c == '\u{85}' || c == '\u{a0}' || c == '\u{1680}'
        || ('\u{2000}' <= c && c <= '\u{200a}') || c == '\u{2028}' || c == '\u{2029}'
        || c == '\u{202f}' || c == '\u{205f}' || c == '\u{3000}'
}

/// The bounds of `cs` without leading and trailing white space.
fn trim_bounds(cs: &Vec<char>) -> (r: (usize, usize))
    ensures
        r.0 <= r.1 <= cs@.len(),
        cs@.subrange(r.0 as int, r.1 as int) == trimmed(cs@),
{
    let n = cs.len();
    let mut lo: usize = 0;
    assert(cs@.subrange(0, n as int) =~= cs@);
    while lo < n && is_white_space_char(cs[lo])
        invariant
            lo <= n == cs@.len(),
            trimmed(cs@) == trimmed(cs@.subrange(lo as int, n as int)),
        decreases n - lo,
    {
        assert(cs@.subrange(lo as int, n as int).drop_first() =~= cs@.subrange(lo + 1, n as int));
        lo += 1;
    }
    let mut hi: usize = n;
    while hi > lo && is_white_space_char(cs[hi - 1])
        invariant
            lo <= hi <= n == cs@.len(),
            trimmed(cs@) == trimmed(cs@.subrange(lo as int, hi as int)),
            lo < hi ==> !is_white_space(cs@[lo as int]),
        decreases hi - lo,
    {
        let ghost t = cs@.subrange(lo as int, hi as int);
        assert(t[0] == cs@[lo as int]);
        assert(t.last() == cs@[hi - 1]);
        assert(t.drop_last() =~= cs@.subrange(lo as int, hi - 1));
        hi -= 1;
    }
    proof {
        let t = cs@.subrange(lo as int, hi as int);
        if lo < hi {
            assert(t[0] == cs@[lo as int]);
            assert(t.last() == cs@[hi - 1]);
        }
    }
    (lo, hi)
}

/// `char::to_ascii_lowercase`.
pub open spec fn to_ascii_lower(c: char) -> char {
    if 'A' <= c && c <= 'Z' {
        ((c as int) + 32) as char
    } else {
        c
    }
}

/// Whether `s` spells the lower-case word `w`, ignoring ASCII case.
pub open spec fn same_word_ignoring_case(s: Seq<char>, w: Seq<char>) -> bool {
    s.len() == w.len() && forall|i: int| 0 <= i < s.len() ==> to_ascii_lower(#[trigger] s[i]) == w[i]
}

/// The index of the first `a` or `b` in `s` (its length when there is none).
pub open spec fn first_of(s: Seq<char>, a: char, b: char) -> int
    decreases s.len(),
{
    if s.len() == 0 {
        0
    } else if s[0] == a || s[0] == b {
        0
    } else {
        1 + first_of(s.drop_first(), a, b)
    }
}

/// Whether the text starts with a minus sign.
pub open spec fn negative_sign(t: Seq<char>) -> bool {
    t.len() > 0 && t[0] == '-'
}

/// The text after an optional leading `+` or `-`.
pub open spec fn unsigned_part(t: Seq<char>) -> Seq<char> {
    if t.len() > 0 && (t[0] == '+' || t[0] == '-') {
        t.drop_first()
    } else {
        t
    }
}

/// A decimal exponent: an optional sign, then one or more digits.
pub open spec fn exponent_value(x: Seq<char>) -> Option<int> {
    let y = unsigned_part(x);
    if y.len() >= 1 && all_digits(y) {
        Some(if negative_sign(x) { -digits_value(y) } else { digits_value(y) as int })
    } else {
        None
    }
}

/// What Rust's `f64::from_str` reads, taken exactly: a number is its sign,
/// its digits and the position of the decimal point among them (its value is
/// `digits × 10^(point − digits.len())`).
pub enum FloatText {
    Number { negative: bool, digits: Seq<char>, point: int },
    Infinity { negative: bool },
    NotANumber,
}

/// The grammar of `f64::from_str`: an optional sign, then `inf`, `infinity`
/// or `nan` in any ASCII case, or digits with an optional `.` (at least one
/// digit in all) and an optional exponent (`e` or `E`, an optional sign, one
/// or more digits).  `None` where the text is not of this form.
pub open spec fn float_text(t: Seq<char>) -> Option<FloatText> {
    let negative = negative_sign(t);
    let b = unsigned_part(t);
    if same_word_ignoring_case(b, seq!['i', 'n', 'f']) || same_word_ignoring_case(
        b,
        seq!['i', 'n', 'f', 'i', 'n', 'i', 't', 'y'],
    ) {
        Some(FloatText::Infinity { negative })
    } else if same_word_ignoring_case(b, seq!['n', 'a', 'n']) {
        Some(FloatText::NotANumber)
    } else {
        match number_text(b) {
            Some((digits, point)) => Some(FloatText::Number { negative, digits, point }),
            None => None,
        }
    }
}

/// An unsigned decimal number: digits with an optional `.` (at least one
/// digit in all) and an optional exponent (`e` or `E`, an optional sign, one
/// or more digits); its digits and the position of the decimal point among
/// them.
pub open spec fn number_text(b: Seq<char>) -> Option<(Seq<char>, int)> {
    let k = first_of(b, 'e', 'E');
    let m = b.take(k);
    let d = first_of(m, '.', '.');
    let int_digits = m.take(d);
    let frac_digits = if d < m.len() { m.skip(d + 1) } else { Seq::<char>::empty() };
    let exp = if k < b.len() { exponent_value(b.skip(k + 1)) } else { Some(0int) };
    if all_digits(int_digits) && all_digits(frac_digits) && int_digits.len() + frac_digits.len() >= 1
        && exp is Some {
        Some((int_digits + frac_digits, int_digits.len() + exp->0))
    } else {
        None
    }
}

/// `10^k`.
pub open spec fn pow10(k: nat) -> nat
    decreases k,
{
    if k == 0 {
        1
    } else {
        10 * pow10((k - 1) as nat)
    }
}

/// The integer part of `digits × 10^(q − digits.len())`: nothing when the
/// point lies before the digits, else the digits before it, followed by
/// zeros where it lies past them.
pub open spec fn scaled_floor(digits: Seq<char>, q: int) -> nat {
    if q <= 0 {
        0
    } else if q <= digits.len() {
        digits_value(digits.take(q))
    } else {
        digits_value(digits) * pow10((q - digits.len()) as nat)
    }
}

/// The delay in milliseconds that a `Retry-After` value in delta-seconds
/// asks for: the trimmed text read as a decimal number of seconds; a
/// positive number gives its whole milliseconds (at most `u64::MAX`),
/// positive infinity gives `u64::MAX`, and anything else gives 0.
pub open spec fn retry_after_ms(value: Seq<char>) -> nat {
    match float_text(trimmed(value)) {
        Some(FloatText::Number { negative, digits, point }) => if negative {
            0
        } else {
            saturated(scaled_floor(digits, point + 3))
        },
        Some(FloatText::Infinity { negative }) => if negative {
            0
        } else {
            u64::MAX as nat
        },
        _ => 0,
    }
}

/// Whether `cs[lo..hi]` spells the lower-case word `w`, ignoring ASCII case.
fn word_is(cs: &Vec<char>, lo: usize, hi: usize, w: &Vec<char>) -> (r: bool)
    requires
        lo <= hi <= cs@.len(),
        forall|i: int| 0 <= i < w@.len() ==> 'a' <= #[trigger] w@[i] && w@[i] <= 'z',
    ensures
        r == same_word_ignoring_case(cs@.subrange(lo as int, hi as int), w@),
{
    let ghost t = cs@.subrange(lo as int, hi as int);
    if hi - lo != w.len() {
        return false;
    }
    let mut i: usize = 0;
    while i < w.len()
        invariant
            0 <= i <= w@.len(),
            hi - lo == w@.len(),
            lo <= hi <= cs@.len(),
            t == cs@.subrange(lo as int, hi as int),
            forall|j: int| 0 <= j < w@.len() ==> 'a' <= #[trigger] w@[j] && w@[j] <= 'z',
            forall|j: int| 0 <= j < i ==> to_ascii_lower(#[trigger] t[j]) == w@[j],
        decreases w@.len() - i,
    {
        let c = cs[lo + i];
        let l = w[i];
        assert(t[i as int] == c);
        let same = c == l || ('A' <= c && c <= 'Z' && (c as u32) + 32 == (l as u32));
        proof {
            if 'A' <= c && c <= 'Z' {
                assert(to_ascii_lower(c) == ((c as int) + 32) as char);
                if (c as u32) + 32 == (l as u32) {
                    assert(((c as int) + 32) as char == l);
                } else {
                    assert(((c as int) + 32) as char != l);
                }
            }
        }
        if !same {
            return false;
        }
        i += 1;
    }
    true
}

/// The index of the first `a` or `b` in `cs[lo..hi]` (`hi` when there is none).
fn first_of_in(cs: &Vec<char>, lo: usize, hi: usize, a: char, b: char) -> (r: usize)
    requires
        lo <= hi <= cs@.len(),
    ensures
        lo <= r <= hi,
        r - lo == first_of(cs@.subrange(lo as int, hi as int), a, b),
{
    let mut i: usize = lo;
    while i < hi && cs[i] != a && cs[i] != b
        invariant
            lo <= i <= hi <= cs@.len(),
            first_of(cs@.subrange(lo as int, hi as int), a, b) == (i - lo) + first_of(
                cs@.subrange(i as int, hi as int),
                a,
                b,
            ),
        decreases hi - i,
    {
        assert(cs@.subrange(i as int, hi as int).drop_first() =~= cs@.subrange(i + 1, hi as int));
        i += 1;
    }
    i
}

/// Whether `cs[lo..hi]` holds only decimal digits.
fn digits_in(cs: &Vec<char>, lo: usize, hi: usize) -> (r: bool)
    requires
        lo <= hi <= cs@.len(),
    ensures
        r == all_digits(cs@.subrange(lo as int, hi as int)),
{
    let ghost t = cs@.subrange(lo as int, hi as int);
    let mut i: usize = lo;
    while i < hi
        invariant
            lo <= i <= hi <= cs@.len(),
            t == cs@.subrange(lo as int, hi as int),
            forall|j: int| 0 <= j < i - lo ==> #[trigger] is_digit(t[j]),
        decreases hi - i,
    {
        assert(t[i - lo] == cs@[i as int]);
        if !('0' <= cs[i] && cs[i] <= '9') {
            assert(!is_digit(t[i - lo]));
            return false;
        }
        i += 1;
    }
    assert(t.len() == hi - lo);
    true
}

/// The value of the digit character `c`.
fn digit_value(c: char) -> (r: u64)
    requires
        is_digit(c),
    ensures
        r == digit_of(c),
        r <= 9,
{
    (c as u64) - ('0' as u64)
}

/// The value of the first `k` digits of `ds`, at most `u64::MAX`.
fn saturated_prefix_value(ds: &Vec<char>, k: usize) -> (r: u64)
    requires
        k <= ds@.len(),
        all_digits(ds@),
    ensures
        r == if digits_value(ds@.take(k as int)) > u64::MAX {
            u64::MAX as nat
        } else {
            digits_value(ds@.take(k as int))
        },
{
    let mut acc: u64 = 0;
    let mut i: usize = 0;
    assert(ds@.take(0) =~= Seq::<char>::empty());
    while i < k
        invariant
            0 <= i <= k <= ds@.len(),
            all_digits(ds@),
            acc == if digits_value(ds@.take(i as int)) > u64::MAX {
                u64::MAX as nat
            } else {
                digits_value(ds@.take(i as int))
            },
        decreases k - i,
    {
        let ghost before = digits_value(ds@.take(i as int));
        assert(is_digit(ds@[i as int]));
        let dv = digit_value(ds[i]);
        proof {
            let t = ds@.take(i + 1);
            assert(t.drop_last() =~= ds@.take(i as int));
            assert(t.last() == ds@[i as int]);
            assert(digits_value(t) == before * 10 + dv);
        }
        if acc == u64::MAX || acc > (u64::MAX - dv) / 10 {
            acc = u64::MAX;
        } else {
            acc = acc * 10 + dv;
        }
        i += 1;
    }
    acc
}

/// The bound beyond which an exponent's magnitude no longer matters.
pub open spec fn exponent_cap() -> int {
    1_000_000_000_000_000_000_000_000_000_000
}

/// An exponent with its magnitude held to `exponent_cap()`.
pub open spec fn clamped_exponent(e: int) -> int {
    if e > exponent_cap() {
        exponent_cap()
    } else if e < -exponent_cap() {
        -exponent_cap()
    } else {
        e
    }
}

/// Reads the exponent `cs[lo..hi]` (an optional sign, then digits), its
/// magnitude held to `exponent_cap()`.
fn exponent_in(cs: &Vec<char>, lo: usize, hi: usize) -> (r: Option<i128>)
    requires
        lo <= hi <= cs@.len(),
    ensures
        r is Some <==> exponent_value(cs@.subrange(lo as int, hi as int)) is Some,
        r matches Some(e) ==> e == clamped_exponent(
            exponent_value(cs@.subrange(lo as int, hi as int))->0,
        ),
{
    let ghost x = cs@.subrange(lo as int, hi as int);
    let negative = lo < hi && cs[lo] == '-';
    let start = if lo < hi && (cs[lo] == '+' || cs[lo] == '-') { lo + 1 } else { lo };
    assert(unsigned_part(x) =~= cs@.subrange(start as int, hi as int));
    if start == hi || !digits_in(cs, start, hi) {
        return None;
    }
    let ghost y = cs@.subrange(start as int, hi as int);
    let cap: u128 = 1_000_000_000_000_000_000_000_000_000_000;
    let mut acc: u128 = 0;
    let mut i: usize = start;
    assert(y.take(0) =~= Seq::<char>::empty());
    while i < hi
        invariant
            start <= i <= hi <= cs@.len(),
            y == cs@.subrange(start as int, hi as int),
            all_digits(y),
            cap == exponent_cap(),
            acc == if digits_value(y.take(i - start)) > exponent_cap() {
                exponent_cap()
            } else {
                digits_value(y.take(i - start)) as int
            },
        decreases hi - i,
    {
        let ghost before = digits_value(y.take(i - start));
        assert(y[i - start] == cs@[i as int]);
        assert(is_digit(y[i - start]));
        let dv = digit_value(cs[i]);
        proof {
            let t = y.take(i - start + 1);
            assert(t.drop_last() =~= y.take(i - start));
            assert(t.last() == y[i - start]);
            assert(digits_value(t) == before * 10 + dv);
        }
        if acc * 10 + (dv as u128) > cap {
            acc = cap;
        } else {
            acc = acc * 10 + (dv as u128);
        }
        i += 1;
    }
    assert(y.take(hi - start) =~= y);
    if negative {
        Some(0 - (acc as i128))
    } else {
        Some(acc as i128)
    }
}

/// Powers of ten grow with the exponent and are at least 1.
pub proof fn lemma_pow10_monotone(a: nat, b: nat)
    requires
        a <= b,
    ensures
        pow10(a) <= pow10(b),
        pow10(a) >= 1,
    decreases b,
{
    if b > a {
        lemma_pow10_monotone(a, (b - 1) as nat);
    } else if a > 0 {
        lemma_pow10_monotone((a - 1) as nat, (a - 1) as nat);
    }
}

/// Past twenty places any positive number of milliseconds exceeds `u64::MAX`.
proof fn lemma_scaled_far(digits: Seq<char>, q: int)
    requires
        q >= digits.len() + 20,
    ensures
        digits_value(digits) == 0 ==> scaled_floor(digits, q) == 0,
        digits_value(digits) > 0 ==> scaled_floor(digits, q) > u64::MAX,
{
    let k = (q - digits.len()) as nat;
    let dv = digits_value(digits);
    assert(pow10(20) == 100_000_000_000_000_000_000) by {
        reveal_with_fuel(pow10, 21);
    }
    lemma_pow10_monotone(20, k);
    if dv > 0 {
        assert(dv * pow10(k) >= pow10(k)) by (nonlinear_arith)
            requires
                dv >= 1,
        ;
    }
}

/// `x`, held to `u64::MAX`.
pub open spec fn saturated(x: nat) -> nat {
    if x > u64::MAX {
        u64::MAX as nat
    } else {
        x
    }
}

/// The integer part of `ds × 10^(q − ds.len())`, at most `u64::MAX`.
fn saturated_scaled(ds: &Vec<char>, q: i128) -> (r: u64)
    requires
        all_digits(ds@),
    ensures
        r == saturated(scaled_floor(ds@, q as int)),
{
    let n = ds.len();
    if q <= 0 {
        return 0;
    }
    if q <= n as i128 {
        return saturated_prefix_value(ds, q as usize);
    }
    let all = saturated_prefix_value(ds, n);
    assert(ds@.take(n as int) =~= ds@);
    let ghost dv = digits_value(ds@);
    if all == 0 {
        assert(dv == 0);
        assert(dv * pow10((q - n) as nat) == 0);
        return 0;
    }
    if q - (n as i128) >= 20 {
        proof {
            lemma_scaled_far(ds@, q as int);
        }
        return u64::MAX;
    }
    let steps: usize = (q - (n as i128)) as usize;
    let mut acc: u64 = all;
    let mut j: usize = 0;
    assert(pow10(0) == 1);
    assert(dv * pow10(0) == dv);
    while j < steps
        invariant
            0 <= j <= steps,
            dv >= 1,
            acc == saturated(dv * pow10(j as nat)),
        decreases steps - j,
    {
        let ghost before = dv * pow10(j as nat);
        assert(dv * pow10((j + 1) as nat) == before * 10) by (nonlinear_arith)
            requires
                pow10((j + 1) as nat) == 10 * pow10(j as nat),
                before == dv * pow10(j as nat),
        ;
        if acc > u64::MAX / 10 {
            acc = u64::MAX;
        } else {
            acc = acc * 10;
        }
        j += 1;
    }
    acc
}

/// The characters `cs[a..b]` followed by `cs[c..d]`.
fn two_ranges(cs: &Vec<char>, a: usize, b: usize, c: usize, d: usize) -> (r: Vec<char>)
    requires
        a <= b <= cs@.len(),
        c <= d <= cs@.len(),
    ensures
        r@ == cs@.subrange(a as int, b as int) + cs@.subrange(c as int, d as int),
{
    let mut ds: Vec<char> = Vec::new();
    let mut i: usize = a;
    while i < b
        invariant
            a <= i <= b <= cs@.len(),
            ds@ == cs@.subrange(a as int, i as int),
        decreases b - i,
    {
        ds.push(cs[i]);
        i += 1;
        assert(ds@ =~= cs@.subrange(a as int, i as int));
    }
    let ghost first = ds@;
    let mut i: usize = c;
    assert(first + cs@.subrange(c as int, c as int) =~= first);
    while i < d
        invariant
            c <= i <= d <= cs@.len(),
            ds@ == first + cs@.subrange(c as int, i as int),
        decreases d - i,
    {
        ds.push(cs[i]);
        i += 1;
        assert(ds@ =~= first + cs@.subrange(c as int, i as int));
    }
    ds
}

/// Reads the unsigned number `cs[p..hi]`: its digits and where the point of
/// its value in milliseconds lies among them.
fn read_number(cs: &Vec<char>, p: usize, hi: usize) -> (r: Option<(Vec<char>, i128)>)
    requires
        p <= hi <= cs@.len(),
    ensures
        r is Some <==> number_text(cs@.subrange(p as int, hi as int)) is Some,
        r matches Some((ds, q)) ==> {
            let (digits, point) = number_text(cs@.subrange(p as int, hi as int))->0;
            &&& ds@ == digits
            &&& all_digits(ds@)
            &&& saturated(scaled_floor(ds@, q as int)) == saturated(scaled_floor(digits, point + 3))
        },
{
    let ghost b = cs@.subrange(p as int, hi as int);
    let k = first_of_in(cs, p, hi, 'e', 'E');
    let d = first_of_in(cs, p, k, '.', '.');
    let frac_lo = if d < k { d + 1 } else { k };
    let ghost m = b.take(k - p);
    proof {
        assert(m =~= cs@.subrange(p as int, k as int));
        assert(m.take(d - p) =~= cs@.subrange(p as int, d as int));
        if d < k {
            assert(m.skip(d - p + 1) =~= cs@.subrange(frac_lo as int, k as int));
        } else {
            assert(cs@.subrange(frac_lo as int, k as int) =~= Seq::<char>::empty());
        }
        if k < hi {
            assert(b.skip(k - p + 1) =~= cs@.subrange(k + 1, hi as int));
        }
    }
    if !digits_in(cs, p, d) || !digits_in(cs, frac_lo, k) || (d - p) + (k - frac_lo) == 0 {
        return None;
    }
    let exp: i128 = if k < hi {
        match exponent_in(cs, k + 1, hi) {
            Some(e) => e,
            None => {
                return None;
            },
        }
    } else {
        0
    };
    let ds = two_ranges(cs, p, d, frac_lo, k);
    let ghost int_digits = cs@.subrange(p as int, d as int);
    let ghost frac_digits = cs@.subrange(frac_lo as int, k as int);
    let ghost true_exp: int = if k < hi { exponent_value(b.skip(k - p + 1))->0 } else { 0 };
    let ghost q_true = int_digits.len() + true_exp + 3;
    assert(number_text(b) == Some((ds@, int_digits.len() + true_exp)));
    assert(all_digits(ds@)) by {
        assert forall|j: int| 0 <= j < ds@.len() implies #[trigger] is_digit(ds@[j]) by {
            if j < int_digits.len() {
                assert(ds@[j] == int_digits[j]);
            } else {
                assert(ds@[j] == frac_digits[j - int_digits.len()]);
            }
        }
    }
    let q: i128 = (d - p) as i128 + exp + 3;
    proof {
        if true_exp > exponent_cap() {
            lemma_scaled_far(ds@, q_true);
            lemma_scaled_far(ds@, q as int);
        }
    }
    Some((ds, q))
}

/// A `Retry-After` value in delta-seconds, as a delay in milliseconds; 0
/// where the value is not a positive number.
pub fn delta_seconds_ms(value: &str) -> (r: u64)
    ensures
        r == retry_after_ms(value@),
{
    let cs = chars_of(value);
    let (lo, hi) = trim_bounds(&cs);
    let ghost t = cs@.subrange(lo as int, hi as int);
    let negative = lo < hi && cs[lo] == '-';
    let p = if lo < hi && (cs[lo] == '+' || cs[lo] == '-') { lo + 1 } else { lo };
    let ghost b = cs@.subrange(p as int, hi as int);
    assert(unsigned_part(t) =~= b);
    assert(negative == negative_sign(t));
    let inf_word = vec!['i', 'n', 'f'];
    let infinity_word = vec!['i', 'n', 'f', 'i', 'n', 'i', 't', 'y'];
    let nan_word = vec!['n', 'a', 'n'];
    assert(inf_word@ =~= seq!['i', 'n', 'f']);
    assert(infinity_word@ =~= seq!['i', 'n', 'f', 'i', 'n', 'i', 't', 'y']);
    assert(nan_word@ =~= seq!['n', 'a', 'n']);
    if word_is(&cs, p, hi, &inf_word) || word_is(&cs, p, hi, &infinity_word) {
        return if negative { 0 } else { u64::MAX };
    }
    if word_is(&cs, p, hi, &nan_word) {
        return 0;
    }
    match read_number(&cs, p, hi) {
        None => 0,
        Some((ds, q)) => if negative {
            0
        } else {
            saturated_scaled(&ds, q)
        },
    }
}

/// The wait a `Retry-After` value asks for at the instant `now_ms`
/// (milliseconds since the Unix epoch): the time until an HTTP-date, none
/// for a date in the past, or the delay of a value in delta-seconds.
pub open spec fn retry_after_delay(value: Seq<char>, now_ms: nat) -> nat {
    match http_date_ms(trimmed(value), now_ms) {
        Some(at) => if at > now_ms {
            (at - now_ms) as nat
        } else {
            0
        },
        None => retry_after_ms(value),
    }
}

/// A `Retry-After` value (delta-seconds or HTTP-date) as a delay in
/// milliseconds from the instant `now_ms`.
pub fn retry_after_delay_at(value: &str, now_ms: u64) -> (r: u64)
    ensures
        r == retry_after_delay(value@, now_ms as nat),
{
    let cs = chars_of(value);
    let (lo, hi) = trim_bounds(&cs);
    let t = two_ranges(&cs, lo, hi, hi, hi);
    assert(t@ =~= trimmed(value@));
    match http_date(&t, now_ms) {
        Some(at) => if at > now_ms {
            at - now_ms
        } else {
            0
        },
        None => delta_seconds_ms(value),
    }
}

/// `std::time::SystemTime`, carried as an opaque value.
#[verifier::external_type_specification]
#[verifier::external_body]
pub struct ExSystemTime(std::time::SystemTime);

/// `std::time::SystemTime::now()`: the clock's reading.  Nothing is stated
/// of it.
#[verifier::external_body]
fn system_now() -> (r: std::time::SystemTime) {
    std::time::SystemTime::now()
}

/// `SystemTime::duration_since(UNIX_EPOCH)` in whole milliseconds (0 for a
/// time before the epoch).  Nothing is stated of the result.
#[verifier::external_body]
fn millis_since_epoch(t: &std::time::SystemTime) -> (r: u64) {
    match t.duration_since(std::time::UNIX_EPOCH) {
        Ok(d) => d.as_millis() as u64,
        Err(_) => 0,
    }
}

/// `parse_retry_after`: a `Retry-After` header value, either delta-seconds
/// (`"30"`) or an HTTP-date, as a delay in milliseconds from now; 0 when the
/// value is absent from both forms, not positive, or a date in the past.
/// The delay of a date depends on the clock reading, which is not stated.
pub fn parse_retry_after(value: &str) -> (r: u64)
    ensures
        exists|now: u64| r == #[trigger] retry_after_delay(value@, now as nat),
        !http_date_layout(trimmed(value@)) ==> r == retry_after_ms(value@),
{
    let now = millis_since_epoch(&system_now());
    let r = retry_after_delay_at(value, now);
    assert(r == retry_after_delay(value@, now as nat));
    r
}

proof fn lemma_first_of_digits(s: Seq<char>, a: char, b: char)
    requires
        all_digits(s),
        !is_digit(a),
        !is_digit(b),
    ensures
        first_of(s, a, b) == s.len(),
    decreases s.len(),
{
    if s.len() > 0 {
        assert(is_digit(s[0]));
        assert forall|i: int| 0 <= i < s.drop_first().len() implies #[trigger] is_digit(
            s.drop_first()[i],
        ) by {
            assert(s.drop_first()[i] == s[i + 1]);
        }
        lemma_first_of_digits(s.drop_first(), a, b);
    }
}

/// A whole number of seconds `n`, written in decimal, asks for `n × 1000`
/// milliseconds (held to `u64::MAX`).
pub proof fn lemma_whole_seconds(n: nat)
    ensures
        retry_after_ms(crate::text::decimal(n)) == saturated(n * 1000),
{
    let d = crate::text::decimal(n);
    crate::text::lemma_decimal(n);
    assert(is_digit(d[0]) && is_digit(d.last()));
    assert(trimmed(d) == d);
    assert(unsigned_part(d) == d);
    assert(!negative_sign(d));
    assert(to_ascii_lower(d[0]) == d[0]);
    assert(!same_word_ignoring_case(d, seq!['i', 'n', 'f']));
    assert(!same_word_ignoring_case(d, seq!['i', 'n', 'f', 'i', 'n', 'i', 't', 'y']));
    assert(!same_word_ignoring_case(d, seq!['n', 'a', 'n']));
    lemma_first_of_digits(d, 'e', 'E');
    lemma_first_of_digits(d, '.', '.');
    assert(d.take(d.len() as int) =~= d);
    assert(d + Seq::<char>::empty() =~= d);
    assert(number_text(d) == Some((d, d.len() as int)));
    assert(pow10(3) == 1000) by {
        reveal_with_fuel(pow10, 4);
    }
    assert(scaled_floor(d, d.len() + 3int) == n * 1000);
}

// ── Backoff ──────────────────────────────────────────────────────────────────

/// Whether a response status is retried: 429 (rate limited) and every 5xx.
pub open spec fn retried_status(status: u16) -> bool {
    status == 429 || status >= 500
}

/// The wait a response asks for in its `retry-after` header at the instant
/// `now_ms` (0 without one).
pub open spec fn server_minimum(headers: Seq<(String, String)>, now_ms: nat) -> nat {
    match lookup(pairs_view(headers), "retry-after"@) {
        Some(v) => retry_after_delay(v, now_ms),
        None => 0,
    }
}

/// What the retry loop does after one attempt.
#[derive(Debug)]
pub enum RetryStep {
    /// Stop, and hand this result to the caller.
    Finish(Result<ElectricResponse, ElectricError>),
    /// Wait, then try again; the server asked for at least `server_min_ms`.
    Retry { server_min_ms: u64 },
}

/// Whether `r` hands back an HTTP error for response `resp` of a request to `url`.
pub open spec fn fetch_error_for(r: RetryStep, resp: ElectricResponse, url: Seq<char>) -> bool {
    r matches RetryStep::Finish(Err(ElectricError::Fetch { status, body, headers, url: u })) && status
        == resp.status && body == resp.body && headers == resp.headers && u@ == url
}

/// What one decision of the retry loop gives: the step and the new count
/// of retries, for the outcome of an attempt at `url` after `attempt`
/// retries, at the instant `now_ms`.
pub open spec fn backoff_result(
    outcome: Result<ElectricResponse, ElectricError>,
    url: Seq<char>,
    attempt: u32,
    max_retries: u32,
    now_ms: u64,
    r: (RetryStep, u32),
) -> bool {
    match outcome {
        Ok(resp) => if resp.status < 400 {
            r.0 == RetryStep::Finish(Ok(resp)) && r.1 == attempt
        } else if !retried_status(resp.status) {
            fetch_error_for(r.0, resp, url) && r.1 == attempt
        } else if attempt + 1 > max_retries {
            fetch_error_for(r.0, resp, url) && r.1 == attempt + 1
        } else {
            r.0 == RetryStep::Retry { server_min_ms: server_minimum(resp.headers@, now_ms as nat) as u64 } && r.1
                == attempt + 1
        },
        Err(ElectricError::BackoffAborted) => r.0 == RetryStep::Finish(
            Err(ElectricError::BackoffAborted),
        ) && r.1 == attempt,
        Err(e) => if attempt + 1 > max_retries {
            r.0 == RetryStep::Finish(Err(e)) && r.1 == attempt + 1
        } else {
            r.0 == RetryStep::Retry { server_min_ms: 0 } && r.1 == attempt + 1
        },
    }
}

/// One decision of the retry loop, given the outcome of an attempt at `url`
/// and the number of retries made so far.  A response below 400 is handed
/// back; a 4xx other than 429 is an HTTP error at once; 429, 5xx and
/// transport errors count a retry, and once the retries exceed
/// `max_retries` end with the HTTP error or the transport error; otherwise
/// the loop waits (at least what `retry-after` asks at `now_ms`, for a
/// response) and tries again.  An abort is handed back as it is.  Returns
/// the step and the new number of retries.
pub fn backoff_step(
    outcome: Result<ElectricResponse, ElectricError>,
    url: &String,
    attempt: u32,
    max_retries: u32,
    now_ms: u64,
) -> (r: (RetryStep, u32))
    requires
        attempt < u32::MAX,
    ensures
        backoff_result(outcome, url@, attempt, max_retries, now_ms, r),
{
    match outcome {
        Ok(resp) => {
            if resp.status < 400 {
                (RetryStep::Finish(Ok(resp)), attempt)
            } else if resp.status < 500 && resp.status != 429 {
                let ElectricResponse { status, headers, body } = resp;
                (RetryStep::Finish(Err(ElectricError::Fetch { status, body, headers, url: url.clone() })), attempt)
            } else {
                let attempt = attempt + 1;
                if attempt > max_retries {
                    let ElectricResponse { status, headers, body } = resp;
                    (RetryStep::Finish(Err(ElectricError::Fetch { status, body, headers, url: url.clone() })), attempt)
                } else {
                    let server_min_ms = match header_get(&resp.headers, "retry-after") {
                        Some(v) => retry_after_delay_at(v.as_str(), now_ms),
                        None => 0,
                    };
                    (RetryStep::Retry { server_min_ms }, attempt)
                }
            }
        },
        Err(ElectricError::BackoffAborted) => (RetryStep::Finish(Err(ElectricError::BackoffAborted)), attempt),
        Err(e) => {
            let attempt = attempt + 1;
            if attempt > max_retries {
                (RetryStep::Finish(Err(e)), attempt)
            } else {
                (RetryStep::Retry { server_min_ms: 0 }, attempt)
            }
        },
    }
}

/// `rand::Rng::gen_range(0..=cap)` on the thread-local generator: a value
/// drawn at random, by the crate's documentation one in `0..=cap`.
#[verifier::external_body]
fn random_up_to(cap: u64) -> (r: u64)
    ensures
        r <= cap,
{
    rand::thread_rng().gen_range(0..=cap)
}

/// The wait before a retry, with full jitter: a random number of
/// milliseconds up to the current delay (held to `max_delay_ms`), raised to
/// the server's minimum.  Every outcome is the server's minimum or lies
/// above it and within the capped delay.
pub fn compute_backoff_wait(delay_ms: u64, server_min_ms: u64, max_delay_ms: u64) -> (r: u64)
    ensures
        r == server_min_ms || (server_min_ms < r && r <= delay_ms && r <= max_delay_ms),
{
    let cap = if delay_ms < max_delay_ms { delay_ms } else { max_delay_ms };
    let jitter = random_up_to(cap);
    jittered_wait(jitter, server_min_ms)
}

/// The wait for a drawn jitter: the jitter, raised to the server's minimum.
pub fn jittered_wait(jitter_ms: u64, server_min_ms: u64) -> (r: u64)
    ensures
        r == if jitter_ms > server_min_ms { jitter_ms } else { server_min_ms },
{
    if jitter_ms > server_min_ms {
        jitter_ms
    } else {
        server_min_ms
    }
}

/// Which responses the retry loop retries: a status below 400 is handed
/// back as it is; a 4xx other than 429 is an error at once without counting
/// a retry; every 5xx and 429 counts a retry and is retried while the count
/// stays within `max_retries`, and ends as an HTTP error once it exceeds it.
pub proof fn lemma_retried_statuses(
    resp: ElectricResponse,
    url: Seq<char>,
    attempt: u32,
    max_retries: u32,
    now_ms: u64,
    r: (RetryStep, u32),
)
    requires
        attempt < u32::MAX,
        backoff_result(Ok(resp), url, attempt, max_retries, now_ms, r),
    ensures
        resp.status < 400 ==> r.0 == RetryStep::Finish(Ok(resp)) && r.1 == attempt,
        400 <= resp.status < 500 && resp.status != 429 ==> (r.0 matches RetryStep::Finish(
            Err(ElectricError::Fetch { status, .. }),
        ) && status == resp.status && r.1 == attempt),
        (500 <= resp.status || resp.status == 429) && attempt + 1 <= max_retries ==> r.0 is Retry
            && r.1 == attempt + 1,
        (500 <= resp.status || resp.status == 429) && attempt + 1 > max_retries ==> (r.0 matches RetryStep::Finish(
            Err(ElectricError::Fetch { status, .. }),
        ) && status == resp.status && r.1 == attempt + 1),
{
}

} // verus!
