//! HTTP-date reading: the three forms of RFC 9110 that recipients must
//! accept (IMF-fixdate, the obsolete RFC 850 form and asctime), as an
//! instant in milliseconds since the Unix epoch.

use vstd::prelude::*;
use crate::fetch::pow10;
use crate::text::{all_digits, digits_to_u64, digits_value, is_digit};

verus! {

/// A day name: `Mon` … `Sun` (case-sensitive).
pub open spec fn is_day_name(s: Seq<char>) -> bool {
    ||| s == seq!['M', 'o', 'n']
    ||| s == seq!['T', 'u', 'e']
    ||| s == seq!['W', 'e', 'd']
    ||| s == seq!['T', 'h', 'u']
    ||| s == seq!['F', 'r', 'i']
    ||| s == seq!['S', 'a', 't']
    ||| s == seq!['S', 'u', 'n']
}

/// The number of a month name `Jan` … `Dec` (case-sensitive); 0 for any
/// other text.
pub open spec fn month_number(s: Seq<char>) -> int {
    if s == seq!['J', 'a', 'n'] {
        1
    } else if s == seq!['F', 'e', 'b'] {
        2
    } else if s == seq!['M', 'a', 'r'] {
        3
    } else if s == seq!['A', 'p', 'r'] {
        4
    } else if s == seq!['M', 'a', 'y'] {
        5
    } else if s == seq!['J', 'u', 'n'] {
        6
    } else if s == seq!['J', 'u', 'l'] {
        7
    } else if s == seq!['A', 'u', 'g'] {
        8
    } else if s == seq!['S', 'e', 'p'] {
        9
    } else if s == seq!['O', 'c', 't'] {
        10
    } else if s == seq!['N', 'o', 'v'] {
        11
    } else if s == seq!['D', 'e', 'c'] {
        12
    } else {
        0
    }
}

/// Gregorian leap years.
pub open spec fn is_leap_year(y: int) -> bool {
    (y % 4 == 0 && y % 100 != 0) || y % 400 == 0
}

/// The number of days of month `m` (1 to 12) of year `y`.
pub open spec fn days_in_month(y: int, m: int) -> int {
    if m == 2 {
        if is_leap_year(y) { 29 } else { 28 }
    } else if m == 4 || m == 6 || m == 9 || m == 11 {
        30
    } else {
        31
    }
}

/// Days from 1 January of year `y` to the first day of month `m`.
pub open spec fn days_before_month(y: int, m: int) -> int
    decreases m,
{
    if m <= 1 {
        0
    } else {
        days_before_month(y, m - 1) + days_in_month(y, m - 1)
    }
}

/// Days from 1 January 1970 to 1 January of year `y`.
pub open spec fn days_before_year(y: int) -> int
    decreases y - 1970,
{
    if y <= 1970 {
        0
    } else {
        days_before_year(y - 1) + if is_leap_year(y - 1) { 366int } else { 365int }
    }
}

/// The value of the digits `s[a..b]`.
pub open spec fn field(s: Seq<char>, a: int, b: int) -> int {
    digits_value(s.subrange(a, b)) as int
}

/// A full day name, `Monday` … `Sunday`, at the start of `s`: its length,
/// or 0 when `s` starts with none.
pub open spec fn long_day_name_len(s: Seq<char>) -> int {
    if s.len() >= 6 && s.take(6) == seq!['M', 'o', 'n', 'd', 'a', 'y'] {
        6
    } else if s.len() >= 7 && s.take(7) == seq!['T', 'u', 'e', 's', 'd', 'a', 'y'] {
        7
    } else if s.len() >= 9 && s.take(9) == seq!['W', 'e', 'd', 'n', 'e', 's', 'd', 'a', 'y'] {
        9
    } else if s.len() >= 8 && s.take(8) == seq!['T', 'h', 'u', 'r', 's', 'd', 'a', 'y'] {
        8
    } else if s.len() >= 6 && s.take(6) == seq!['F', 'r', 'i', 'd', 'a', 'y'] {
        6
    } else if s.len() >= 8 && s.take(8) == seq!['S', 'a', 't', 'u', 'r', 'd', 'a', 'y'] {
        8
    } else if s.len() >= 6 && s.take(6) == seq!['S', 'u', 'n', 'd', 'a', 'y'] {
        6
    } else {
        0
    }
}

/// `HH:MM:SS` at position `i` of `s`.
pub open spec fn time_layout(s: Seq<char>, i: int) -> bool {
    &&& 0 <= i
    &&& i + 8 <= s.len()
    &&& all_digits(s.subrange(i, i + 2))
    &&& s[i + 2] == ':'
    &&& all_digits(s.subrange(i + 3, i + 5))
    &&& s[i + 5] == ':'
    &&& all_digits(s.subrange(i + 6, i + 8))
}

/// The instant of a date and time of day, in milliseconds since the Unix
/// epoch; `None` unless the year is 1970 to 9999, the day exists in its
/// month, the hour is below 24, the minute below 60 and the second at most
/// 60 (a leap second).
pub open spec fn instant_ms(year: int, month: int, day: int, hour: int, minute: int, second: int) -> Option<nat> {
    if 1970 <= year <= 9999 && 1 <= month <= 12 && 1 <= day <= days_in_month(year, month) && 0
        <= hour < 24 && 0 <= minute < 60 && 0 <= second <= 60 {
        Some(
            (((days_before_year(year) + days_before_month(year, month) + day - 1) * 86400 + hour
                * 3600 + minute * 60 + second) * 1000) as nat,
        )
    } else {
        None
    }
}

/// The layout of an IMF-fixdate, e.g. `Sun, 06 Nov 1994 08:49:37 GMT`: a
/// day name, `, `, two-digit day, month name, four-digit year, `HH:MM:SS`
/// and `GMT`, separated by single spaces.
pub open spec fn fixdate_layout(s: Seq<char>) -> bool {
    &&& s.len() == 29
    &&& is_day_name(s.subrange(0, 3))
    &&& s[3] == ','
    &&& s[4] == ' '
    &&& all_digits(s.subrange(5, 7))
    &&& s[7] == ' '
    &&& month_number(s.subrange(8, 11)) != 0
    &&& s[11] == ' '
    &&& all_digits(s.subrange(12, 16))
    &&& s[16] == ' '
    &&& time_layout(s, 17)
    &&& s[25] == ' '
    &&& s.subrange(26, 29) == seq!['G', 'M', 'T']
}

/// The instant an IMF-fixdate names.
pub open spec fn imf_fixdate_ms(s: Seq<char>) -> Option<nat> {
    if fixdate_layout(s) {
        instant_ms(
            field(s, 12, 16),
            month_number(s.subrange(8, 11)),
            field(s, 5, 7),
            field(s, 17, 19),
            field(s, 20, 22),
            field(s, 23, 25),
        )
    } else {
        None
    }
}

/// The layout of an asctime date, e.g. `Sun Nov  6 08:49:37 1994`: a day
/// name, the month name, the day as two digits or a space and a digit,
/// `HH:MM:SS` and the four-digit year, separated by single spaces.
pub open spec fn asctime_layout(s: Seq<char>) -> bool {
    &&& s.len() == 24
    &&& is_day_name(s.subrange(0, 3))
    &&& s[3] == ' '
    &&& month_number(s.subrange(4, 7)) != 0
    &&& s[7] == ' '
    &&& (all_digits(s.subrange(8, 10)) || (s[8] == ' ' && is_digit(s[9])))
    &&& s[10] == ' '
    &&& time_layout(s, 11)
    &&& s[19] == ' '
    &&& all_digits(s.subrange(20, 24))
}

/// The day of the month of an asctime date.
pub open spec fn asctime_day(s: Seq<char>) -> int {
    if s[8] == ' ' {
        field(s, 9, 10)
    } else {
        field(s, 8, 10)
    }
}

/// The instant an asctime date names.
pub open spec fn asctime_ms(s: Seq<char>) -> Option<nat> {
    if asctime_layout(s) {
        instant_ms(
            field(s, 20, 24),
            month_number(s.subrange(4, 7)),
            asctime_day(s),
            field(s, 11, 13),
            field(s, 14, 16),
            field(s, 17, 19),
        )
    } else {
        None
    }
}

/// The layout of an RFC 850 date, e.g. `Sunday, 06-Nov-94 08:49:37 GMT`: a
/// full day name, `, `, the date as `DD-Mon-YY`, `HH:MM:SS` and `GMT`,
/// separated by single spaces.
pub open spec fn rfc850_layout(s: Seq<char>) -> bool {
    let k = long_day_name_len(s);
    &&& k > 0
    &&& s.len() == k + 24
    &&& s[k] == ','
    &&& s[k + 1] == ' '
    &&& all_digits(s.subrange(k + 2, k + 4))
    &&& s[k + 4] == '-'
    &&& month_number(s.subrange(k + 5, k + 8)) != 0
    &&& s[k + 8] == '-'
    &&& all_digits(s.subrange(k + 9, k + 11))
    &&& s[k + 11] == ' '
    &&& time_layout(s, k + 12)
    &&& s[k + 20] == ' '
    &&& s.subrange(k + 21, k + 24) == seq!['G', 'M', 'T']
}

/// The calendar year in which the instant `now_ms` falls.
pub open spec fn year_at(now_ms: nat) -> int {
    choose|y: int|
        y >= 1970 && #[trigger] days_before_year(y) * 86_400_000 <= now_ms < days_before_year(y + 1)
            * 86_400_000
}

/// The year with the last two digits `yy` that lies from 49 years before
/// `current` to 50 years after it (a two-digit year more than 50 years
/// ahead is the most recent past year with those digits).
pub open spec fn two_digit_year(yy: int, current: int) -> int {
    let c = current + (yy - current) % 100;
    if c > current + 50 {
        c - 100
    } else {
        c
    }
}

/// The instant an RFC 850 date names, its two-digit year read against the
/// year of `now_ms`.
pub open spec fn rfc850_ms(s: Seq<char>, now_ms: nat) -> Option<nat> {
    if rfc850_layout(s) {
        let k = long_day_name_len(s);
        instant_ms(
            two_digit_year(field(s, k + 9, k + 11), year_at(now_ms)),
            month_number(s.subrange(k + 5, k + 8)),
            field(s, k + 2, k + 4),
            field(s, k + 12, k + 14),
            field(s, k + 15, k + 17),
            field(s, k + 18, k + 20),
        )
    } else {
        None
    }
}

/// The text is laid out as one of the three HTTP-date forms.
pub open spec fn http_date_layout(s: Seq<char>) -> bool {
    fixdate_layout(s) || asctime_layout(s) || rfc850_layout(s)
}

/// The instant an HTTP-date names, in milliseconds since the Unix epoch, at
/// the instant `now_ms` (which decides the century of an RFC 850 date);
/// `None` when the text is no valid HTTP-date.
pub open spec fn http_date_ms(s: Seq<char>, now_ms: nat) -> Option<nat> {
    if fixdate_layout(s) {
        imf_fixdate_ms(s)
    } else if asctime_layout(s) {
        asctime_ms(s)
    } else {
        rfc850_ms(s, now_ms)
    }
}

proof fn lemma_digits_below(s: Seq<char>)
    requires
        all_digits(s),
    ensures
        digits_value(s) < pow10(s.len()),
    decreases s.len(),
{
    if s.len() > 0 {
        assert(all_digits(s.drop_last())) by {
            assert forall|i: int| 0 <= i < s.drop_last().len() implies #[trigger] is_digit(s.drop_last()[i]) by {
                assert(s.drop_last()[i] == s[i]);
            }
        }
        assert(is_digit(s[s.len() - 1]));
        lemma_digits_below(s.drop_last());
        assert(pow10(s.len()) == 10 * pow10(s.drop_last().len()));
    }
}

/// The digits `cs[a..b]` (at most four) and their value.
fn small_field(cs: &Vec<char>, a: usize, b: usize) -> (r: Option<u64>)
    requires
        a <= b <= cs@.len(),
        b - a <= 4,
    ensures
        r is Some <==> all_digits(cs@.subrange(a as int, b as int)),
        r matches Some(v) ==> v == digits_value(cs@.subrange(a as int, b as int)),
        r matches Some(v) ==> v < 10000,
{
    proof {
        if all_digits(cs@.subrange(a as int, b as int)) {
            lemma_digits_below(cs@.subrange(a as int, b as int));
        }
        assert(pow10(4) == 10000) by {
            reveal_with_fuel(pow10, 5);
        }
        crate::fetch::lemma_pow10_monotone((b - a) as nat, 4);
    }
    digits_to_u64(cs, a, b)
}

/// Whether `cs[i..i + 3]` is the word `x y z`.
fn word3(cs: &Vec<char>, i: usize, x: char, y: char, z: char) -> (r: bool)
    requires
        i + 3 <= cs.len(),
    ensures
        r == (cs@.subrange(i as int, i + 3) == seq![x, y, z]),
{
    let r = cs[i] == x && cs[i + 1] == y && cs[i + 2] == z;
    proof {
        let w = cs@.subrange(i as int, i + 3);
        if r {
            assert(w =~= seq![x, y, z]);
        } else if w == seq![x, y, z] {
            assert(w[0] == x && w[1] == y && w[2] == z);
        }
    }
    r
}

fn month_at(cs: &Vec<char>, i: usize) -> (r: u64)
    requires
        i + 3 <= cs@.len(),
    ensures
        r == month_number(cs@.subrange(i as int, i + 3)),
{
    if word3(cs, i, 'J', 'a', 'n') {
        1
    } else if word3(cs, i, 'F', 'e', 'b') {
        2
    } else if word3(cs, i, 'M', 'a', 'r') {
        3
    } else if word3(cs, i, 'A', 'p', 'r') {
        4
    } else if word3(cs, i, 'M', 'a', 'y') {
        5
    } else if word3(cs, i, 'J', 'u', 'n') {
        6
    } else if word3(cs, i, 'J', 'u', 'l') {
        7
    } else if word3(cs, i, 'A', 'u', 'g') {
        8
    } else if word3(cs, i, 'S', 'e', 'p') {
        9
    } else if word3(cs, i, 'O', 'c', 't') {
        10
    } else if word3(cs, i, 'N', 'o', 'v') {
        11
    } else if word3(cs, i, 'D', 'e', 'c') {
        12
    } else {
        0
    }
}

fn day_name_at(cs: &Vec<char>, i: usize) -> (r: bool)
    requires
        i + 3 <= cs@.len(),
    ensures
        r == is_day_name(cs@.subrange(i as int, i + 3)),
{
    word3(cs, i, 'M', 'o', 'n') || word3(cs, i, 'T', 'u', 'e') || word3(cs, i, 'W', 'e', 'd')
        || word3(cs, i, 'T', 'h', 'u') || word3(cs, i, 'F', 'r', 'i') || word3(cs, i, 'S', 'a', 't')
        || word3(cs, i, 'S', 'u', 'n')
}

fn leap_year(y: u64) -> (r: bool)
    ensures
        r == is_leap_year(y as int),
{
    (y % 4 == 0 && y % 100 != 0) || y % 400 == 0
}

fn month_days(y: u64, m: u64) -> (r: u64)
    ensures
        r == days_in_month(y as int, m as int),
{
    if m == 2 {
        if leap_year(y) { 29 } else { 28 }
    } else if m == 4 || m == 6 || m == 9 || m == 11 {
        30
    } else {
        31
    }
}

/// Days from 1 January 1970 to the given date (a year from 1970 to 9999).
fn days_since_epoch(year: u64, month: u64, day: u64) -> (r: u64)
    requires
        1970 <= year <= 9999,
        1 <= month <= 12,
        1 <= day <= 31,
    ensures
        r == days_before_year(year as int) + days_before_month(year as int, month as int) + day - 1,
        r < 3_000_000,
{
    let mut total: u64 = 0;
    let mut y: u64 = 1970;
    while y < year
        invariant
            1970 <= y <= year <= 9999,
            total == days_before_year(y as int),
            total <= (y - 1970) * 366,
        decreases year - y,
    {
        total = total + if leap_year(y) { 366 } else { 365 };
        y = y + 1;
    }
    let mut m: u64 = 1;
    let mut before: u64 = 0;
    while m < month
        invariant
            1 <= m <= month <= 12,
            before == days_before_month(year as int, m as int),
            before <= (m - 1) * 31,
        decreases month - m,
    {
        before = before + month_days(year, m);
        m = m + 1;
    }
    total + before + day - 1
}

/// The instant of a date and time of day.
fn instant(year: u64, month: u64, day: u64, hour: u64, minute: u64, second: u64) -> (r: Option<u64>)
    ensures
        r matches Some(v) ==> instant_ms(
            year as int,
            month as int,
            day as int,
            hour as int,
            minute as int,
            second as int,
        ) == Some(v as nat),
        r is None ==> instant_ms(
            year as int,
            month as int,
            day as int,
            hour as int,
            minute as int,
            second as int,
        ) is None,
{
    if year < 1970 || year > 9999 || month < 1 || month > 12 || day < 1 || hour >= 24 || minute
        >= 60 || second > 60 {
        return None;
    }
    if day > month_days(year, month) {
        return None;
    }
    let days = days_since_epoch(year, month, day);
    Some((days * 86400 + hour * 3600 + minute * 60 + second) * 1000)
}

/// `HH:MM:SS` at position `i` of `cs`: the hour, minute and second.
fn time_at(cs: &Vec<char>, i: usize) -> (r: Option<(u64, u64, u64)>)
    requires
        i + 8 <= cs.len(),
    ensures
        r is Some <==> time_layout(cs@, i as int),
        r matches Some((h, m, s)) ==> h == field(cs@, i as int, i + 2) && m == field(cs@, i + 3, i + 5)
            && s == field(cs@, i + 6, i + 8),
{
    if cs[i + 2] != ':' || cs[i + 5] != ':' {
        return None;
    }
    match (small_field(cs, i, i + 2), small_field(cs, i + 3, i + 5), small_field(cs, i + 6, i + 8)) {
        (Some(h), Some(m), Some(s)) => Some((h, m, s)),
        _ => None,
    }
}

/// Reads `cs` as an IMF-fixdate.
fn imf_fixdate(cs: &Vec<char>) -> (r: Option<u64>)
    ensures
        r matches Some(v) ==> imf_fixdate_ms(cs@) == Some(v as nat),
        r is None ==> imf_fixdate_ms(cs@) is None,
{
    if cs.len() != 29 || !day_name_at(cs, 0) || cs[3] != ',' || cs[4] != ' ' || cs[7] != ' '
        || cs[11] != ' ' || cs[16] != ' ' || cs[25] != ' ' || !word3(cs, 26, 'G', 'M', 'T') {
        return None;
    }
    let month = month_at(cs, 8);
    if month == 0 {
        return None;
    }
    let (day, year, (hour, minute, second)) = match (
        small_field(cs, 5, 7),
        small_field(cs, 12, 16),
        time_at(cs, 17),
    ) {
        (Some(d), Some(y), Some(t)) => (d, y, t),
        _ => {
            return None;
        },
    };
    assert(fixdate_layout(cs@));
    instant(year, month, day, hour, minute, second)
}

/// Reads `cs` as an asctime date.
fn asctime(cs: &Vec<char>) -> (r: Option<u64>)
    ensures
        r matches Some(v) ==> asctime_ms(cs@) == Some(v as nat),
        r is None ==> asctime_ms(cs@) is None,
{
    if cs.len() != 24 || !day_name_at(cs, 0) || cs[3] != ' ' || cs[7] != ' ' || cs[10] != ' '
        || cs[19] != ' ' {
        return None;
    }
    let month = month_at(cs, 4);
    if month == 0 {
        return None;
    }
    let day = if cs[8] == ' ' {
        small_field(cs, 9, 10)
    } else {
        small_field(cs, 8, 10)
    };
    proof {
        if cs@[8] == ' ' {
            let t = cs@.subrange(9, 10);
            assert(t[0] == cs@[9]);
            assert(all_digits(t) <==> is_digit(cs@[9]));
            assert(!is_digit(cs@.subrange(8, 10)[0]));
        }
    }
    let (day, year, (hour, minute, second)) = match (day, small_field(cs, 20, 24), time_at(cs, 11)) {
        (Some(d), Some(y), Some(t)) => (d, y, t),
        _ => {
            return None;
        },
    };
    assert(asctime_layout(cs@));
    instant(year, month, day, hour, minute, second)
}

/// Whether `cs` starts with the word `w`.
fn starts_with(cs: &Vec<char>, w: &Vec<char>) -> (r: bool)
    ensures
        r == (cs@.len() >= w@.len() && cs@.take(w@.len() as int) == w@),
{
    if cs.len() < w.len() {
        return false;
    }
    let mut i: usize = 0;
    while i < w.len()
        invariant
            0 <= i <= w@.len() <= cs@.len(),
            forall|j: int| 0 <= j < i ==> cs@[j] == w@[j],
        decreases w@.len() - i,
    {
        if cs[i] != w[i] {
            assert(cs@.take(w@.len() as int)[i as int] != w@[i as int]);
            return false;
        }
        i += 1;
    }
    assert(cs@.take(w@.len() as int) =~= w@);
    true
}

/// The length of the full day name `cs` starts with (0 for none).
fn long_day_name_at(cs: &Vec<char>) -> (r: usize)
    ensures
        r == long_day_name_len(cs@),
{
    let monday = vec!['M', 'o', 'n', 'd', 'a', 'y'];
    let tuesday = vec!['T', 'u', 'e', 's', 'd', 'a', 'y'];
    let wednesday = vec!['W', 'e', 'd', 'n', 'e', 's', 'd', 'a', 'y'];
    let thursday = vec!['T', 'h', 'u', 'r', 's', 'd', 'a', 'y'];
    let friday = vec!['F', 'r', 'i', 'd', 'a', 'y'];
    let saturday = vec!['S', 'a', 't', 'u', 'r', 'd', 'a', 'y'];
    let sunday = vec!['S', 'u', 'n', 'd', 'a', 'y'];
    assert(monday@ =~= seq!['M', 'o', 'n', 'd', 'a', 'y']);
    assert(tuesday@ =~= seq!['T', 'u', 'e', 's', 'd', 'a', 'y']);
    assert(wednesday@ =~= seq!['W', 'e', 'd', 'n', 'e', 's', 'd', 'a', 'y']);
    assert(thursday@ =~= seq!['T', 'h', 'u', 'r', 's', 'd', 'a', 'y']);
    assert(friday@ =~= seq!['F', 'r', 'i', 'd', 'a', 'y']);
    assert(saturday@ =~= seq!['S', 'a', 't', 'u', 'r', 'd', 'a', 'y']);
    assert(sunday@ =~= seq!['S', 'u', 'n', 'd', 'a', 'y']);
    if starts_with(cs, &monday) {
        6
    } else if starts_with(cs, &tuesday) {
        7
    } else if starts_with(cs, &wednesday) {
        9
    } else if starts_with(cs, &thursday) {
        8
    } else if starts_with(cs, &friday) {
        6
    } else if starts_with(cs, &saturday) {
        8
    } else if starts_with(cs, &sunday) {
        6
    } else {
        0
    }
}

proof fn lemma_days_before_year_grows(a: int, b: int)
    requires
        1970 <= a <= b,
    ensures
        days_before_year(a) + 365 * (b - a) <= days_before_year(b),
    decreases b - a,
{
    if a < b {
        lemma_days_before_year_grows(a, b - 1);
    }
}

/// The number of days of year `y`.
fn year_length(y: u64) -> (r: u64)
    ensures
        r == if is_leap_year(y as int) { 366int } else { 365int },
{
    if leap_year(y) {
        366
    } else {
        365
    }
}

/// The calendar year in which the instant `now_ms` falls.
fn current_year(now_ms: u64) -> (y: u64)
    ensures
        y == year_at(now_ms as nat),
        1970 <= y,
{
    let mut y: u64 = 1970;
    let mut days: u64 = 0;
    while ((days + year_length(y)) as u128) * 86_400_000 <= now_ms as u128
        invariant
            1970 <= y,
            days == days_before_year(y as int),
            days * 86_400_000 <= now_ms,
            365 * (y - 1970) <= days,
        decreases now_ms - days * 86_400_000,
    {
        days = days + year_length(y);
        y = y + 1;
    }
    proof {
        let yy = y as int;
        assert(days_before_year(yy + 1) == days_before_year(yy) + if is_leap_year(yy) { 366int } else { 365int });
        assert(yy >= 1970 && days_before_year(yy) * 86_400_000 <= now_ms < days_before_year(yy + 1) * 86_400_000);
        let c = year_at(now_ms as nat);
        assert(c >= 1970 && days_before_year(c) * 86_400_000 <= now_ms < days_before_year(c + 1) * 86_400_000);
        if c < yy {
            lemma_days_before_year_grows(c + 1, yy);
        } else if c > yy {
            lemma_days_before_year_grows(yy + 1, c);
        }
    }
    y
}

/// The year with last two digits `yy` nearest the window around `current`.
fn resolve_two_digit_year(yy: u64, current: u64) -> (r: u64)
    requires
        yy < 100,
        1970 <= current <= 0xffff_ffff,
    ensures
        r == two_digit_year(yy as int, current as int),
{
    let c = current + (yy + 100 - current % 100) % 100;
    assert((yy + 100 - current % 100) % 100 == (yy - current) % 100) by (nonlinear_arith)
        requires
            yy < 100,
            current >= 0,
    ;
    if c > current + 50 {
        c - 100
    } else {
        c
    }
}

/// Reads `cs` as an RFC 850 date at the instant `now_ms`.
fn rfc850(cs: &Vec<char>, now_ms: u64) -> (r: Option<u64>)
    ensures
        r matches Some(v) ==> rfc850_ms(cs@, now_ms as nat) == Some(v as nat),
        r is None ==> rfc850_ms(cs@, now_ms as nat) is None,
{
    let k = long_day_name_at(cs);
    if k == 0 || cs.len() != k + 24 || cs[k] != ',' || cs[k + 1] != ' ' || cs[k + 4] != '-'
        || cs[k + 8] != '-' || cs[k + 11] != ' ' || cs[k + 20] != ' ' || !word3(
        cs,
        k + 21,
        'G',
        'M',
        'T',
    ) {
        return None;
    }
    let month = month_at(cs, k + 5);
    if month == 0 {
        return None;
    }
    let (day, yy, (hour, minute, second)) = match (
        small_field(cs, k + 2, k + 4),
        small_field(cs, k + 9, k + 11),
        time_at(cs, k + 12),
    ) {
        (Some(d), Some(y), Some(t)) => (d, y, t),
        _ => {
            return None;
        },
    };
    assert(rfc850_layout(cs@));
    proof {
        lemma_digits_below(cs@.subrange(k + 9, k + 11));
        assert(pow10(2) == 100) by {
            reveal_with_fuel(pow10, 3);
        }
    }
    let current = current_year(now_ms);
    if current > 0xffff_ffff {
        proof {
            let c = current as int;
            assert(two_digit_year(yy as int, c) >= c - 49);
        }
        return None;
    }
    let year = resolve_two_digit_year(yy, current);
    instant(year, month, day, hour, minute, second)
}

/// Reads `cs` as an HTTP-date (any of its three forms) at the instant
/// `now_ms`: the instant it names in milliseconds since the Unix epoch.
pub fn http_date(cs: &Vec<char>, now_ms: u64) -> (r: Option<u64>)
    ensures
        r matches Some(v) ==> http_date_ms(cs@, now_ms as nat) == Some(v as nat),
        r is None ==> http_date_ms(cs@, now_ms as nat) is None,
{
    match imf_fixdate(cs) {
        Some(v) => {
            return Some(v);
        },
        None => {},
    }
    match asctime(cs) {
        Some(v) => {
            return Some(v);
        },
        None => {},
    }
    proof {
        if fixdate_layout(cs@) {
            assert(cs@.len() == 29);
        }
    }
    rfc850(cs, now_ms)
}

} // verus!
