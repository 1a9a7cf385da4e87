//! Text parsing: plain decimal numerals into fixed-point milli-units,
//! `HH:MM` times into minutes since midnight, and `YYYY-MM-DD` dates.

use vstd::prelude::*;

use crate::fixed::{parse_range, PARSE_INT_BOUND};
use crate::record::{spec_days_in_month, Date};

verus! {

/// ASCII decimal digit.
pub open spec fn is_digit(c: char) -> bool {
    48 <= c as int <= 57
}

/// Numeric value of one digit.
pub open spec fn digit_val(c: char) -> int {
    c as int - 48
}

/// Every character of the sequence is a digit.
pub open spec fn all_digits(s: Seq<char>) -> bool {
    forall|i: int| 0 <= i < s.len() ==> is_digit(#[trigger] s[i])
}

/// Value of a digit string read most-significant first.
pub open spec fn digits_val(s: Seq<char>) -> int
    decreases s.len(),
{
    if s.len() == 0 {
        0
    } else {
        digits_val(s.drop_last()) * 10 + digit_val(s.last())
    }
}

pub proof fn lemma_digits_val_nonneg(s: Seq<char>)
    requires
        all_digits(s),
    ensures
        digits_val(s) >= 0,
    decreases s.len(),
{
    if s.len() > 0 {
        assert(all_digits(s.drop_last()));
        lemma_digits_val_nonneg(s.drop_last());
    }
}

/// A digit string's value only grows as digits are appended.
pub proof fn lemma_digits_val_prefix_le(s: Seq<char>, i: int)
    requires
        all_digits(s),
        0 <= i <= s.len(),
    ensures
        digits_val(s.take(i)) <= digits_val(s),
    decreases s.len() - i,
{
    if i < s.len() {
        lemma_digits_val_prefix_le(s, i + 1);
        assert(s.take(i + 1).drop_last() =~= s.take(i));
        assert(all_digits(s.take(i)));
        lemma_digits_val_nonneg(s.take(i));
        assert(digits_val(s.take(i + 1)) == digits_val(s.take(i)) * 10 + digit_val(s.take(i + 1).last()));
    } else {
        assert(s.take(i) =~= s);
    }
}

/// Small digit strings have small values.
pub proof fn lemma_digits_val_small(s: Seq<char>)
    requires
        all_digits(s),
        s.len() <= 4,
    ensures
        0 <= digits_val(s) < 10000,
        s.len() <= 3 ==> digits_val(s) <= 999,
        s.len() <= 2 ==> digits_val(s) <= 99,
        s.len() <= 1 ==> digits_val(s) <= 9,
    decreases s.len(),
{
    if s.len() > 0 {
        assert(all_digits(s.drop_last()));
        lemma_digits_val_small(s.drop_last());
    }
}

/// The characters of a string as a vector, in order.
pub fn chars_of(s: &str) -> (v: Vec<char>)
    ensures
        v@ == s@,
{
    let n = s.unicode_len();
    let mut v: Vec<char> = Vec::new();
    let mut i: usize = 0;
    while i < n
        invariant
            i <= n,
            n == s@.len(),
            v@ == s@.take(i as int),
        decreases n - i,
    {
        let c = s.get_char(i);
        v.push(c);
        proof {
            assert(s@.take(i + 1) =~= s@.take(i as int).push(s@[i as int]));
        }
        i += 1;
    }
    proof {
        assert(s@.take(n as int) =~= s@);
    }
    v
}

/// Index of the first `.` in the sequence, or its length if none occurs.
pub open spec fn first_dot(s: Seq<char>) -> int
    decreases s.len(),
{
    if s.len() == 0 {
        0
    } else if s[0] == '.' {
        0
    } else {
        1 + first_dot(s.skip(1))
    }
}

pub proof fn lemma_first_dot(s: Seq<char>)
    ensures
        0 <= first_dot(s) <= s.len(),
        forall|j: int| 0 <= j < first_dot(s) ==> #[trigger] s[j] != '.',
        first_dot(s) < s.len() ==> s[first_dot(s)] == '.',
    decreases s.len(),
{
    if s.len() > 0 && s[0] != '.' {
        lemma_first_dot(s.skip(1));
        assert forall|j: int| 0 <= j < first_dot(s) implies #[trigger] s[j] != '.' by {
            if 1 <= j < first_dot(s) {
                assert(s.skip(1)[j - 1] == s[j]);
            }
        }
    }
}

/// Anything with a `.`-free digit prefix up to index `k`, a `.` or the end
/// at `k`, pins `first_dot` to `k`.
pub proof fn lemma_first_dot_at(s: Seq<char>, k: int)
    requires
        0 <= k <= s.len(),
        forall|j: int| 0 <= j < k ==> #[trigger] s[j] != '.',
        k < s.len() ==> s[k] == '.',
    ensures
        first_dot(s) == k,
{
    lemma_first_dot(s);
    if first_dot(s) < k {
        assert(s[first_dot(s)] == '.');
    } else if first_dot(s) > k {
        assert(s[k] != '.');
    }
}

/// Value in milli-units of a fraction-digit string: the first three
/// digits count, later ones are below the stored resolution.
pub open spec fn frac_milli(s: Seq<char>) -> int {
    if s.len() >= 3 {
        digits_val(s.take(3))
    } else if s.len() == 2 {
        digits_val(s) * 10
    } else {
        digits_val(s) * 100
    }
}

/// An unsigned decimal numeral: one or more integer digits whose value
/// fits the parser's bound, optionally followed by `.` and at least one
/// fraction digit.
pub open spec fn body_valid(s: Seq<char>) -> bool {
    let k = first_dot(s);
    &&& k >= 1
    &&& all_digits(s.take(k))
    &&& digits_val(s.take(k)) <= PARSE_INT_BOUND as int
    &&& (k == s.len() || (k + 1 < s.len() && all_digits(s.skip(k + 1))))
}

/// Milli-unit value of an unsigned decimal numeral.
pub open spec fn body_milli(s: Seq<char>) -> int {
    let k = first_dot(s);
    digits_val(s.take(k)) * 1000 + (if k == s.len() {
        0
    } else {
        frac_milli(s.skip(k + 1))
    })
}

fn is_digit_char(c: char) -> (b: bool)
    ensures
        b == is_digit(c),
{
    let d = c as u32;
    48 <= d && d <= 57
}

/// The numeric value of a digit character, or nothing for any other
/// character.
pub fn char_digit(c: char) -> (r: Option<u32>)
    ensures
        r is Some <==> is_digit(c),
        r is Some ==> r->Some_0 == digit_val(c),
{
    let d = c as u32;
    if 48 <= d && d <= 57 {
        Some(d - 48)
    } else {
        None
    }
}

/// Parse a plain decimal numeral (`-?digits(.digits)?`) into milli-units.
/// Fraction digits beyond the third are below the stored resolution and
/// are ignored; an integer part beyond the parser's bound is rejected.
pub fn parse_decimal_milli(s: &str) -> (r: Option<i64>)
    ensures
        r is Some <==> valid_decimal(s@),
        r is Some ==> r->Some_0 as int == decimal_milli(s@) && parse_range(r->Some_0 as int),
{
    let v = chars_of(s);
    let n = v.len();
    let neg = n > 0 && v[0] == '-';
    let start: usize = if neg {
        1
    } else {
        0
    };
    let ghost body = s@.skip(start as int);
    proof {
        if !neg {
            assert(body =~= s@);
        }
        assert(valid_decimal(s@) == body_valid(body));
        assert(decimal_milli(s@) == if neg { -body_milli(body) } else { body_milli(body) });
    }
    let mut i = start;
    let mut acc: u64 = 0;
    while i < n && is_digit_char(v[i])
        invariant
            v@ == s@,
            n == s@.len(),
            start <= i <= n,
            start <= 1,
            body == s@.skip(start as int),
            valid_decimal(s@) == body_valid(body),
            decimal_milli(s@) == if neg { -body_milli(body) } else { body_milli(body) },
            all_digits(body.take(i - start)),
            acc == digits_val(body.take(i - start)),
            acc <= PARSE_INT_BOUND,
        decreases n - i,
    {
        let c = v[i];
        let d = (c as u32 - 48) as u64;
        let newacc = acc * 10 + d;
        proof {
            assert(body[i - start] == c);
            assert(body.take(i + 1 - start).drop_last() =~= body.take(i - start));
            assert(body.take(i + 1 - start).last() == c);
        }
        if newacc > PARSE_INT_BOUND {
            proof {
                lemma_first_dot(body);
                let fd = first_dot(body);
                if body_valid(body) {
                    assert(fd >= i + 1 - start) by {
                        if fd <= i - start {
                            assert(fd < body.len());
                            assert(body[fd] == '.');
                            if fd < i - start {
                                assert(is_digit(body.take(i - start)[fd]));
                            }
                        }
                    }
                    lemma_digits_val_prefix_le(body.take(fd), i + 1 - start);
                    assert(body.take(fd).take(i + 1 - start) =~= body.take(i + 1 - start));
                }
            }
            return None;
        }
        acc = newacc;
        i += 1;
    }
    if i == start {
        proof {
            lemma_first_dot(body);
            let fd = first_dot(body);
            if body_valid(body) {
                assert(fd >= 1);
                assert(body[0] != '.');
                assert(is_digit(body.take(fd)[0]));
                assert(body[0] == s@[start as int]);
            }
        }
        return None;
    }
    let ghost k = (i - start) as int;
    proof {
        assert forall|j: int| 0 <= j < k implies #[trigger] body[j] != '.' by {
            assert(body.take(k)[j] == body[j]);
            assert(is_digit(body.take(k)[j]));
        }
    }
    if i == n {
        proof {
            lemma_first_dot_at(body, k);
            assert(body.take(k) =~= body);
        }
        let whole = (acc as i64) * 1000;
        return Some(if neg { -whole } else { whole });
    }
    let c = v[i];
    proof {
        assert(body[k] == c);
    }
    if c != '.' {
        proof {
            lemma_first_dot(body);
            let fd = first_dot(body);
            if body_valid(body) {
                if fd == k {
                    assert(body[fd] == '.');
                } else if fd < k {
                    assert(body[fd] != '.');
                } else {
                    assert(fd <= body.len());
                    assert(is_digit(body.take(fd)[k]));
                }
            }
        }
        return None;
    }
    proof {
        lemma_first_dot_at(body, k);
    }
    if i + 1 == n {
        return None;
    }
    let fstart = i + 1;
    let ghost frs = body.skip(k + 1);
    let mut j = fstart;
    let mut fr: u64 = 0;
    let mut cnt: usize = 0;
    while j < n
        invariant
            v@ == s@,
            n == s@.len(),
            start <= 1,
            start < i,
            i < n,
            i + 1 == fstart,
            fstart <= j <= n,
            fstart < n,
            body == s@.skip(start as int),
            valid_decimal(s@) == body_valid(body),
            decimal_milli(s@) == if neg { -body_milli(body) } else { body_milli(body) },
            first_dot(body) == k,
            k == i - start,
            all_digits(body.take(k)),
            acc == digits_val(body.take(k)),
            acc <= PARSE_INT_BOUND,
            frs == body.skip(k + 1),
            frs.len() == n - fstart,
            all_digits(frs.take(j - fstart)),
            cnt == if j - fstart <= 3 { j - fstart } else { 3int },
            fr == digits_val(frs.take(cnt as int)),
            fr <= 999,
        decreases n - j,
    {
        let c2 = v[j];
        proof {
            assert(frs[j - fstart] == body[j - start]);
            assert(body[j - start] == s@[j as int]);
        }
        if !is_digit_char(c2) {
            proof {
                if body_valid(body) {
                    assert(is_digit(frs[j - fstart]));
                }
            }
            return None;
        }
        if cnt < 3 {
            let d = (c2 as u32 - 48) as u64;
            proof {
                assert(frs.take(cnt + 1).drop_last() =~= frs.take(cnt as int));
                assert(frs.take(cnt + 1).last() == c2);
                assert(all_digits(frs.take(cnt + 1)));
                lemma_digits_val_small(frs.take(cnt + 1));
            }
            fr = fr * 10 + d;
            cnt += 1;
        }
        proof {
            assert(frs.take(j + 1 - fstart).drop_last() =~= frs.take(j - fstart));
        }
        j += 1;
    }
    proof {
        assert(frs.take(n - fstart) =~= frs);
        lemma_digits_val_small(frs.take(cnt as int));
    }
    let fraclen = n - fstart;
    let fm: u64 = if fraclen >= 3 {
        fr
    } else if fraclen == 2 {
        fr * 10
    } else {
        fr * 100
    };
    proof {
        if fraclen >= 3 {
            assert(frs.len() >= 3 && frac_milli(frs) == digits_val(frs.take(3)));
        } else if fraclen == 2 {
            assert(frs.take(2) =~= frs);
        } else {
            assert(frs.take(1) =~= frs);
        }
    }
    let whole = (acc as i64) * 1000 + (fm as i64);
    Some(if neg { -whole } else { whole })
}

/// A decimal numeral, optionally preceded by a minus sign.
pub open spec fn valid_decimal(s: Seq<char>) -> bool {
    if s.len() > 0 && s[0] == '-' {
        body_valid(s.skip(1))
    } else {
        body_valid(s)
    }
}

/// Milli-unit value of a decimal numeral.
pub open spec fn decimal_milli(s: Seq<char>) -> int {
    if s.len() > 0 && s[0] == '-' {
        -body_milli(s.skip(1))
    } else {
        body_milli(s)
    }
}

/// A machine-readable time of day: exactly `HH:MM`, hours 00-23,
/// minutes 00-59.
pub open spec fn valid_hhmm(s: Seq<char>) -> bool {
    &&& s.len() == 5
    &&& is_digit(s[0])
    &&& is_digit(s[1])
    &&& s[2] == ':'
    &&& is_digit(s[3])
    &&& is_digit(s[4])
    &&& digit_val(s[0]) * 10 + digit_val(s[1]) <= 23
    &&& digit_val(s[3]) * 10 + digit_val(s[4]) <= 59
}

/// Minutes since midnight denoted by an `HH:MM` string.
pub open spec fn hhmm_minutes(s: Seq<char>) -> int {
    (digit_val(s[0]) * 10 + digit_val(s[1])) * 60 + digit_val(s[3]) * 10 + digit_val(s[4])
}

/// Parse `HH:MM` into minutes since midnight.
pub fn parse_hhmm(s: &str) -> (r: Option<u32>)
    ensures
        r is Some <==> valid_hhmm(s@),
        r is Some ==> r->Some_0 == hhmm_minutes(s@) && r->Some_0 < 1440,
{
    let n = s.unicode_len();
    if n != 5 {
        return None;
    }
    let c0 = s.get_char(0);
    let c1 = s.get_char(1);
    let c2 = s.get_char(2);
    let c3 = s.get_char(3);
    let c4 = s.get_char(4);
    if !(is_digit_char(c0) && is_digit_char(c1) && c2 == ':' && is_digit_char(c3)
        && is_digit_char(c4)) {
        return None;
    }
    let hh = (c0 as u32 - 48) * 10 + (c1 as u32 - 48);
    let mm = (c3 as u32 - 48) * 10 + (c4 as u32 - 48);
    if hh > 23 || mm > 59 {
        return None;
    }
    Some(hh * 60 + mm)
}

/// A date string: exactly `YYYY-MM-DD`, calendar-valid under the
/// Gregorian rules.
pub open spec fn valid_ymd(s: Seq<char>) -> bool {
    &&& s.len() == 10
    &&& is_digit(s[0])
    &&& is_digit(s[1])
    &&& is_digit(s[2])
    &&& is_digit(s[3])
    &&& s[4] == '-'
    &&& is_digit(s[5])
    &&& is_digit(s[6])
    &&& s[7] == '-'
    &&& is_digit(s[8])
    &&& is_digit(s[9])
    &&& 1 <= ymd_month(s) <= 12
    &&& 1 <= ymd_day(s) <= spec_days_in_month(ymd_year(s), ymd_month(s))
}

pub open spec fn ymd_year(s: Seq<char>) -> int {
    digit_val(s[0]) * 1000 + digit_val(s[1]) * 100 + digit_val(s[2]) * 10 + digit_val(s[3])
}

pub open spec fn ymd_month(s: Seq<char>) -> int {
    digit_val(s[5]) * 10 + digit_val(s[6])
}

pub open spec fn ymd_day(s: Seq<char>) -> int {
    digit_val(s[8]) * 10 + digit_val(s[9])
}

/// Days in a month under the Gregorian calendar.
pub fn days_in_month(y: u32, m: u32) -> (r: u32)
    requires
        1 <= m <= 12,
    ensures
        r == spec_days_in_month(y as int, m as int),
{
    if m == 2 {
        if y % 4 == 0 && (y % 100 != 0 || y % 400 == 0) {
            29
        } else {
            28
        }
    } else if m == 4 || m == 6 || m == 9 || m == 11 {
        30
    } else {
        31
    }
}

/// Parse a `YYYY-MM-DD` date string into a calendar-valid date.
pub fn parse_ymd(s: &str) -> (r: Option<Date>)
    ensures
        r is Some <==> valid_ymd(s@),
        r is Some ==> {
            let d = r->Some_0;
            d.year == ymd_year(s@) && d.month == ymd_month(s@) && d.day == ymd_day(s@) && d.wf()
        },
{
    let n = s.unicode_len();
    if n != 10 {
        return None;
    }
    let c0 = s.get_char(0);
    let c1 = s.get_char(1);
    let c2 = s.get_char(2);
    let c3 = s.get_char(3);
    let c4 = s.get_char(4);
    let c5 = s.get_char(5);
    let c6 = s.get_char(6);
    let c7 = s.get_char(7);
    let c8 = s.get_char(8);
    let c9 = s.get_char(9);
    if !(is_digit_char(c0) && is_digit_char(c1) && is_digit_char(c2) && is_digit_char(c3)
        && c4 == '-' && is_digit_char(c5) && is_digit_char(c6) && c7 == '-' && is_digit_char(c8)
        && is_digit_char(c9)) {
        return None;
    }
    let year = (c0 as u32 - 48) * 1000 + (c1 as u32 - 48) * 100 + (c2 as u32 - 48) * 10 + (c3
        as u32 - 48);
    let month = (c5 as u32 - 48) * 10 + (c6 as u32 - 48);
    let day = (c8 as u32 - 48) * 10 + (c9 as u32 - 48);
    if month < 1 || month > 12 {
        return None;
    }
    if day < 1 || day > days_in_month(year, month) {
        return None;
    }
    Some(Date { year, month, day })
}

/// ASCII whitespace.
pub open spec fn is_space(c: char) -> bool {
    c == ' ' || c == '\t' || c == '\n' || c == '\r'
}

pub open spec fn trim_front(s: Seq<char>) -> Seq<char>
    decreases s.len(),
{
    if s.len() > 0 && is_space(s[0]) {
        trim_front(s.skip(1))
    } else {
        s
    }
}

pub open spec fn trim_back(s: Seq<char>) -> Seq<char>
    decreases s.len(),
{
    if s.len() > 0 && is_space(s.last()) {
        trim_back(s.drop_last())
    } else {
        s
    }
}

/// The sequence with leading and trailing ASCII whitespace removed.
pub open spec fn spec_trim(s: Seq<char>) -> Seq<char> {
    trim_back(trim_front(s))
}

proof fn lemma_trim_front_at(s: Seq<char>, j: int)
    requires
        0 <= j <= s.len(),
        forall|i: int| 0 <= i < j ==> is_space(#[trigger] s[i]),
        j < s.len() ==> !is_space(s[j]),
    ensures
        trim_front(s) == s.skip(j),
    decreases j,
{
    if j == 0 {
        assert(s.skip(0) =~= s);
    } else {
        lemma_trim_front_at(s.skip(1), j - 1);
        assert(s.skip(1).skip(j - 1) =~= s.skip(j));
    }
}

proof fn lemma_trim_back_at(s: Seq<char>, h: int)
    requires
        0 <= h <= s.len(),
        forall|i: int| h <= i < s.len() ==> is_space(#[trigger] s[i]),
        h > 0 ==> !is_space(s[h - 1]),
    ensures
        trim_back(s) == s.take(h),
    decreases s.len() - h,
{
    if h == s.len() {
        assert(s.take(h) =~= s);
    } else {
        lemma_trim_back_at(s.drop_last(), h);
        assert(s.drop_last().take(h) =~= s.take(h));
    }
}

fn is_space_char(c: char) -> (b: bool)
    ensures
        b == is_space(c),
{
    c == ' ' || c == '\t' || c == '\n' || c == '\r'
}

/// The slice with leading and trailing ASCII whitespace removed.
pub fn str_trim<'a>(s: &'a str) -> (t: &'a str)
    ensures
        t@ == spec_trim(s@),
{
    let n = s.unicode_len();
    let mut lo: usize = 0;
    while lo < n && is_space_char(s.get_char(lo))
        invariant
            lo <= n,
            n == s@.len(),
            forall|i: int| 0 <= i < lo ==> is_space(#[trigger] s@[i]),
        decreases n - lo,
    {
        lo += 1;
    }
    proof {
        lemma_trim_front_at(s@, lo as int);
    }
    let mut hi: usize = n;
    while hi > lo && is_space_char(s.get_char(hi - 1))
        invariant
            lo <= hi <= n,
            n == s@.len(),
            forall|i: int| hi <= i < n ==> is_space(#[trigger] s@[i]),
        decreases hi,
    {
        hi -= 1;
    }
    proof {
        let fr = s@.skip(lo as int);
        assert(forall|i: int|
            hi - lo <= i < fr.len() ==> is_space(#[trigger] fr[i]) && fr[i] == s@[i + lo]);
        lemma_trim_back_at(fr, hi - lo);
        assert(fr.take(hi - lo) =~= s@.subrange(lo as int, hi as int));
    }
    s.substring_char(lo, hi)
}

/// The textual marker a percent field uses for "below the measurable
/// threshold", as it appears in inner markup text.
pub open spec fn lt5_marker() -> Seq<char> {
    seq!['&', 'l', 't', ';', '5']
}

fn is_lt5_marker_str(s: &str) -> (b: bool)
    ensures
        b == (s@ == lt5_marker()),
{
    let n = s.unicode_len();
    if n != 5 {
        return false;
    }
    let r = s.get_char(0) == '&' && s.get_char(1) == 'l' && s.get_char(2) == 't' && s.get_char(3)
        == ';' && s.get_char(4) == '5';
    proof {
        if r {
            assert(s@ =~= lt5_marker());
        } else {
            assert(s@ != lt5_marker());
        }
    }
    r
}

/// What a percent field denotes, in milli-percent. The field's text is
/// trimmed; without a trailing `%` marker the field reads as zero; with
/// one, the rest must be a decimal numeral, except that (for fields that
/// allow it) the below-threshold marker also reads as zero. `None` is a
/// numeric parse failure.
pub open spec fn spec_percent_milli(s: Seq<char>, lt5_zero: bool) -> Option<int> {
    let t = spec_trim(s);
    if !(t.len() > 0 && t.last() == '%') {
        Some(0)
    } else {
        let b = t.drop_last();
        if lt5_zero && b == lt5_marker() {
            Some(0)
        } else if valid_decimal(b) {
            Some(decimal_milli(b))
        } else {
            None
        }
    }
}

/// Parse a percent field's inner text into milli-percent.
pub fn parse_percent_milli(s: &str, lt5_zero: bool) -> (r: Option<i64>)
    ensures
        (r is Some) == (spec_percent_milli(s@, lt5_zero) is Some),
        r is Some ==> Some(r->Some_0 as int) == spec_percent_milli(s@, lt5_zero) && parse_range(
            r->Some_0 as int),
{
    let t = str_trim(s);
    let tn = t.unicode_len();
    if tn == 0 || t.get_char(tn - 1) != '%' {
        return Some(0);
    }
    let b = t.substring_char(0, tn - 1);
    proof {
        assert(b@ =~= t@.drop_last());
    }
    if lt5_zero && is_lt5_marker_str(b) {
        return Some(0);
    }
    parse_decimal_milli(b)
}

} // verus!
