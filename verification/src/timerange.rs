//! The caller's time-axis descriptor: a start hour, a step in hours and
//! a step count, written `start:step:count`, constrained so the last
//! query time still falls on the same day.

use vstd::prelude::*;

use crate::text::{all_digits, digits_val};

verus! {

/// A time-axis descriptor. Query times are `start + k * step` hours,
/// `k < count`, all within one day.
#[derive(Clone, Copy, PartialEq, Eq, Structural, Debug)]
pub struct TimeRange {
    pub start: u32,
    pub step: u32,
    pub count: u32,
}

/// How a descriptor string can be rejected.
#[derive(Clone, Copy, PartialEq, Eq, Structural, Debug)]
pub enum TimeRangeError {
    /// Not three colon-separated hour numbers in range.
    BadFormat,
    /// Well-formed, but the last query time would land past the day.
    OverlapsNextDay,
}

/// Index of the first `:` in the sequence, or its length if none occurs.
pub open spec fn first_colon(s: Seq<char>) -> int
    decreases s.len(),
{
    if s.len() == 0 {
        0
    } else if s[0] == ':' {
        0
    } else {
        1 + first_colon(s.skip(1))
    }
}

proof fn lemma_first_colon(s: Seq<char>)
    ensures
        0 <= first_colon(s) <= s.len(),
        forall|j: int| 0 <= j < first_colon(s) ==> #[trigger] s[j] != ':',
        first_colon(s) < s.len() ==> s[first_colon(s)] == ':',
    decreases s.len(),
{
    if s.len() > 0 && s[0] != ':' {
        lemma_first_colon(s.skip(1));
        assert forall|j: int| 0 <= j < first_colon(s) implies #[trigger] s[j] != ':' by {
            if 1 <= j < first_colon(s) {
                assert(s.skip(1)[j - 1] == s[j]);
            }
        }
    }
}

proof fn lemma_first_colon_at(s: Seq<char>, k: int)
    requires
        0 <= k <= s.len(),
        forall|j: int| 0 <= j < k ==> #[trigger] s[j] != ':',
        k < s.len() ==> s[k] == ':',
    ensures
        first_colon(s) == k,
{
    lemma_first_colon(s);
    if first_colon(s) < k {
        assert(s[first_colon(s)] == ':');
    } else if first_colon(s) > k {
        assert(s[k] != ':');
    }
}

/// One or two digits.
pub open spec fn hour_part(s: Seq<char>) -> bool {
    (s.len() == 1 || s.len() == 2) && all_digits(s)
}

/// Three colon-separated one-or-two-digit numbers, with the start hour
/// below 24 and the step and count at most 24.
pub open spec fn time_range_text_valid(s: Seq<char>) -> bool {
    let a = first_colon(s);
    &&& a < s.len()
    &&& hour_part(s.take(a))
    &&& ({
        let rest = s.skip(a + 1);
        let b = first_colon(rest);
        &&& b < rest.len()
        &&& hour_part(rest.take(b))
        &&& ({
            let last = rest.skip(b + 1);
            &&& first_colon(last) == last.len()
            &&& hour_part(last)
        })
        &&& digits_val(rest.take(b)) <= 24
        &&& digits_val(rest.skip(b + 1)) <= 24
    })
    &&& digits_val(s.take(a)) <= 23
}

/// The three numbers of a well-formed descriptor string.
pub open spec fn time_range_values(s: Seq<char>) -> (int, int, int) {
    let a = first_colon(s);
    let rest = s.skip(a + 1);
    let b = first_colon(rest);
    (digits_val(s.take(a)), digits_val(rest.take(b)), digits_val(rest.skip(b + 1)))
}

/// The same-day constraint: the last query hour, `start + step *
/// (count - 1)`, falls before hour 24.
pub open spec fn same_day(start: int, step: int, count: int) -> bool {
    start + step * (count - 1) < 24
}

impl TimeRange {
    /// In-range fields that satisfy the same-day constraint.
    pub open spec fn wf(self) -> bool {
        &&& self.start <= 23
        &&& self.step <= 24
        &&& self.count <= 24
        &&& same_day(self.start as int, self.step as int, self.count as int)
    }

    /// Parse a `start:step:count` descriptor.
    pub fn from_str(s: &str) -> (r: Result<TimeRange, TimeRangeError>)
        ensures
            r matches Ok(tr) ==> time_range_text_valid(s@) && (
            tr.start as int,
            tr.step as int,
            tr.count as int,
            ) == time_range_values(s@) && tr.wf(),
            r matches Err(e) ==> (e == TimeRangeError::BadFormat && !time_range_text_valid(s@)) || (
            e == TimeRangeError::OverlapsNextDay && time_range_text_valid(s@) && !({
                let (start, step, count) = time_range_values(s@);
                same_day(start, step, count)
            })),
    {
        let v = crate::text::chars_of(s);
        let n = v.len();
        proof {
            lemma_first_colon(s@);
        }
        // first part
        let mut i: usize = 0;
        while i < n && v[i] != ':'
            invariant
                i <= n,
                n == s@.len(),
                v@ == s@,
                forall|j: int| 0 <= j < i ==> #[trigger] s@[j] != ':',
            decreases n - i,
        {
            i += 1;
        }
        proof {
            lemma_first_colon_at(s@, i as int);
        }
        if i == n {
            return Err(TimeRangeError::BadFormat);
        }
        let start = match parse_hour_part(&v, 0, i) {
            Option::None => {
                return Err(TimeRangeError::BadFormat);
            },
            Option::Some(h) => h,
        };
        let ghost rest = s@.skip(i + 1);
        // second part
        let snd = i + 1;
        let mut j: usize = snd;
        while j < n && v[j] != ':'
            invariant
                snd <= j <= n,
                n == s@.len(),
                v@ == s@,
                snd == i + 1,
                i < n,
                rest == s@.skip(i + 1),
                forall|l: int| snd <= l < j ==> #[trigger] s@[l] != ':',
            decreases n - j,
        {
            j += 1;
        }
        proof {
            assert(forall|l: int| 0 <= l < j - snd ==> #[trigger] rest[l] != ':');
            if j < n {
                assert(rest[j - snd] == s@[j as int]);
            }
            lemma_first_colon_at(rest, j - snd);
            assert(rest.take(j - snd) =~= s@.subrange(snd as int, j as int));
        }
        if j == n {
            return Err(TimeRangeError::BadFormat);
        }
        let step = match parse_hour_part(&v, snd, j) {
            Option::None => {
                return Err(TimeRangeError::BadFormat);
            },
            Option::Some(h) => h,
        };
        // third part
        let trd = j + 1;
        let ghost last = rest.skip(j - snd + 1);
        proof {
            assert(last =~= s@.skip(trd as int));
        }
        let mut l: usize = trd;
        while l < n && v[l] != ':'
            invariant
                trd <= l <= n,
                n == s@.len(),
                v@ == s@,
                trd == j + 1,
                j < n,
                last == s@.skip(trd as int),
                forall|m: int| trd <= m < l ==> #[trigger] s@[m] != ':',
            decreases n - l,
        {
            l += 1;
        }
        if l < n {
            proof {
                assert(last[l - trd] == s@[l as int]);
                lemma_first_colon_at(last, l - trd);
            }
            return Err(TimeRangeError::BadFormat);
        }
        proof {
            assert(forall|m: int| 0 <= m < last.len() ==> #[trigger] last[m] != ':');
            lemma_first_colon_at(last, last.len() as int);
            assert(last =~= s@.subrange(trd as int, n as int));
        }
        let count = match parse_hour_part(&v, trd, n) {
            Option::None => {
                return Err(TimeRangeError::BadFormat);
            },
            Option::Some(h) => h,
        };
        if start > 23 || step > 24 || count > 24 {
            return Err(TimeRangeError::BadFormat);
        }
        if count >= 1 {
            proof {
                assert(step * (count - 1) <= 552) by (nonlinear_arith)
                    requires step <= 24 && 1 <= count <= 24;
                assert(step * (count - 1) >= 0) by (nonlinear_arith)
                    requires step >= 0 && count >= 1;
            }
            let last_hour = start + step * (count - 1);
            if last_hour >= 24 {
                return Err(TimeRangeError::OverlapsNextDay);
            }
        }
        proof {
            if count == 0 {
                assert(same_day(start as int, step as int, count as int)) by (nonlinear_arith)
                    requires count == 0 && start <= 23 && step <= 24;
            }
        }
        Ok(TimeRange { start, step, count })
    }

    /// The query times, in minutes since midnight, in ascending order.
    pub fn times(&self) -> (r: Vec<u32>)
        requires
            self.wf(),
        ensures
            r@.len() == self.count,
            forall|k: int|
                0 <= k < self.count ==> #[trigger] r@[k] == (self.start + k * self.step) * 60
                    && r@[k] < 1440,
    {
        let mut r: Vec<u32> = Vec::new();
        let mut k: u32 = 0;
        while k < self.count
            invariant
                k <= self.count,
                self.wf(),
                r@.len() == k,
                forall|m: int|
                    0 <= m < k ==> #[trigger] r@[m] == (self.start + m * self.step) * 60 && r@[m]
                        < 1440,
            decreases self.count - k,
        {
            proof {
                assert(self.start + k * self.step <= self.start + (self.count - 1) * self.step)
                    by (nonlinear_arith)
                    requires k < self.count && self.step >= 0;
                assert(self.start + (self.count - 1) * self.step < 24) by (nonlinear_arith)
                    requires same_day(self.start as int, self.step as int, self.count as int);
            }
            let hour = self.start + k * self.step;
            r.push(hour * 60);
            k += 1;
        }
        r
    }
}

/// Parse the digit run `v[from..to]` as an hour number of one or two
/// digits.
fn parse_hour_part(v: &Vec<char>, from: usize, to: usize) -> (r: Option<u32>)
    requires
        from <= to <= v@.len(),
    ensures
        r is Some <==> hour_part(v@.subrange(from as int, to as int)),
        r is Some ==> r->Some_0 == digits_val(v@.subrange(from as int, to as int)) && r->Some_0
            <= 99,
{
    let ghost part = v@.subrange(from as int, to as int);
    if to - from != 1 && to - from != 2 {
        return None;
    }
    let c0 = v[from];
    proof {
        assert(part[0] == c0);
    }
    let d0 = match crate::text::char_digit(c0) {
        Option::None => {
            return None;
        },
        Option::Some(d) => d,
    };
    if to - from == 1 {
        proof {
            assert(all_digits(part)) by {
                assert(forall|m: int| 0 <= m < part.len() ==> #[trigger] part[m] == c0);
            }
            assert(part.drop_last() =~= Seq::<char>::empty());
            assert(part.last() == c0);
            assert(digits_val(Seq::<char>::empty()) == 0);
            assert(digits_val(part) == d0);
        }
        return Some(d0);
    }
    let c1 = v[from + 1];
    proof {
        assert(part[1] == c1);
    }
    let d1 = match crate::text::char_digit(c1) {
        Option::None => {
            return None;
        },
        Option::Some(d) => d,
    };
    proof {
        assert(all_digits(part)) by {
            assert(forall|m: int|
                0 <= m < part.len() ==> #[trigger] part[m] == (if m == 0 {
                    c0
                } else {
                    c1
                }));
        }
        assert(part.last() == c1);
        assert(part.drop_last() =~= part.take(1));
        assert(part.take(1).last() == c0);
        assert(part.take(1).drop_last() =~= Seq::<char>::empty());
        assert(digits_val(Seq::<char>::empty()) == 0);
        assert(digits_val(part.take(1)) == d0);
        assert(digits_val(part) == d0 * 10 + d1);
    }
    Some(d0 * 10 + d1)
}

} // verus!
