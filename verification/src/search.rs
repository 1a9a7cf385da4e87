//! Location handling at the search boundary: normalizing a search term,
//! classifying what a search returned, and addressing the remote
//! documents.
//!
//! Term handling works on UTF-8 bytes: ASCII whitespace and letters are
//! what trimming, collapsing and case mapping touch, and multi-byte
//! sequences pass through untouched.

use vstd::prelude::*;

use vstd::string::StringSliceAdditionalSpecFns;

use crate::{Location, LocationModel};

verus! {

/// ASCII whitespace, as a byte.
pub open spec fn is_space_byte(b: u8) -> bool {
    b == 32 || b == 9 || b == 10 || b == 13
}

/// ASCII letter.
pub open spec fn is_alpha_byte(b: u8) -> bool {
    (65 <= b <= 90) || (97 <= b <= 122)
}

/// ASCII decimal digit.
pub open spec fn is_digit_byte(b: u8) -> bool {
    48 <= b <= 57
}

/// ASCII letter or digit.
pub open spec fn is_alnum_byte(b: u8) -> bool {
    is_alpha_byte(b) || is_digit_byte(b)
}

/// An upper-case ASCII letter mapped to lower case; anything else kept.
pub open spec fn lower_byte(b: u8) -> u8 {
    if 65 <= b <= 90 {
        (b + 32) as u8
    } else {
        b
    }
}

/// A lower-case ASCII letter mapped to upper case; anything else kept.
pub open spec fn upper_byte(b: u8) -> u8 {
    if 97 <= b <= 122 {
        (b - 32) as u8
    } else {
        b
    }
}

pub open spec fn trim_front_bytes(s: Seq<u8>) -> Seq<u8>
    decreases s.len(),
{
    if s.len() > 0 && is_space_byte(s[0]) {
        trim_front_bytes(s.skip(1))
    } else {
        s
    }
}

pub open spec fn trim_back_bytes(s: Seq<u8>) -> Seq<u8>
    decreases s.len(),
{
    if s.len() > 0 && is_space_byte(s.last()) {
        trim_back_bytes(s.drop_last())
    } else {
        s
    }
}

/// The byte sequence with leading and trailing ASCII whitespace removed.
pub open spec fn spec_trim_bytes(s: Seq<u8>) -> Seq<u8> {
    trim_back_bytes(trim_front_bytes(s))
}

proof fn lemma_trim_front_bytes_at(s: Seq<u8>, j: int)
    requires
        0 <= j <= s.len(),
        forall|i: int| 0 <= i < j ==> is_space_byte(#[trigger] s[i]),
        j < s.len() ==> !is_space_byte(s[j]),
    ensures
        trim_front_bytes(s) == s.skip(j),
    decreases j,
{
    if j == 0 {
        assert(s.skip(0) =~= s);
    } else {
        lemma_trim_front_bytes_at(s.skip(1), j - 1);
        assert(s.skip(1).skip(j - 1) =~= s.skip(j));
    }
}

proof fn lemma_trim_back_bytes_at(s: Seq<u8>, h: int)
    requires
        0 <= h <= s.len(),
        forall|i: int| h <= i < s.len() ==> is_space_byte(#[trigger] s[i]),
        h > 0 ==> !is_space_byte(s[h - 1]),
    ensures
        trim_back_bytes(s) == s.take(h),
    decreases s.len() - h,
{
    if h == s.len() {
        assert(s.take(h) =~= s);
    } else {
        lemma_trim_back_bytes_at(s.drop_last(), h);
        assert(s.drop_last().take(h) =~= s.take(h));
    }
}

fn is_space_byte_exec(b: u8) -> (r: bool)
    ensures
        r == is_space_byte(b),
{
    b == 32 || b == 9 || b == 10 || b == 13
}

/// The bounds of the whitespace-trimmed middle of a byte vector.
fn trim_bounds(v: &Vec<u8>) -> (r: (usize, usize))
    ensures
        r.0 <= r.1 <= v@.len(),
        spec_trim_bytes(v@) == v@.subrange(r.0 as int, r.1 as int),
{
    let n = v.len();
    let mut lo: usize = 0;
    while lo < n && is_space_byte_exec(v[lo])
        invariant
            lo <= n,
            n == v@.len(),
            forall|i: int| 0 <= i < lo ==> is_space_byte(#[trigger] v@[i]),
        decreases n - lo,
    {
        lo += 1;
    }
    proof {
        lemma_trim_front_bytes_at(v@, lo as int);
    }
    let mut hi: usize = n;
    while hi > lo && is_space_byte_exec(v[hi - 1])
        invariant
            lo <= hi <= n,
            n == v@.len(),
            forall|i: int| hi <= i < n ==> is_space_byte(#[trigger] v@[i]),
        decreases hi,
    {
        hi -= 1;
    }
    proof {
        let fr = v@.skip(lo as int);
        assert(forall|i: int|
            hi - lo <= i < fr.len() ==> is_space_byte(#[trigger] fr[i]) && fr[i] == v@[i + lo]);
        lemma_trim_back_bytes_at(fr, hi - lo);
        assert(fr.take(hi - lo) =~= v@.subrange(lo as int, hi as int));
    }
    (lo, hi)
}

/// Lower-cased bytes, pointwise.
pub open spec fn map_lower(s: Seq<u8>) -> Seq<u8> {
    s.map_values(|b: u8| lower_byte(b))
}

/// Upper-cased bytes, pointwise.
pub open spec fn map_upper(s: Seq<u8>) -> Seq<u8> {
    s.map_values(|b: u8| upper_byte(b))
}

/// How a location's name is prepared before comparison with a cleaned
/// search term: trimmed of ASCII whitespace and lower-cased.
pub open spec fn spec_lower_trim(s: Seq<u8>) -> Seq<u8> {
    map_lower(spec_trim_bytes(s))
}

/// Trim and lower-case the bytes of a string.
pub fn lower_trim_bytes(s: &str) -> (r: Vec<u8>)
    ensures
        r@ == spec_lower_trim(s.spec_bytes()),
{
    let v = s.as_bytes_vec();
    let (lo, hi) = trim_bounds(&v);
    let mut out: Vec<u8> = Vec::new();
    let mut i = lo;
    while i < hi
        invariant
            lo <= i <= hi <= v@.len(),
            out@.len() == i - lo,
            forall|j: int| 0 <= j < out@.len() ==> #[trigger] out@[j] == lower_byte(v@[lo + j]),
        decreases hi - i,
    {
        let b = v[i];
        out.push(if 65 <= b && b <= 90 {
            b + 32
        } else {
            b
        });
        i += 1;
    }
    proof {
        assert(out@ =~= map_lower(v@.subrange(lo as int, hi as int)));
    }
    out
}

/// Whitespace collapse and lower-casing in one left-to-right pass over a
/// pre-trimmed sequence: a run of ASCII whitespace becomes one space,
/// any other byte is lower-cased. `prev_space` says whether a run is
/// already open.
pub open spec fn collapse_from(s: Seq<u8>, prev_space: bool) -> Seq<u8>
    decreases s.len(),
{
    if s.len() == 0 {
        Seq::empty()
    } else if is_space_byte(s[0]) {
        if prev_space {
            collapse_from(s.skip(1), true)
        } else {
            seq![32u8] + collapse_from(s.skip(1), true)
        }
    } else {
        seq![lower_byte(s[0])] + collapse_from(s.skip(1), false)
    }
}

/// The cleaned form of a search term: trimmed, whitespace runs collapsed
/// to single spaces, lower-cased.
pub open spec fn spec_cleaned(s: Seq<u8>) -> Seq<u8> {
    collapse_from(spec_trim_bytes(s), false)
}

/// Length of the first postcode group under the matcher's greedy rules,
/// counting the leading one or two letters and the digit after them.
pub open spec fn g1_base_len(s: Seq<u8>) -> Option<int> {
    if s.len() >= 2 && is_alpha_byte(s[0]) && is_alpha_byte(s[1]) {
        if s.len() >= 3 && is_digit_byte(s[2]) {
            Some(3int)
        } else {
            None
        }
    } else if s.len() >= 1 && is_alpha_byte(s[0]) {
        if s.len() >= 2 && is_digit_byte(s[1]) {
            Some(2int)
        } else {
            None
        }
    } else {
        None
    }
}

/// The second postcode group: a digit followed by up to two letters.
pub open spec fn valid_g2(s: Seq<u8>) -> bool {
    &&& 1 <= s.len() <= 3
    &&& is_digit_byte(s[0])
    &&& (s.len() < 2 || is_alpha_byte(s[1]))
    &&& (s.len() < 3 || is_alpha_byte(s[2]))
}

/// What may follow the first group: nothing, a single space, the second
/// group, or a space and the second group.
pub open spec fn rest_valid(r: Seq<u8>) -> bool {
    ||| r.len() == 0
    ||| (r[0] == 32 && (r.len() == 1 || valid_g2(r.skip(1))))
    ||| valid_g2(r)
}

/// Where the first postcode group ends when the whole cleaned term reads
/// as a postcode, greedily: the optional trailing letter-or-digit is
/// taken when the remainder still matches, given up otherwise.
pub open spec fn postcode_g1_len(s: Seq<u8>) -> Option<int> {
    match g1_base_len(s) {
        Option::None => None,
        Option::Some(b) => {
            if b < s.len() && is_alnum_byte(s[b]) && rest_valid(s.skip(b + 1)) {
                Some(b + 1)
            } else if rest_valid(s.skip(b)) {
                Some(b)
            } else {
                None
            }
        },
    }
}

/// The normalized form of a search term: cleaned, and, when the whole
/// term reads as a postcode, replaced by its first group upper-cased.
pub open spec fn spec_normalized_term(s: Seq<u8>) -> Seq<u8> {
    let c = spec_cleaned(s);
    match postcode_g1_len(c) {
        Option::None => c,
        Option::Some(k) => map_upper(c.take(k)),
    }
}

fn valid_g2_exec(v: &Vec<u8>, from: usize) -> (r: bool)
    requires
        from <= v@.len(),
    ensures
        r == valid_g2(v@.skip(from as int)),
{
    let ghost s = v@.skip(from as int);
    let n = v.len() - from;
    if n < 1 || n > 3 {
        return false;
    }
    let ok = (48 <= v[from] && v[from] <= 57) && (n < 2 || {
        let b = v[from + 1];
        (65 <= b && b <= 90) || (97 <= b && b <= 122)
    }) && (n < 3 || {
        let b = v[from + 2];
        (65 <= b && b <= 90) || (97 <= b && b <= 122)
    });
    proof {
        assert(s[0] == v@[from as int]);
        if n >= 2 {
            assert(s[1] == v@[from + 1]);
        }
        if n >= 3 {
            assert(s[2] == v@[from + 2]);
        }
    }
    ok
}

fn rest_valid_exec(v: &Vec<u8>, from: usize) -> (r: bool)
    requires
        from <= v@.len(),
    ensures
        r == rest_valid(v@.skip(from as int)),
{
    let ghost s = v@.skip(from as int);
    let n = v.len() - from;
    if n == 0 {
        return true;
    }
    proof {
        assert(s[0] == v@[from as int]);
        assert(s.skip(1) =~= v@.skip(from + 1));
    }
    if v[from] == 32 && (n == 1 || valid_g2_exec(v, from + 1)) {
        return true;
    }
    valid_g2_exec(v, from)
}

/// Normalize a search term: trim, collapse inner whitespace, lower-case,
/// and replace a term that reads as a postcode by its upper-cased first
/// group.
pub fn normalize_search_term(s: &str) -> (r: Vec<u8>)
    ensures
        r@ == spec_normalized_term(s.spec_bytes()),
{
    let v = s.as_bytes_vec();
    let (lo, hi) = trim_bounds(&v);
    let ghost trimmed = v@.subrange(lo as int, hi as int);
    let mut c: Vec<u8> = Vec::new();
    let mut prev_space = false;
    let mut i = lo;
    proof {
        assert(trimmed.skip(0) =~= trimmed);
        assert(c@ + collapse_from(trimmed, false) =~= collapse_from(trimmed, false));
    }
    while i < hi
        invariant
            lo <= i <= hi <= v@.len(),
            trimmed == v@.subrange(lo as int, hi as int),
            c@ + collapse_from(trimmed.skip(i - lo), prev_space) == collapse_from(trimmed, false),
        decreases hi - i,
    {
        let b = v[i];
        proof {
            assert(trimmed.skip(i - lo)[0] == v@[i as int]);
            assert(trimmed.skip(i - lo).skip(1) =~= trimmed.skip(i + 1 - lo));
        }
        let ghost mid = collapse_from(trimmed.skip(i - lo), prev_space);
        if 32 == b || b == 9 || b == 10 || b == 13 {
            if !prev_space {
                c.push(32);
                prev_space = true;
                proof {
                    assert(c@ + collapse_from(trimmed.skip(i + 1 - lo), true) =~= (c@.drop_last()
                        + mid));
                }
            } else {
                proof {
                    assert(c@ + collapse_from(trimmed.skip(i + 1 - lo), true) == c@ + mid);
                }
            }
        } else {
            c.push(if 65 <= b && b <= 90 {
                b + 32
            } else {
                b
            });
            prev_space = false;
            proof {
                assert(c@ + collapse_from(trimmed.skip(i + 1 - lo), false) =~= (c@.drop_last()
                    + mid));
            }
        }
        i += 1;
    }
    proof {
        assert(trimmed.skip(hi - lo) =~= Seq::<u8>::empty());
        assert(c@ + Seq::<u8>::empty() =~= c@);
        assert(c@ == spec_cleaned(v@));
    }
    // postcode: the cleaned term replaced by its upper-cased first group
    let cn = c.len();
    let base: usize = if cn >= 2 && {
        let b0 = c[0];
        (65 <= b0 && b0 <= 90) || (97 <= b0 && b0 <= 122)
    } && {
        let b1 = c[1];
        (65 <= b1 && b1 <= 90) || (97 <= b1 && b1 <= 122)
    } {
        if cn >= 3 && 48 <= c[2] && c[2] <= 57 {
            3
        } else {
            0
        }
    } else if cn >= 1 && {
        let b0 = c[0];
        (65 <= b0 && b0 <= 90) || (97 <= b0 && b0 <= 122)
    } {
        if cn >= 2 && 48 <= c[1] && c[1] <= 57 {
            2
        } else {
            0
        }
    } else {
        0
    };
    proof {
        if base == 0 {
            assert(g1_base_len(c@) is None);
        } else {
            assert(g1_base_len(c@) == Some(base as int));
        }
    }
    if base == 0 {
        return c;
    }
    let k: usize = if base < cn && {
        let b = c[base];
        (65 <= b && b <= 90) || (97 <= b && b <= 122) || (48 <= b && b <= 57)
    } && rest_valid_exec(&c, base + 1) {
        base + 1
    } else if rest_valid_exec(&c, base) {
        base
    } else {
        0
    };
    proof {
        if k == 0 {
            assert(postcode_g1_len(c@) is None);
        } else {
            assert(postcode_g1_len(c@) == Some(k as int));
        }
    }
    if k == 0 {
        return c;
    }
    let mut out: Vec<u8> = Vec::new();
    let mut j: usize = 0;
    while j < k
        invariant
            j <= k <= c@.len(),
            out@.len() == j,
            forall|m: int| 0 <= m < out@.len() ==> #[trigger] out@[m] == upper_byte(c@[m]),
        decreases k - j,
    {
        let b = c[j];
        out.push(if 97 <= b && b <= 122 {
            b - 32
        } else {
            b
        });
        j += 1;
    }
    proof {
        assert(out@ =~= map_upper(c@.take(k as int)));
    }
    out
}

/// The three-way outcome of resolving a search term: a single location,
/// several candidates to choose between, or none at all.
pub enum FoundLocation {
    Found(Location),
    Ambiguous(Vec<Location>),
    NotFound,
}

/// Whether a location name, trimmed and lower-cased, equals the cleaned
/// search term.
pub open spec fn name_matches(name: Seq<char>, cleaned: Seq<u8>) -> bool {
    spec_lower_trim(vstd::utf8::encode_utf8(name)) == cleaned
}

/// How many of the first `k` locations match the cleaned term by name.
pub open spec fn count_matches(locs: Seq<LocationModel>, cleaned: Seq<u8>, k: int) -> int
    decreases k,
{
    if k <= 0 {
        0
    } else {
        count_matches(locs, cleaned, k - 1) + if name_matches(locs[k - 1].name, cleaned) {
            1int
        } else {
            0int
        }
    }
}

/// The views of a vector of locations.
pub open spec fn locs_model(s: Seq<Location>) -> Seq<LocationModel> {
    Seq::new(s.len(), |i: int| s[i]@)
}

/// Classify what a search returned against the cleaned term. No result
/// is no location; a single result stands however it is named; among
/// several, a unique exact name match wins, and anything else is
/// ambiguous.
pub fn classify_results(results: Vec<Location>, cleaned: &Vec<u8>) -> (r: FoundLocation)
    ensures
        ({
            let models = locs_model(results@);
            let cnt = count_matches(models, cleaned@, models.len() as int);
            &&& results@.len() == 0 ==> r is NotFound
            &&& results@.len() == 1 ==> (r matches FoundLocation::Found(l) && l@ == models[0])
            &&& results@.len() >= 2 && cnt == 1 ==> (r matches FoundLocation::Found(l) && exists|
                j: int,
            |
                0 <= j < models.len() && l@ == (#[trigger] models[j]) && name_matches(
                    models[j].name,
                    cleaned@,
                ) && (forall|m: int| 0 <= m < j ==> !name_matches(models[m].name, cleaned@)))
            &&& results@.len() >= 2 && cnt != 1 ==> (r matches FoundLocation::Ambiguous(v)
                && locs_model(v@) == models)
        }),
{
    let ghost models = locs_model(results@);
    let n = results.len();
    if n == 0 {
        return FoundLocation::NotFound;
    }
    if n == 1 {
        return FoundLocation::Found(results[0].clone());
    }
    let mut cnt: usize = 0;
    let mut first: usize = n;
    let mut i: usize = 0;
    while i < n
        invariant
            i <= n,
            n == results@.len(),
            models == locs_model(results@),
            cnt == count_matches(models, cleaned@, i as int),
            cnt <= i,
            cnt == 0 <==> first == n,
            cnt == 0 ==> forall|m: int| 0 <= m < i ==> !name_matches(models[m as int].name, cleaned@),
            cnt > 0 ==> first < i && name_matches(models[first as int].name, cleaned@) && (forall|
                m: int,
            | 0 <= m < first ==> !name_matches(models[m as int].name, cleaned@)),
        decreases n - i,
    {
        let nb = lower_trim_bytes(results[i].name.as_str());
        let is_match = bytes_eq(&nb, cleaned);
        proof {
            assert(models[i as int].name == results@[i as int].name@);
        }
        if is_match {
            if cnt == 0 {
                first = i;
            }
            cnt = cnt + 1;
        }
        i += 1;
    }
    if cnt == 1 {
        proof {
            assert(first < n);
        }
        FoundLocation::Found(results[first].clone())
    } else {
        FoundLocation::Ambiguous(results)
    }
}

/// Whether two byte vectors hold the same bytes.
fn bytes_eq(a: &Vec<u8>, b: &Vec<u8>) -> (r: bool)
    ensures
        r == (a@ == b@),
{
    if a.len() != b.len() {
        proof {
            assert(a@ != b@);
        }
        return false;
    }
    let mut i: usize = 0;
    while i < a.len()
        invariant
            i <= a@.len(),
            a@.len() == b@.len(),
            forall|j: int| 0 <= j < i ==> #[trigger] a@[j] == b@[j],
        decreases a@.len() - i,
    {
        if a[i] != b[i] {
            proof {
                assert(a@[i as int] != b@[i as int]);
            }
            return false;
        }
        i += 1;
    }
    proof {
        assert(a@ =~= b@);
    }
    true
}

/// A remote search can be narrowed by these filters, joined in order
/// into the request's filter parameter.
#[derive(Clone, Copy, PartialEq, Eq, Structural, Debug)]
pub enum LocationFilter {
    Domestic,
    Beaches,
    NoCountries,
    NoUKRegions,
}

/// The token a filter contributes to the filter parameter.
pub open spec fn spec_filter_token(f: LocationFilter) -> Seq<char> {
    match f {
        LocationFilter::Domestic => "domestic"@,
        LocationFilter::Beaches => "beaches"@,
        LocationFilter::NoCountries => "no-countries"@,
        LocationFilter::NoUKRegions => "no-uk-regions"@,
    }
}

fn filter_token(f: &LocationFilter) -> (r: &'static str)
    ensures
        r@ == spec_filter_token(*f),
{
    match f {
        LocationFilter::Domestic => "domestic",
        LocationFilter::Beaches => "beaches",
        LocationFilter::NoCountries => "no-countries",
        LocationFilter::NoUKRegions => "no-uk-regions",
    }
}

/// The filter parameter: every filter's token, joined in order.
pub open spec fn spec_filter_string(fs: Seq<LocationFilter>, k: int) -> Seq<char>
    decreases k,
{
    if k <= 0 {
        Seq::empty()
    } else {
        spec_filter_string(fs, k - 1) + spec_filter_token(fs[k - 1])
    }
}

/// Which bytes percent-encoding leaves as they stand.
pub open spec fn is_unreserved(b: u8) -> bool {
    is_alnum_byte(b) || b == 45 || b == 46 || b == 95 || b == 126
}

/// The character for one hex digit value, upper-case.
pub open spec fn hex_digit_char(d: u8) -> char
    recommends
        d < 16,
{
    if d < 10 {
        ((48 + d) as u8) as char
    } else {
        ((55 + d) as u8) as char
    }
}

/// One byte percent-encoded: kept as itself when unreserved, else `%`
/// and two upper-case hex digits.
pub open spec fn encode_byte(b: u8) -> Seq<char> {
    if is_unreserved(b) {
        seq![b as char]
    } else {
        seq!['%', hex_digit_char(b / 16), hex_digit_char(b % 16)]
    }
}

/// A byte sequence percent-encoded.
pub open spec fn percent_encoded(s: Seq<u8>) -> Seq<char>
    decreases s.len(),
{
    if s.len() == 0 {
        Seq::empty()
    } else {
        encode_byte(s[0]) + percent_encoded(s.skip(1))
    }
}

/// Relies on urlencoding's `encode_binary`: percent-encodes every byte
/// except ASCII alphanumerics and `-`, `.`, `_`, `~`, with upper-case
/// hex digits.
#[verifier::external_body]
fn encode_bytes(b: &Vec<u8>) -> (r: String)
    ensures
        r@ == percent_encoded(b@),
{
    urlencoding::encode_binary(b.as_slice()).into_owned()
}

/// The address of the remote location search for a normalized term under
/// the given filters.
pub fn location_search_url(term: &Vec<u8>, filters: &Vec<LocationFilter>) -> (r: String)
    ensures
        r@ == "https://www.metoffice.gov.uk/plain-rest-services/location-search/"@
            + percent_encoded(term@) + "/?filter="@ + spec_filter_string(
            filters@,
            filters@.len() as int,
        ),
{
    let mut url = "https://www.metoffice.gov.uk/plain-rest-services/location-search/".to_owned();
    let enc = encode_bytes(term);
    url.append(enc.as_str());
    url.append("/?filter=");
    let ghost base = "https://www.metoffice.gov.uk/plain-rest-services/location-search/"@
        + percent_encoded(term@) + "/?filter="@;
    let mut i: usize = 0;
    while i < filters.len()
        invariant
            i <= filters@.len(),
            url@ == base + spec_filter_string(filters@, i as int),
            base == "https://www.metoffice.gov.uk/plain-rest-services/location-search/"@
                + percent_encoded(term@) + "/?filter="@,
        decreases filters@.len() - i,
    {
        let t = filter_token(&filters[i]);
        url.append(t);
        i += 1;
    }
    url
}

/// The address of one location's forecast document.
pub fn forecast_url(geohash: &str) -> (r: String)
    ensures
        r@ == "https://www.metoffice.gov.uk/weather/forecast/"@ + geohash@,
{
    let mut url = "https://www.metoffice.gov.uk/weather/forecast/".to_owned();
    url.append(geohash);
    url
}

} // verus!
