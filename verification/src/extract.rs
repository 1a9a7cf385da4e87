//! The extractor: from one markup document to an ordered collection of
//! per-day, per-time-step forecast records.
//!
//! The document is parsed and queried through the `scraper` crate behind
//! the trusted wrappers below; everything the extractor decides about the
//! text so obtained — dates, the time axis, positional field population,
//! numeric parsing and unit conversion — is verified, with the exact
//! behaviour pinned by `spec_build_day`.

use vstd::prelude::*;

use crate::fixed::{
    celsius_to_fahrenheit, mps_to_kmh, mps_to_mph, parse_range, spec_c_to_f, spec_mps_to_kmh,
    spec_mps_to_mph,
};
use crate::record::{Date, DayForecast, DayForecastModel, Forecast, ForecastModel};
use crate::text::{
    decimal_milli, hhmm_minutes, parse_decimal_milli, parse_hhmm, parse_percent_milli, parse_ymd,
    spec_percent_milli, valid_decimal, valid_hhmm, valid_ymd, ymd_day, ymd_month, ymd_year,
};

verus! {

/// How a document can fail to extract. Extraction is all-or-nothing per
/// document: the first failure aborts the whole fetch.
#[derive(Clone, Copy, PartialEq, Eq, Structural, Debug)]
pub enum ExtractError {
    /// A day container whose identifying attribute is absent or is not a
    /// calendar-valid `YYYY-MM-DD` string.
    MalformedDate,
    /// A time-step header without a usable machine-readable time
    /// attribute, or a data node without its required attribute.
    MissingRequiredAttribute,
    /// A numeric field whose text does not read as a number.
    NumericParseFailure,
    /// A node selector that failed to compile.
    SelectorCompilationFailure,
}

#[verifier::external_type_specification]
#[verifier::external_body]
pub struct ExHtml(scraper::Html);

#[verifier::external_type_specification]
#[verifier::external_body]
pub struct ExSelector(scraper::Selector);

#[verifier::external_type_specification]
#[verifier::external_body]
pub struct ExElementRef<'a>(scraper::ElementRef<'a>);

/// Relies on scraper's `Selector::parse`: compiles a CSS selector group,
/// or fails on invalid selector text.
#[verifier::external_body]
fn parse_selector(s: &str) -> Option<scraper::Selector> {
    scraper::Selector::parse(s).ok()
}

/// Relies on scraper's `Html::parse_document`: parsing does not fail
/// hard, a tree is always produced.
#[verifier::external_body]
fn parse_document(s: &str) -> scraper::Html {
    scraper::Html::parse_document(s)
}

/// Relies on scraper's `Html::select`: the elements matching a selector,
/// in document order.
#[verifier::external_body]
fn select_document<'a>(doc: &'a scraper::Html, sel: &scraper::Selector) -> Vec<
    scraper::ElementRef<'a>,
> {
    doc.select(sel).collect()
}

/// Relies on scraper's `ElementRef::select`: the descendant elements
/// matching a selector, in document order.
#[verifier::external_body]
fn select_element<'a>(e: &scraper::ElementRef<'a>, sel: &scraper::Selector) -> Vec<
    scraper::ElementRef<'a>,
> {
    e.select(sel).collect()
}

/// Relies on scraper's `ElementRef::attr`: the value of the named
/// attribute, if the element carries it.
#[verifier::external_body]
fn elem_attr(e: &scraper::ElementRef<'_>, name: &str) -> Option<String> {
    e.attr(name).map(|v| v.to_string())
}

/// Relies on scraper's `ElementRef::inner_html`: the serialized markup of
/// the element's children.
#[verifier::external_body]
fn elem_inner_html(e: &scraper::ElementRef<'_>) -> String {
    e.inner_html()
}

/// The plain text one day container yields, before any of it is parsed:
/// the day's identifying attribute, the machine-readable time attribute
/// of each step header, and each data field's node texts in selection
/// order.
pub struct RawDay {
    pub date_text: Option<String>,
    pub time_texts: Vec<Option<String>>,
    pub status_texts: Vec<Option<String>>,
    pub precip_texts: Vec<String>,
    pub temp_texts: Vec<Option<String>>,
    pub feels_texts: Vec<Option<String>>,
    pub wind_speed_texts: Vec<Option<String>>,
    pub wind_dir_texts: Vec<Option<String>>,
    pub wind_gust_texts: Vec<Option<String>>,
    pub visibility_texts: Vec<Option<String>>,
    pub humidity_texts: Vec<String>,
    pub uv_texts: Vec<Option<String>>,
}

/// The mathematical value of a `RawDay`.
pub struct RawDayModel {
    pub date_text: Option<Seq<char>>,
    pub time_texts: Seq<Option<Seq<char>>>,
    pub status_texts: Seq<Option<Seq<char>>>,
    pub precip_texts: Seq<Seq<char>>,
    pub temp_texts: Seq<Option<Seq<char>>>,
    pub feels_texts: Seq<Option<Seq<char>>>,
    pub wind_speed_texts: Seq<Option<Seq<char>>>,
    pub wind_dir_texts: Seq<Option<Seq<char>>>,
    pub wind_gust_texts: Seq<Option<Seq<char>>>,
    pub visibility_texts: Seq<Option<Seq<char>>>,
    pub humidity_texts: Seq<Seq<char>>,
    pub uv_texts: Seq<Option<Seq<char>>>,
}

impl View for RawDay {
    type V = RawDayModel;

    open spec fn view(&self) -> RawDayModel {
        RawDayModel {
            date_text: self.date_text.deep_view(),
            time_texts: self.time_texts.deep_view(),
            status_texts: self.status_texts.deep_view(),
            precip_texts: self.precip_texts.deep_view(),
            temp_texts: self.temp_texts.deep_view(),
            feels_texts: self.feels_texts.deep_view(),
            wind_speed_texts: self.wind_speed_texts.deep_view(),
            wind_dir_texts: self.wind_dir_texts.deep_view(),
            wind_gust_texts: self.wind_gust_texts.deep_view(),
            visibility_texts: self.visibility_texts.deep_view(),
            humidity_texts: self.humidity_texts.deep_view(),
            uv_texts: self.uv_texts.deep_view(),
        }
    }
}

/// The per-day texts a markup document yields. Parsing and node
/// selection are functions of the document text alone, so the gathered
/// texts carry a name: one entry per day container, in document order.
pub uninterp spec fn raw_days_of(doc: Seq<char>) -> Seq<RawDayModel>;

/// The compiled node selectors the extractor queries with.
struct Selectors {
    day: scraper::Selector,
    time: scraper::Selector,
    status: scraper::Selector,
    precip: scraper::Selector,
    temp: scraper::Selector,
    feels: scraper::Selector,
    wind_speed: scraper::Selector,
    wind_dir: scraper::Selector,
    wind_gust: scraper::Selector,
    visibility: scraper::Selector,
    humidity: scraper::Selector,
    uv: scraper::Selector,
}

/// Compile every selector the extractor uses, or report which failure
/// mode that is.
fn compile_selectors() -> (r: Result<Selectors, ExtractError>)
    ensures
        r matches Err(e) ==> e == ExtractError::SelectorCompilationFailure,
{
    let day = match parse_selector(".forecast-day") {
        Option::None => {
            return Err(ExtractError::SelectorCompilationFailure);
        },
        Option::Some(s) => s,
    };
    let time = match parse_selector(".step-time > th[scope=\"col\"]") {
        Option::None => {
            return Err(ExtractError::SelectorCompilationFailure);
        },
        Option::Some(s) => s,
    };
    let status = match parse_selector(".step-symbol > td > img") {
        Option::None => {
            return Err(ExtractError::SelectorCompilationFailure);
        },
        Option::Some(s) => s,
    };
    let precip = match parse_selector(".step-pop > td") {
        Option::None => {
            return Err(ExtractError::SelectorCompilationFailure);
        },
        Option::Some(s) => s,
    };
    let temp = match parse_selector(".step-temp > td > div") {
        Option::None => {
            return Err(ExtractError::SelectorCompilationFailure);
        },
        Option::Some(s) => s,
    };
    let feels = match parse_selector(".step-feels-like > td") {
        Option::None => {
            return Err(ExtractError::SelectorCompilationFailure);
        },
        Option::Some(s) => s,
    };
    let wind_speed = match parse_selector(".step-wind > td > div > .speed") {
        Option::None => {
            return Err(ExtractError::SelectorCompilationFailure);
        },
        Option::Some(s) => s,
    };
    let wind_dir = match parse_selector(".step-wind > td > div > .direction") {
        Option::None => {
            return Err(ExtractError::SelectorCompilationFailure);
        },
        Option::Some(s) => s,
    };
    let wind_gust = match parse_selector(".step-wind-gust > td > .gust") {
        Option::None => {
            return Err(ExtractError::SelectorCompilationFailure);
        },
        Option::Some(s) => s,
    };
    let visibility = match parse_selector(".step-visibility > td > .visibility") {
        Option::None => {
            return Err(ExtractError::SelectorCompilationFailure);
        },
        Option::Some(s) => s,
    };
    let humidity = match parse_selector(".step-humidity > td") {
        Option::None => {
            return Err(ExtractError::SelectorCompilationFailure);
        },
        Option::Some(s) => s,
    };
    let uv = match parse_selector(".step-uv > td") {
        Option::None => {
            return Err(ExtractError::SelectorCompilationFailure);
        },
        Option::Some(s) => s,
    };
    Ok(
        Selectors {
            day,
            time,
            status,
            precip,
            temp,
            feels,
            wind_speed,
            wind_dir,
            wind_gust,
            visibility,
            humidity,
            uv,
        },
    )
}

/// The named attribute of each element, in order.
fn attr_list(elems: &Vec<scraper::ElementRef<'_>>, name: &str) -> (r: Vec<Option<String>>)
    ensures
        r@.len() == elems@.len(),
{
    let mut r: Vec<Option<String>> = Vec::new();
    let mut i: usize = 0;
    while i < elems.len()
        invariant
            i <= elems@.len(),
            r@.len() == i,
        decreases elems@.len() - i,
    {
        r.push(elem_attr(&elems[i], name));
        i += 1;
    }
    r
}

/// The inner markup of each element, in order.
fn inner_list(elems: &Vec<scraper::ElementRef<'_>>) -> (r: Vec<String>)
    ensures
        r@.len() == elems@.len(),
{
    let mut r: Vec<String> = Vec::new();
    let mut i: usize = 0;
    while i < elems.len()
        invariant
            i <= elems@.len(),
            r@.len() == i,
        decreases elems@.len() - i,
    {
        r.push(elem_inner_html(&elems[i]));
        i += 1;
    }
    r
}

/// Gather the raw texts of one day container: its identifying attribute
/// and, for the time axis and each data field, that selection's texts in
/// document order.
fn gather_day(day: &scraper::ElementRef<'_>, sels: &Selectors) -> RawDay {
    RawDay {
        date_text: elem_attr(day, "id"),
        time_texts: attr_list(&select_element(day, &sels.time), "data-time"),
        status_texts: attr_list(&select_element(day, &sels.status), "title"),
        precip_texts: inner_list(&select_element(day, &sels.precip)),
        temp_texts: attr_list(&select_element(day, &sels.temp), "data-value"),
        feels_texts: attr_list(&select_element(day, &sels.feels), "data-value"),
        wind_speed_texts: attr_list(&select_element(day, &sels.wind_speed), "data-value"),
        wind_dir_texts: attr_list(&select_element(day, &sels.wind_dir), "data-value"),
        wind_gust_texts: attr_list(&select_element(day, &sels.wind_gust), "data-value"),
        visibility_texts: attr_list(&select_element(day, &sels.visibility), "data-value"),
        humidity_texts: inner_list(&select_element(day, &sels.humidity)),
        uv_texts: attr_list(&select_element(day, &sels.uv), "data-value"),
    }
}

/// Relies on scraper, through the wrappers above: `Html::parse_document`,
/// `Selector::parse` on the fixed selector texts, `Html::select`,
/// `ElementRef::select`, `ElementRef::attr` and `ElementRef::inner_html`
/// are all functions of the document text alone, so the per-day texts
/// this returns are `raw_days_of` the document — one entry per day
/// container, in document order — unless a selector failed to compile.
#[verifier::external_body]
fn gather_all(html: &str) -> (r: Result<Vec<RawDay>, ExtractError>)
    ensures
        r matches Ok(v) ==> v@.len() == raw_days_of(html@).len() && (forall|i: int|
            0 <= i < v@.len() ==> (#[trigger] v@[i])@ == raw_days_of(html@)[i]),
        r matches Err(e) ==> e == ExtractError::SelectorCompilationFailure,
{
    let sels = match compile_selectors() {
        Ok(s) => s,
        Err(e) => return Err(e),
    };
    let doc = parse_document(html);
    let days = select_document(&doc, &sels.day);
    Ok(days.iter().map(|d| gather_day(d, &sels)).collect())
}

/// The smaller of two lengths.
pub open spec fn min_int(a: int, b: int) -> int {
    if a <= b {
        a
    } else {
        b
    }
}

/// The canonical time axis read from the first `k` step headers: each
/// must carry a valid `HH:MM` attribute.
pub open spec fn spec_times_upto(ts: Seq<Option<Seq<char>>>, k: int) -> Result<
    Seq<u32>,
    ExtractError,
>
    decreases k,
{
    if k <= 0 {
        Ok(Seq::empty())
    } else {
        match spec_times_upto(ts, k - 1) {
            Err(e) => Err(e),
            Ok(pre) => match ts[k - 1] {
                Option::None => Err(ExtractError::MissingRequiredAttribute),
                Option::Some(t) => if valid_hhmm(t) {
                    Ok(pre.push(hhmm_minutes(t) as u32))
                } else {
                    Err(ExtractError::MissingRequiredAttribute)
                },
            },
        }
    }
}

/// The whole time axis of a day.
pub open spec fn spec_times(ts: Seq<Option<Seq<char>>>) -> Result<Seq<u32>, ExtractError> {
    spec_times_upto(ts, ts.len() as int)
}

/// The first `k` entries of a textual field (a status label or a compass
/// direction): each node must carry its attribute.
pub open spec fn spec_texts_upto(ts: Seq<Option<Seq<char>>>, k: int) -> Result<
    Seq<Seq<char>>,
    ExtractError,
>
    decreases k,
{
    if k <= 0 {
        Ok(Seq::empty())
    } else {
        match spec_texts_upto(ts, k - 1) {
            Err(e) => Err(e),
            Ok(pre) => match ts[k - 1] {
                Option::None => Err(ExtractError::MissingRequiredAttribute),
                Option::Some(t) => Ok(pre.push(t)),
            },
        }
    }
}

/// The first `k` entries of an attribute-valued numeric field, in
/// milli-units, unconverted.
pub open spec fn spec_numeric_upto(ts: Seq<Option<Seq<char>>>, k: int) -> Result<
    Seq<int>,
    ExtractError,
>
    decreases k,
{
    if k <= 0 {
        Ok(Seq::empty())
    } else {
        match spec_numeric_upto(ts, k - 1) {
            Err(e) => Err(e),
            Ok(pre) => match ts[k - 1] {
                Option::None => Err(ExtractError::MissingRequiredAttribute),
                Option::Some(t) => if valid_decimal(t) {
                    Ok(pre.push(decimal_milli(t)))
                } else {
                    Err(ExtractError::NumericParseFailure)
                },
            },
        }
    }
}

/// The first `k` entries of a percent field read from inner node text,
/// in milli-percent.
pub open spec fn spec_percent_upto(ts: Seq<Seq<char>>, k: int, lt5_zero: bool) -> Result<
    Seq<int>,
    ExtractError,
>
    decreases k,
{
    if k <= 0 {
        Ok(Seq::empty())
    } else {
        match spec_percent_upto(ts, k - 1, lt5_zero) {
            Err(e) => Err(e),
            Ok(pre) => match spec_percent_milli(ts[k - 1], lt5_zero) {
                Option::None => Err(ExtractError::NumericParseFailure),
                Option::Some(v) => Ok(pre.push(v)),
            },
        }
    }
}

proof fn lemma_times_upto_err(ts: Seq<Option<Seq<char>>>, k: int, k2: int)
    requires
        0 <= k <= k2,
        spec_times_upto(ts, k) is Err,
    ensures
        spec_times_upto(ts, k2) == spec_times_upto(ts, k),
    decreases k2 - k,
{
    if k2 > k {
        lemma_times_upto_err(ts, k, k2 - 1);
    }
}

proof fn lemma_texts_upto_err(ts: Seq<Option<Seq<char>>>, k: int, k2: int)
    requires
        0 <= k <= k2,
        spec_texts_upto(ts, k) is Err,
    ensures
        spec_texts_upto(ts, k2) == spec_texts_upto(ts, k),
    decreases k2 - k,
{
    if k2 > k {
        lemma_texts_upto_err(ts, k, k2 - 1);
    }
}

proof fn lemma_numeric_upto_err(ts: Seq<Option<Seq<char>>>, k: int, k2: int)
    requires
        0 <= k <= k2,
        spec_numeric_upto(ts, k) is Err,
    ensures
        spec_numeric_upto(ts, k2) == spec_numeric_upto(ts, k),
    decreases k2 - k,
{
    if k2 > k {
        lemma_numeric_upto_err(ts, k, k2 - 1);
    }
}

proof fn lemma_percent_upto_err(ts: Seq<Seq<char>>, k: int, k2: int, lt5_zero: bool)
    requires
        0 <= k <= k2,
        spec_percent_upto(ts, k, lt5_zero) is Err,
    ensures
        spec_percent_upto(ts, k2, lt5_zero) == spec_percent_upto(ts, k, lt5_zero),
    decreases k2 - k,
{
    if k2 > k {
        lemma_percent_upto_err(ts, k, k2 - 1, lt5_zero);
    }
}

/// An accepted prefix holds one entry per examined node.
pub proof fn lemma_times_upto_len(ts: Seq<Option<Seq<char>>>, k: int)
    requires
        0 <= k,
        spec_times_upto(ts, k) is Ok,
    ensures
        spec_times_upto(ts, k)->Ok_0.len() == k,
    decreases k,
{
    if k > 0 {
        lemma_times_upto_len(ts, k - 1);
    }
}

pub proof fn lemma_texts_upto_len(ts: Seq<Option<Seq<char>>>, k: int)
    requires
        0 <= k,
        spec_texts_upto(ts, k) is Ok,
    ensures
        spec_texts_upto(ts, k)->Ok_0.len() == k,
    decreases k,
{
    if k > 0 {
        lemma_texts_upto_len(ts, k - 1);
    }
}

pub proof fn lemma_numeric_upto_len(ts: Seq<Option<Seq<char>>>, k: int)
    requires
        0 <= k,
        spec_numeric_upto(ts, k) is Ok,
    ensures
        spec_numeric_upto(ts, k)->Ok_0.len() == k,
    decreases k,
{
    if k > 0 {
        lemma_numeric_upto_len(ts, k - 1);
    }
}

pub proof fn lemma_percent_upto_len(ts: Seq<Seq<char>>, k: int, lt5_zero: bool)
    requires
        0 <= k,
        spec_percent_upto(ts, k, lt5_zero) is Ok,
    ensures
        spec_percent_upto(ts, k, lt5_zero)->Ok_0.len() == k,
    decreases k,
{
    if k > 0 {
        lemma_percent_upto_len(ts, k - 1, lt5_zero);
    }
}

/// Read the whole time axis of a day.
fn collect_times(texts: &Vec<Option<String>>) -> (r: Result<Vec<u32>, ExtractError>)
    ensures
        r matches Ok(v) ==> spec_times(texts.deep_view()) == Ok::<_, ExtractError>(v@) && (forall|
            l: int,
        | 0 <= l < v@.len() ==> #[trigger] v@[l] < 1440),
        r matches Err(e) ==> spec_times(texts.deep_view()) == Err::<Seq<u32>, _>(e),
{
    let ghost tm = texts.deep_view();
    let n = texts.len();
    let mut out: Vec<u32> = Vec::new();
    let mut i: usize = 0;
    while i < n
        invariant
            i <= n,
            n == texts@.len(),
            tm == texts.deep_view(),
            tm.len() == n,
            spec_times_upto(tm, i as int) == Ok::<_, ExtractError>(out@),
            forall|l: int| 0 <= l < out@.len() ==> #[trigger] out@[l] < 1440,
        decreases n - i,
    {
        proof {
            assert(tm[i as int] == texts@[i as int].deep_view());
        }
        match &texts[i] {
            Option::None => {
                proof {
                    lemma_times_upto_err(tm, i + 1, n as int);
                }
                return Err(ExtractError::MissingRequiredAttribute);
            },
            Option::Some(t) => {
                match parse_hhmm(t.as_str()) {
                    Option::None => {
                        proof {
                            lemma_times_upto_err(tm, i + 1, n as int);
                        }
                        return Err(ExtractError::MissingRequiredAttribute);
                    },
                    Option::Some(m) => {
                        out.push(m);
                    },
                }
            },
        }
        i += 1;
    }
    Ok(out)
}

/// Read the first `n` entries of a textual attribute field.
fn collect_texts(texts: &Vec<Option<String>>, n: usize) -> (r: Result<Vec<String>, ExtractError>)
    ensures
        r matches Ok(v) ==> spec_texts_upto(
            texts.deep_view(),
            min_int(n as int, texts.deep_view().len() as int),
        ) == Ok::<_, ExtractError>(v.deep_view()),
        r matches Err(e) ==> spec_texts_upto(
            texts.deep_view(),
            min_int(n as int, texts.deep_view().len() as int),
        ) == Err::<Seq<Seq<char>>, _>(e),
{
    let ghost tm = texts.deep_view();
    let k = if n <= texts.len() {
        n
    } else {
        texts.len()
    };
    let mut out: Vec<String> = Vec::new();
    proof {
        assert(out.deep_view() =~= Seq::<Seq<char>>::empty());
    }
    let mut i: usize = 0;
    while i < k
        invariant
            i <= k,
            k == min_int(n as int, texts@.len() as int),
            tm == texts.deep_view(),
            tm.len() == texts@.len(),
            spec_texts_upto(tm, i as int) == Ok::<_, ExtractError>(out.deep_view()),
            out@.len() == i,
        decreases k - i,
    {
        proof {
            assert(tm[i as int] == texts@[i as int].deep_view());
        }
        match &texts[i] {
            Option::None => {
                proof {
                    lemma_texts_upto_err(tm, i + 1, k as int);
                }
                return Err(ExtractError::MissingRequiredAttribute);
            },
            Option::Some(t) => {
                let ghost pre = out.deep_view();
                out.push(t.clone());
                proof {
                    assert(out.deep_view() =~= pre.push(t@));
                }
            },
        }
        i += 1;
    }
    Ok(out)
}

/// Read the first `n` entries of an attribute-valued numeric field, in
/// milli-units, unconverted.
fn collect_numeric(texts: &Vec<Option<String>>, n: usize) -> (r: Result<Vec<i64>, ExtractError>)
    ensures
        r matches Ok(v) ==> spec_numeric_upto(
            texts.deep_view(),
            min_int(n as int, texts.deep_view().len() as int),
        ) == Ok::<_, ExtractError>(Seq::new(v@.len(), |l: int| v@[l] as int)) && (forall|l: int|
            0 <= l < v@.len() ==> parse_range(#[trigger] v@[l] as int)),
        r matches Err(e) ==> spec_numeric_upto(
            texts.deep_view(),
            min_int(n as int, texts.deep_view().len() as int),
        ) == Err::<Seq<int>, _>(e),
{
    let ghost tm = texts.deep_view();
    let k = if n <= texts.len() {
        n
    } else {
        texts.len()
    };
    let mut out: Vec<i64> = Vec::new();
    proof {
        assert(Seq::new(out@.len(), |l: int| out@[l] as int) =~= Seq::<int>::empty());
    }
    let mut i: usize = 0;
    while i < k
        invariant
            i <= k,
            k == min_int(n as int, texts@.len() as int),
            tm == texts.deep_view(),
            tm.len() == texts@.len(),
            spec_numeric_upto(tm, i as int) == Ok::<_, ExtractError>(
                Seq::new(out@.len(), |l: int| out@[l] as int),
            ),
            out@.len() == i,
            forall|l: int| 0 <= l < out@.len() ==> parse_range(#[trigger] out@[l] as int),
        decreases k - i,
    {
        proof {
            assert(tm[i as int] == texts@[i as int].deep_view());
        }
        match &texts[i] {
            Option::None => {
                proof {
                    lemma_numeric_upto_err(tm, i + 1, k as int);
                }
                return Err(ExtractError::MissingRequiredAttribute);
            },
            Option::Some(t) => {
                match parse_decimal_milli(t.as_str()) {
                    Option::None => {
                        proof {
                            lemma_numeric_upto_err(tm, i + 1, k as int);
                        }
                        return Err(ExtractError::NumericParseFailure);
                    },
                    Option::Some(v) => {
                        let ghost pre = Seq::new(out@.len(), |l: int| out@[l] as int);
                        out.push(v);
                        proof {
                            assert(Seq::new(out@.len(), |l: int| out@[l] as int) =~= pre.push(
                                v as int,
                            ));
                        }
                    },
                }
            },
        }
        i += 1;
    }
    Ok(out)
}

/// Read the first `n` entries of a percent field, in milli-percent.
fn collect_percent(texts: &Vec<String>, n: usize, lt5_zero: bool) -> (r: Result<
    Vec<i64>,
    ExtractError,
>)
    ensures
        r matches Ok(v) ==> spec_percent_upto(
            texts.deep_view(),
            min_int(n as int, texts.deep_view().len() as int),
            lt5_zero,
        ) == Ok::<_, ExtractError>(Seq::new(v@.len(), |l: int| v@[l] as int)) && (forall|l: int|
            0 <= l < v@.len() ==> parse_range(#[trigger] v@[l] as int)),
        r matches Err(e) ==> spec_percent_upto(
            texts.deep_view(),
            min_int(n as int, texts.deep_view().len() as int),
            lt5_zero,
        ) == Err::<Seq<int>, _>(e),
{
    let ghost tm = texts.deep_view();
    let k = if n <= texts.len() {
        n
    } else {
        texts.len()
    };
    let mut out: Vec<i64> = Vec::new();
    proof {
        assert(Seq::new(out@.len(), |l: int| out@[l] as int) =~= Seq::<int>::empty());
    }
    let mut i: usize = 0;
    while i < k
        invariant
            i <= k,
            k == min_int(n as int, texts@.len() as int),
            tm == texts.deep_view(),
            tm.len() == texts@.len(),
            spec_percent_upto(tm, i as int, lt5_zero) == Ok::<_, ExtractError>(
                Seq::new(out@.len(), |l: int| out@[l] as int),
            ),
            out@.len() == i,
            forall|l: int| 0 <= l < out@.len() ==> parse_range(#[trigger] out@[l] as int),
        decreases k - i,
    {
        proof {
            assert(tm[i as int] == texts@[i as int]@);
        }
        match parse_percent_milli(texts[i].as_str(), lt5_zero) {
            Option::None => {
                proof {
                    lemma_percent_upto_err(tm, i + 1, k as int, lt5_zero);
                }
                return Err(ExtractError::NumericParseFailure);
            },
            Option::Some(v) => {
                let ghost pre = Seq::new(out@.len(), |l: int| out@[l] as int);
                out.push(v);
                proof {
                    assert(Seq::new(out@.len(), |l: int| out@[l] as int) =~= pre.push(v as int));
                }
            },
        }
        i += 1;
    }
    Ok(out)
}

/// A temperature in milli-units under the chosen unit system: converted
/// to Fahrenheit for the customary system, kept in Celsius otherwise.
pub open spec fn spec_temp_value(v: int, customary: bool) -> int {
    if customary {
        spec_c_to_f(v)
    } else {
        v
    }
}

/// A wind speed in milli-units under the chosen unit system: the raw
/// value is metres per second, shown as miles per hour for the customary
/// system and kilometres per hour otherwise.
pub open spec fn spec_speed_value(v: int, customary: bool) -> int {
    if customary {
        spec_mps_to_mph(v)
    } else {
        spec_mps_to_kmh(v)
    }
}

/// One day's fully parsed columns: the time axis and each field's values
/// for the steps its node list covers.
pub struct DayColumns {
    pub times: Seq<u32>,
    pub statuses: Seq<Seq<char>>,
    pub precips: Seq<int>,
    pub temps: Seq<int>,
    pub feels: Seq<int>,
    pub speeds: Seq<int>,
    pub dirs: Seq<Seq<char>>,
    pub gusts: Seq<int>,
    pub visibs: Seq<int>,
    pub humids: Seq<int>,
    pub uvs: Seq<int>,
}

/// Parse every column of a day, in the order the passes run: the time
/// axis first, then status, precipitation, temperature, feels-like, wind
/// speed, wind direction, wind gust, visibility, humidity and UV index.
/// The first failing pass aborts the day.
pub open spec fn spec_day_columns(raw: RawDayModel) -> Result<DayColumns, ExtractError> {
    match spec_times(raw.time_texts) {
        Err(e) => Err(e),
        Ok(times) => {
            let n = times.len() as int;
            match spec_texts_upto(raw.status_texts, min_int(n, raw.status_texts.len() as int)) {
                Err(e) => Err(e),
                Ok(statuses) => match spec_percent_upto(
                    raw.precip_texts,
                    min_int(n, raw.precip_texts.len() as int),
                    true,
                ) {
                    Err(e) => Err(e),
                    Ok(precips) => match spec_numeric_upto(
                        raw.temp_texts,
                        min_int(n, raw.temp_texts.len() as int),
                    ) {
                        Err(e) => Err(e),
                        Ok(temps) => match spec_numeric_upto(
                            raw.feels_texts,
                            min_int(n, raw.feels_texts.len() as int),
                        ) {
                            Err(e) => Err(e),
                            Ok(feels) => match spec_numeric_upto(
                                raw.wind_speed_texts,
                                min_int(n, raw.wind_speed_texts.len() as int),
                            ) {
                                Err(e) => Err(e),
                                Ok(speeds) => match spec_texts_upto(
                                    raw.wind_dir_texts,
                                    min_int(n, raw.wind_dir_texts.len() as int),
                                ) {
                                    Err(e) => Err(e),
                                    Ok(dirs) => match spec_numeric_upto(
                                        raw.wind_gust_texts,
                                        min_int(n, raw.wind_gust_texts.len() as int),
                                    ) {
                                        Err(e) => Err(e),
                                        Ok(gusts) => match spec_numeric_upto(
                                            raw.visibility_texts,
                                            min_int(n, raw.visibility_texts.len() as int),
                                        ) {
                                            Err(e) => Err(e),
                                            Ok(visibs) => match spec_percent_upto(
                                                raw.humidity_texts,
                                                min_int(n, raw.humidity_texts.len() as int),
                                                false,
                                            ) {
                                                Err(e) => Err(e),
                                                Ok(humids) => match spec_numeric_upto(
                                                    raw.uv_texts,
                                                    min_int(n, raw.uv_texts.len() as int),
                                                ) {
                                                    Err(e) => Err(e),
                                                    Ok(uvs) => Ok(
                                                        DayColumns {
                                                            times,
                                                            statuses,
                                                            precips,
                                                            temps,
                                                            feels,
                                                            speeds,
                                                            dirs,
                                                            gusts,
                                                            visibs,
                                                            humids,
                                                            uvs,
                                                        },
                                                    ),
                                                },
                                            },
                                        },
                                    },
                                },
                            },
                        },
                    },
                },
            }
        },
    }
}

/// The record at step `i` of a day: each field takes its parsed,
/// unit-converted value where the field's node list reaches step `i`,
/// and keeps the zero / empty default where the list stopped short.
pub open spec fn spec_record_at(c: DayColumns, customary: bool, i: int) -> ForecastModel {
    ForecastModel {
        status: if 0 <= i < c.statuses.len() {
            c.statuses[i]
        } else {
            Seq::empty()
        },
        precipitation: if 0 <= i < c.precips.len() {
            c.precips[i]
        } else {
            0
        },
        temperature: if 0 <= i < c.temps.len() {
            spec_temp_value(c.temps[i], customary)
        } else {
            0
        },
        feels_like: if 0 <= i < c.feels.len() {
            spec_temp_value(c.feels[i], customary)
        } else {
            0
        },
        wind_speed: if 0 <= i < c.speeds.len() {
            spec_speed_value(c.speeds[i], customary)
        } else {
            0
        },
        wind_direction: if 0 <= i < c.dirs.len() {
            c.dirs[i]
        } else {
            Seq::empty()
        },
        wind_gust: if 0 <= i < c.gusts.len() {
            spec_speed_value(c.gusts[i], customary)
        } else {
            0
        },
        visibility: if 0 <= i < c.visibs.len() {
            c.visibs[i]
        } else {
            0
        },
        humidity: if 0 <= i < c.humids.len() {
            c.humids[i]
        } else {
            0
        },
        uv_index: if 0 <= i < c.uvs.len() {
            c.uvs[i]
        } else {
            0
        },
    }
}

/// What one day container extracts to: its date from the identifying
/// attribute, and one record per time-axis entry, populated positionally
/// from each field's node list.
pub open spec fn spec_build_day(raw: RawDayModel, customary: bool) -> Result<
    DayForecastModel,
    ExtractError,
> {
    match raw.date_text {
        Option::None => Err(ExtractError::MalformedDate),
        Option::Some(d) => if !valid_ymd(d) {
            Err(ExtractError::MalformedDate)
        } else {
            match spec_day_columns(raw) {
                Err(e) => Err(e),
                Ok(c) => Ok(
                    DayForecastModel {
                        date: Date {
                            year: ymd_year(d) as u32,
                            month: ymd_month(d) as u32,
                            day: ymd_day(d) as u32,
                        },
                        steps: Seq::new(
                            c.times.len(),
                            |i: int| (c.times[i], spec_record_at(c, customary, i)),
                        ),
                    },
                ),
            }
        },
    }
}

/// Build one day's forecast from its gathered texts. The exact result,
/// success and failure alike, is `spec_build_day` of the texts.
#[verifier::rlimit(100)]
pub fn build_day(raw: &RawDay, customary: bool) -> (r: Result<DayForecast, ExtractError>)
    ensures
        r matches Ok(day) ==> spec_build_day(raw@, customary) == Ok::<_, ExtractError>(day@)
            && day@.wf(),
        r matches Err(e) ==> spec_build_day(raw@, customary) == Err::<DayForecastModel, _>(e),
{
    let date = match &raw.date_text {
        Option::None => {
            return Err(ExtractError::MalformedDate);
        },
        Option::Some(d) => {
            proof {
                assert(raw@.date_text == Some(d@));
            }
            match parse_ymd(d.as_str()) {
                Option::None => {
                    return Err(ExtractError::MalformedDate);
                },
                Option::Some(date) => date,
            }
        },
    };
    let times = match collect_times(&raw.time_texts) {
        Err(e) => {
            return Err(e);
        },
        Ok(v) => v,
    };
    let n = times.len();
    let statuses = match collect_texts(&raw.status_texts, n) {
        Err(e) => {
            return Err(e);
        },
        Ok(v) => v,
    };
    let precips = match collect_percent(&raw.precip_texts, n, true) {
        Err(e) => {
            return Err(e);
        },
        Ok(v) => v,
    };
    let temps = match collect_numeric(&raw.temp_texts, n) {
        Err(e) => {
            return Err(e);
        },
        Ok(v) => v,
    };
    let feels = match collect_numeric(&raw.feels_texts, n) {
        Err(e) => {
            return Err(e);
        },
        Ok(v) => v,
    };
    let speeds = match collect_numeric(&raw.wind_speed_texts, n) {
        Err(e) => {
            return Err(e);
        },
        Ok(v) => v,
    };
    let dirs = match collect_texts(&raw.wind_dir_texts, n) {
        Err(e) => {
            return Err(e);
        },
        Ok(v) => v,
    };
    let gusts = match collect_numeric(&raw.wind_gust_texts, n) {
        Err(e) => {
            return Err(e);
        },
        Ok(v) => v,
    };
    let visibs = match collect_numeric(&raw.visibility_texts, n) {
        Err(e) => {
            return Err(e);
        },
        Ok(v) => v,
    };
    let humids = match collect_percent(&raw.humidity_texts, n, false) {
        Err(e) => {
            return Err(e);
        },
        Ok(v) => v,
    };
    let uvs = match collect_numeric(&raw.uv_texts, n) {
        Err(e) => {
            return Err(e);
        },
        Ok(v) => v,
    };
    let ghost c = spec_day_columns(raw@)->Ok_0;
    proof {
        assert(spec_day_columns(raw@) is Ok);
        assert(c.times == times@);
        assert(c.statuses == statuses.deep_view());
        assert(c.precips == Seq::new(precips@.len(), |l: int| precips@[l] as int));
        assert(c.temps == Seq::new(temps@.len(), |l: int| temps@[l] as int));
        assert(c.feels == Seq::new(feels@.len(), |l: int| feels@[l] as int));
        assert(c.speeds == Seq::new(speeds@.len(), |l: int| speeds@[l] as int));
        assert(c.dirs == dirs.deep_view());
        assert(c.gusts == Seq::new(gusts@.len(), |l: int| gusts@[l] as int));
        assert(c.visibs == Seq::new(visibs@.len(), |l: int| visibs@[l] as int));
        assert(c.humids == Seq::new(humids@.len(), |l: int| humids@[l] as int));
        assert(c.uvs == Seq::new(uvs@.len(), |l: int| uvs@[l] as int));
    }
    let mut steps: Vec<(u32, Forecast)> = Vec::new();
    let mut i: usize = 0;
    while i < n
        invariant
            i <= n,
            n == times@.len(),
            c.times == times@,
            c.statuses == statuses.deep_view(),
            c.precips == Seq::new(precips@.len(), |l: int| precips@[l] as int),
            c.temps == Seq::new(temps@.len(), |l: int| temps@[l] as int),
            c.feels == Seq::new(feels@.len(), |l: int| feels@[l] as int),
            c.speeds == Seq::new(speeds@.len(), |l: int| speeds@[l] as int),
            c.dirs == dirs.deep_view(),
            c.gusts == Seq::new(gusts@.len(), |l: int| gusts@[l] as int),
            c.visibs == Seq::new(visibs@.len(), |l: int| visibs@[l] as int),
            c.humids == Seq::new(humids@.len(), |l: int| humids@[l] as int),
            c.uvs == Seq::new(uvs@.len(), |l: int| uvs@[l] as int),
            forall|l: int| 0 <= l < times@.len() ==> #[trigger] times@[l] < 1440,
            forall|l: int| 0 <= l < precips@.len() ==> parse_range(#[trigger] precips@[l] as int),
            forall|l: int| 0 <= l < temps@.len() ==> parse_range(#[trigger] temps@[l] as int),
            forall|l: int| 0 <= l < feels@.len() ==> parse_range(#[trigger] feels@[l] as int),
            forall|l: int| 0 <= l < speeds@.len() ==> parse_range(#[trigger] speeds@[l] as int),
            forall|l: int| 0 <= l < gusts@.len() ==> parse_range(#[trigger] gusts@[l] as int),
            forall|l: int| 0 <= l < visibs@.len() ==> parse_range(#[trigger] visibs@[l] as int),
            forall|l: int| 0 <= l < humids@.len() ==> parse_range(#[trigger] humids@[l] as int),
            forall|l: int| 0 <= l < uvs@.len() ==> parse_range(#[trigger] uvs@[l] as int),
            crate::record::pairs_model(steps@) =~= Seq::new(
                i as nat,
                |l: int| (c.times[l], spec_record_at(c, customary, l)),
            ),
            crate::record::pairs_wf(crate::record::pairs_model(steps@)),
        decreases n - i,
    {
        let mut rec = Forecast::default_record();
        if i < statuses.len() {
            rec.status = statuses[i].clone();
        }
        if i < precips.len() {
            rec.precipitation = precips[i];
        }
        if i < temps.len() {
            rec.temperature = if customary {
                celsius_to_fahrenheit(temps[i])
            } else {
                temps[i]
            };
        }
        if i < feels.len() {
            rec.feels_like = if customary {
                celsius_to_fahrenheit(feels[i])
            } else {
                feels[i]
            };
        }
        if i < speeds.len() {
            rec.wind_speed = if customary {
                mps_to_mph(speeds[i])
            } else {
                mps_to_kmh(speeds[i])
            };
        }
        if i < dirs.len() {
            rec.wind_direction = dirs[i].clone();
        }
        if i < gusts.len() {
            rec.wind_gust = if customary {
                mps_to_mph(gusts[i])
            } else {
                mps_to_kmh(gusts[i])
            };
        }
        if i < visibs.len() {
            rec.visibility = visibs[i];
        }
        if i < humids.len() {
            rec.humidity = humids[i];
        }
        if i < uvs.len() {
            rec.uv_index = uvs[i];
        }
        proof {
            if i < statuses@.len() {
                assert(statuses.deep_view()[i as int] == statuses@[i as int]@);
            }
            if i < dirs@.len() {
                assert(dirs.deep_view()[i as int] == dirs@[i as int]@);
            }
            assert(rec@ =~= spec_record_at(c, customary, i as int));
            assert(rec@.wf());
        }
        let ghost pre = crate::record::pairs_model(steps@);
        let t = times[i];
        steps.push((t, rec));
        proof {
            assert(crate::record::pairs_model(steps@) =~= pre.push((t, rec@)));
            assert(crate::record::pairs_model(steps@) =~= Seq::new(
                (i + 1) as nat,
                |l: int| (c.times[l], spec_record_at(c, customary, l)),
            ));
        }
        i += 1;
    }
    let day = DayForecast { date, steps };
    proof {
        assert(day@.steps =~= spec_build_day(raw@, customary)->Ok_0.steps);
        assert(day@ =~= spec_build_day(raw@, customary)->Ok_0);
    }
    Ok(day)
}

/// Extraction of a whole document's days from their gathered texts,
/// day by day in document order: the first failing day aborts the whole
/// fetch with its error.
pub open spec fn spec_extract_upto(raws: Seq<RawDayModel>, customary: bool, k: int) -> Result<
    Seq<DayForecastModel>,
    ExtractError,
>
    decreases k,
{
    if k <= 0 {
        Ok(Seq::empty())
    } else {
        match spec_extract_upto(raws, customary, k - 1) {
            Err(e) => Err(e),
            Ok(pre) => match spec_build_day(raws[k - 1], customary) {
                Err(e) => Err(e),
                Ok(d) => Ok(pre.push(d)),
            },
        }
    }
}

/// What a whole document extracts to, given its days' gathered texts.
pub open spec fn spec_extract(raws: Seq<RawDayModel>, customary: bool) -> Result<
    Seq<DayForecastModel>,
    ExtractError,
> {
    spec_extract_upto(raws, customary, raws.len() as int)
}

proof fn lemma_extract_upto_err(raws: Seq<RawDayModel>, customary: bool, k: int, k2: int)
    requires
        0 <= k <= k2,
        spec_extract_upto(raws, customary, k) is Err,
    ensures
        spec_extract_upto(raws, customary, k2) == spec_extract_upto(raws, customary, k),
    decreases k2 - k,
{
    if k2 > k {
        lemma_extract_upto_err(raws, customary, k, k2 - 1);
    }
}

/// Extract every day of a forecast document, in document order.
///
/// The result is pinned to the document: unless a selector failed to
/// compile, it is exactly `spec_extract` of `raw_days_of` the document
/// text — one day per day container, its date the container's
/// identifying attribute, extraction all-or-nothing with the first
/// failing day's error. Every returned day is also well-formed: valid
/// date, valid minutes, in-range records — what the resampler requires.
pub fn extract(html: &str, customary: bool) -> (r: Result<Vec<DayForecast>, ExtractError>)
    ensures
        r matches Ok(days) ==> spec_extract(raw_days_of(html@), customary) == Ok::<
            _,
            ExtractError,
        >(Seq::new(days@.len(), |i: int| days@[i]@)),
        r matches Ok(days) ==> forall|i: int|
            0 <= i < days@.len() ==> (#[trigger] days@[i])@.wf(),
        r matches Err(e) ==> e == ExtractError::SelectorCompilationFailure || spec_extract(
            raw_days_of(html@),
            customary,
        ) == Err::<Seq<DayForecastModel>, _>(e),
{
    let raws = match gather_all(html) {
        Err(e) => {
            return Err(e);
        },
        Ok(v) => v,
    };
    let ghost rm = raw_days_of(html@);
    let n = raws.len();
    let mut out: Vec<DayForecast> = Vec::new();
    proof {
        assert(Seq::new(out@.len(), |i: int| out@[i]@) =~= Seq::<DayForecastModel>::empty());
    }
    let mut i: usize = 0;
    while i < n
        invariant
            i <= n,
            n == raws@.len(),
            rm == raw_days_of(html@),
            raws@.len() == rm.len(),
            forall|l: int| 0 <= l < raws@.len() ==> (#[trigger] raws@[l])@ == rm[l],
            spec_extract_upto(rm, customary, i as int) == Ok::<_, ExtractError>(
                Seq::new(out@.len(), |l: int| out@[l]@),
            ),
            out@.len() == i,
            forall|l: int| 0 <= l < out@.len() ==> (#[trigger] out@[l])@.wf(),
        decreases n - i,
    {
        match build_day(&raws[i], customary) {
            Ok(d) => {
                let ghost pre = Seq::new(out@.len(), |l: int| out@[l]@);
                let ghost dm = d@;
                out.push(d);
                proof {
                    assert(Seq::new(out@.len(), |l: int| out@[l]@) =~= pre.push(dm));
                }
            },
            Err(e) => {
                proof {
                    lemma_extract_upto_err(rm, customary, i + 1, rm.len() as int);
                }
                return Err(e);
            },
        }
        i += 1;
    }
    proof {
        assert(spec_extract(rm, customary) == spec_extract_upto(rm, customary, n as int));
    }
    Ok(out)
}

/// Every day the extractor accepts has exactly one `(time, record)` pair
/// per time-axis node found for that day, and a numeric field whose node
/// list stopped short of the time axis leaves zero in the records past
/// the list's end.
pub proof fn lemma_extracted_day_shape(raw: RawDayModel, customary: bool)
    requires
        spec_build_day(raw, customary) is Ok,
    ensures
        ({
            let day = spec_build_day(raw, customary)->Ok_0;
            &&& day.steps.len() == raw.time_texts.len()
            &&& forall|i: int|
                raw.precip_texts.len() <= i < day.steps.len() ==> (
                #[trigger] day.steps[i]).1.precipitation == 0
            &&& forall|i: int|
                raw.temp_texts.len() <= i < day.steps.len() ==> (
                #[trigger] day.steps[i]).1.temperature == 0
            &&& forall|i: int|
                raw.feels_texts.len() <= i < day.steps.len() ==> (
                #[trigger] day.steps[i]).1.feels_like == 0
            &&& forall|i: int|
                raw.wind_speed_texts.len() <= i < day.steps.len() ==> (
                #[trigger] day.steps[i]).1.wind_speed == 0
            &&& forall|i: int|
                raw.wind_gust_texts.len() <= i < day.steps.len() ==> (
                #[trigger] day.steps[i]).1.wind_gust == 0
            &&& forall|i: int|
                raw.visibility_texts.len() <= i < day.steps.len() ==> (
                #[trigger] day.steps[i]).1.visibility == 0
            &&& forall|i: int|
                raw.humidity_texts.len() <= i < day.steps.len() ==> (
                #[trigger] day.steps[i]).1.humidity == 0
            &&& forall|i: int|
                raw.uv_texts.len() <= i < day.steps.len() ==> (
                #[trigger] day.steps[i]).1.uv_index == 0
        }),
{
    let c = spec_day_columns(raw)->Ok_0;
    lemma_times_upto_len(raw.time_texts, raw.time_texts.len() as int);
    let n = c.times.len() as int;
    lemma_texts_upto_len(raw.status_texts, min_int(n, raw.status_texts.len() as int));
    lemma_percent_upto_len(raw.precip_texts, min_int(n, raw.precip_texts.len() as int), true);
    lemma_numeric_upto_len(raw.temp_texts, min_int(n, raw.temp_texts.len() as int));
    lemma_numeric_upto_len(raw.feels_texts, min_int(n, raw.feels_texts.len() as int));
    lemma_numeric_upto_len(raw.wind_speed_texts, min_int(n, raw.wind_speed_texts.len() as int));
    lemma_texts_upto_len(raw.wind_dir_texts, min_int(n, raw.wind_dir_texts.len() as int));
    lemma_numeric_upto_len(raw.wind_gust_texts, min_int(n, raw.wind_gust_texts.len() as int));
    lemma_numeric_upto_len(raw.visibility_texts, min_int(n, raw.visibility_texts.len() as int));
    lemma_percent_upto_len(raw.humidity_texts, min_int(n, raw.humidity_texts.len() as int), false);
    lemma_numeric_upto_len(raw.uv_texts, min_int(n, raw.uv_texts.len() as int));
}

} // verus!
