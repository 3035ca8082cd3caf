use vstd::prelude::*;
use crate::error::PDFJsonError;

verus! {

/// Earliest and latest years that a calendar date can have.
pub const MIN_YEAR: i32 = -262143;
pub const MAX_YEAR: i32 = 262142;

pub open spec fn is_leap_year(y: int) -> bool {
    (y % 4 == 0 && y % 100 != 0) || y % 400 == 0
}

pub open spec fn days_in_year(y: int) -> int {
    if is_leap_year(y) { 366 } else { 365 }
}

/// Days in month `m` (1 to 12) of year `y`, Gregorian calendar.
pub open spec fn days_in_month(y: int, m: int) -> int {
    if m == 2 {
        if is_leap_year(y) { 29 } else { 28 }
    } else if m == 4 || m == 6 || m == 9 || m == 11 {
        30
    } else {
        31
    }
}

/// Whether year, month and day name a day of the proleptic Gregorian calendar
/// within the supported years.
pub open spec fn valid_date(y: int, m: int, d: int) -> bool {
    &&& MIN_YEAR <= y <= MAX_YEAR
    &&& 1 <= m <= 12
    &&& 1 <= d <= days_in_month(y, m)
}

/// Days from 1970-01-01 to the first day of year `y`.
pub open spec fn days_before_year(y: int) -> int
    decreases (if y >= 1970 { y - 1970 } else { 1970 - y }),
{
    if y == 1970 {
        0
    } else if y > 1970 {
        days_before_year(y - 1) + days_in_year(y - 1)
    } else {
        days_before_year(y + 1) - days_in_year(y)
    }
}

/// Days from the first day of year `y` to the first day of month `m`.
pub open spec fn days_before_month(y: int, m: int) -> int
    decreases m,
{
    if m <= 1 {
        0
    } else {
        days_before_month(y, m - 1) + days_in_month(y, m - 1)
    }
}

/// Milliseconds from the Unix epoch to midnight UTC starting the given day.
pub open spec fn midnight_millis(y: int, m: int, d: int) -> int {
    (days_before_year(y) + days_before_month(y, m) + d - 1) * 86_400_000
}

/// Relies on chrono's `NaiveDate::from_ymd_opt`, which gives a date exactly
/// for valid year, month and day within its year range, and on
/// `and_time(NaiveTime::MIN)`, `and_utc` and `timestamp_millis`, which give
/// the milliseconds from the epoch to that day's midnight in UTC.
#[verifier::external_body]
fn date_to_millis(year: i32, month: u32, day: u32) -> (r: Option<i64>)
    ensures
        r is Some <==> valid_date(year as int, month as int, day as int),
        r matches Some(v) ==> v == midnight_millis(year as int, month as int, day as int),
{
    match chrono::NaiveDate::from_ymd_opt(year, month, day) {
        Some(d) => Some(d.and_time(chrono::NaiveTime::MIN).and_utc().timestamp_millis()),
        None => None,
    }
}

/// The characters of a string, in order.
pub fn chars_of(s: &str) -> (r: Vec<char>)
    ensures
        r@ == s@,
{
    broadcast use vstd::string::axiom_spec_iter;
    let mut v: Vec<char> = Vec::new();
    for c in it: s.chars()
        invariant
            v@ == it.seq().take(it.index() as int),
    {
        v.push(c);
    }
    v
}

/// The label that precedes the issue date in a document's text.
pub open spec fn date_label() -> Seq<char> {
    seq!['D', 'a', 't', 'u', 'm', ':', ' ']
}

/// Whether `pat` occurs in `s` at position `i`.
pub open spec fn occurs_at(s: Seq<char>, pat: Seq<char>, i: int) -> bool {
    0 <= i && i + pat.len() <= s.len() && s.subrange(i, i + pat.len()) == pat
}

/// The first position at or after `from` where `pat` occurs in `s`.
pub open spec fn first_occurrence(s: Seq<char>, pat: Seq<char>, from: int) -> Option<int>
    decreases s.len() + 1 - from,
{
    if from < 0 || from + pat.len() > s.len() {
        None
    } else if occurs_at(s, pat, from) {
        Some(from)
    } else {
        first_occurrence(s, pat, from + 1)
    }
}

/// The first position at or after `from` that holds `c`, or the length of `s`.
pub open spec fn index_of(s: Seq<char>, c: char, from: int) -> int
    decreases s.len() - from,
{
    if from >= s.len() {
        s.len() as int
    } else if s[from] == c {
        from
    } else {
        index_of(s, c, from + 1)
    }
}

/// The position of the last `", "` that ends at or before `end`, if any.
pub open spec fn last_comma_space(s: Seq<char>, lo: int, end: int) -> Option<int>
    decreases end - lo,
{
    if end - lo < 2 {
        None
    } else if s[end - 2] == ',' && s[end - 1] == ' ' {
        Some(end - 2)
    } else {
        last_comma_space(s, lo, end - 1)
    }
}

/// The line that holds the issue date: from the first `Datum: ` label up to,
/// not including, the next line break, as a start and end position.
pub open spec fn date_line(s: Seq<char>) -> Option<(int, int)> {
    match first_occurrence(s, date_label(), 0) {
        None => None,
        Some(a) => if index_of(s, '\n', a) < s.len() { Some((a, index_of(s, '\n', a))) } else { None },
    }
}

/// Start of the last `", "`-separated segment of the text between `a` and `e`.
pub open spec fn segment_start(s: Seq<char>, a: int, e: int) -> int {
    match last_comma_space(s, a, e) {
        Some(k) => k + 2,
        None => a,
    }
}

pub open spec fn is_digit(c: char) -> bool {
    '0' <= c && c <= '9'
}

/// Whether `t` is a non-empty run of decimal digits.
pub open spec fn is_decimal(t: Seq<char>) -> bool {
    t.len() > 0 && forall|i: int| 0 <= i < t.len() ==> is_digit(#[trigger] t[i])
}

/// The number that a run of decimal digits writes.
pub open spec fn decimal_value(t: Seq<char>) -> int
    decreases t.len(),
{
    if t.len() == 0 {
        0
    } else {
        decimal_value(t.drop_last()) * 10 + (t.last() as int - '0' as int)
    }
}

/// A component of a date: decimal digits whose value fits in a `u32`.
pub open spec fn is_component(t: Seq<char>) -> bool {
    is_decimal(t) && decimal_value(t) <= u32::MAX
}

/// The three dot-separated components of the segment `s[lo..hi]`, as
/// positions (start, end) of day, month and year, when it has exactly two dots.
pub open spec fn date_fields(s: Seq<char>, lo: int, hi: int) -> Option<(int, int, int, int)> {
    let seg = s.subrange(lo, hi);
    let p1 = index_of(seg, '.', 0);
    let p2 = index_of(seg, '.', p1 + 1);
    if p1 < seg.len() && p2 < seg.len() && index_of(seg, '.', p2 + 1) == seg.len() {
        Some((lo + p1, lo + p2, lo + p1 + 1, lo + p2 + 1))
    } else {
        None
    }
}

/// The issue date written in a document's text: the last comma-separated
/// segment of the `Datum: ` line, read as day.month.year, as milliseconds
/// from the epoch to that day's midnight in UTC.
pub open spec fn issue_date(s: Seq<char>) -> Result<int, PDFJsonError> {
    match date_line(s) {
        None => Err(PDFJsonError::DateNotFound),
        Some((a, e)) => date_in_segment(s, segment_start(s, a, e), e),
    }
}

/// The date written day.month.year in `s[lo..e]`, as milliseconds from the
/// epoch to that day's midnight in UTC.
pub open spec fn date_in_segment(s: Seq<char>, lo: int, e: int) -> Result<int, PDFJsonError> {
    match date_fields(s, lo, e) {
        None => Err(PDFJsonError::MalformedDate),
        Some((p1, p2, m0, y0)) => {
            let day = s.subrange(lo, p1);
            let month = s.subrange(m0, p2);
            let year = s.subrange(y0, e);
            if is_component(day) && is_component(month) && is_component(year)
                && valid_date(decimal_value(year), decimal_value(month), decimal_value(day)) {
                Ok(midnight_millis(decimal_value(year), decimal_value(month), decimal_value(day)))
            } else {
                Err(PDFJsonError::MalformedDate)
            }
        },
    }
}

/// Whether `pat` occurs in `s` at position `i`.
fn occurs_at_exec(s: &Vec<char>, pat: &Vec<char>, i: usize) -> (r: bool)
    ensures
        r == occurs_at(s@, pat@, i as int),
{
    if i > s.len() || pat.len() > s.len() - i {
        return false;
    }
    let mut k: usize = 0;
    while k < pat.len()
        invariant
            i + pat.len() <= s.len(),
            k <= pat.len(),
            forall|j: int| 0 <= j < k ==> s@[i + j] == pat@[j],
        decreases pat.len() - k,
    {
        if s[i + k] != pat[k] {
            assert(s@.subrange(i as int, i + pat.len())[k as int] != pat@[k as int]);
            return false;
        }
        k = k + 1;
    }
    assert(s@.subrange(i as int, i + pat.len()) =~= pat@);
    true
}

/// The first position at or after `from` where `pat` occurs in `s`.
fn find_pattern(s: &Vec<char>, pat: &Vec<char>, from: usize) -> (r: Option<usize>)
    ensures
        first_occurrence(s@, pat@, from as int) == match r {
            Some(i) => Some(i as int),
            None => None::<int>,
        },
{
    let mut i = from;
    while i <= s.len() && pat.len() <= s.len() - i
        invariant
            from <= i,
            first_occurrence(s@, pat@, from as int) == first_occurrence(s@, pat@, i as int),
        decreases s.len() + 1 - i,
    {
        if occurs_at_exec(s, pat, i) {
            return Some(i);
        }
        if i == s.len() {
            assert(first_occurrence(s@, pat@, i + 1) == None::<int>);
            return None;
        }
        i = i + 1;
    }
    None
}

/// The first position in `from..hi` that holds `c`, or `hi`; positions
/// counted in `s`, as `index_of` counts them in `s[lo..hi]`.
fn index_in(s: &Vec<char>, c: char, lo: usize, from: usize, hi: usize) -> (r: usize)
    requires
        lo <= from <= hi <= s.len(),
    ensures
        r == lo + index_of(s@.subrange(lo as int, hi as int), c, from - lo),
        from <= r <= hi,
{
    let ghost seg = s@.subrange(lo as int, hi as int);
    let mut i = from;
    while i < hi
        invariant
            lo <= from <= i <= hi <= s.len(),
            seg == s@.subrange(lo as int, hi as int),
            index_of(seg, c, from - lo) == index_of(seg, c, i - lo),
        decreases hi - i,
    {
        assert(seg[i - lo] == s@[i as int]);
        if s[i] == c {
            return i;
        }
        i = i + 1;
    }
    i
}

/// The position of the last `", "` in `s[lo..end]`.
fn find_last_comma_space(s: &Vec<char>, lo: usize, end: usize) -> (r: Option<usize>)
    requires
        lo <= end <= s.len(),
    ensures
        last_comma_space(s@, lo as int, end as int) == match r {
            Some(i) => Some(i as int),
            None => None::<int>,
        },
{
    let mut e = end;
    while e - lo >= 2
        invariant
            lo <= e <= end <= s.len(),
            last_comma_space(s@, lo as int, end as int) == last_comma_space(s@, lo as int, e as int),
        decreases e,
    {
        if s[e - 2] == ',' && s[e - 1] == ' ' {
            return Some(e - 2);
        }
        e = e - 1;
    }
    None
}

proof fn lemma_decimal_prefix(t: Seq<char>, k: int)
    requires
        0 <= k <= t.len(),
        forall|i: int| 0 <= i < t.len() ==> is_digit(#[trigger] t[i]),
    ensures
        0 <= decimal_value(t.subrange(0, k)) <= decimal_value(t),
    decreases t.len(),
{
    if t.len() > 0 {
        let p = t.drop_last();
        assert forall|i: int| 0 <= i < p.len() implies is_digit(#[trigger] p[i]) by {
            assert(p[i] == t[i]);
        }
        if k < t.len() {
            lemma_decimal_prefix(p, k);
            assert(p.subrange(0, k) =~= t.subrange(0, k));
        } else {
            lemma_decimal_prefix(p, p.len() as int);
            assert(t.subrange(0, k) =~= t);
        }
        assert(is_digit(t.last()));
    } else {
        assert(t.subrange(0, k) =~= t);
    }
}

/// Reads `s[lo..hi]` as a date component.
fn parse_component(s: &Vec<char>, lo: usize, hi: usize) -> (r: Option<u32>)
    requires
        lo <= hi <= s.len(),
    ensures
        r is Some <==> is_component(s@.subrange(lo as int, hi as int)),
        r matches Some(v) ==> v == decimal_value(s@.subrange(lo as int, hi as int)),
{
    let ghost t = s@.subrange(lo as int, hi as int);
    if lo == hi {
        return None;
    }
    let mut i = lo;
    while i < hi
        invariant
            lo <= i <= hi <= s.len(),
            t == s@.subrange(lo as int, hi as int),
            forall|j: int| 0 <= j < i - lo ==> is_digit(#[trigger] t[j]),
        decreases hi - i,
    {
        assert(t[i - lo] == s@[i as int]);
        if !('0' <= s[i] && s[i] <= '9') {
            return None;
        }
        i = i + 1;
    }
    let mut value: u64 = 0;
    let mut i = lo;
    while i < hi
        invariant
            lo <= i <= hi <= s.len(),
            t == s@.subrange(lo as int, hi as int),
            forall|j: int| 0 <= j < t.len() ==> is_digit(#[trigger] t[j]),
            value == decimal_value(t.subrange(0, i - lo)),
            value <= u32::MAX,
        decreases hi - i,
    {
        let ghost before = t.subrange(0, i - lo);
        assert(t.subrange(0, i + 1 - lo).drop_last() =~= before);
        assert(t[i - lo] == s@[i as int]);
        assert(is_digit(t[i - lo]));
        let digit = (s[i] as u32 - '0' as u32) as u64;
        value = value * 10 + digit;
        if value > u32::MAX as u64 {
            proof {
                lemma_decimal_prefix(t, i + 1 - lo);
            }
            return None;
        }
        i = i + 1;
    }
    assert(t.subrange(0, hi - lo) =~= t);
    Some(value as u32)
}

/// The issue date written in a document's text, as `issue_date` describes
/// it: milliseconds from the epoch to midnight UTC of the day that follows
/// the `Datum: ` label, after the line's last `", "`, written day.month.year.
pub fn extract_issue_date(text: &str) -> (r: Result<i64, PDFJsonError>)
    ensures
        issue_date(text@) == match r {
            Ok(v) => Ok(v as int),
            Err(e) => Err::<int, PDFJsonError>(e),
        },
{
    let s = chars_of(text);
    let label = vec!['D', 'a', 't', 'u', 'm', ':', ' '];
    assert(label@ =~= date_label());
    assert(s@.subrange(0, s@.len() as int) =~= s@);
    let a = match find_pattern(&s, &label, 0) {
        Some(a) => a,
        None => return Err(PDFJsonError::DateNotFound),
    };
    proof {
        lemma_first_occurrence(s@, date_label(), 0);
    }
    let e = index_in(&s, '\n', 0, a, s.len());
    if e == s.len() {
        return Err(PDFJsonError::DateNotFound);
    }
    proof {
        lemma_last_comma_space(s@, a as int, e as int);
    }
    let lo = match find_last_comma_space(&s, a, e) {
        Some(k) => k + 2,
        None => a,
    };
    date_from_segment(&s, lo, e)
}

/// Reads the date written day.month.year in `s[lo..e]`.
fn date_from_segment(s: &Vec<char>, lo: usize, e: usize) -> (r: Result<i64, PDFJsonError>)
    requires
        lo <= e <= s.len(),
    ensures
        date_in_segment(s@, lo as int, e as int) == match r {
            Ok(v) => Ok(v as int),
            Err(e) => Err::<int, PDFJsonError>(e),
        },
{
    let p1 = index_in(s, '.', lo, lo, e);
    if p1 == e {
        return Err(PDFJsonError::MalformedDate);
    }
    let p2 = index_in(s, '.', lo, p1 + 1, e);
    if p2 == e {
        return Err(PDFJsonError::MalformedDate);
    }
    let p3 = index_in(s, '.', lo, p2 + 1, e);
    if p3 != e {
        return Err(PDFJsonError::MalformedDate);
    }
    let day = parse_component(s, lo, p1);
    let month = parse_component(s, p1 + 1, p2);
    let year = parse_component(s, p2 + 1, e);
    match (day, month, year) {
        (Some(d), Some(m), Some(y)) => {
            if y > MAX_YEAR as u32 {
                return Err(PDFJsonError::MalformedDate);
            }
            match date_to_millis(y as i32, m, d) {
                Some(v) => Ok(v),
                None => Err(PDFJsonError::MalformedDate),
            }
        },
        _ => Err(PDFJsonError::MalformedDate),
    }
}

proof fn lemma_first_occurrence(s: Seq<char>, pat: Seq<char>, from: int)
    requires
        0 <= from,
    ensures
        first_occurrence(s, pat, from) matches Some(i) ==> from <= i && i + pat.len() <= s.len(),
    decreases s.len() + 1 - from,
{
    if from + pat.len() <= s.len() && !occurs_at(s, pat, from) {
        lemma_first_occurrence(s, pat, from + 1);
    }
}

proof fn lemma_last_comma_space(s: Seq<char>, lo: int, end: int)
    ensures
        last_comma_space(s, lo, end) matches Some(k) ==> lo <= k && k + 2 <= end,
    decreases end - lo,
{
    if end - lo >= 2 && !(s[end - 2] == ',' && s[end - 1] == ' ') {
        lemma_last_comma_space(s, lo, end - 1);
    }
}

} // verus!
