//! ISO 8601 UTC timestamps (`YYYY-MM-DDTHH:MM:SSZ`) from seconds since the
//! Unix epoch, on the proleptic Gregorian calendar.

use vstd::prelude::*;

verus! {

// ── Calendar model ──────────────────────────────────────────

/// Gregorian leap-year rule.
pub open spec fn is_leap_spec(y: int) -> bool {
    (y % 4 == 0 && y % 100 != 0) || y % 400 == 0
}

/// Number of days in year `y`.
pub open spec fn year_len(y: int) -> int {
    if is_leap_spec(y) { 366 } else { 365 }
}

/// Days from 1970-01-01 to the first day of year `y` (for `y >= 1970`).
pub open spec fn days_before_year(y: int) -> int
    decreases y - 1970,
{
    if y <= 1970 { 0 } else { days_before_year(y - 1) + year_len(y - 1) }
}

/// Number of days in month `m` (1-based) of year `y`.
pub open spec fn month_len(y: int, m: int) -> int {
    if m == 2 {
        if is_leap_spec(y) { 29 } else { 28 }
    } else if m == 4 || m == 6 || m == 9 || m == 11 {
        30
    } else {
        31
    }
}

/// Days from the first of January of year `y` to the first day of month `m`.
pub open spec fn days_before_month(y: int, m: int) -> int
    decreases m,
{
    if m <= 1 { 0 } else { days_before_month(y, m - 1) + month_len(y, m - 1) }
}

/// `(y, m, d)` is the calendar date that lies `days` days after 1970-01-01.
pub open spec fn is_civil_date(days: int, y: int, m: int, d: int) -> bool {
    &&& y >= 1970
    &&& 1 <= m <= 12
    &&& 1 <= d <= month_len(y, m)
    &&& days_before_year(y) + days_before_month(y, m) + d - 1 == days
}

// ── Text model ──────────────────────────────────────────────

/// The decimal digit character for `d < 10`.
pub open spec fn digit_char(d: int) -> char {
    ((48 + d) as u32) as char
}

/// Decimal representation of `n`, without leading zeros.
pub open spec fn decimal(n: nat) -> Seq<char>
    decreases n,
{
    if n < 10 {
        seq![digit_char(n as int)]
    } else {
        decimal(n / 10).push(digit_char((n % 10) as int))
    }
}

/// `s` left-padded with `'0'` to at least `width` characters.
pub open spec fn zero_padded(s: Seq<char>, width: nat) -> Seq<char> {
    if s.len() >= width {
        s
    } else {
        Seq::new((width - s.len()) as nat, |i: int| '0') + s
    }
}

/// `{:0w}` formatting of `n`.
pub open spec fn padded_decimal(n: nat, width: nat) -> Seq<char> {
    zero_padded(decimal(n), width)
}

/// The text `YYYY-MM-DDTHH:MM:SSZ` for the given fields.
pub open spec fn render_timestamp(y: nat, m: nat, d: nat, hh: nat, mi: nat, ss: nat) -> Seq<char> {
    padded_decimal(y, 4) + "-"@ + padded_decimal(m, 2) + "-"@ + padded_decimal(d, 2) + "T"@
        + padded_decimal(hh, 2) + ":"@ + padded_decimal(mi, 2) + ":"@ + padded_decimal(ss, 2)
        + "Z"@
}

/// The calendar date `days` days after 1970-01-01.
pub open spec fn civil_date(days: nat) -> (int, int, int) {
    choose|ymd: (int, int, int)| is_civil_date(days as int, ymd.0, ymd.1, ymd.2)
}

/// ISO 8601 UTC text of the instant `secs` seconds after the Unix epoch.
pub open spec fn iso8601_text(secs: nat) -> Seq<char> {
    let days = secs / 86400;
    let tod = secs % 86400;
    let (y, m, d) = civil_date(days);
    render_timestamp(y as nat, m as nat, d as nat, tod / 3600, (tod % 3600) / 60, tod % 60)
}

} // verus!

verus! {

/// Appends the decimal digit `d` to `out`.
fn append_digit(out: &mut String, d: u64)
    requires
        d < 10,
    ensures
        final(out)@ == old(out)@.push(digit_char(d as int)),
{
    let digits = "0123456789";
    proof {
        reveal_strlit("0123456789");
    }
    let du = d as usize;
    let one = digits.substring_char(du, du + 1);
    assert(digits@[du as int] == digit_char(d as int));
    out.append(one);
    assert(one@ =~= seq![digit_char(d as int)]);
}

} // verus!

verus! {

/// Appends the decimal representation of `n` to `out`.
fn append_decimal(out: &mut String, n: u64)
    ensures
        final(out)@ == old(out)@ + decimal(n as nat),
    decreases n,
{
    if n >= 10 {
        append_decimal(out, n / 10);
    }
    let ghost mid = out@;
    append_digit(out, n % 10);
    proof {
        if n >= 10 {
            assert(out@ =~= old(out)@ + decimal(n as nat));
        } else {
            assert(out@ =~= old(out)@ + decimal(n as nat));
        }
    }
}

/// `n` formatted with `{:0width}`: decimal, left-padded with zeros.
pub fn format_padded(n: u64, width: usize) -> (r: String)
    ensures
        r@ == padded_decimal(n as nat, width as nat),
{
    let mut digits = String::new();
    append_decimal(&mut digits, n);
    let len = digits.unicode_len();
    let mut r = String::new();
    let mut i: usize = len;
    while i < width
        invariant
            len == digits@.len(),
            len <= i <= width || (i == len && len >= width),
            r@ =~= Seq::new((i - len) as nat, |k: int| '0'),
        decreases width - i,
    {
        r.append("0");
        proof {
            reveal_strlit("0");
        }
        i = i + 1;
    }
    r.append(digits.as_str());
    r
}

} // verus!

verus! {

/// The twelve months of a year add up to the year's length.
proof fn lemma_months_fill_year(y: int)
    ensures
        days_before_month(y, 13) == year_len(y),
{
    reveal_with_fuel(days_before_month, 13);
}

/// `days_before_month` grows with the month.
proof fn lemma_days_before_month_monotone(y: int, a: int, b: int)
    requires
        a <= b,
    ensures
        days_before_month(y, a) <= days_before_month(y, b),
    decreases b - a,
{
    if a < b {
        lemma_days_before_month_monotone(y, a, b - 1);
    }
}

/// A later year starts at least one full year after an earlier one.
proof fn lemma_days_before_year_monotone(a: int, b: int)
    requires
        1970 <= a < b,
    ensures
        days_before_year(a) + year_len(a) <= days_before_year(b),
    decreases b - a,
{
    if a + 1 < b {
        lemma_days_before_year_monotone(a, b - 1);
    }
}

/// Every year has at least 365 days.
proof fn lemma_days_before_year_lower(y: int)
    requires
        y >= 1970,
    ensures
        days_before_year(y) >= 365 * (y - 1970),
    decreases y - 1970,
{
    if y > 1970 {
        lemma_days_before_year_lower(y - 1);
    }
}

/// Each day count after the epoch names exactly one calendar date.
pub proof fn lemma_civil_date_unique(days: int, y1: int, m1: int, d1: int, y2: int, m2: int, d2: int)
    requires
        is_civil_date(days, y1, m1, d1),
        is_civil_date(days, y2, m2, d2),
    ensures
        y1 == y2 && m1 == m2 && d1 == d2,
{
    lemma_months_fill_year(y1);
    lemma_months_fill_year(y2);
    lemma_days_before_month_monotone(y1, m1 + 1, 13);
    lemma_days_before_month_monotone(y2, m2 + 1, 13);
    assert(days_before_month(y1, m1 + 1) == days_before_month(y1, m1) + month_len(y1, m1));
    assert(days_before_month(y2, m2 + 1) == days_before_month(y2, m2) + month_len(y2, m2));
    assert(days < days_before_year(y1) + year_len(y1));
    assert(days < days_before_year(y2) + year_len(y2));
    lemma_days_before_month_monotone(y1, 1, m1);
    lemma_days_before_month_monotone(y2, 1, m2);
    if y1 < y2 {
        lemma_days_before_year_monotone(y1, y2);
    } else if y2 < y1 {
        lemma_days_before_year_monotone(y2, y1);
    }
    assert(y1 == y2);
    if m1 < m2 {
        lemma_days_before_month_monotone(y1, m1 + 1, m2);
    } else if m2 < m1 {
        lemma_days_before_month_monotone(y1, m2 + 1, m1);
    }
}

/// Gregorian leap-year rule.
pub fn is_leap(y: u64) -> (r: bool)
    ensures
        r == is_leap_spec(y as int),
{
    (y % 4 == 0 && y % 100 != 0) || y % 400 == 0
}

fn year_length(y: u64) -> (r: u64)
    ensures
        r == year_len(y as int),
{
    if is_leap(y) { 366 } else { 365 }
}

fn month_length(y: u64, m: u64) -> (r: u64)
    ensures
        r == month_len(y as int, m as int),
{
    if m == 2 {
        if is_leap(y) { 29 } else { 28 }
    } else if m == 4 || m == 6 || m == 9 || m == 11 {
        30
    } else {
        31
    }
}

/// The calendar date `(year, month, day)` that lies `days` days after 1970-01-01.
pub fn civil_from_days(days: u64) -> (r: (u64, u64, u64))
    ensures
        is_civil_date(days as int, r.0 as int, r.1 as int, r.2 as int),
{
    let mut y: u64 = 1970;
    let mut rem: u64 = days;
    loop
        invariant
            y >= 1970,
            rem as int + days_before_year(y as int) == days as int,
        ensures
            y >= 1970,
            rem as int + days_before_year(y as int) == days as int,
            rem < year_len(y as int),
        decreases rem,
    {
        proof {
            lemma_days_before_year_lower(y as int);
        }
        let len = year_length(y);
        if rem < len {
            break;
        }
        rem = rem - len;
        y = y + 1;
    }
    proof {
        lemma_months_fill_year(y as int);
    }
    let mut m: u64 = 1;
    let mut left: u64 = rem;
    loop
        invariant
            1 <= m <= 12,
            rem < year_len(y as int),
            days_before_month(y as int, 13) == year_len(y as int),
            left as int + days_before_month(y as int, m as int) == rem as int,
        ensures
            1 <= m <= 12,
            left as int + days_before_month(y as int, m as int) == rem as int,
            left < month_len(y as int, m as int),
        decreases left,
    {
        let len = month_length(y, m);
        if left < len {
            break;
        }
        proof {
            if m == 12 {
                assert(days_before_month(y as int, 13) == days_before_month(y as int, 12)
                    + month_len(y as int, 12));
            }
        }
        left = left - len;
        m = m + 1;
    }
    (y, m, left + 1)
}

} // verus!

verus! {

/// Format seconds since the Unix epoch as ISO 8601 UTC (`YYYY-MM-DDTHH:MM:SSZ`).
pub fn format_timestamp(secs: u64) -> (r: String)
    ensures
        r@ == iso8601_text(secs as nat),
{
    let days = secs / 86400;
    let tod = secs % 86400;
    let hours = tod / 3600;
    let minutes = (tod % 3600) / 60;
    let seconds = tod % 60;
    let (y, m, d) = civil_from_days(days);
    proof {
        let c = civil_date(days as nat);
        assert(is_civil_date(days as int, c.0, c.1, c.2));
        lemma_civil_date_unique(days as int, c.0, c.1, c.2, y as int, m as int, d as int);
    }
    let mut r = format_padded(y, 4);
    r.append("-");
    r.append(format_padded(m, 2).as_str());
    r.append("-");
    r.append(format_padded(d, 2).as_str());
    r.append("T");
    r.append(format_padded(hours, 2).as_str());
    r.append(":");
    r.append(format_padded(minutes, 2).as_str());
    r.append(":");
    r.append(format_padded(seconds, 2).as_str());
    r.append("Z");
    r
}

#[verifier::external_type_specification]
#[verifier::external_body]
pub struct ExSystemTime(std::time::SystemTime);

/// The system clock's current time.
///
/// Calls `std::time::SystemTime::now`. The value depends on the machine's
/// clock, so nothing is stated of it.
#[verifier::external_body]
fn system_now() -> (r: std::time::SystemTime) {
    std::time::SystemTime::now()
}

/// How long after the Unix epoch `t` lies; `None` when it lies before.
///
/// Calls `std::time::SystemTime::duration_since` with `UNIX_EPOCH`. A
/// `SystemTime` has no view that a contract could speak of, so nothing is
/// stated of the result.
#[verifier::external_body]
fn since_unix_epoch(t: &std::time::SystemTime) -> (r: Option<std::time::Duration>) {
    t.duration_since(std::time::UNIX_EPOCH).ok()
}

/// The whole seconds of `d`.
///
/// Calls `std::time::Duration::as_secs`. A `Duration` has no view that a
/// contract could speak of, so nothing is stated of the result.
#[verifier::external_body]
fn whole_secs(d: &std::time::Duration) -> (r: u64) {
    d.as_secs()
}

/// Seconds since the Unix epoch according to the system clock; 0 for a
/// clock set before 1970.
fn unix_now_secs() -> (r: u64) {
    let now = system_now();
    match since_unix_epoch(&now) {
        Some(d) => whole_secs(&d),
        None => 0,
    }
}

/// The current time as ISO 8601 UTC text.
pub fn now_iso8601() -> (r: String)
    ensures
        exists|secs: nat| r@ == iso8601_text(secs),
{
    let secs = unix_now_secs();
    format_timestamp(secs)
}

} // verus!

verus! {

/// The Gregorian month lengths: February has 29 days in a leap year (a year
/// divisible by 4, except centuries not divisible by 400) and 28 otherwise;
/// every other month `m` has `30 + (m + m / 8) % 2` days, i.e. 31 for
/// January, March, May, July, August, October and December and 30 for
/// April, June, September and November.
pub proof fn law_gregorian_month_lengths(y: int, m: int)
    requires
        1 <= m <= 12,
    ensures
        m != 2 ==> month_len(y, m) == 30 + (m + m / 8) % 2,
        month_len(y, 2) == if y % 4 == 0 && (y % 100 != 0 || y % 400 == 0) { 29int } else { 28int },
        year_len(y) == 337 + month_len(y, 2),
{
}

/// A decimal representation is a non-empty run of digit characters.
pub proof fn lemma_decimal_digits(n: nat)
    ensures
        decimal(n).len() >= 1,
        forall|i: int| 0 <= i < decimal(n).len() ==> 48 <= (#[trigger] decimal(n)[i]) as u32 <= 57,
    decreases n,
{
    if n >= 10 {
        lemma_decimal_digits(n / 10);
        let s = decimal(n / 10);
        assert forall|i: int| 0 <= i < decimal(n).len() implies 48 <= (#[trigger] decimal(n)[i]) as u32 <= 57 by {
            if i < s.len() {
                assert(decimal(n)[i] == s[i]);
            }
        }
    }
}

/// Different numbers have different decimal representations.
pub proof fn law_decimal_injective(a: nat, b: nat)
    ensures
        decimal(a) == decimal(b) ==> a == b,
    decreases a,
{
    if decimal(a) == decimal(b) {
        lemma_decimal_digits(a / 10);
        lemma_decimal_digits(b / 10);
        let da = decimal(a);
        let db = decimal(b);
        assert(da.last() == db.last());
        assert(da.last() == digit_char((a % 10) as int));
        assert(db.last() == digit_char((b % 10) as int));
        assert(a % 10 == b % 10);
        if a >= 10 && b >= 10 {
            assert(decimal(a / 10) =~= da.drop_last());
            assert(decimal(b / 10) =~= db.drop_last());
            law_decimal_injective(a / 10, b / 10);
        } else if a >= 10 {
            assert(da.len() >= 2);
        } else if b >= 10 {
            assert(db.len() >= 2);
        }
    }
}

} // verus!
