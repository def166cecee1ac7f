//! Decoding of the legacy 4-byte packed date-and-time pair ("DOS date") into
//! seconds since the Unix epoch, together with the proleptic-Gregorian
//! calendar model the rest of the crate shares.

use vstd::prelude::*;

verus! {

/// A year is a leap year iff divisible by 4, except centuries that are not
/// divisible by 400.
pub open spec fn is_leap_year(y: int) -> bool {
    y % 4 == 0 && (y % 100 != 0 || y % 400 == 0)
}

/// Number of days in month `m` (1-based) of year `y`.
pub open spec fn days_in_month(y: int, m: int) -> int {
    if m == 1 { 31 }
    else if m == 2 { if is_leap_year(y) { 29 } else { 28 } }
    else if m == 3 { 31 }
    else if m == 4 { 30 }
    else if m == 5 { 31 }
    else if m == 6 { 30 }
    else if m == 7 { 31 }
    else if m == 8 { 31 }
    else if m == 9 { 30 }
    else if m == 10 { 31 }
    else if m == 11 { 30 }
    else { 31 }
}

pub open spec fn days_in_year(y: int) -> int {
    if is_leap_year(y) { 366 } else { 365 }
}

/// Days from 1970-01-01 up to the first day of year `y`.
pub open spec fn days_before_year(y: int) -> int
    decreases y - 1970,
{
    if y <= 1970 {
        0
    } else {
        days_before_year(y - 1) + days_in_year(y - 1)
    }
}

/// Days from the first day of year `y` up to the first day of month `m`.
pub open spec fn days_before_month(y: int, m: int) -> int
    decreases m,
{
    if m <= 1 {
        0
    } else {
        days_before_month(y, m - 1) + days_in_month(y, m - 1)
    }
}

/// Days from 1970-01-01 to the civil date `y-m-d`.
pub open spec fn epoch_days(y: int, m: int, d: int) -> int {
    days_before_year(y) + days_before_month(y, m) + (d - 1)
}

/// Seconds from 1970-01-01T00:00:00Z to the civil instant.
pub open spec fn epoch_seconds(y: int, m: int, d: int, h: int, mi: int, s: int) -> int {
    epoch_days(y, m, d) * 86400 + h * 3600 + mi * 60 + s
}

/// The civil tuples this crate's calendar accepts.
pub open spec fn valid_civil(y: int, m: int, d: int, h: int, mi: int, s: int) -> bool {
    &&& 1970 <= y < 10000
    &&& 1 <= m <= 12
    &&& 1 <= d <= days_in_month(y, m)
    &&& 0 <= h < 24
    &&& 0 <= mi < 60
    &&& 0 <= s < 60
}

/// Bit fields of the packed date word (first two bytes, little endian).
pub open spec fn dos_word(lo: u8, hi: u8) -> u16 {
    (lo as u16) | ((hi as u16) << 8)
}

pub open spec fn dos_day(b: Seq<u8>) -> int {
    (dos_word(b[0], b[1]) & 0x1f) as int
}

pub open spec fn dos_month(b: Seq<u8>) -> int {
    ((dos_word(b[0], b[1]) >> 5) & 0xf) as int
}

pub open spec fn dos_year(b: Seq<u8>) -> int {
    ((dos_word(b[0], b[1]) >> 9) & 0x7f) + 1980
}

/// Bit fields of the packed time word (last two bytes, little endian);
/// seconds are stored halved.
pub open spec fn dos_second(b: Seq<u8>) -> int {
    (dos_word(b[2], b[3]) & 0x1f) * 2
}

pub open spec fn dos_minute(b: Seq<u8>) -> int {
    ((dos_word(b[2], b[3]) >> 5) & 0x3f) as int
}

pub open spec fn dos_hour(b: Seq<u8>) -> int {
    ((dos_word(b[2], b[3]) >> 11) & 0x1f) as int
}

/// What `dosdate` returns: `None` unless the input is exactly four bytes
/// and the packed fields form a constructible calendar date and time.
pub open spec fn dosdate_spec(b: Seq<u8>) -> Option<i64> {
    if b.len() != 4 {
        None
    } else if dos_day(b) == 0 || dos_month(b) == 0 {
        None
    } else if !valid_civil(dos_year(b), dos_month(b), dos_day(b), dos_hour(b), dos_minute(b),
        dos_second(b)) {
        None
    } else {
        Some(
            epoch_seconds(dos_year(b), dos_month(b), dos_day(b), dos_hour(b), dos_minute(b),
                dos_second(b)) as i64,
        )
    }
}

proof fn lemma_days_before_year_mono(y1: int, y2: int)
    requires
        y1 <= y2,
        1970 <= y1,
    ensures
        days_before_year(y1) <= days_before_year(y2),
    decreases y2 - y1,
{
    if y1 < y2 {
        lemma_days_before_year_mono(y1, y2 - 1);
    }
}

proof fn lemma_days_before_month_mono(y: int, m1: int, m2: int)
    requires
        m1 <= m2,
        1 <= m1,
    ensures
        days_before_month(y, m1) <= days_before_month(y, m2),
    decreases m2 - m1,
{
    if m1 < m2 {
        lemma_days_before_month_mono(y, m1, m2 - 1);
    }
}

/// A valid date's day index falls inside its year's range of day indices.
proof fn lemma_epoch_days_in_year(y: int, m: int, d: int)
    requires
        1970 <= y,
        1 <= m <= 12,
        1 <= d <= days_in_month(y, m),
    ensures
        days_before_year(y) <= epoch_days(y, m, d) < days_before_year(y + 1),
{
    lemma_days_before_month_full(y);
    lemma_days_before_month_mono(y, 1, m);
    lemma_days_before_month_mono(y, m + 1, 13);
    assert(days_before_month(y, m) + days_in_month(y, m) == days_before_month(y, m + 1));
    assert(days_before_year(y + 1) == days_before_year(y) + days_in_year(y));
}

/// Two valid civil dates with the same day index are the same date.
proof fn lemma_epoch_days_injective(y1: int, m1: int, d1: int, y2: int, m2: int, d2: int)
    requires
        1970 <= y1,
        1 <= m1 <= 12,
        1 <= d1 <= days_in_month(y1, m1),
        1970 <= y2,
        1 <= m2 <= 12,
        1 <= d2 <= days_in_month(y2, m2),
        epoch_days(y1, m1, d1) == epoch_days(y2, m2, d2),
    ensures
        y1 == y2,
        m1 == m2,
        d1 == d2,
{
    lemma_epoch_days_in_year(y1, m1, d1);
    lemma_epoch_days_in_year(y2, m2, d2);
    if y1 < y2 {
        lemma_days_before_year_mono(y1 + 1, y2);
        assert(false);
    }
    if y2 < y1 {
        lemma_days_before_year_mono(y2 + 1, y1);
        assert(false);
    }
    if m1 < m2 {
        assert(days_before_month(y1, m1) + days_in_month(y1, m1) == days_before_month(y1, m1 + 1));
        lemma_days_before_month_mono(y1, m1 + 1, m2);
        assert(false);
    }
    if m2 < m1 {
        assert(days_before_month(y1, m2) + days_in_month(y1, m2) == days_before_month(y1, m2 + 1));
        lemma_days_before_month_mono(y1, m2 + 1, m1);
        assert(false);
    }
}

/// A quotient-remainder pair with a bounded remainder is unique.
proof fn lemma_div_unique(q1: int, r1: int, q2: int, r2: int, b: int)
    by (nonlinear_arith)
    requires
        0 < b,
        0 <= r1 < b,
        0 <= r2 < b,
        q1 * b + r1 == q2 * b + r2,
    ensures
        q1 == q2,
        r1 == r2,
{
}

/// Two valid civil instants with the same epoch second count are equal.
pub proof fn lemma_epoch_seconds_injective(
    y1: int,
    m1: int,
    d1: int,
    h1: int,
    mi1: int,
    s1: int,
    y2: int,
    m2: int,
    d2: int,
    h2: int,
    mi2: int,
    s2: int,
)
    requires
        valid_civil(y1, m1, d1, h1, mi1, s1),
        valid_civil(y2, m2, d2, h2, mi2, s2),
        epoch_seconds(y1, m1, d1, h1, mi1, s1) == epoch_seconds(y2, m2, d2, h2, mi2, s2),
    ensures
        y1 == y2 && m1 == m2 && d1 == d2 && h1 == h2 && mi1 == mi2 && s1 == s2,
{
    let rem1 = h1 * 3600 + mi1 * 60 + s1;
    let rem2 = h2 * 3600 + mi2 * 60 + s2;
    assert(0 <= rem1 < 86400);
    assert(0 <= rem2 < 86400);
    lemma_div_unique(epoch_days(y1, m1, d1), rem1, epoch_days(y2, m2, d2), rem2, 86400);
    lemma_div_unique(h1, mi1 * 60 + s1, h2, mi2 * 60 + s2, 3600);
    lemma_div_unique(mi1, s1, mi2, s2, 60);
    lemma_epoch_days_injective(y1, m1, d1, y2, m2, d2);
}

/// Every valid civil instant has a nonnegative epoch second count below the
/// year-10000 bound.
proof fn lemma_epoch_seconds_bounds(y: int, m: int, d: int, h: int, mi: int, s: int)
    requires
        valid_civil(y, m, d, h, mi, s),
    ensures
        0 <= epoch_seconds(y, m, d, h, mi, s) < days_before_year(10000) * 86400,
        days_before_year(10000) * 86400 < 0x8000_0000_0000_0000,
{
    lemma_epoch_days_in_year(y, m, d);
    lemma_days_before_year_mono(y + 1, 10000);
    lemma_days_before_year_bounds(y);
    lemma_days_before_year_bounds(10000);
    let ed = epoch_days(y, m, d);
    let dby = days_before_year(10000);
    assert(0 <= ed < dby);
    assert(dby <= 366 * 8030);
    assert(ed * 86400 + 86400 <= dby * 86400) by (nonlinear_arith)
        requires
            ed < dby,
    ;
    assert(dby * 86400 <= 366 * 8030 * 86400) by (nonlinear_arith)
        requires
            dby <= 366 * 8030,
    ;
}

proof fn lemma_days_before_year_bounds(y: int)
    requires
        1970 <= y <= 10000,
    ensures
        365 * (y - 1970) <= days_before_year(y) <= 366 * (y - 1970),
    decreases y - 1970,
{
    if y > 1970 {
        lemma_days_before_year_bounds(y - 1);
    }
}

proof fn lemma_days_before_month_bounds(y: int, m: int)
    requires
        1 <= m <= 13,
    ensures
        28 * (m - 1) <= days_before_month(y, m) <= 31 * (m - 1),
    decreases m,
{
    if m > 1 {
        lemma_days_before_month_bounds(y, m - 1);
    }
}

/// Days from the start of year `y` to the start of month 13 equal the length
/// of the year.
proof fn lemma_days_before_month_full(y: int)
    ensures
        days_before_month(y, 13) == days_in_year(y),
{
    reveal_with_fuel(days_before_month, 14);
}

/// Computes days from 1970-01-01 up to the first day of `year`.
fn days_before_year_exec(year: u32) -> (r: u64)
    requires
        1970 <= year <= 10000,
    ensures
        r == days_before_year(year as int),
{
    let mut y: u32 = 1970;
    let mut acc: u64 = 0;
    while y < year
        invariant
            1970 <= y <= year <= 10000,
            acc == days_before_year(y as int),
        decreases year - y,
    {
        proof {
            lemma_days_before_year_bounds(y as int);
        }
        if y % 4 == 0 && (y % 100 != 0 || y % 400 == 0) {
            acc = acc + 366;
        } else {
            acc = acc + 365;
        }
        y = y + 1;
    }
    acc
}

/// Computes days in month `m` of year `year`.
fn days_in_month_exec(year: u32, m: u32) -> (r: u32)
    requires
        1 <= m <= 12,
    ensures
        r == days_in_month(year as int, m as int),
{
    if m == 2 {
        if year % 4 == 0 && (year % 100 != 0 || year % 400 == 0) { 29 } else { 28 }
    } else if m == 4 || m == 6 || m == 9 || m == 11 {
        30
    } else {
        31
    }
}

/// Computes days from the start of `year` up to the first day of month `m`.
fn days_before_month_exec(year: u32, m: u32) -> (r: u32)
    requires
        1 <= m <= 13,
    ensures
        r == days_before_month(year as int, m as int),
{
    let mut i: u32 = 1;
    let mut acc: u32 = 0;
    while i < m
        invariant
            1 <= i <= m <= 13,
            acc == days_before_month(year as int, i as int),
        decreases m - i,
    {
        proof {
            lemma_days_before_month_bounds(year as int, i as int);
        }
        acc = acc + days_in_month_exec(year, i);
        i = i + 1;
    }
    acc
}

/// Splits an epoch second count back into the unique valid civil instant.
pub fn split_timestamp(t: i64) -> (r: (u32, u32, u32, u32, u32, u32))
    requires
        0 <= t,
        t < days_before_year(10000) * 86400,
    ensures
        valid_civil(r.0 as int, r.1 as int, r.2 as int, r.3 as int, r.4 as int, r.5 as int),
        epoch_seconds(r.0 as int, r.1 as int, r.2 as int, r.3 as int, r.4 as int, r.5 as int)
            == t,
{
    proof {
        lemma_days_before_year_bounds(10000);
        assert(days_before_year(10000) * 86400 <= 366 * 8030 * 86400) by (nonlinear_arith)
            requires
                days_before_year(10000) <= 366 * 8030,
        ;
        assert((t as int) / 86400 * 86400 + (t as int) % 86400 == t as int);
        assert((t as int) / 86400 < days_before_year(10000)) by (nonlinear_arith)
            requires
                0 <= t as int,
                (t as int) / 86400 * 86400 + (t as int) % 86400 == t as int,
                0 <= (t as int) % 86400 < 86400,
                (t as int) < days_before_year(10000) * 86400,
        ;
    }
    let days: u32 = (t / 86400) as u32;
    let rem: u32 = (t % 86400) as u32;
    let h: u32 = rem / 3600;
    let mi: u32 = (rem % 3600) / 60;
    let s: u32 = rem % 60;
    proof {
        assert(h * 3600 + mi * 60 + s == rem && h < 24 && mi < 60 && s < 60) by (nonlinear_arith)
            requires
                rem < 86400,
                h == rem / 3600,
                mi == (rem % 3600) / 60,
                s == rem % 60,
        ;
    }
    let mut y: u32 = 1970;
    let mut acc: u32 = 0;
    while acc + days_in_year_exec(y) <= days
        invariant
            1970 <= y < 10000,
            acc == days_before_year(y as int),
            acc <= days,
            days < days_before_year(10000),
            days < 2938980,
        decreases 10000 - y,
    {
        acc = acc + days_in_year_exec(y);
        y = y + 1;
        proof {
            if y >= 10000 {
                lemma_days_before_year_mono(y as int, 10000);
                assert(false);
            }
        }
    }
    let mut m: u32 = 1;
    let mut macc: u32 = acc;
    while m < 12 && macc + days_in_month_exec(y, m) <= days
        invariant
            1 <= m <= 12,
            1970 <= y < 10000,
            acc == days_before_year(y as int),
            macc == acc + days_before_month(y as int, m as int),
            macc <= days,
            days < days_before_year(y as int) + days_in_year(y as int),
            days < 2938980,
        decreases 12 - m,
    {
        proof {
            lemma_days_before_month_bounds(y as int, m as int);
        }
        macc = macc + days_in_month_exec(y, m);
        m = m + 1;
    }
    proof {
        lemma_days_before_month_full(y as int);
        if m == 12 {
            assert(days_before_month(y as int, 13) == days_before_month(y as int, 12)
                + days_in_month(y as int, 12));
        }
        assert(days < macc + days_in_month(y as int, m as int));
    }
    let d: u32 = days - macc + 1;
    (y, m, d, h, mi, s)
}

/// Computes the number of days in year `y`.
fn days_in_year_exec(y: u32) -> (r: u32)
    ensures
        r == days_in_year(y as int),
{
    if y % 4 == 0 && (y % 100 != 0 || y % 400 == 0) { 366 } else { 365 }
}

/// A decoded packed date pins the civil fields: any valid civil instant whose
/// epoch second count equals the decoded timestamp carries exactly the day,
/// month, year, hour, minute and second bit-fields of the packed input.
pub proof fn lemma_dosdate_fields_recoverable(
    b: Seq<u8>,
    t: i64,
    y: int,
    m: int,
    d: int,
    h: int,
    mi: int,
    s: int,
)
    requires
        dosdate_spec(b) == Some(t),
        valid_civil(y, m, d, h, mi, s),
        epoch_seconds(y, m, d, h, mi, s) == t,
    ensures
        y == dos_year(b),
        m == dos_month(b),
        d == dos_day(b),
        h == dos_hour(b),
        mi == dos_minute(b),
        s == dos_second(b),
{
    lemma_epoch_seconds_bounds(
        dos_year(b),
        dos_month(b),
        dos_day(b),
        dos_hour(b),
        dos_minute(b),
        dos_second(b),
    );
    lemma_epoch_seconds_injective(
        y,
        m,
        d,
        h,
        mi,
        s,
        dos_year(b),
        dos_month(b),
        dos_day(b),
        dos_hour(b),
        dos_minute(b),
        dos_second(b),
    );
}

/// The text of a timestamp: the calendar instant, written
/// year-month-day, a space, hour-minute-second, a space and the zone name,
/// when the timestamp lies in the representable range; the plain decimal
/// epoch count otherwise.
pub open spec fn time_text(t: int) -> Seq<char> {
    if 0 <= t < days_before_year(10000) * 86400 {
        let fields = choose|y: int, m: int, d: int, h: int, mi: int, s: int|
            valid_civil(y, m, d, h, mi, s) && epoch_seconds(y, m, d, h, mi, s) == t;
        civil_text(fields.0, fields.1, fields.2, fields.3, fields.4, fields.5)
    } else {
        crate::strutil::dec_str_signed(t)
    }
}

/// The text of a civil instant.
pub open spec fn civil_text(y: int, m: int, d: int, h: int, mi: int, s: int) -> Seq<char> {
    crate::strutil::dec_str(y) + seq!['-'] + crate::strutil::two_digits(m) + seq!['-']
        + crate::strutil::two_digits(d) + seq![' '] + crate::strutil::two_digits(h) + seq![':']
        + crate::strutil::two_digits(mi) + seq![':'] + crate::strutil::two_digits(s) + seq![
        ' ',
        'U',
        'T',
        'C',
    ]
}

/// Renders a timestamp as text: the calendar instant for representable
/// values, the decimal epoch count for the rest.
pub fn format_timestamp(t: i64) -> (r: String)
    ensures
        r@ == time_text(t as int),
{
    proof {
        lemma_days_before_year_bounds(10000);
        assert(days_before_year(10000) * 86400 <= 366 * 8030 * 86400) by (nonlinear_arith)
            requires
                days_before_year(10000) <= 366 * 8030,
        ;
        assert(days_before_year(10000) * 86400 >= 365 * 8030 * 86400) by (nonlinear_arith)
            requires
                days_before_year(10000) >= 365 * 8030,
        ;
    }
    let limit_days: u64 = days_before_year_exec(10000);
    let limit: i64 = (limit_days as i64) * 86400;
    if t < 0 || t >= limit {
        return crate::strutil::i64_to_string(t);
    }
    let (y, m, d, h, mi, s) = split_timestamp(t);
    let mut out = crate::strutil::u64_to_string(y as u64);
    crate::strutil::push_char(&mut out, '-');
    let part = crate::strutil::two_digits_exec(m as u64);
    out.append(part.as_str());
    crate::strutil::push_char(&mut out, '-');
    let part = crate::strutil::two_digits_exec(d as u64);
    out.append(part.as_str());
    crate::strutil::push_char(&mut out, ' ');
    let part = crate::strutil::two_digits_exec(h as u64);
    out.append(part.as_str());
    crate::strutil::push_char(&mut out, ':');
    let part = crate::strutil::two_digits_exec(mi as u64);
    out.append(part.as_str());
    crate::strutil::push_char(&mut out, ':');
    let part = crate::strutil::two_digits_exec(s as u64);
    out.append(part.as_str());
    crate::strutil::push_char(&mut out, ' ');
    crate::strutil::push_char(&mut out, 'U');
    crate::strutil::push_char(&mut out, 'T');
    crate::strutil::push_char(&mut out, 'C');
    proof {
        let fields = choose|y2: int, m2: int, d2: int, h2: int, mi2: int, s2: int|
            valid_civil(y2, m2, d2, h2, mi2, s2) && epoch_seconds(y2, m2, d2, h2, mi2, s2)
                == t as int;
        lemma_epoch_seconds_injective(
            fields.0,
            fields.1,
            fields.2,
            fields.3,
            fields.4,
            fields.5,
            y as int,
            m as int,
            d as int,
            h as int,
            mi as int,
            s as int,
        );
        assert(out@ =~= civil_text(y as int, m as int, d as int, h as int, mi as int, s as int));
    }
    out
}

/// Decodes the legacy packed 4-byte date-and-time pair: 5 bits day, 4 bits
/// month, 7 bits year since 1980, then 5 bits half-seconds, 6 bits minute,
/// 5 bits hour.  Returns `None` when day or month is zero or the fields do
/// not form a constructible date and time; never panics on any input.
pub fn dosdate(data: &[u8]) -> (r: Option<i64>)
    ensures
        r == dosdate_spec(data@),
{
    if data.len() != 4 {
        return None;
    }
    let dt: u16 = (data[0] as u16) | ((data[1] as u16) << 8);
    let day: u32 = (dt & 0x1f) as u32;
    let month: u32 = ((dt >> 5) & 0xf) as u32;
    let year: u32 = ((dt >> 9) & 0x7f) as u32 + 1980;
    let dd: u16 = (data[2] as u16) | ((data[3] as u16) << 8);
    let sec: u32 = ((dd & 0x1f) as u32) * 2;
    let minute: u32 = ((dd >> 5) & 0x3f) as u32;
    let hour: u32 = ((dd >> 11) & 0x1f) as u32;
    proof {
        assert(dt & 0x1f < 32) by (bit_vector);
        assert((dt >> 5) & 0xf < 16) by (bit_vector);
        assert((dt >> 9) & 0x7f < 128) by (bit_vector);
        assert(dd & 0x1f < 32) by (bit_vector);
        assert((dd >> 5) & 0x3f < 64) by (bit_vector);
        assert((dd >> 11) & 0x1f < 32) by (bit_vector);
    }
    if day == 0 || month == 0 {
        return None;
    }
    if month > 12 || hour > 23 || minute > 59 || sec > 59 {
        return None;
    }
    if day > days_in_month_exec(year, month) {
        return None;
    }
    proof {
        lemma_days_before_year_bounds(year as int);
        lemma_days_before_month_bounds(year as int, month as int);
    }
    let days: u64 = days_before_year_exec(year) + days_before_month_exec(year, month) as u64 + (
    day - 1) as u64;
    let secs: i64 = (days as i64) * 86400 + (hour as i64) * 3600 + (minute as i64) * 60 + (
    sec as i64);
    Some(secs)
}

} // verus!
