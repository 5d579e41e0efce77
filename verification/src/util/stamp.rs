//! The timestamp `YYYY-mm-DD_HHMM`, in UTC.

use vstd::prelude::*;
use vstd::string::*;
use crate::util::number;
use crate::util::text;

verus! {

/// Whether `y` is a leap year of the Gregorian calendar.
pub open spec fn is_leap(y: int) -> bool {
    y % 4 == 0 && (y % 100 != 0 || y % 400 == 0)
}

/// The number of days in month `m` of year `y`.
pub open spec fn days_in_month(y: int, m: int) -> int {
    if m == 2 {
        if is_leap(y) {
            29
        } else {
            28
        }
    } else if m == 4 || m == 6 || m == 9 || m == 11 {
        30
    } else {
        31
    }
}

/// Whether the calendar has a day `d` of month `m` in year `y`.
pub open spec fn is_date(y: int, m: int, d: int) -> bool {
    1 <= m <= 12 && 1 <= d <= days_in_month(y, m)
}

/// The number of leap years from year 1 up to and with `y`.
pub open spec fn leaps(y: int) -> int {
    y / 4 - y / 100 + y / 400
}

/// The number of days in year `y` before its month `m`.
pub open spec fn days_before_month(y: int, m: int) -> int
    decreases m,
{
    if m <= 1 {
        0
    } else {
        days_before_month(y, m - 1) + days_in_month(y, m - 1)
    }
}

/// The number of days from the first of January 1970 to the given date.
pub open spec fn day_number(y: int, m: int, d: int) -> int {
    365 * (y - 1970) + leaps(y - 1) - leaps(1969) + days_before_month(y, m) + d - 1
}

/// The date (year, month, day) that stands `days` days after the first of January 1970.
pub open spec fn date_of(days: int) -> (int, int, int) {
    choose|t: (int, int, int)| is_date(t.0, t.1, t.2) && day_number(t.0, t.1, t.2) == days
}

/// The timestamp of the instant `secs` seconds after the start of 1970.
pub open spec fn stamped(secs: nat) -> Seq<char> {
    let t = date_of((secs / 86_400) as int);
    number::padded(t.0 as nat, 4) + "-"@ + number::padded(t.1 as nat, 2) + "-"@ + number::padded(
        t.2 as nat,
        2,
    ) + "_"@ + number::padded((secs % 86_400) / 3_600, 2) + number::padded(
        (secs % 3_600) / 60,
        2,
    )
}

/// Years of the calendar that starts in March: which of the four hundred of a cycle a day falls
/// in, and which day of it.
proof fn lemma_year_of_cycle(doe: int, yoe: int, doy: int)
    requires
        0 <= doe < 146_097,
        yoe == (doe - doe / 1_460 + doe / 36_524 - doe / 146_096) / 365,
        doy == doe - (365 * yoe + yoe / 4 - yoe / 100),
    ensures
        0 <= yoe < 400,
        0 <= doy <= 365,
        doy == 365 ==> is_leap(yoe + 1),
{
}

/// Months of the calendar that starts in March: which month a day of the year falls in, and
/// which day of it.
proof fn lemma_month_of_year(doy: int, mp: int)
    requires
        0 <= doy <= 365,
        mp == (5 * doy + 2) / 153,
    ensures
        0 <= mp <= 11,
        (153 * mp + 2) / 5 <= doy < (153 * (mp + 1) + 2) / 5,
{
}

/// The days before a month, counted from the first of March on.
proof fn lemma_days_before_month(y: int, m: int)
    requires
        1 <= m <= 12,
    ensures
        m == 1 ==> days_before_month(y, m) == 0,
        m == 2 ==> days_before_month(y, m) == 31,
        m >= 3 ==> days_before_month(y, m) == 31 + days_in_month(y, 2) + (153 * (m - 3) + 2) / 5,
{
    reveal_with_fuel(days_before_month, 13);
}

/// One more leap year is counted exactly in a leap year.
proof fn lemma_leaps(y: int)
    ensures
        leaps(y) == leaps(y - 1) + if is_leap(y) {
            1int
        } else {
            0
        },
{
    let a = y / 4;
    let b = y / 100;
    let c = y / 400;
    assert((y - 1) / 4 == if y % 4 == 0 {
        a - 1
    } else {
        a
    });
    assert((y - 1) / 100 == if y % 100 == 0 {
        b - 1
    } else {
        b
    });
    assert((y - 1) / 400 == if y % 400 == 0 {
        c - 1
    } else {
        c
    });
    assert(y % 100 == 0 ==> y % 4 == 0) by {
        assert(y == 100 * b + y % 100);
    }
    assert(y % 400 == 0 ==> y % 100 == 0) by {
        assert(y == 400 * c + y % 400);
    }
}

/// Four hundred years hold ninety-seven leap years, wherever they start.
proof fn lemma_cycle(era: int, yoe: int)
    requires
        0 <= yoe < 400,
    ensures
        leaps(yoe + era * 400) == era * 97 + yoe / 4 - yoe / 100,
        is_leap(yoe + era * 400 + 1) == is_leap(yoe + 1),
{
    let y = yoe + era * 400;
    assert(y / 4 == era * 100 + yoe / 4);
    assert(y / 100 == era * 4 + yoe / 100);
    assert(y / 400 == era);
    assert((y + 1) % 4 == (yoe + 1) % 4);
    assert((y + 1) % 100 == (yoe + 1) % 100);
    assert((y + 1) % 400 == (yoe + 1) % 400);
}

/// The days of a year and month add up to the day's number.
proof fn lemma_civil(days: int, era: int, doe: int, yoe: int, doy: int, mp: int)
    requires
        days + 719_468 == era * 146_097 + doe,
        0 <= doe < 146_097,
        yoe == (doe - doe / 1_460 + doe / 36_524 - doe / 146_096) / 365,
        doy == doe - (365 * yoe + yoe / 4 - yoe / 100),
        mp == (5 * doy + 2) / 153,
    ensures
        0 <= yoe < 400,
        0 <= doy <= 365,
        0 <= mp <= 11,
        ({
            let d = doy - (153 * mp + 2) / 5 + 1;
            let m = if mp < 10 {
                mp + 3
            } else {
                mp - 9
            };
            let y = yoe + era * 400 + if m <= 2 {
                1int
            } else {
                0
            };
            is_date(y, m, d) && day_number(y, m, d) == days
        }),
{
    lemma_year_of_cycle(doe, yoe, doy);
    lemma_month_of_year(doy, mp);
    let d = doy - (153 * mp + 2) / 5 + 1;
    let m = if mp < 10 {
        mp + 3
    } else {
        mp - 9
    };
    let base = yoe + era * 400;
    let y = base + if m <= 2 {
        1int
    } else {
        0
    };
    lemma_days_before_month(y, m);
    lemma_leaps(base);
    lemma_cycle(era, yoe);
    assert(365 * base == 365 * yoe + 146_000 * era);
    let before = days_before_month(y, m);
    let lp = leaps(base);
    assert(leaps(1969) == 477);
    if m >= 3 {
        assert(before + d - 1 == 31 + days_in_month(y, 2) + doy);
        assert(leaps(y - 1) + days_in_month(y, 2) == lp + 28);
    } else {
        assert(before + d - 1 == doy - 306);
        assert(leaps(y - 1) == lp);
    }
    assert(365 * base + lp + doy - 719_468 == days);
}

/// The number of days in year `y`.
spec fn year_length(y: int) -> int {
    if is_leap(y) {
        366
    } else {
        365
    }
}

/// A date lies within its year.
proof fn lemma_within_year(y: int, m: int, d: int)
    requires
        is_date(y, m, d),
    ensures
        0 <= days_before_month(y, m) + d - 1 < year_length(y),
{
    lemma_days_before_month(y, m);
}

/// The first of January of a later year comes after the whole of an earlier one.
proof fn lemma_years_apart(a: int, b: int)
    requires
        a < b,
    ensures
        365 * (a - 1970) + leaps(a - 1) + year_length(a) <= 365 * (b - 1970) + leaps(b - 1),
    decreases b - a,
{
    lemma_leaps(a);
    if a + 1 < b {
        lemma_years_apart(a + 1, b);
    }
}

/// Within a year, a later month comes after the whole of an earlier one.
proof fn lemma_months_apart(y: int, a: int, b: int)
    requires
        1 <= a < b <= 12,
    ensures
        days_before_month(y, a) + days_in_month(y, a) <= days_before_month(y, b),
    decreases b - a,
{
    if a + 1 < b {
        lemma_months_apart(y, a, b - 1);
    }
}

/// No two dates of the calendar have the same day number.
pub proof fn law_one_date_per_day(y1: int, m1: int, d1: int, y2: int, m2: int, d2: int)
    requires
        is_date(y1, m1, d1),
        is_date(y2, m2, d2),
        day_number(y1, m1, d1) == day_number(y2, m2, d2),
    ensures
        y1 == y2 && m1 == m2 && d1 == d2,
{
    lemma_within_year(y1, m1, d1);
    lemma_within_year(y2, m2, d2);
    if y1 < y2 {
        lemma_years_apart(y1, y2);
    } else if y2 < y1 {
        lemma_years_apart(y2, y1);
    } else if m1 < m2 {
        lemma_months_apart(y1, m1, m2);
    } else if m2 < m1 {
        lemma_months_apart(y1, m2, m1);
    }
}

/// Every day from 1970 on has its date, in or after 1970.
pub proof fn law_every_day_has_a_date(days: int)
    requires
        0 <= days,
    ensures
        is_date(date_of(days).0, date_of(days).1, date_of(days).2),
        day_number(date_of(days).0, date_of(days).1, date_of(days).2) == days,
        date_of(days).0 >= 1970,
{
    let z = days + 719_468;
    let era = z / 146_097;
    let doe = z % 146_097;
    let yoe = (doe - doe / 1_460 + doe / 36_524 - doe / 146_096) / 365;
    let doy = doe - (365 * yoe + yoe / 4 - yoe / 100);
    let mp = (5 * doy + 2) / 153;
    lemma_civil(days, era, doe, yoe, doy, mp);
    let d = doy - (153 * mp + 2) / 5 + 1;
    let m = if mp < 10 {
        mp + 3
    } else {
        mp - 9
    };
    let y = yoe + era * 400 + if m <= 2 {
        1int
    } else {
        0
    };
    let t = (y, m, d);
    assert(is_date(t.0, t.1, t.2) && day_number(t.0, t.1, t.2) == days);
    let c = date_of(days);
    assert(is_date(c.0, c.1, c.2) && day_number(c.0, c.1, c.2) == days);
    lemma_within_year(c.0, c.1, c.2);
    if c.0 < 1970 {
        lemma_years_apart(c.0, 1970);
    }
}

/// `secs` since the start of 1970 as `YYYY-mm-DD_HHMM`, in UTC.
pub fn format_utc(secs: u64) -> (r: String)
    ensures
        r@ == stamped(secs as nat),
{
    let days: u64 = secs / 86_400;
    let hour: u64 = (secs % 86_400) / 3_600;
    let minute: u64 = (secs % 3_600) / 60;
    let z: u64 = days + 719_468;
    let era: u64 = z / 146_097;
    let doe: u64 = z % 146_097;
    let yoe: u64 = (doe - doe / 1_460 + doe / 36_524 - doe / 146_096) / 365;
    proof {
        lemma_year_of_cycle(
            doe as int,
            yoe as int,
            doe - (365 * yoe + yoe as int / 4 - yoe as int / 100),
        );
    }
    let doy: u64 = doe - (365 * yoe + yoe / 4 - yoe / 100);
    let mp: u64 = (5 * doy + 2) / 153;
    proof {
        lemma_civil(days as int, era as int, doe as int, yoe as int, doy as int, mp as int);
        lemma_month_of_year(doy as int, mp as int);
    }
    let day: u64 = doy - (153 * mp + 2) / 5 + 1;
    let month: u64 = if mp < 10 {
        mp + 3
    } else {
        mp - 9
    };
    let year: u64 = yoe + era * 400 + if month <= 2 {
        1
    } else {
        0
    };
    proof {
        law_every_day_has_a_date(days as int);
        let c = date_of(days as int);
        law_one_date_per_day(c.0, c.1, c.2, year as int, month as int, day as int);
    }
    let date = text::cat5(
        number::decimal_padded(year, 4).as_str(),
        "-",
        number::decimal_padded(month, 2).as_str(),
        "-",
        number::decimal_padded(day, 2).as_str(),
    );
    text::cat4(
        date.as_str(),
        "_",
        number::decimal_padded(hour, 2).as_str(),
        number::decimal_padded(minute, 2).as_str(),
    )
}

/// The calendar's order: of two days, the earlier one has the lower year, or in the same year the
/// lower month, or in the same month the lower day.
proof fn lemma_dates_in_order(y1: int, m1: int, d1: int, y2: int, m2: int, d2: int)
    requires
        is_date(y1, m1, d1),
        is_date(y2, m2, d2),
        day_number(y1, m1, d1) < day_number(y2, m2, d2),
    ensures
        y1 < y2 || y1 == y2 && (m1 < m2 || m1 == m2 && d1 < d2),
{
    lemma_within_year(y1, m1, d1);
    lemma_within_year(y2, m2, d2);
    if y2 < y1 {
        lemma_years_apart(y2, y1);
    } else if y1 == y2 && m2 < m1 {
        lemma_months_apart(y1, m2, m1);
    }
}

/// The first second of the year 10000.
pub const YEAR_10000: u64 = 253_402_300_800;

/// Before the year 10000 a date's year has at most four digits.
proof fn lemma_four_digit_years(days: int)
    requires
        0 <= days < 2_932_897,
    ensures
        1970 <= date_of(days).0 < 10_000,
        1 <= date_of(days).1 <= 12,
        1 <= date_of(days).2 <= 31,
{
    law_every_day_has_a_date(days);
    let c = date_of(days);
    lemma_within_year(c.0, c.1, c.2);
    assert(leaps(9_999) == 2_424);
    assert(leaps(1969) == 477);
    if c.0 > 10_000 {
        lemma_years_apart(10_000, c.0);
    }
}

/// The five fields of a timestamp: year, month, day, hour and minute.
spec fn fields(secs: nat) -> (nat, nat, nat, nat, nat) {
    let t = date_of((secs / 86_400) as int);
    (
        t.0 as nat,
        t.1 as nat,
        t.2 as nat,
        (secs % 86_400) / 3_600,
        (secs % 3_600) / 60,
    )
}

proof fn lemma_field_decides(
    start: Seq<char>,
    a: Seq<char>,
    b: Seq<char>,
    rest_a: Seq<char>,
    rest_b: Seq<char>,
    k: int,
)
    requires
        text::lower_at(a, b, k),
    ensures
        text::precedes(start + a + rest_a, start + b + rest_b),
{
    let x = start + a + rest_a;
    let y = start + b + rest_b;
    let i = start.len() + k;
    assert(x.take(i) =~= start + a.take(k));
    assert(y.take(i) =~= start + b.take(k));
    assert(x[i] == a[k] && y[i] == b[k]);
    assert(text::lower_at(x, y, i));
}

/// The days, hours and minutes of an instant add up to its minutes.
proof fn lemma_minutes_add_up(secs: nat)
    ensures
        secs / 60 == (secs / 86_400) * 1_440 + ((secs % 86_400) / 3_600) * 60 + (secs % 3_600)
            / 60,
        (secs % 86_400) / 3_600 < 24,
        (secs % 3_600) / 60 < 60,
{
}

/// Two instants fall in the same minute of the same hour of the same day, or the earlier one has
/// the lower day, hour or minute, in this order of precedence.
proof fn lemma_instants_in_order(a: nat, b: nat)
    requires
        a / 60 < b / 60,
    ensures
        ({
            let (ha, ma) = ((a % 86_400) / 3_600, (a % 3_600) / 60);
            let (hb, mb) = ((b % 86_400) / 3_600, (b % 3_600) / 60);
            ||| a / 86_400 < b / 86_400
            ||| a / 86_400 == b / 86_400 && (ha < hb || ha == hb && ma < mb)
        }),
{
    lemma_minutes_add_up(a);
    lemma_minutes_add_up(b);
    lemma_parts_in_order(
        (a / 86_400) as int,
        ((a % 86_400) / 3_600) as int,
        ((a % 3_600) / 60) as int,
        (b / 86_400) as int,
        ((b % 86_400) / 3_600) as int,
        ((b % 3_600) / 60) as int,
    );
}

proof fn lemma_same_minute(a: nat, b: nat)
    requires
        a / 60 == b / 60,
    ensures
        stamped(a) == stamped(b),
{
    lemma_same_parts(a, b);
}

proof fn lemma_same_parts(a: nat, b: nat)
    requires
        a / 60 == b / 60,
    ensures
        a / 86_400 == b / 86_400,
        (a % 86_400) / 3_600 == (b % 86_400) / 3_600,
        (a % 3_600) / 60 == (b % 3_600) / 60,
{
    lemma_minutes_add_up(a);
    lemma_minutes_add_up(b);
    lemma_parts_in_order(
        (a / 86_400) as int,
        ((a % 86_400) / 3_600) as int,
        ((a % 3_600) / 60) as int,
        (b / 86_400) as int,
        ((b % 86_400) / 3_600) as int,
        ((b % 3_600) / 60) as int,
    );
}

/// Days, hours and minutes compare as the minutes that they add up to.
proof fn lemma_parts_in_order(d1: int, h1: int, m1: int, d2: int, h2: int, m2: int)
    requires
        0 <= h1 < 24,
        0 <= h2 < 24,
        0 <= m1 < 60,
        0 <= m2 < 60,
    ensures
        d1 * 1_440 + h1 * 60 + m1 == d2 * 1_440 + h2 * 60 + m2 ==> d1 == d2 && h1 == h2 && m1 == m2,
        d1 * 1_440 + h1 * 60 + m1 < d2 * 1_440 + h2 * 60 + m2 ==> d1 < d2 || d1 == d2 && (h1 < h2
            || h1 == h2 && m1 < m2),
{
}

proof fn lemma_later_minute(a: nat, b: nat)
    requires
        a / 60 < b / 60,
        b < YEAR_10000,
    ensures
        text::precedes(stamped(a), stamped(b)),
{
    let da = (a / 86_400) as int;
    let db = (b / 86_400) as int;
    let (ya, ma, ta, ha, na) = fields(a);
    let (yb, mb, tb, hb, nb) = fields(b);
    lemma_four_digit_years(da);
    lemma_four_digit_years(db);
    lemma_instants_in_order(a, b);
    law_every_day_has_a_date(da);
    law_every_day_has_a_date(db);
    number::lemma_four_digits(ya);
    number::lemma_four_digits(yb);
    number::lemma_two_digits(ma);
    number::lemma_two_digits(mb);
    number::lemma_two_digits(ta);
    number::lemma_two_digits(tb);
    number::lemma_two_digits(ha);
    number::lemma_two_digits(hb);
    number::lemma_two_digits(na);
    number::lemma_two_digits(nb);
    if da < db {
        let p = date_of(da);
        let q = date_of(db);
        lemma_dates_in_order(p.0, p.1, p.2, q.0, q.1, q.2);
    }
    let year_a = number::padded(ya, 4);
    let year_b = number::padded(yb, 4);
    let month_a = number::padded(ma, 2);
    let month_b = number::padded(mb, 2);
    let day_a = number::padded(ta, 2);
    let day_b = number::padded(tb, 2);
    let hour_a = number::padded(ha, 2);
    let hour_b = number::padded(hb, 2);
    let minute_a = number::padded(na, 2);
    let minute_b = number::padded(nb, 2);
    let none = Seq::<char>::empty();
    if ya < yb {
        let k = number::lemma_padded_order(ya, yb, 4);
        let rest_a = "-"@ + month_a + "-"@ + day_a + "_"@ + hour_a + minute_a;
        let rest_b = "-"@ + month_b + "-"@ + day_b + "_"@ + hour_b + minute_b;
        lemma_field_decides(none, year_a, year_b, rest_a, rest_b, k);
        assert(stamped(a) =~= none + year_a + rest_a);
        assert(stamped(b) =~= none + year_b + rest_b);
    } else if ma < mb {
        let k = number::lemma_padded_order(ma, mb, 2);
        let start = year_a + "-"@;
        let rest_a = "-"@ + day_a + "_"@ + hour_a + minute_a;
        let rest_b = "-"@ + day_b + "_"@ + hour_b + minute_b;
        lemma_field_decides(start, month_a, month_b, rest_a, rest_b, k);
        assert(stamped(a) =~= start + month_a + rest_a);
        assert(stamped(b) =~= start + month_b + rest_b);
    } else if ta < tb {
        let k = number::lemma_padded_order(ta, tb, 2);
        let start = year_a + "-"@ + month_a + "-"@;
        let rest_a = "_"@ + hour_a + minute_a;
        let rest_b = "_"@ + hour_b + minute_b;
        lemma_field_decides(start, day_a, day_b, rest_a, rest_b, k);
        assert(stamped(a) =~= start + day_a + rest_a);
        assert(stamped(b) =~= start + day_b + rest_b);
    } else if ha < hb {
        let k = number::lemma_padded_order(ha, hb, 2);
        let start = year_a + "-"@ + month_a + "-"@ + day_a + "_"@;
        lemma_field_decides(start, hour_a, hour_b, minute_a, minute_b, k);
        assert(stamped(a) =~= start + hour_a + minute_a);
        assert(stamped(b) =~= start + hour_b + minute_b);
    } else {
        let k = number::lemma_padded_order(na, nb, 2);
        let start = year_a + "-"@ + month_a + "-"@ + day_a + "_"@ + hour_a;
        lemma_field_decides(start, minute_a, minute_b, none, none, k);
        assert(stamped(a) =~= start + minute_a + none);
        assert(stamped(b) =~= start + minute_b + none);
    }
}

/// Before the year 10000 every timestamp has fifteen characters.
pub proof fn law_timestamps_have_one_width(secs: nat)
    requires
        secs < YEAR_10000,
    ensures
        stamped(secs).len() == 15,
{
    let (y, m, d, h, n) = fields(secs);
    lemma_four_digit_years((secs / 86_400) as int);
    number::lemma_four_digits(y);
    number::lemma_two_digits(m);
    number::lemma_two_digits(d);
    number::lemma_two_digits(h);
    number::lemma_two_digits(n);
    reveal_strlit("-");
    reveal_strlit("_");
}

/// Before the year 10000 timestamps sort as their instants do, and two of them are equal exactly
/// where the instants fall in the same minute.
pub proof fn law_timestamps_keep_the_order(a: nat, b: nat)
    requires
        a <= b,
        b < YEAR_10000,
    ensures
        stamped(a) == stamped(b) || text::precedes(stamped(a), stamped(b)),
        stamped(a) == stamped(b) <==> a / 60 == b / 60,
{
    if a / 60 == b / 60 {
        lemma_same_minute(a, b);
    } else {
        lemma_later_minute(a, b);
        law_timestamps_have_one_width(a);
        law_timestamps_have_one_width(b);
        let k = choose|k: int| text::lower_at(stamped(a), stamped(b), k);
        assert(stamped(a)[k] < stamped(b)[k]);
    }
}

/// The calendar counts its days one by one from the first of January 1970: from a day to the next,
/// from the end of a month to the first of the next one, and from the end of a year to the next
/// year. Months have their known lengths, and February has a leap day in the years that four
/// divides, save those that a hundred divides and four hundred does not.
pub proof fn law_the_calendar_counts_its_days(y: int, m: int, d: int)
    ensures
        day_number(1970, 1, 1) == 0,
        day_number(y, m, d + 1) == day_number(y, m, d) + 1,
        1 <= m < 12 ==> day_number(y, m + 1, 1) == day_number(y, m, 1) + (if m == 2 {
            if y % 400 == 0 || y % 4 == 0 && y % 100 != 0 {
                29int
            } else {
                28int
            }
        } else if m == 4 || m == 6 || m == 9 || m == 11 {
            30int
        } else {
            31int
        }),
        day_number(y + 1, 1, 1) == day_number(y, 12, 31) + 1,
{
    reveal_with_fuel(days_before_month, 13);
    assert(y % 400 == 0 ==> y % 4 == 0 && y % 100 == 0);
    assert(leaps(y) - leaps(y - 1) == if is_leap(y) {
        1int
    } else {
        0int
    }) by {
        lemma_quotient_steps(y, 4);
        lemma_quotient_steps(y, 100);
        lemma_quotient_steps(y, 400);
    }
}

proof fn lemma_quotient_steps(y: int, n: int)
    requires
        n == 4 || n == 100 || n == 400,
    ensures
        y / n - (y - 1) / n == if y % n == 0 {
            1int
        } else {
            0int
        },
{
}

/// A timestamp spells its instant: the date with four digits of the year and two of month and day,
/// and behind an underscore two digits of the hour and two of the minute; the second is dropped.
pub proof fn law_a_timestamp_spells_its_instant(
    y: int,
    m: int,
    d: int,
    hour: nat,
    minute: nat,
    second: nat,
)
    requires
        is_date(y, m, d),
        day_number(y, m, d) >= 0,
        hour < 24,
        minute < 60,
        second < 60,
    ensures
        stamped((86_400 * day_number(y, m, d) + 3_600 * hour + 60 * minute + second) as nat)
            == number::padded(y as nat, 4) + "-"@ + number::padded(m as nat, 2) + "-"@
            + number::padded(d as nat, 2) + "_"@ + number::padded(hour, 2) + number::padded(
            minute,
            2,
        ),
{
    let days = day_number(y, m, d);
    let secs = (86_400 * days + 3_600 * hour + 60 * minute + second) as nat;
    lemma_clock(days, hour as int, minute as int, second as int);
    law_every_day_has_a_date(days);
    let t = date_of(days);
    law_one_date_per_day(t.0, t.1, t.2, y, m, d);
}

proof fn lemma_clock(days: int, hour: int, minute: int, second: int)
    requires
        0 <= days,
        0 <= hour < 24,
        0 <= minute < 60,
        0 <= second < 60,
    ensures
        ({
            let secs = 86_400 * days + 3_600 * hour + 60 * minute + second;
            &&& secs / 86_400 == days
            &&& (secs % 86_400) / 3_600 == hour
            &&& (secs % 3_600) / 60 == minute
        }),
{
    let secs = 86_400 * days + 3_600 * hour + 60 * minute + second;
    let rest = 3_600 * hour + 60 * minute + second;
    assert(0 <= rest < 86_400);
    assert(secs / 86_400 == days && secs % 86_400 == rest);
    assert(secs == 3_600 * (24 * days + hour) + (60 * minute + second));
    assert(secs % 3_600 == 60 * minute + second);
}

} // verus!
