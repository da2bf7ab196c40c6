//! Dates of the proleptic Gregorian calendar and the clock.
//!
//! A date is modelled by its day number: day 1 is January 1 of year 1. An instant is the number
//! of seconds since 1970-01-01 00:00:00 UTC. Calendar arithmetic and the clock come from `chrono`.

use crate::arith::{floor_div, floor_mod};
use crate::text;
use crate::text::padded_text;
use chrono::Datelike;
use vstd::prelude::*;

verus! {

/// Seconds of one day.
pub const DAY: i64 = 86400;

/// Day number of 1970-01-01.
pub const EPOCH_DAY: i64 = 719163;

/// Day number of the first date that `chrono` represents, January 1 of year -262143.
pub const MIN_DAY: i64 = -95746129;

/// Day number of the last date that `chrono` represents, December 31 of year 262142.
pub const MAX_DAY: i64 = 95745399;

/// First instant that `chrono` represents.
pub const MIN_TIME: i64 = -8334601228800;

/// Last whole second that `chrono` represents.
pub const MAX_TIME: i64 = 8210266876799;

/// Whether `t` is an instant (or a wall-clock reading) that `chrono` represents.
pub open spec fn representable(t: int) -> bool {
    MIN_TIME <= t <= MAX_TIME
}

/// Whether `day` is the number of a date that `chrono` represents.
pub open spec fn day_in_range(day: int) -> bool {
    MIN_DAY <= day <= MAX_DAY
}

/// Whether a wall clock shows the reading `local` at some instant that `chrono` represents: it may
/// run up to a day past the range of instants.
pub open spec fn shown(local: int) -> bool {
    MIN_TIME - DAY <= local <= MAX_TIME + DAY
}

/// Whether `day` is the number of a date that a wall calendar shows at some instant that `chrono`
/// represents: a date in range, the day before the first or the day after the last.
pub open spec fn day_shown(day: int) -> bool {
    MIN_DAY - 1 <= day <= MAX_DAY + 1
}

/// Whether year `y` has a February 29.
pub open spec fn is_leap(y: int) -> bool {
    y % 4 == 0 && (y % 100 != 0 || y % 400 == 0)
}

/// Number of days in month `m` of year `y`.
pub open spec fn month_length(y: int, m: int) -> int {
    if m == 2 {
        if is_leap(y) {
            29
        } else {
            28
        }
    } else if m == 4 || m == 6 || m == 9 || m == 11 {
        30
    } else {
        31
    }
}

/// Whether year, month and day of month name a date.
pub open spec fn is_date(y: int, m: int, d: int) -> bool {
    1 <= m <= 12 && 1 <= d <= month_length(y, m)
}

/// Days from the start of year 1 to the start of year `y`.
pub open spec fn days_before_year(y: int) -> int {
    365 * (y - 1) + (y - 1) / 4 - (y - 1) / 100 + (y - 1) / 400
}

/// Days from the start of year `y` to the start of its month `m`.
pub open spec fn days_before_month(y: int, m: int) -> int
    decreases m,
{
    if m <= 1 {
        0
    } else {
        days_before_month(y, m - 1) + month_length(y, m - 1)
    }
}

/// The day number of a date.
pub open spec fn day_number(y: int, m: int, d: int) -> int {
    days_before_year(y) + days_before_month(y, m) + d
}

/// Year, month and day of month of the date with number `day`.
pub open spec fn civil(day: int) -> (int, int, int) {
    choose|p: (int, int, int)| #![auto] is_date(p.0, p.1, p.2) && day_number(p.0, p.1, p.2) == day
}

/// Days since Monday: 0 for Monday, 6 for Sunday.
pub open spec fn weekday(day: int) -> int {
    (day - 1) % 7
}

/// The day number of the date on which the wall clock shows `local`.
pub open spec fn day_of(local: int) -> int {
    local / 86400 + EPOCH_DAY
}

/// The hour that the wall clock shows at `local`.
pub open spec fn hour_of(local: int) -> int {
    local % 86400 / 3600
}

/// The minute that the wall clock shows at `local`.
pub open spec fn minute_of(local: int) -> int {
    local % 3600 / 60
}

/// A year in at least four digits; years outside 0 to 9999 carry their sign.
pub open spec fn year_text(y: int) -> Seq<char> {
    if 0 <= y <= 9999 {
        text::padded(y as nat, 4)
    } else if y < 0 {
        seq!['-'] + text::padded((-y) as nat, 4)
    } else {
        seq!['+'] + text::padded(y as nat, 4)
    }
}

/// `YYYY-MM` of a day number.
pub open spec fn month_text(day: int) -> Seq<char> {
    year_text(civil(day).0) + seq!['-'] + text::padded(civil(day).1 as nat, 2)
}

/// `YYYY-MM-DD` of a day number.
pub open spec fn date_text(day: int) -> Seq<char> {
    month_text(day) + seq!['-'] + text::padded(civil(day).2 as nat, 2)
}

/// `HH:MM` of a wall-clock reading.
pub open spec fn clock_text(local: int) -> Seq<char> {
    text::padded(hour_of(local) as nat, 2) + seq![':'] + text::padded(minute_of(local) as nat, 2)
}

proof fn lemma_days_before_month(y: int, m: int)
    requires
        1 <= m <= 12,
    ensures
        days_before_month(y, m) == (if m == 1 {
            0int
        } else if m == 2 {
            31
        } else {
            (if m == 3 {
                59int
            } else if m == 4 {
                90
            } else if m == 5 {
                120
            } else if m == 6 {
                151
            } else if m == 7 {
                181
            } else if m == 8 {
                212
            } else if m == 9 {
                243
            } else if m == 10 {
                273
            } else if m == 11 {
                304
            } else {
                334
            }) + (if is_leap(y) {
                1int
            } else {
                0
            })
        }),
{
    reveal_with_fuel(days_before_month, 13);
}

/// A quotient grows by one exactly where the divisor divides.
proof fn lemma_quotient_steps(a: int)
    ensures
        a / 4 == (a - 1) / 4 + (if a % 4 == 0 {
            1int
        } else {
            0
        }),
        a / 100 == (a - 1) / 100 + (if a % 100 == 0 {
            1int
        } else {
            0
        }),
        a / 400 == (a - 1) / 400 + (if a % 400 == 0 {
            1int
        } else {
            0
        }),
        a % 400 == 0 ==> a % 100 == 0,
        a % 100 == 0 ==> a % 4 == 0,
{
}

proof fn lemma_year_length(a: int)
    ensures
        days_before_year(a + 1) == days_before_year(a) + (if is_leap(a) {
            366int
        } else {
            365
        }),
{
    lemma_quotient_steps(a);
}

proof fn lemma_year_order(a: int, b: int)
    requires
        a < b,
    ensures
        days_before_year(a) + 365 <= days_before_year(b),
        days_before_year(a + 1) <= days_before_year(b),
        days_before_year(a + 1) == days_before_year(a) + (if is_leap(a) {
            366int
        } else {
            365
        }),
    decreases b - a,
{
    lemma_year_length(a);
    if a + 1 < b {
        lemma_year_order(a + 1, b);
    }
}

/// Different dates have different day numbers.
pub proof fn lemma_day_number_injective(y: int, m: int, d: int, y2: int, m2: int, d2: int)
    requires
        is_date(y, m, d),
        is_date(y2, m2, d2),
        day_number(y, m, d) == day_number(y2, m2, d2),
    ensures
        (y, m, d) == (y2, m2, d2),
{
    lemma_days_before_month(y, m);
    lemma_days_before_month(y2, m2);
    lemma_year_order(y, y + 1);
    lemma_year_order(y2, y2 + 1);
    if y < y2 {
        lemma_year_order(y, y2);
    }
    if y2 < y {
        lemma_year_order(y2, y);
    }
}

/// The date of a day number is the only date with that number.
pub proof fn lemma_civil(y: int, m: int, d: int)
    requires
        is_date(y, m, d),
    ensures
        civil(day_number(y, m, d)) == (y, m, d),
{
    let day = day_number(y, m, d);
    let p = (y, m, d);
    assert(is_date(p.0, p.1, p.2) && day_number(p.0, p.1, p.2) == day);
    let q = civil(day);
    assert(is_date(q.0, q.1, q.2) && day_number(q.0, q.1, q.2) == day);
    lemma_day_number_injective(y, m, d, q.0, q.1, q.2);
}

/// A date does not lie before the first day of its year.
pub proof fn lemma_year_start(day: int)
    requires
        exists|y: int, m: int, d: int| #[trigger] is_date(y, m, d) && day_number(y, m, d) == day,
    ensures
        day_number(civil(day).0, 1, 1) <= day,
{
    let (y, m, d) = choose|y: int, m: int, d: int| #[trigger]
        is_date(y, m, d) && day_number(y, m, d) == day;
    lemma_civil(y, m, d);
    lemma_days_before_month(y, m);
    lemma_days_before_month(y, 1);
}

/// `chrono::Utc::now` followed by `timestamp`: the present instant in whole seconds. Of its value
/// only this is claimed: it is not before 1970 and `chrono` represents it.
#[verifier::external_body]
pub(crate) fn utc_now() -> (r: i64)
    ensures
        0 <= r <= MAX_TIME,
{
    chrono::Utc::now().timestamp()
}

/// `chrono::Local::now`: the day number of the present date in the machine's time zone. Of its
/// value only this is claimed: it is a date that `chrono` represents.
#[verifier::external_body]
pub(crate) fn local_today() -> (r: i64)
    ensures
        day_in_range(r as int),
{
    chrono::Local::now().date_naive().num_days_from_ce() as i64
}

/// `chrono::DateTime::from_timestamp`: the instant `ts`, or `None` where `chrono` cannot
/// represent it.
#[verifier::external_body]
pub(crate) fn instant(ts: i64) -> (r: Option<i64>)
    ensures
        r == (if representable(ts as int) {
            Some(ts)
        } else {
            None
        }),
{
    chrono::DateTime::from_timestamp(ts, 0).map(|t| t.timestamp())
}

/// `chrono::NaiveDate::from_ymd_opt`: the number of the date with that year, month and day, or
/// `None` where there is no such date or `chrono` cannot represent it.
#[verifier::external_body]
pub(crate) fn from_ymd(y: i32, m: u32, d: u32) -> (r: Option<i64>)
    ensures
        r == (if is_date(y as int, m as int, d as int) && -262143 <= y <= 262142 {
            Some(day_number(y as int, m as int, d as int) as i64)
        } else {
            None
        }),
        r is Some ==> r->0 == day_number(y as int, m as int, d as int) && day_in_range(r->0 as int),
{
    chrono::NaiveDate::from_ymd_opt(y, m, d).map(|n| n.num_days_from_ce() as i64)
}

/// `chrono::NaiveDate::from_num_days_from_ce_opt` with `year`, `month` and `day` of the date: the
/// date that has this number.
#[verifier::external_body]
fn date_parts(day: i64) -> (r: (i32, u32, u32))
    requires
        day_in_range(day as int),
    ensures
        is_date(r.0 as int, r.1 as int, r.2 as int),
        day_number(r.0 as int, r.1 as int, r.2 as int) == day,
        -262143 <= r.0 <= 262142,
{
    let date = chrono::NaiveDate::from_num_days_from_ce_opt(day as i32).unwrap();
    (date.year(), date.month(), date.day())
}

/// What `chrono::NaiveDate::parse_from_str` reads in a text by the format `%Y-%m-%d`: the day
/// number, or `None` where it reports an error.
pub uninterp spec fn parsed_date(text: Seq<char>) -> Option<int>;

/// `chrono::NaiveDate::parse_from_str` with the format `%Y-%m-%d`. It is a function of the text;
/// what it makes of texts that are not dates is left to its name. It reads a date back from the
/// text that the same format gives for the date.
#[verifier::external_body]
pub(crate) fn parse_date(s: &str) -> (r: Option<i64>)
    ensures
        r is Some == parsed_date(s@) is Some,
        r is Some ==> parsed_date(s@) == Some(r->0 as int) && day_in_range(r->0 as int),
        forall|day: int|
            day_in_range(day) && s@ == #[trigger] date_text(day) ==> r is Some && r->0 == day,
{
    chrono::NaiveDate::parse_from_str(s, "%Y-%m-%d").ok().map(|n| n.num_days_from_ce() as i64)
}

/// The days next to the range of dates are the last of the year before and the first of the year
/// after.
proof fn lemma_days_beyond()
    ensures
        is_date(-262144, 12, 31),
        day_number(-262144, 12, 31) == MIN_DAY - 1,
        is_date(262143, 1, 1),
        day_number(262143, 1, 1) == MAX_DAY + 1,
{
    lemma_days_before_month(-262144, 12);
    lemma_days_before_month(262143, 1);
}

/// Year, month and day of month of a date.
pub fn civil_of(day: i64) -> (r: (i32, u32, u32))
    requires
        day_shown(day as int),
    ensures
        (r.0 as int, r.1 as int, r.2 as int) == civil(day as int),
        is_date(r.0 as int, r.1 as int, r.2 as int),
        day_number(r.0 as int, r.1 as int, r.2 as int) == day,
        -262144 <= r.0 <= 262143,
        day_in_range(day as int) ==> -262143 <= r.0 <= 262142,
{
    proof {
        lemma_days_beyond();
    }
    let r: (i32, u32, u32) = if day < MIN_DAY {
        (-262144, 12, 31)
    } else if day > MAX_DAY {
        (262143, 1, 1)
    } else {
        date_parts(day)
    };
    proof {
        lemma_civil(r.0 as int, r.1 as int, r.2 as int);
    }
    r
}

/// The day of the week, counted from Monday.
pub fn weekday_of(day: i64) -> (r: i64)
    requires
        day_shown(day as int),
    ensures
        r == weekday(day as int),
        0 <= r < 7,
{
    floor_mod(day - 1, 7)
}

/// The date that the wall clock shows.
pub fn local_day(local: i64) -> (r: i64)
    requires
        shown(local as int),
    ensures
        r == day_of(local as int),
        day_shown(r as int),
        representable(local as int) ==> day_in_range(r as int),
{
    floor_div(local, DAY) + EPOCH_DAY
}

pub(crate) fn year_string(y: i32) -> (r: String)
    requires
        -262144 <= y <= 262143,
    ensures
        r@ == year_text(y as int),
{
    if 0 <= y && y <= 9999 {
        padded_text(y as u64, 4)
    } else {
        let mut r = String::new();
        if y < 0 {
            r.push('-');
            r.append(padded_text((-y) as u64, 4).as_str());
        } else {
            r.push('+');
            r.append(padded_text(y as u64, 4).as_str());
        }
        assert(r@ =~= year_text(y as int));
        r
    }
}

/// `YYYY-MM` of a date.
pub fn month_string(day: i64) -> (r: String)
    requires
        day_shown(day as int),
    ensures
        r@ == month_text(day as int),
{
    let (y, m, _d) = civil_of(day);
    let mut r = year_string(y);
    r.push('-');
    r.append(padded_text(m as u64, 2).as_str());
    assert(r@ =~= month_text(day as int));
    r
}

/// `YYYY-MM-DD` of a date.
pub fn date_string(day: i64) -> (r: String)
    requires
        day_shown(day as int),
    ensures
        r@ == date_text(day as int),
{
    let (_y, _m, d) = civil_of(day);
    let mut r = month_string(day);
    r.push('-');
    r.append(padded_text(d as u64, 2).as_str());
    assert(r@ =~= date_text(day as int));
    r
}

/// `HH:MM` of a wall-clock reading.
pub fn clock_string(local: i64) -> (r: String)
    ensures
        r@ == clock_text(local as int),
{
    let h: i64 = floor_mod(local, DAY) / 3600;
    let m: i64 = floor_mod(local, 3600) / 60;
    let mut r = padded_text(h as u64, 2);
    r.push(':');
    r.append(padded_text(m as u64, 2).as_str());
    assert(r@ =~= clock_text(local as int));
    r
}

} // verus!
