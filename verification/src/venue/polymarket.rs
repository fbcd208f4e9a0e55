//! Polymarket: event slugs, market listings, order books and resolutions.

use crate::calendar::{
    date_of, day_number, floor_div, leap, lemma_date_of, lemma_from_march, lemma_year_of_cycle,
    month_len, valid_date,
};
use crate::db::BookSnapshotRow;
use crate::json::{decimal, parsed, trees, Json, JsonView};
use crate::num::{order_is_numeric, Real};
use crate::ring::opt_text;
use crate::text;
use crate::text::{first_chars, int_numeral, lowercase, numeral, occurs, plain, stands_at};
use crate::venue::kalshi::{dollar_amount, owned, parse_dollar_amount, RULES_MAX};
use crate::venue::{
    book_snapshot, level_from, parse_positive, snapshot_of_book, BookFigures, Level,
};
use vstd::prelude::*;
use vstd::string::StringExecFns;

verus! {

/// Seconds in a day.
pub const DAY_SECS: i64 = 86_400;

/// The name of a month as slugs spell it.
pub open spec fn month_text(month: int) -> Seq<char> {
    if month == 1 {
        "january"@
    } else if month == 2 {
        "february"@
    } else if month == 3 {
        "march"@
    } else if month == 4 {
        "april"@
    } else if month == 5 {
        "may"@
    } else if month == 6 {
        "june"@
    } else if month == 7 {
        "july"@
    } else if month == 8 {
        "august"@
    } else if month == 9 {
        "september"@
    } else if month == 10 {
        "october"@
    } else if month == 11 {
        "november"@
    } else {
        "december"@
    }
}

fn month_name(month: u32) -> (r: &'static str)
    requires
        1 <= month <= 12,
    ensures
        r@ == month_text(month as int),
{
    match month {
        1 => "january",
        2 => "february",
        3 => "march",
        4 => "april",
        5 => "may",
        6 => "june",
        7 => "july",
        8 => "august",
        9 => "september",
        10 => "october",
        11 => "november",
        _ => "december",
    }
}

/// `bitcoin-above-on-{month}-{day}`
pub open spec fn above_slug(month: int, day: int) -> Seq<char> {
    "bitcoin-above-on-"@ + month_text(month) + "-"@ + numeral(day as nat)
}

/// `bitcoin-up-or-down-on-{month}-{day}-{year}`
pub open spec fn daily_slug(month: int, day: int, year: int) -> Seq<char> {
    "bitcoin-up-or-down-on-"@ + month_text(month) + "-"@ + numeral(day as nat) + "-"@ + int_numeral(
        year,
    )
}

/// `bitcoin-up-or-down-{month}-{day}-{hour}-et`
pub open spec fn hourly_slug(month: int, day: int, hour: Seq<char>) -> Seq<char> {
    "bitcoin-up-or-down-"@ + month_text(month) + "-"@ + numeral(day as nat) + "-"@ + hour + "-et"@
}

/// The twelve-hour name of an hour.
pub open spec fn hour_text(h: int) -> Seq<char> {
    if h == 0 {
        "12am"@
    } else if h == 12 {
        "12pm"@
    } else if 13 <= h <= 23 {
        numeral((h - 12) as nat) + "pm"@
    } else {
        numeral(h as nat) + "am"@
    }
}

/// Generates the `bitcoin-above-on-{month}-{day}` slug.
pub fn daily_above_slug(month: u32, day: u32) -> (r: String)
    requires
        1 <= month <= 12,
    ensures
        r@ == above_slug(month as int, day as int),
{
    let mut s: String = "bitcoin-above-on-".to_owned();
    s.append(month_name(month));
    s.append("-");
    text::push_number(&mut s, day as u64);
    s
}

/// Generates the `bitcoin-up-or-down-on-{month}-{day}-{year}` slug.
pub fn daily_up_or_down_slug(month: u32, day: u32, year: i32) -> (r: String)
    requires
        1 <= month <= 12,
    ensures
        r@ == daily_slug(month as int, day as int, year as int),
{
    let mut s: String = "bitcoin-up-or-down-on-".to_owned();
    s.append(month_name(month));
    s.append("-");
    text::push_number(&mut s, day as u64);
    s.append("-");
    text::push_int(&mut s, year as i64);
    s
}

/// Generates the `bitcoin-up-or-down-{month}-{day}-{hour_str}-et` slug.
pub fn hourly_up_or_down_slug(month: u32, day: u32, hour_str: &str) -> (r: String)
    requires
        1 <= month <= 12,
    ensures
        r@ == hourly_slug(month as int, day as int, hour_str@),
{
    let mut s: String = "bitcoin-up-or-down-".to_owned();
    s.append(month_name(month));
    s.append("-");
    text::push_number(&mut s, day as u64);
    s.append("-");
    s.append(hour_str);
    s.append("-et");
    s
}

/// Formats an ET hour (0-23) as "12am", "1am" ... "11am", "12pm", "1pm" ... "11pm".
pub fn et_hour_str(h: u32) -> (r: String)
    ensures
        r@ == hour_text(h as int),
{
    if h == 0 {
        return "12am".to_owned();
    }
    if h == 12 {
        return "12pm".to_owned();
    }
    let mut s: String = String::new();
    if 13 <= h && h <= 23 {
        text::push_number(&mut s, (h - 12) as u64);
        s.append("pm");
        assert(s@ =~= hour_text(h as int));
    } else {
        text::push_number(&mut s, h as u64);
        s.append("am");
        assert(s@ =~= hour_text(h as int));
    }
    s
}

/// The part of a ticker after `poly-`, or all of it.
pub open spec fn gamma_id(ticker: Seq<char>) -> Seq<char> {
    if text::begins(ticker, "poly-"@) {
        ticker.skip("poly-"@.len() as int)
    } else {
        ticker
    }
}

/// Extracts the gamma id from a ticker (`poly-{gamma_id}`).
pub fn gamma_id_from_ticker(ticker: &str) -> (r: String)
    ensures
        r@ == gamma_id(ticker@),
{
    match text::without_prefix(ticker, "poly-") {
        Some(id) => id,
        None => ticker.to_owned(),
    }
}

/// The days of the year on which clocks in New York are taken to be four hours behind UTC.
pub open spec fn daylight_time(month: int, day: int) -> bool {
    4 <= month <= 10 || (month == 3 && day >= 8) || (month == 11 && day < 7)
}

/// Whether the month and day fall within US Eastern daylight time (UTC-4).
///
/// Daylight time starts on the second Sunday of March (the 8th at the earliest) and ends on the
/// first Sunday of November (the 7th at the latest); fixed days stand for them.
pub fn is_dst(month: u32, day: u32) -> (r: bool)
    ensures
        r == daylight_time(month as int, day as int),
{
    match month {
        4 | 5 | 6 | 7 | 8 | 9 | 10 => true,
        3 => day >= 8,
        11 => day < 7,
        _ => false,
    }
}

/// The day before, in a year that is no leap year.
pub open spec fn day_before(month: int, day: int) -> (int, int) {
    if day > 1 {
        (month, day - 1)
    } else if month <= 1 {
        (12, 31)
    } else if month > 13 {
        (month - 1, 30)
    } else {
        (month - 1, month_len(1, month - 1))
    }
}

/// The calendar day before (month, day), over the ends of months. February counts 28 days.
pub fn prev_day(month: u32, day: u32) -> (r: (u32, u32))
    ensures
        (r.0 as int, r.1 as int) == day_before(month as int, day as int),
{
    if day > 1 {
        (month, day - 1)
    } else {
        let prev_month: u32 = if month > 1 {
            month - 1
        } else {
            12
        };
        let days_in_prev: u32 = match prev_month {
            1 | 3 | 5 | 7 | 8 | 10 | 12 => 31,
            4 | 6 | 9 | 11 => 30,
            2 => 28,
            _ => 30,
        };
        (prev_month, days_in_prev)
    }
}

/// In a year that is no leap year, the day before a date is the date of the day before.
pub proof fn prev_day_is_the_day_before(year: int, month: int, day: int)
    requires
        valid_date(year, month, day),
        !leap(year),
    ensures
        ({
            let (m, d) = day_before(month, day);
            let y = if month == 1 && day == 1 {
                year - 1
            } else {
                year
            };
            valid_date(y, m, d) && day_number(y, m, d) == day_number(year, month, day) - 1
        }),
{
    reveal_with_fuel(crate::calendar::days_before_month, 13);
    crate::calendar::year_length(year - 1);
    if day > 1 {
    } else if month > 1 {
        assert(month_len(1, month - 1) == month_len(year, month - 1));
    }
}

/// The day of a Unix time, counted from 1970.
pub open spec fn day_of(ts: int) -> int {
    ts / DAY_SECS as int
}

/// The times whose date can be computed: those whose day, counted from year 0, fits an `i32`.
pub open spec fn datable(ts: int) -> bool {
    i32::MIN <= day_of(ts) && day_of(ts) + 719468 <= i32::MAX
}

/// The hour of the day of a Unix time.
pub open spec fn hour_of(ts: int) -> int {
    ts % DAY_SECS as int / 3600
}

/// Decomposes a Unix time (seconds) into (year, month, day, hour) UTC. Months are 1-12, days 1-31.
pub fn utc_ymdh(ts: i64) -> (r: (i32, u32, u32, u32))
    requires
        datable(ts as int),
    ensures
        valid_date(r.0 as int, r.1 as int, r.2 as int),
        day_number(r.0 as int, r.1 as int, r.2 as int) == day_of(ts as int),
        date_of(day_of(ts as int)) == (r.0 as int, r.1 as int, r.2 as int),
        r.3 == hour_of(ts as int),
{
    let days: i64 = floor_div(ts, DAY_SECS);
    let secs: i64 = ts - days * DAY_SECS;
    let hour: u32 = (secs / 3600) as u32;

    // Days are counted from the first of March of year 0, in cycles of 400 years.
    let z: i64 = days + 719468;
    let era: i64 = floor_div(z, 146097);
    let doe: i64 = z - era * 146097;
    let yoe: i64 = (doe - doe / 1460 + doe / 36524 - doe / 146096) / 365;
    proof {
        lemma_year_of_cycle(doe as int, yoe as int);
    }
    let y: i64 = yoe + era * 400;
    let doy: i64 = doe - (365 * yoe + yoe / 4 - yoe / 100);
    let mp: i64 = (5 * doy + 2) / 153;
    let d: i64 = doy - (153 * mp + 2) / 5 + 1;
    proof {
        lemma_march_month(doy as int, mp as int, d as int);
    }
    let m: i64 = if mp < 10 {
        mp + 3
    } else {
        mp - 9
    };
    let year: i64 = if m <= 2 {
        y + 1
    } else {
        y
    };
    proof {
        lemma_from_march(y as int, mp as int, d as int);
        assert(y as int / 4 == yoe as int / 4 + 100 * era);
        assert(y as int / 100 == yoe as int / 100 + 4 * era);
        assert(y as int / 400 == era);
        assert(day_number(year as int, m as int, d as int) == days);
        assert(valid_date(year as int, m as int, d as int)) by {
            lemma_march_day(y as int, yoe as int, era as int, doy as int, mp as int, d as int);
        }
        lemma_date_of(year as int, m as int, d as int);
    }
    (year as i32, m as u32, d as u32, hour)
}

/// Days in a month of a leap year, the months counted from March.
spec fn march_month_len(mp: int) -> int {
    if mp == 11 {
        29
    } else if mp == 1 || mp == 3 || mp == 6 || mp == 8 {
        30
    } else {
        31
    }
}

/// A day of a March-based year falls into one of its months; only the last day of a leap year is
/// a 29th of February.
proof fn lemma_march_month(doy: int, mp: int, d: int)
    requires
        0 <= doy <= 365,
        mp == (5 * doy + 2) / 153,
        d == doy - (153 * mp + 2) / 5 + 1,
    ensures
        0 <= mp < 12,
        1 <= d <= march_month_len(mp),
        mp == 11 && d == 29 ==> doy == 365,
{
    assert(153 * mp <= 5 * doy + 2 < 153 * mp + 153);
    if mp <= 5 {
        assert(mp == 0 || mp == 1 || mp == 2 || mp == 3 || mp == 4 || mp == 5);
    } else {
        assert(mp == 6 || mp == 7 || mp == 8 || mp == 9 || mp == 10 || mp == 11);
    }
}

/// The March-based years of a cycle that end with a 29th of February.
proof fn lemma_leap_in_cycle(y: int, yoe: int, era: int)
    requires
        y == yoe + era * 400,
        0 <= yoe <= 399,
        yoe % 4 == 3,
        yoe % 100 == 99 ==> yoe == 399,
    ensures
        leap(y + 1),
{
    let n = yoe + 1;
    assert(n % 4 == 0);
    assert(n % 100 == 0 ==> n == 400);
    vstd::arithmetic::div_mod::lemma_mod_multiples_vanish(100 * era, n, 4);
    vstd::arithmetic::div_mod::lemma_mod_multiples_vanish(4 * era, n, 100);
    vstd::arithmetic::div_mod::lemma_mod_multiples_vanish(era, n, 400);
    assert((4 * (100 * era) + n) == y + 1);
}

/// The month and day that the day of a March-based year falls on form a date.
proof fn lemma_march_day(y: int, yoe: int, era: int, doy: int, mp: int, d: int)
    requires
        y == yoe + era * 400,
        0 <= yoe <= 399,
        yoe % 4 != 3 || (yoe % 100 == 99 && yoe != 399) ==> doy <= 364,
        0 <= mp < 12,
        1 <= d <= march_month_len(mp),
        mp == 11 && d == 29 ==> doy == 365,
    ensures
        if mp < 10 {
            valid_date(y, mp + 3, d)
        } else {
            valid_date(y + 1, mp - 9, d)
        },
{
    if mp == 11 && d == 29 {
        lemma_leap_in_cycle(y, yoe, era);
    }
}

/// A slug to look for.
pub struct SlugCandidate {
    pub slug: String,
    /// Its markets name no strike: they take the spot price at discovery.
    pub at_spot: bool,
}

/// A slug and whether its markets take the spot price as strike.
pub type Planned = (Seq<char>, bool);

/// The quotient rounded toward zero.
pub open spec fn trunc_div(x: int, d: int) -> int {
    if x >= 0 {
        x / d
    } else {
        -((-x) / d)
    }
}

/// The daily above/below events, two days back to two days ahead.
pub open spec fn above_plan(now: int) -> Seq<Planned> {
    Seq::new(
        5,
        |i: int|
            {
                let date = date_of(day_of(now + (i - 2) * DAY_SECS));
                (above_slug(date.1, date.2), false)
            },
    )
}

/// The up/down events of one interval, two intervals back to two ahead.
pub open spec fn intraday_plan(prefix: Seq<char>, interval: int, now: int) -> Seq<Planned> {
    Seq::new(
        5,
        |i: int|
            (prefix + "-"@ + int_numeral((trunc_div(now, interval) + (i - 2)) * interval), true),
    )
}

/// The daily up/down events, one day back to one day ahead.
pub open spec fn daily_plan(now: int) -> Seq<Planned> {
    Seq::new(
        3,
        |i: int|
            {
                let date = date_of(day_of(now + (i - 1) * DAY_SECS));
                (daily_slug(date.1, date.2, date.0), false)
            },
    )
}

/// How far the hour in New York is from midnight UTC; negative on the day before.
pub open spec fn et_hour_raw(now: int) -> int {
    let date = date_of(day_of(now));
    hour_of(now) - if daylight_time(date.1, date.2) {
        4int
    } else {
        5
    }
}

/// The month and day in New York.
pub open spec fn et_date(now: int) -> (int, int) {
    let date = date_of(day_of(now));
    if et_hour_raw(now) < 0 {
        day_before(date.1, date.2)
    } else {
        (date.1, date.2)
    }
}

/// The hourly up/down events of a day, three hours back from an hour to three ahead.
pub open spec fn hourly_group(month: int, day: int, hour: int) -> Seq<Planned> {
    Seq::new(
        7,
        |i: int| (hourly_slug(month, day, hour_text((hour + (i - 3)) % 24)), false),
    )
}

/// The hourly up/down events around the hour in New York.
pub open spec fn hourly_plan(now: int) -> Seq<Planned> {
    hourly_group(et_date(now).0, et_date(now).1, et_hour_raw(now) % 24)
}

/// Every slug to look for at a time, in order.
pub open spec fn slug_plan(now: int) -> Seq<Planned> {
    above_plan(now) + intraday_plan("btc-updown-5m"@, 300, now) + intraday_plan(
        "btc-updown-15m"@,
        900,
        now,
    ) + intraday_plan("btc-updown-4h"@, 14400, now) + daily_plan(now) + hourly_plan(now)
}

/// The slug is among those planned.
pub open spec fn planned(plan: Seq<Planned>, slug: Seq<char>) -> bool {
    exists|i: int| 0 <= i < plan.len() && (#[trigger] plan[i]).0 == slug
}

/// The first of each group of equal slugs.
pub open spec fn first_of_each(plan: Seq<Planned>) -> Seq<Planned>
    decreases plan.len(),
{
    if plan.len() == 0 {
        plan
    } else {
        let before = first_of_each(plan.drop_last());
        if planned(before, plan.last().0) {
            before
        } else {
            before.push(plan.last())
        }
    }
}

/// The candidates, for contracts.
pub open spec fn as_planned(out: Seq<SlugCandidate>) -> Seq<Planned> {
    Seq::new(out.len(), |i: int| (out[i].slug@, out[i].at_spot))
}

fn plan_slug(out: &mut Vec<SlugCandidate>, slug: String, at_spot: bool, plan: Ghost<Seq<Planned>>)
    requires
        as_planned(old(out)@) == first_of_each(plan@),
    ensures
        as_planned(final(out)@) == first_of_each(plan@.push((slug@, at_spot))),
{
    let ghost grown = plan@.push((slug@, at_spot));
    assert(grown.drop_last() =~= plan@);
    let ghost before = as_planned(out@);
    let mut i: usize = 0;
    while i < out.len()
        invariant
            i <= out@.len(),
            before == as_planned(out@),
            before == first_of_each(plan@),
            grown == plan@.push((slug@, at_spot)),
            grown.drop_last() == plan@,
            forall|k: int| 0 <= k < i ==> (#[trigger] before[k]).0 != slug@,
        decreases out@.len() - i,
    {
        if text::same(out[i].slug.as_str(), slug.as_str()) {
            assert(before[i as int].0 == slug@);
            assert(planned(before, grown.last().0));
            return;
        }
        i += 1;
    }
    assert(!planned(before, slug@));
    let ghost item = (slug@, at_spot);
    out.push(SlugCandidate { slug, at_spot });
    assert(as_planned(out@) =~= before.push(item));
}

fn plan_intraday(
    out: &mut Vec<SlugCandidate>,
    prefix: &str,
    interval: i64,
    now: i64,
    plan: Ghost<Seq<Planned>>,
)
    requires
        2 <= interval <= 1_000_000,
        -1_000_000_000_000_000 <= now <= 1_000_000_000_000_000,
        as_planned(old(out)@) == first_of_each(plan@),
    ensures
        as_planned(final(out)@) == first_of_each(
            plan@ + intraday_plan(prefix@, interval as int, now as int),
        ),
{
    let ghost group = intraday_plan(prefix@, interval as int, now as int);
    let base: i64 = now / interval;
    proof {
        assert(base == trunc_div(now as int, interval as int));
        assert(-1_000_000_000_000_000 <= base <= 1_000_000_000_000_000) by (nonlinear_arith)
            requires
                base == (if now >= 0 {
                    now as int / interval as int
                } else {
                    -((-now as int) / interval as int)
                }),
                2 <= interval,
                -1_000_000_000_000_000 <= now <= 1_000_000_000_000_000,
        ;
        assert(plan@ + group.take(0) =~= plan@);
    }
    let mut k: i64 = -2;
    while k <= 2
        invariant
            -2 <= k <= 3,
            2 <= interval <= 1_000_000,
            -1_000_000_000_000_000 <= now <= 1_000_000_000_000_000,
            group == intraday_plan(prefix@, interval as int, now as int),
            base == trunc_div(now as int, interval as int),
            -1_000_000_000_000_000 <= base <= 1_000_000_000_000_000,
            as_planned(out@) == first_of_each(plan@ + group.take(k + 2)),
        decreases 3 - k,
    {
        proof {
            assert(-9_000_000_000_000_000_000_000 <= (base + k) * interval
                <= 9_000_000_000_000_000_000_000) by (nonlinear_arith)
                requires
                    -1_000_000_000_000_010 <= base + k <= 1_000_000_000_000_010,
                    2 <= interval <= 1_000_000,
            ;
            lemma_boundary_is_near(now as int, interval as int, k as int);
        }
        let boundary: i64 = (base + k) * interval;
        let mut slug: String = prefix.to_owned();
        slug.append("-");
        text::push_int(&mut slug, boundary);
        let ghost done = plan@ + group.take(k + 2);
        assert(slug@ == group[k + 2].0);
        plan_slug(out, slug, true, Ghost(done));
        assert(done.push(group[k + 2]) =~= plan@ + group.take(k + 3));
        k += 1;
    }
    assert(group.take(5) =~= group);
}

/// Rounding a time down to an interval moves it by less than an interval.
proof fn lemma_boundary_is_near(now: int, interval: int, k: int)
    requires
        2 <= interval <= 1_000_000,
        -2 <= k <= 2,
        -1_000_000_000_000_000 <= now <= 1_000_000_000_000_000,
    ensures
        -1_000_000_010_000_000 <= (trunc_div(now, interval) + k) * interval
            <= 1_000_000_010_000_000,
{
    let q = trunc_div(now, interval);
    assert(now - interval <= q * interval <= now + interval) by (nonlinear_arith)
        requires
            q == (if now >= 0 {
                now / interval
            } else {
                -((-now) / interval)
            }),
            interval >= 2,
    ;
    assert((q + k) * interval == q * interval + k * interval) by (nonlinear_arith);
    assert(-2 * interval <= k * interval <= 2 * interval) by (nonlinear_arith)
        requires
            -2 <= k <= 2,
            interval >= 2,
    ;
}

fn plan_hourly(
    out: &mut Vec<SlugCandidate>,
    month: u32,
    day: u32,
    hour: i64,
    plan: Ghost<Seq<Planned>>,
)
    requires
        1 <= month <= 12,
        0 <= hour < 24,
        as_planned(old(out)@) == first_of_each(plan@),
    ensures
        as_planned(final(out)@) == first_of_each(
            plan@ + hourly_group(month as int, day as int, hour as int),
        ),
{
    let ghost group = hourly_group(month as int, day as int, hour as int);
    assert(plan@ + group.take(0) =~= plan@);
    let mut i: i64 = -3;
    while i <= 3
        invariant
            -3 <= i <= 4,
            0 <= hour < 24,
            1 <= month <= 12,
            group == hourly_group(month as int, day as int, hour as int),
            as_planned(out@) == first_of_each(plan@ + group.take(i + 3)),
        decreases 4 - i,
    {
        let h: i64 = if hour + i < 0 {
            hour + i + 24
        } else if hour + i >= 24 {
            hour + i - 24
        } else {
            hour + i
        };
        let hour_str: String = et_hour_str(h as u32);
        let slug: String = hourly_up_or_down_slug(month, day, hour_str.as_str());
        assert(h == (hour + i) % 24);
        assert(slug@ == group[i + 3].0);
        let ghost done = plan@ + group.take(i + 3);
        plan_slug(out, slug, false, Ghost(done));
        assert(done.push(group[i + 3]) =~= plan@ + group.take(i + 4));
        i += 1;
    }
    assert(group.take(7) =~= group);
}

/// The slugs to look for at a Unix time, each once, in the order in which to try them: daily
/// above/below events (two days around), intraday up/down events (5 and 15 minutes and 4 hours,
/// two intervals around), daily up/down events (one day around) and hourly events in New York
/// (three hours around).
pub fn slug_candidates(now: i64) -> (r: Vec<SlugCandidate>)
    requires
        datable(now - 2 * DAY_SECS),
        datable(now + 2 * DAY_SECS),
    ensures
        as_planned(r@) == first_of_each(slug_plan(now as int)),
{
    let mut out: Vec<SlugCandidate> = Vec::new();
    let ghost t = now as int;
    let ghost g1 = above_plan(t);
    assert(as_planned(out@) =~= first_of_each(Seq::<Planned>::empty()));
    assert(g1.take(0) =~= Seq::<Planned>::empty());
    let mut k: i64 = -2;
    while k <= 2
        invariant
            -2 <= k <= 3,
            datable(now - 2 * DAY_SECS),
            datable(now + 2 * DAY_SECS),
            t == now,
            g1 == above_plan(t),
            as_planned(out@) == first_of_each(g1.take(k + 2)),
        decreases 3 - k,
    {
        let (year, month, day, _hour) = utc_ymdh(now + k * DAY_SECS);
        let slug: String = daily_above_slug(month, day);
        assert(slug@ == g1[k + 2].0);
        plan_slug(&mut out, slug, false, Ghost(g1.take(k + 2)));
        assert(g1.take(k + 2).push(g1[k + 2]) =~= g1.take(k + 3));
        k += 1;
    }
    assert(g1.take(5) =~= g1);

    let ghost p5 = intraday_plan("btc-updown-5m"@, 300, t);
    let ghost p15 = intraday_plan("btc-updown-15m"@, 900, t);
    let ghost p4 = intraday_plan("btc-updown-4h"@, 14400, t);
    plan_intraday(&mut out, "btc-updown-5m", 300, now, Ghost(g1));
    plan_intraday(&mut out, "btc-updown-15m", 900, now, Ghost(g1 + p5));
    plan_intraday(&mut out, "btc-updown-4h", 14400, now, Ghost(g1 + p5 + p15));

    let ghost before_daily = g1 + p5 + p15 + p4;
    let ghost g3 = daily_plan(t);
    assert(before_daily + g3.take(0) =~= before_daily);
    let mut j: i64 = -1;
    while j <= 1
        invariant
            -1 <= j <= 2,
            datable(now - 2 * DAY_SECS),
            datable(now + 2 * DAY_SECS),
            t == now,
            g3 == daily_plan(t),
            as_planned(out@) == first_of_each(before_daily + g3.take(j + 1)),
        decreases 2 - j,
    {
        let (year, month, day, _hour) = utc_ymdh(now + j * DAY_SECS);
        let slug: String = daily_up_or_down_slug(month, day, year);
        assert(slug@ == g3[j + 1].0);
        let ghost done = before_daily + g3.take(j + 1);
        plan_slug(&mut out, slug, false, Ghost(done));
        assert(done.push(g3[j + 1]) =~= before_daily + g3.take(j + 2));
        j += 1;
    }
    assert(g3.take(3) =~= g3);

    let (_year, month, day, hour) = utc_ymdh(now);
    let et_offset: i64 = if is_dst(month, day) {
        4
    } else {
        5
    };
    let raw: i64 = hour as i64 - et_offset;
    let et_hour: i64 = if raw < 0 {
        raw + 24
    } else {
        raw
    };
    let (et_month, et_day): (u32, u32) = if raw < 0 {
        prev_day(month, day)
    } else {
        (month, day)
    };
    assert(raw == et_hour_raw(t) && et_hour == et_hour_raw(t) % 24);
    assert((et_month as int, et_day as int) == et_date(t));
    plan_hourly(&mut out, et_month, et_day, et_hour, Ghost(before_daily + g3));
    out
}

/// No slug is tried twice.
pub proof fn candidates_are_distinct(plan: Seq<Planned>)
    ensures
        forall|i: int, j: int|
            0 <= i < j < first_of_each(plan).len() ==> (#[trigger] first_of_each(plan)[i]).0 != (
            #[trigger] first_of_each(plan)[j]).0,
    decreases plan.len(),
{
    if plan.len() > 0 {
        let before = first_of_each(plan.drop_last());
        let all = first_of_each(plan);
        candidates_are_distinct(plan.drop_last());
        assert forall|i: int, j: int| 0 <= i < j < all.len() implies (#[trigger] all[i]).0 != (
        #[trigger] all[j]).0 by {
            assert(all[i] == before[i]);
            if j < before.len() {
                assert(all[j] == before[j]);
            }
        }
    }
}

/// No planned slug is left out.
pub proof fn candidates_are_complete(plan: Seq<Planned>, slug: Seq<char>)
    ensures
        planned(plan, slug) <==> planned(first_of_each(plan), slug),
    decreases plan.len(),
{
    if plan.len() > 0 {
        let rest = plan.drop_last();
        candidates_are_complete(rest, slug);
        candidates_are_complete(rest, plan.last().0);
        let before = first_of_each(rest);
        if planned(plan, slug) {
            let i = choose|i: int| 0 <= i < plan.len() && (#[trigger] plan[i]).0 == slug;
            if i < rest.len() {
                assert(rest[i].0 == slug);
                let k = choose|k: int| 0 <= k < before.len() && (#[trigger] before[k]).0 == slug;
                assert(first_of_each(plan)[k].0 == slug);
            } else if planned(before, slug) {
            } else {
                let all = first_of_each(plan);
                assert(all[all.len() - 1].0 == slug);
            }
        }
        if planned(first_of_each(plan), slug) {
            let all = first_of_each(plan);
            let k = choose|k: int| 0 <= k < all.len() && (#[trigger] all[k]).0 == slug;
            if k < before.len() {
                assert(before[k].0 == slug);
                let i = choose|i: int| 0 <= i < rest.len() && (#[trigger] rest[i]).0 == slug;
                assert(plan[i].0 == slug);
            } else {
                assert(plan[plan.len() - 1].0 == slug);
            }
        }
    }
}

/// The binary64 number nearest to nine tenths.
pub const NINE_TENTHS: u64 = 0x3FEC_CCCC_CCCC_CCCD;

/// The binary64 number nearest to one tenth.
pub const ONE_TENTH: u64 = 0x3FB9_9999_9999_999A;

/// The outcome that a price of YES shows: above nine tenths YES, below one tenth NO.
pub open spec fn shown_by_price(p: Option<Real>) -> Option<Seq<char>> {
    match p {
        Some(p) => if (Real { bits: NINE_TENTHS }).below(p) {
            Some("Yes"@)
        } else if p.below(Real { bits: ONE_TENTH }) {
            Some("No"@)
        } else {
            None
        },
        None => None,
    }
}

/// The outcome that the first of these prices shows.
pub open spec fn priced_outcome(prices: Seq<JsonView>) -> Option<Seq<char>> {
    if prices.len() == 0 {
        None
    } else {
        shown_by_price(prices[0].finite_number())
    }
}

/// The outcome at a price of YES: above 0.9 "Yes", below 0.1 "No".
pub fn outcome_at_price(p: Option<Real>) -> (r: Option<String>)
    ensures
        opt_text(r) == shown_by_price(p),
{
    match p {
        Some(p) => if p.gt(&Real { bits: NINE_TENTHS }) {
            Some("Yes".to_owned())
        } else if p.lt(&Real { bits: ONE_TENTH }) {
            Some("No".to_owned())
        } else {
            None
        },
        None => None,
    }
}

/// Determines the outcome from outcome prices: the first above 0.9 is "Yes", below 0.1 "No".
pub fn outcome_from_prices(prices: &Vec<Json>) -> (r: Option<String>)
    ensures
        opt_text(r) == priced_outcome(trees(prices@)),
{
    if prices.len() == 0 {
        return None;
    }
    assert(trees(prices@)[0] == prices@[0]@);
    outcome_at_price(prices[0].finite())
}

/// The outcome prices of a market, which come as an array or as the text of one.
pub open spec fn outcome_prices(m: JsonView) -> Option<Seq<JsonView>> {
    match m.field("outcomePrices"@) {
        Some(JsonView::Array(items)) => Some(items),
        Some(JsonView::Str(s)) => match parsed(s) {
            Some(v) => v.items(),
            None => None,
        },
        _ => None,
    }
}

/// Parses the `outcomePrices` field, a native array or the text of one.
pub fn parse_outcome_prices(m: &Json) -> (r: Option<Vec<Json>>)
    ensures
        match r {
            Some(prices) => outcome_prices(m@) == Some(trees(prices@)),
            None => outcome_prices(m@) is None,
        },
{
    match m.get("outcomePrices") {
        Some(field) => match field {
            Json::Str(s) => match Json::parse(s.as_str()) {
                Some(v) => array_items(v),
                None => None,
            },
            Json::Array(_) => array_items(field.duplicate()),
            _ => None,
        },
        None => None,
    }
}

fn array_items(v: Json) -> (r: Option<Vec<Json>>)
    ensures
        match r {
            Some(items) => v@.items() == Some(trees(items@)),
            None => v@.items() is None,
        },
{
    let ghost tree = v@;
    match v {
        Json::Array(a) => {
            assert(tree->Array_0 =~= trees(a@));
            Some(a)
        },
        _ => None,
    }
}

/// One of the winners is this text or that one.
pub open spec fn has_winner(winners: Seq<JsonView>, a: Seq<char>, b: Seq<char>) -> bool {
    exists|i: int|
        0 <= i < winners.len() && ((#[trigger] winners[i]) == JsonView::Str(a) || winners[i]
            == JsonView::Str(b))
}

fn any_winner(winners: &Vec<Json>, a: &str, b: &str) -> (r: bool)
    ensures
        r == has_winner(trees(winners@), a@, b@),
{
    let ghost all = trees(winners@);
    let mut i: usize = 0;
    while i < winners.len()
        invariant
            i <= winners@.len(),
            all == trees(winners@),
            forall|k: int|
                0 <= k < i ==> (#[trigger] all[k]) != JsonView::Str(a@) && all[k] != JsonView::Str(
                    b@,
                ),
        decreases winners@.len() - i,
    {
        assert(all[i as int] == winners@[i as int]@);
        if let Some(w) = winners[i].as_str() {
            if text::same(w, a) || text::same(w, b) {
                return true;
            }
        }
        i += 1;
    }
    false
}

/// The outcome of a market: by its declared winners where it is resolved, else by its prices. A
/// market that is declared unresolved has none, whatever its prices.
pub open spec fn api_outcome(m: JsonView) -> Option<Seq<char>> {
    let by_price = match outcome_prices(m) {
        Some(prices) => priced_outcome(prices),
        None => None,
    };
    match m.field("resolved"@) {
        Some(JsonView::Bool(false)) => None,
        Some(JsonView::Bool(true)) => match m.array_field("winners"@) {
            Some(winners) => if has_winner(winners, "Yes"@, "yes"@) {
                Some("Yes"@)
            } else if has_winner(winners, "No"@, "no"@) {
                Some("No"@)
            } else {
                by_price
            },
            None => by_price,
        },
        _ => by_price,
    }
}

/// Determines the outcome of a market: declared winners first, prices where there are none. A
/// market that is declared unresolved has no outcome yet.
///
/// A market settled in a dispute may stand at any price, so the declared winners come first.
pub fn outcome_from_api(m: &Json) -> (r: Option<String>)
    ensures
        opt_text(r) == api_outcome(m@),
{
    if let Some(Json::Bool(resolved)) = m.get("resolved") {
        if !*resolved {
            return None;
        }
        if let Some(winners) = m.array_at("winners") {
            if any_winner(winners, "Yes", "yes") {
                return Some("Yes".to_owned());
            }
            if any_winner(winners, "No", "no") {
                return Some("No".to_owned());
            }
        }
    }
    match parse_outcome_prices(m) {
        Some(prices) => outcome_from_prices(&prices),
        None => None,
    }
}

/// No price resolves a market that is declared unresolved, and no price overrules a declared
/// winner.
pub proof fn declarations_come_before_prices(m: JsonView)
    ensures
        m.field("resolved"@) == Some(JsonView::Bool(false)) ==> api_outcome(m) is None,
        m.flag("resolved"@) && (m.array_field("winners"@) matches Some(w) && has_winner(
            w,
            "Yes"@,
            "yes"@,
        )) ==> api_outcome(m) == Some("Yes"@),
        m.flag("resolved"@) && (m.array_field("winners"@) matches Some(w) && !has_winner(
            w,
            "Yes"@,
            "yes"@,
        ) && has_winner(w, "No"@, "no"@)) ==> api_outcome(m) == Some("No"@),
{
}

/// The oracle of a market, by its resolution source, its question and its slug, in lower case.
pub open spec fn oracle_name(rs: Seq<char>, q: Seq<char>, s: Seq<char>) -> Seq<char> {
    if occurs(rs, "chainlink"@) || occurs(rs, "chain.link"@) {
        "chainlink_streams"@
    } else if occurs(rs, "binance"@) || occurs(q, "binance"@) {
        "binance_1m_candle"@
    } else if occurs(s, "btc-updown-5m"@) || occurs(s, "btc-updown-15m"@) || occurs(
        s,
        "btc-updown-4h"@,
    ) || occurs(s, "up-or-down"@) {
        "chainlink_streams"@
    } else if occurs(s, "above-on"@) {
        "binance_1m_candle"@
    } else {
        "unknown"@
    }
}

/// Determines the oracle from a resolution source, a question and a slug in lower case.
pub fn oracle_in_lowercase(rs: &str, q: &str, s: &str) -> (r: &'static str)
    ensures
        r@ == oracle_name(rs@, q@, s@),
{
    if text::contains(rs, "chainlink") || text::contains(rs, "chain.link") {
        "chainlink_streams"
    } else if text::contains(rs, "binance") || text::contains(q, "binance") {
        "binance_1m_candle"
    } else if text::contains(s, "btc-updown-5m") || text::contains(s, "btc-updown-15m")
        || text::contains(s, "btc-updown-4h") || text::contains(s, "up-or-down") {
        "chainlink_streams"
    } else if text::contains(s, "above-on") {
        "binance_1m_candle"
    } else {
        "unknown"
    }
}

/// Determines the oracle from the resolution source, the question and the slug, in any case.
pub fn determine_oracle(res_src: &str, question: &str, slug: &str) -> (r: &'static str)
    ensures
        r@ == oracle_name(lowercase(res_src@), lowercase(question@), lowercase(slug@)),
{
    let rs: String = res_src.to_lowercase();
    let q: String = question.to_lowercase();
    let s: String = slug.to_lowercase();
    oracle_in_lowercase(rs.as_str(), q.as_str(), s.as_str())
}

/// The question, in lower case, names an hour of the day.
pub open spec fn names_an_hour(q: Seq<char>) -> bool {
    occurs(q, "pm et"@) || occurs(q, "am et"@) || occurs(q, "pm-"@) || occurs(q, "am-"@)
}

/// The kind of market, by its slug and its question, in lower case.
pub open spec fn market_type_name(s: Seq<char>, q: Seq<char>) -> Seq<char> {
    if occurs(s, "15m"@) || occurs(s, "15-min"@) {
        "up_down_15m"@
    } else if occurs(s, "5m"@) || occurs(s, "5-min"@) {
        "up_down_5m"@
    } else if occurs(s, "4h"@) || occurs(s, "4-hour"@) {
        "up_down_4h"@
    } else if occurs(s, "up-or-down"@) {
        if names_an_hour(q) {
            "up_down_hourly"@
        } else {
            "up_down_daily"@
        }
    } else if occurs(s, "above"@) {
        "above_below_daily"@
    } else {
        "unknown"@
    }
}

/// Determines the market type from a slug and a question in lower case.
pub fn market_type_in_lowercase(s: &str, q: &str) -> (r: &'static str)
    ensures
        r@ == market_type_name(s@, q@),
{
    if text::contains(s, "15m") || text::contains(s, "15-min") {
        "up_down_15m"
    } else if text::contains(s, "5m") || text::contains(s, "5-min") {
        "up_down_5m"
    } else if text::contains(s, "4h") || text::contains(s, "4-hour") {
        "up_down_4h"
    } else if text::contains(s, "up-or-down") {
        if text::contains(q, "pm et") || text::contains(q, "am et") || text::contains(q, "pm-")
            || text::contains(q, "am-") {
            "up_down_hourly"
        } else {
            "up_down_daily"
        }
    } else if text::contains(s, "above") {
        "above_below_daily"
    } else {
        "unknown"
    }
}

/// Determines the market type from the slug and the question, in any case.
pub fn determine_market_type(slug: &str, question: &str) -> (r: &'static str)
    ensures
        r@ == market_type_name(lowercase(slug@), lowercase(question@)),
        plain(slug@) ==> r@ == market_type_name(slug@, lowercase(question@)),
{
    let s: String = slug.to_lowercase();
    let q: String = question.to_lowercase();
    market_type_in_lowercase(s.as_str(), q.as_str())
}

/// The slugs that are generated for a day or an hour are plain text, and tell their type: an above
/// slug is a daily market on a level, whatever its question; an up-or-down slug is hourly where the
/// question names an hour, else daily.
pub proof fn generated_slugs_tell_their_type(
    month: int,
    day: int,
    year: int,
    hour: int,
    q: Seq<char>,
)
    requires
        1 <= month <= 12,
        0 <= day,
        0 <= hour < 24,
    ensures
        ({
            let above = above_slug(month, day);
            let daily = daily_slug(month, day, year);
            let hourly = hourly_slug(month, day, hour_text(hour));
            let by_question = if names_an_hour(q) {
                "up_down_hourly"@
            } else {
                "up_down_daily"@
            };
            &&& plain(above) && market_type_name(above, q) == "above_below_daily"@
            &&& plain(daily) && market_type_name(daily, q) == by_question
            &&& plain(hourly) && market_type_name(hourly, q) == by_question
        }),
{
    lemma_above_slug(month, day);
    lemma_daily_slug(month, day, year);
    lemma_hourly_slug(month, day, hour);
    lemma_no_interval(above_slug(month, day));
    lemma_no_interval(daily_slug(month, day, year));
    lemma_no_interval(hourly_slug(month, day, hour_text(hour)));
}

spec fn is_digit(c: char) -> bool {
    48 <= c as u32 <= 57
}

spec fn unit_letter(c: char) -> bool {
    c == 'm' || c == 'h'
}

/// No digit is followed by the first letter of a unit, at once or after a hyphen.
spec fn without_units(s: Seq<char>) -> bool {
    &&& forall|i: int|
        0 <= i < s.len() - 1 && is_digit(s[i]) ==> !unit_letter(#[trigger] s[i + 1])
    &&& forall|i: int|
        0 <= i < s.len() - 2 && is_digit(s[i]) && s[i + 1] == '-' ==> !unit_letter(
            #[trigger] s[i + 2],
        )
}

proof fn lemma_numeral(n: nat)
    ensures
        numeral(n).len() > 0,
        forall|i: int| 0 <= i < numeral(n).len() ==> is_digit(#[trigger] numeral(n)[i]),
    decreases n,
{
    if n >= 10 {
        lemma_numeral(n / 10);
    }
}

proof fn lemma_month_letters(month: int)
    ensures
        forall|i: int|
            0 <= i < month_text(month).len() ==> {
                let c = #[trigger] month_text(month)[i];
                97 <= c as u32 <= 122 && c != 'w'
            },
{
    reveal_strlit("january");
    reveal_strlit("february");
    reveal_strlit("march");
    reveal_strlit("april");
    reveal_strlit("may");
    reveal_strlit("june");
    reveal_strlit("july");
    reveal_strlit("august");
    reveal_strlit("september");
    reveal_strlit("october");
    reveal_strlit("november");
    reveal_strlit("december");
}

proof fn lemma_text_without_units(text: Seq<char>, rest: Seq<char>)
    requires
        forall|i: int| 0 <= i < text.len() ==> !is_digit(#[trigger] text[i]),
        without_units(rest),
    ensures
        without_units(text + rest),
{
    let s = text + rest;
    let n = text.len() as int;
    assert forall|i: int| 0 <= i < s.len() - 1 && is_digit(s[i]) implies !unit_letter(
        #[trigger] s[i + 1],
    ) by {
        assert(i >= n);
        assert(s[i] == rest[i - n]);
        assert(s[i + 1] == rest[(i - n) + 1]);
    }
    assert forall|i: int|
        0 <= i < s.len() - 2 && is_digit(s[i]) && s[i + 1] == '-' implies !unit_letter(
        #[trigger] s[i + 2],
    ) by {
        assert(i >= n);
        assert(s[i] == rest[i - n]);
        assert(s[i + 1] == rest[(i - n) + 1]);
        assert(s[i + 2] == rest[(i - n) + 2]);
    }
}

proof fn lemma_number_without_units(number: Seq<char>, rest: Seq<char>)
    requires
        forall|i: int| 0 <= i < number.len() ==> is_digit(#[trigger] number[i]),
        without_units(rest),
        rest.len() > 0 ==> !unit_letter(rest[0]),
        rest.len() > 1 ==> !unit_letter(rest[1]) || rest[0] != '-',
    ensures
        without_units(number + rest),
{
    let s = number + rest;
    let n = number.len() as int;
    assert forall|i: int| 0 <= i < s.len() - 1 && is_digit(s[i]) implies !unit_letter(
        #[trigger] s[i + 1],
    ) by {
        if i >= n {
            assert(s[i] == rest[i - n]);
            assert(s[i + 1] == rest[(i - n) + 1]);
        } else if i + 1 < n {
            assert(s[i + 1] == number[i + 1]);
        } else {
            assert(s[i + 1] == rest[0]);
        }
    }
    assert forall|i: int|
        0 <= i < s.len() - 2 && is_digit(s[i]) && s[i + 1] == '-' implies !unit_letter(
        #[trigger] s[i + 2],
    ) by {
        if i >= n {
            assert(s[i] == rest[i - n]);
            assert(s[i + 1] == rest[(i - n) + 1]);
            assert(s[i + 2] == rest[(i - n) + 2]);
        } else if i + 1 < n {
            assert(s[i + 1] == number[i + 1]);
        } else {
            assert(s[i + 1] == rest[0]);
            assert(s[i + 2] == rest[1]);
        }
    }
}

proof fn lemma_no_interval(s: Seq<char>)
    requires
        without_units(s),
    ensures
        !occurs(s, "15m"@),
        !occurs(s, "15-min"@),
        !occurs(s, "5m"@),
        !occurs(s, "5-min"@),
        !occurs(s, "4h"@),
        !occurs(s, "4-hour"@),
{
    reveal_strlit("15m");
    reveal_strlit("15-min");
    reveal_strlit("5m");
    reveal_strlit("5-min");
    reveal_strlit("4h");
    reveal_strlit("4-hour");
    lemma_unit_stands_nowhere(s, "15m"@, 1);
    lemma_unit_stands_nowhere(s, "15-min"@, 1);
    lemma_unit_stands_nowhere(s, "5m"@, 0);
    lemma_unit_stands_nowhere(s, "5-min"@, 0);
    lemma_unit_stands_nowhere(s, "4h"@, 0);
    lemma_unit_stands_nowhere(s, "4-hour"@, 0);
}

/// A text with a digit before a unit, at once or after a hyphen, does not occur.
proof fn lemma_unit_stands_nowhere(s: Seq<char>, part: Seq<char>, k: int)
    requires
        without_units(s),
        0 <= k < part.len() - 1,
        is_digit(part[k]),
        unit_letter(part[k + 1]) || (k < part.len() - 2 && part[k + 1] == '-' && unit_letter(
            part[k + 2],
        )),
    ensures
        !occurs(s, part),
{
    assert forall|i: int| !#[trigger] stands_at(s, part, i) by {
        if stands_at(s, part, i) {
            let found = s.subrange(i, i + part.len());
            assert(found[k] == s[i + k]);
            assert(found[k + 1] == s[(i + k) + 1]);
            if !unit_letter(part[k + 1]) {
                assert(found[k + 2] == s[(i + k) + 2]);
            }
        }
    }
}

proof fn lemma_above_slug(month: int, day: int)
    requires
        0 <= day,
    ensures
        plain(above_slug(month, day)),
        without_units(above_slug(month, day)),
        !occurs(above_slug(month, day), "up-or-down"@),
        occurs(above_slug(month, day), "above"@),
{
    let s = above_slug(month, day);
    let head = "bitcoin-above-on-"@;
    let number = numeral(day as nat);
    reveal_strlit("bitcoin-above-on-");
    reveal_strlit("-");
    reveal_strlit("above");
    reveal_strlit("up-or-down");
    lemma_month_letters(month);
    lemma_numeral(day as nat);
    let text = head + month_text(month) + "-"@;
    lemma_number_without_units(number, Seq::empty());
    lemma_text_without_units(text, number + Seq::empty());
    assert(s =~= text + (number + Seq::empty()));
    assert(s.subrange(8, 13) =~= "above"@);
    assert(stands_at(s, "above"@, 8));
    assert forall|i: int| !#[trigger] stands_at(s, "up-or-down"@, i) by {
        if stands_at(s, "up-or-down"@, i) {
            assert(s.subrange(i, i + 10)[8] == s[i + 8]);
        }
    }
}

proof fn lemma_daily_slug(month: int, day: int, year: int)
    requires
        0 <= day,
    ensures
        plain(daily_slug(month, day, year)),
        without_units(daily_slug(month, day, year)),
        occurs(daily_slug(month, day, year), "up-or-down"@),
{
    let s = daily_slug(month, day, year);
    let head = "bitcoin-up-or-down-on-"@;
    let number = numeral(day as nat);
    reveal_strlit("bitcoin-up-or-down-on-");
    reveal_strlit("-");
    reveal_strlit("up-or-down");
    lemma_month_letters(month);
    lemma_numeral(day as nat);
    lemma_numeral(
        if year < 0 {
            (-year) as nat
        } else {
            year as nat
        },
    );
    let text = head + month_text(month) + "-"@;
    let rest = "-"@ + int_numeral(year);
    assert(forall|i: int| 0 <= i < rest.len() ==> is_digit(#[trigger] rest[i]) || rest[i] == '-');
    lemma_number_without_units(number, rest);
    lemma_text_without_units(text, number + rest);
    assert(s =~= text + (number + rest));
    assert(s.subrange(8, 18) =~= "up-or-down"@);
    assert(stands_at(s, "up-or-down"@, 8));
}

proof fn lemma_hourly_slug(month: int, day: int, hour: int)
    requires
        0 <= day,
        0 <= hour < 24,
    ensures
        plain(hourly_slug(month, day, hour_text(hour))),
        without_units(hourly_slug(month, day, hour_text(hour))),
        occurs(hourly_slug(month, day, hour_text(hour)), "up-or-down"@),
{
    let s = hourly_slug(month, day, hour_text(hour));
    let head = "bitcoin-up-or-down-"@;
    let number = numeral(day as nat);
    reveal_strlit("bitcoin-up-or-down-");
    reveal_strlit("-");
    reveal_strlit("-et");
    reveal_strlit("am");
    reveal_strlit("pm");
    reveal_strlit("12am");
    reveal_strlit("12pm");
    reveal_strlit("up-or-down");
    lemma_month_letters(month);
    lemma_numeral(day as nat);
    let text = head + month_text(month) + "-"@;
    let clock = if hour == 0 || hour == 12 {
        seq!['1', '2']
    } else if hour > 12 {
        numeral((hour - 12) as nat)
    } else {
        numeral(hour as nat)
    };
    let half = if hour < 12 {
        "am"@
    } else {
        "pm"@
    };
    if hour != 0 && hour != 12 {
        lemma_numeral(
            if hour > 12 {
                (hour - 12) as nat
            } else {
                hour as nat
            },
        );
    }
    assert(hour_text(hour) =~= clock + half);
    let end = half + "-et"@;
    lemma_number_without_units(clock, end);
    lemma_text_without_units("-"@, clock + end);
    let rest = "-"@ + (clock + end);
    assert(rest[1] == clock[0]);
    lemma_number_without_units(number, rest);
    lemma_text_without_units(text, number + rest);
    assert(s =~= text + (number + rest));
    assert(s.subrange(8, 18) =~= "up-or-down"@);
    assert(stands_at(s, "up-or-down"@, 8));
}

/// Extracts the first `$X,XXX` amount from a question.
pub fn extract_strike_from_question(text: &str) -> (r: Option<Real>)
    ensures
        r == dollar_amount(text@),
{
    parse_dollar_amount(text)
}

/// A market as an event lists it, ready to be stored.
pub struct PolyMarketRow {
    pub ticker: String,
    pub series: String,
    pub market_type: &'static str,
    pub oracle: &'static str,
    pub strike: Option<Real>,
    pub open_time: Option<String>,
    pub close_time: Option<String>,
    pub resolution_time: Option<String>,
    pub outcome: Option<String>,
    pub rules: Option<String>,
    /// The order book's id of the YES outcome.
    pub token_id: Option<String>,
}

/// A market as an event lists it, for contracts.
#[verifier::ext_equal]
pub struct PolyMarketView {
    pub ticker: Seq<char>,
    pub series: Seq<char>,
    pub market_type: Seq<char>,
    pub oracle: Seq<char>,
    pub strike: Option<Real>,
    pub open_time: Option<Seq<char>>,
    pub close_time: Option<Seq<char>>,
    pub resolution_time: Option<Seq<char>>,
    pub outcome: Option<Seq<char>>,
    pub rules: Option<Seq<char>>,
    pub token_id: Option<Seq<char>>,
}

impl View for PolyMarketRow {
    type V = PolyMarketView;

    open spec fn view(&self) -> PolyMarketView {
        PolyMarketView {
            ticker: self.ticker@,
            series: self.series@,
            market_type: self.market_type@,
            oracle: self.oracle@,
            strike: self.strike,
            open_time: opt_text(self.open_time),
            close_time: opt_text(self.close_time),
            resolution_time: opt_text(self.resolution_time),
            outcome: opt_text(self.outcome),
            rules: opt_text(self.rules),
            token_id: opt_text(self.token_id),
        }
    }
}

/// The question of a market; empty where it has none.
pub open spec fn market_question(m: JsonView) -> Seq<char> {
    match m.text_field("question"@) {
        Some(s) => s,
        None => ""@,
    }
}

/// The id of a market: its `id`, a text or a number, or else its `conditionId`.
pub open spec fn market_id(m: JsonView) -> Option<Seq<char>> {
    let id = match m.field("id"@) {
        Some(JsonView::Str(s)) => s,
        Some(JsonView::Number(_, s)) => s,
        _ => ""@,
    };
    if id.len() > 0 {
        Some(id)
    } else {
        m.full_text_field("conditionId"@)
    }
}

/// The ticker of a market of an event.
pub open spec fn market_ticker(m: JsonView, slug: Seq<char>) -> Seq<char> {
    match market_id(m) {
        Some(id) => "poly-"@ + id,
        None => "poly-"@ + slug + "-"@ + first_chars(market_question(m), 30),
    }
}

/// All of them are texts.
pub open spec fn all_texts(items: Seq<JsonView>) -> bool {
    forall|i: int| 0 <= i < items.len() ==> (#[trigger] items[i]) is Str
}

/// The first of a list of texts, where it is a list of texts and the first is not empty.
pub open spec fn first_text(v: Option<JsonView>) -> Option<Seq<char>> {
    match v {
        Some(JsonView::Array(items)) => if all_texts(items) && items.len() > 0
            && items[0]->Str_0.len() > 0 {
            Some(items[0]->Str_0)
        } else {
            None
        },
        _ => None,
    }
}

/// The order book's id of the YES outcome: the first of the ids listed as a text, or else of the
/// tokens.
pub open spec fn market_token(m: JsonView) -> Option<Seq<char>> {
    let listed = match m.text_field("clobTokenIds"@) {
        Some(s) => first_text(parsed(s)),
        None => None,
    };
    match listed {
        Some(id) => Some(id),
        None => match m.array_field("tokens"@) {
            Some(tokens) => if tokens.len() > 0 {
                tokens[0].full_text_field("token_id"@)
            } else {
                None
            },
            None => None,
        },
    }
}

/// When a market closes.
pub open spec fn market_end(m: JsonView) -> Option<Seq<char>> {
    m.text_field_or("endDate"@, "end_date_iso"@)
}

/// What a market of an event is.
pub open spec fn poly_market(m: JsonView, slug: Seq<char>) -> PolyMarketView {
    let question = market_question(m);
    PolyMarketView {
        ticker: market_ticker(m, slug),
        series: slug,
        market_type: market_type_name(lowercase(slug), lowercase(question)),
        oracle: oracle_name(
            lowercase(
                match m.text_field("resolutionSource"@) {
                    Some(s) => s,
                    None => ""@,
                },
            ),
            lowercase(question),
            lowercase(slug),
        ),
        strike: dollar_amount(question),
        open_time: m.text_field_or("startDate"@, "start_date_iso"@),
        close_time: market_end(m),
        resolution_time: if m.full_text_field("resolvedBy"@) is Some {
            match m.full_text_field("resolutionDate"@) {
                Some(s) => Some(s),
                None => market_end(m),
            }
        } else {
            None
        },
        outcome: if m.flag("closed"@) {
            match outcome_prices(m) {
                Some(prices) => priced_outcome(prices),
                None => None,
            }
        } else {
            None
        },
        rules: if question.len() == 0 {
            None
        } else {
            Some(first_chars(question, RULES_MAX as int))
        },
        token_id: market_token(m),
    }
}

/// The ticker that a market's id makes gives the id back, under which its resolution is asked for.
pub proof fn ticker_keeps_the_id(m: JsonView, slug: Seq<char>)
    ensures
        market_id(m) matches Some(id) ==> gamma_id(market_ticker(m, slug)) == id,
{
    if let Some(id) = market_id(m) {
        let prefix = "poly-"@;
        let ticker = prefix + id;
        assert(ticker.subrange(0, prefix.len() as int) =~= prefix);
        assert(ticker.skip(prefix.len() as int) =~= id);
    }
}

fn question_of(m: &Json) -> (r: &str)
    ensures
        r@ == market_question(m@),
{
    match m.text_at("question") {
        Some(s) => s,
        None => "",
    }
}

fn id_of(m: &Json) -> (r: Option<String>)
    ensures
        opt_text(r) == market_id(m@),
{
    let id: String = match m.get("id") {
        Some(Json::Str(s)) => s.clone(),
        Some(Json::Number(_, s)) => s.clone(),
        _ => "".to_owned(),
    };
    proof {
        reveal_strlit("");
    }
    if id.as_str().is_empty() {
        owned(m.full_text_at("conditionId"))
    } else {
        Some(id)
    }
}

fn ticker_of(m: &Json, slug: &str) -> (r: String)
    ensures
        r@ == market_ticker(m@, slug@),
{
    let mut s: String = "poly-".to_owned();
    match id_of(m) {
        Some(id) => {
            s.append(id.as_str());
        },
        None => {
            s.append(slug);
            s.append("-");
            let start: String = text::truncated(question_of(m), 30);
            s.append(start.as_str());
        },
    }
    s
}

fn only_texts(items: &Vec<Json>) -> (r: bool)
    ensures
        r == all_texts(trees(items@)),
{
    let ghost all = trees(items@);
    let mut i: usize = 0;
    while i < items.len()
        invariant
            i <= items@.len(),
            all == trees(items@),
            forall|k: int| 0 <= k < i ==> (#[trigger] all[k]) is Str,
        decreases items@.len() - i,
    {
        assert(all[i as int] == items@[i as int]@);
        match &items[i] {
            Json::Str(_) => {},
            _ => {
                return false;
            },
        }
        i += 1;
    }
    true
}

/// The first of a list of texts, where it is a list of texts and the first is not empty.
pub fn first_of_texts(list: &Json) -> (r: Option<String>)
    ensures
        opt_text(r) == first_text(Some(list@)),
{
    match list.as_array() {
        Some(items) => {
            if items.len() == 0 || !only_texts(items) {
                return None;
            }
            assert(trees(items@)[0] == items@[0]@);
            match items[0].as_str() {
                Some(s) => if s.is_empty() {
                    None
                } else {
                    Some(s.to_owned())
                },
                None => None,
            }
        },
        None => None,
    }
}

fn first_listed(text: &str) -> (r: Option<String>)
    ensures
        opt_text(r) == first_text(parsed(text@)),
{
    match Json::parse(text) {
        Some(v) => first_of_texts(&v),
        None => None,
    }
}

fn token_of(m: &Json) -> (r: Option<String>)
    ensures
        opt_text(r) == market_token(m@),
{
    if let Some(text) = m.text_at("clobTokenIds") {
        if let Some(id) = first_listed(text) {
            return Some(id);
        }
    }
    match m.array_at("tokens") {
        Some(tokens) => if tokens.len() > 0 {
            assert(trees(tokens@)[0] == tokens@[0]@);
            owned(tokens[0].full_text_at("token_id"))
        } else {
            None
        },
        None => None,
    }
}

/// Reads one market of an event.
pub fn parse_poly_market(m: &Json, event_slug: &str) -> (r: PolyMarketRow)
    ensures
        r@ == poly_market(m@, event_slug@),
{
    let question: &str = question_of(m);
    let end_date: Option<&str> = m.text_at_or("endDate", "end_date_iso");
    let resolution_time: Option<String> = match m.full_text_at("resolvedBy") {
        Some(_) => match m.full_text_at("resolutionDate") {
            Some(s) => Some(s.to_owned()),
            None => owned(end_date),
        },
        None => None,
    };
    let outcome: Option<String> = if m.flag_at("closed") {
        match parse_outcome_prices(m) {
            Some(prices) => outcome_from_prices(&prices),
            None => None,
        }
    } else {
        None
    };
    let res_src: &str = match m.text_at("resolutionSource") {
        Some(s) => s,
        None => "",
    };
    let rules: Option<String> = if question.is_empty() {
        None
    } else {
        Some(text::truncated(question, RULES_MAX))
    };
    PolyMarketRow {
        ticker: ticker_of(m, event_slug),
        series: event_slug.to_owned(),
        market_type: determine_market_type(event_slug, question),
        oracle: determine_oracle(res_src, question, event_slug),
        strike: extract_strike_from_question(question),
        open_time: owned(m.text_at_or("startDate", "start_date_iso")),
        close_time: owned(end_date),
        resolution_time,
        outcome,
        rules,
        token_id: token_of(m),
    }
}

/// The market with the fallback as its strike, where it has none of its own and the fallback is
/// positive.
pub open spec fn with_strike(row: PolyMarketView, fallback: Option<Real>) -> PolyMarketView {
    match (row.strike, fallback) {
        (None, Some(spot)) => if spot.positive() {
            PolyMarketView { strike: fallback, ..row }
        } else {
            row
        },
        _ => row,
    }
}

/// The rows, for contracts.
pub open spec fn row_views(rows: Seq<PolyMarketRow>) -> Seq<PolyMarketView> {
    Seq::new(rows.len(), |i: int| rows[i]@)
}

/// The rows of the markets of an event, which take the fallback as their strike where the event is
/// one of those at the spot price.
pub open spec fn event_rows(
    items: Seq<JsonView>,
    slug: Seq<char>,
    at_spot: bool,
    fallback: Option<Real>,
) -> Seq<PolyMarketView> {
    Seq::new(
        items.len(),
        |i: int|
            {
                let row = poly_market(items[i], slug);
                if at_spot {
                    with_strike(row, fallback)
                } else {
                    row
                }
            },
    )
}

/// Every market of an event has its row, in order, and the fallback reaches the markets at the spot
/// price only.
pub proof fn events_give_a_row_for_each_market(
    items: Seq<JsonView>,
    slug: Seq<char>,
    fallback: Option<Real>,
    i: int,
)
    requires
        0 <= i < items.len(),
    ensures
        event_rows(items, slug, true, fallback).len() == items.len(),
        event_rows(items, slug, false, fallback).len() == items.len(),
        event_rows(items, slug, false, fallback)[i] == poly_market(items[i], slug),
        event_rows(items, slug, true, fallback)[i] == with_strike(
            poly_market(items[i], slug),
            fallback,
        ),
        event_rows(items, slug, true, None)[i] == poly_market(items[i], slug),
{
}

/// The rows of an event: one for each of its markets. Markets whose question names no strike take
/// `fallback_strike` where the candidate says so. `None` where the event lists no markets.
pub fn parse_poly_event(
    event: &Json,
    candidate: &SlugCandidate,
    fallback_strike: Option<Real>,
) -> (r: Option<Vec<PolyMarketRow>>)
    ensures
        match r {
            Some(rows) => {
                &&& event@.array_field("markets"@) matches Some(items)
                &&& row_views(rows@) == event_rows(
                    items,
                    candidate.slug@,
                    candidate.at_spot,
                    fallback_strike,
                )
            },
            None => event@.array_field("markets"@) is None,
        },
{
    let markets: &Vec<Json> = match event.array_at("markets") {
        Some(a) => a,
        None => {
            return None;
        },
    };
    let ghost items = trees(markets@);
    let ghost expected = event_rows(items, candidate.slug@, candidate.at_spot, fallback_strike);
    let mut rows: Vec<PolyMarketRow> = Vec::new();
    let mut i: usize = 0;
    while i < markets.len()
        invariant
            i <= markets@.len(),
            items == trees(markets@),
            expected.len() == items.len(),
            forall|k: int|
                0 <= k < items.len() ==> #[trigger] expected[k] == {
                    let row = poly_market(items[k], candidate.slug@);
                    if candidate.at_spot {
                        with_strike(row, fallback_strike)
                    } else {
                        row
                    }
                },
            rows@.len() == i,
            forall|k: int| 0 <= k < i ==> (#[trigger] rows@[k])@ == expected[k],
        decreases markets@.len() - i,
    {
        assert(items[i as int] == markets@[i as int]@);
        let mut row: PolyMarketRow = parse_poly_market(&markets[i], candidate.slug.as_str());
        if candidate.at_spot && row.strike.is_none() {
            if let Some(spot) = fallback_strike {
                if spot.is_positive() {
                    row.strike = fallback_strike;
                }
            }
        }
        assert(row@ =~= expected[i as int]);
        rows.push(row);
        i += 1;
    }
    assert(row_views(rows@) =~= expected);
    Some(rows)
}

/// The object of a response: the response itself, or the first item of a list.
pub open spec fn response_object(data: JsonView) -> Option<JsonView> {
    match data {
        JsonView::Object(_) => Some(data),
        JsonView::Array(items) => if items.len() > 0 {
            Some(items[0])
        } else {
            None
        },
        _ => None,
    }
}

/// Takes the object out of a response, which may be wrapped in a list.
pub fn object_in_response(data: Json) -> (r: Option<Json>)
    ensures
        match r {
            Some(v) => response_object(data@) == Some(v@),
            None => response_object(data@) is None,
        },
{
    let ghost tree = data@;
    match data {
        Json::Object(_) => Some(data),
        Json::Array(items) => {
            assert(tree->Array_0 =~= trees(items@));
            if items.len() > 0 {
                Some(items[0].duplicate())
            } else {
                None
            }
        },
        _ => None,
    }
}

/// What is known of a market that has resolved.
pub struct ResolutionInfo {
    pub outcome: Option<String>,
    pub oracle_value_at_close: Option<Real>,
    pub close_time_str: Option<String>,
    pub resolution_time_str: Option<String>,
    pub resolved_by: Option<String>,
}

/// What is known of a market that has resolved, for contracts.
#[verifier::ext_equal]
pub struct ResolutionView {
    pub outcome: Option<Seq<char>>,
    pub oracle_value_at_close: Option<Real>,
    pub close_time_str: Option<Seq<char>>,
    pub resolution_time_str: Option<Seq<char>>,
    pub resolved_by: Option<Seq<char>>,
}

impl View for ResolutionInfo {
    type V = ResolutionView;

    open spec fn view(&self) -> ResolutionView {
        ResolutionView {
            outcome: opt_text(self.outcome),
            oracle_value_at_close: self.oracle_value_at_close,
            close_time_str: opt_text(self.close_time_str),
            resolution_time_str: opt_text(self.resolution_time_str),
            resolved_by: opt_text(self.resolved_by),
        }
    }
}

/// The end of a market as a resolution reports it.
pub open spec fn resolution_end(m: JsonView) -> Option<Seq<char>> {
    match m.text_field("endDate"@) {
        Some(s) => Some(s),
        None => m.text_field("end_date_iso"@),
    }
}

/// What a market says of its resolution; `None` while it is neither closed nor resolved.
pub open spec fn resolution_view(m: JsonView) -> Option<ResolutionView> {
    if m.flag("closed"@) || m.flag("resolved"@) {
        Some(
            ResolutionView {
                outcome: api_outcome(m),
                oracle_value_at_close: None,
                close_time_str: resolution_end(m),
                resolution_time_str: match m.full_text_field("resolutionDate"@) {
                    Some(s) => Some(s),
                    None => resolution_end(m),
                },
                resolved_by: m.full_text_field("resolvedBy"@),
            },
        )
    } else {
        None
    }
}

/// Reads a market for its resolution. `None` while it is open.
///
/// A market counts as settled when it is closed or resolved: either flag may be set first.
pub fn parse_resolution(m: &Json) -> (r: Option<ResolutionInfo>)
    ensures
        match r {
            Some(info) => resolution_view(m@) == Some(info@),
            None => resolution_view(m@) is None,
        },
{
    if !m.flag_at("closed") && !m.flag_at("resolved") {
        return None;
    }
    let end_date: Option<&str> = match m.text_at("endDate") {
        Some(s) => Some(s),
        None => m.text_at("end_date_iso"),
    };
    let resolution_time_str: Option<String> = match m.full_text_at("resolutionDate") {
        Some(s) => Some(s.to_owned()),
        None => owned(end_date),
    };
    Some(
        ResolutionInfo {
            outcome: outcome_from_api(m),
            oracle_value_at_close: None,
            close_time_str: owned(end_date),
            resolution_time_str,
            resolved_by: owned(m.full_text_at("resolvedBy")),
        },
    )
}

/// The level of an order book item: an object with a price and a size.
pub open spec fn object_level(item: JsonView) -> Option<Level> {
    level_from(item.text_field("price"@), item.text_field("size"@))
}

/// The levels of a list of objects; what is not a level is left out.
pub open spec fn object_levels(items: Seq<JsonView>) -> Seq<Level>
    decreases items.len(),
{
    if items.len() == 0 {
        Seq::empty()
    } else {
        let before = object_levels(items.drop_last());
        match object_level(items.last()) {
            Some(level) => before.push(level),
            None => before,
        }
    }
}

/// The levels of one side of a book; none where it is no array.
pub open spec fn side_levels(side: JsonView) -> Seq<Level> {
    match side.items() {
        Some(items) => object_levels(items),
        None => Seq::empty(),
    }
}

fn parse_object_level(item: &Json) -> (r: Option<Level>)
    ensures
        r == object_level(item@),
{
    match parse_positive(item.text_at("price")) {
        Some(price) => match parse_positive(item.text_at("size")) {
            Some(size) => Some(Level { price, size }),
            None => None,
        },
        None => None,
    }
}

/// Parses a level array: `[{"price":"0.45","size":"100"}, ...]`. Items without a positive price
/// and size are left out.
pub fn parse_poly_levels(side: &Json) -> (r: Vec<Level>)
    ensures
        r@ == side_levels(side@),
{
    let mut levels: Vec<Level> = Vec::new();
    let items: &Vec<Json> = match side.as_array() {
        Some(a) => a,
        None => {
            return levels;
        },
    };
    let ghost all = trees(items@);
    assert(levels@ =~= object_levels(all.take(0)));
    let mut i: usize = 0;
    while i < items.len()
        invariant
            i <= items@.len(),
            all == trees(items@),
            levels@ == object_levels(all.take(i as int)),
        decreases items@.len() - i,
    {
        assert(all.take(i + 1).drop_last() =~= all.take(i as int));
        assert(all.take(i + 1).last() == items@[i as int]@);
        if let Some(level) = parse_object_level(&items[i]) {
            levels.push(level);
        }
        i += 1;
    }
    assert(all.take(i as int) =~= all);
    levels
}

/// An order book: bids and asks, each with the best level first.
pub struct PolyBook {
    pub bids: Vec<Level>,
    pub asks: Vec<Level>,
}

/// The two sides of a book, bids and asks, where both are there and one has levels.
pub open spec fn book_sides(data: JsonView) -> Option<(Seq<Level>, Seq<Level>)> {
    match (data.field("bids"@), data.field("asks"@)) {
        (Some(bids), Some(asks)) => if side_levels(bids).len() > 0 || side_levels(asks).len() > 0 {
            Some((side_levels(bids), side_levels(asks)))
        } else {
            None
        },
        _ => None,
    }
}

/// The sides of a book are those that it names, bids before asks; a book without one of them, or
/// with both empty, is none.
pub proof fn books_have_their_own_sides(data: JsonView, bids: JsonView, asks: JsonView)
    ensures
        data.field("bids"@) == Some(bids) && data.field("asks"@) == Some(asks) ==> book_sides(data)
            == if side_levels(bids).len() == 0 && side_levels(asks).len() == 0 {
            None
        } else {
            Some((side_levels(bids), side_levels(asks)))
        },
        data.field("bids"@) is None || data.field("asks"@) is None ==> book_sides(data) is None,
{
}

/// Parses an order book response. `None` where a side is missing or both are empty.
pub fn parse_poly_book(data: &Json) -> (r: Option<PolyBook>)
    ensures
        match r {
            Some(book) => book_sides(data@) == Some((book.bids@, book.asks@)),
            None => book_sides(data@) is None,
        },
{
    let bids: Vec<Level> = parse_poly_levels(data.get("bids")?);
    let asks: Vec<Level> = parse_poly_levels(data.get("asks")?);
    if bids.len() == 0 && asks.len() == 0 {
        return None;
    }
    Some(PolyBook { bids, asks })
}

/// The price of the first level.
pub open spec fn first_price(levels: Seq<Level>) -> Option<Real> {
    if levels.len() == 0 {
        None
    } else {
        Some(levels[0].price)
    }
}

fn best_of(levels: &Vec<Level>) -> (r: Option<Real>)
    ensures
        r == first_price(levels@),
{
    if levels.len() == 0 {
        None
    } else {
        Some(levels[0].price)
    }
}

impl PolyBook {
    /// The best bid: the first.
    pub fn best_bid(&self) -> (r: Option<Real>)
        ensures
            r == first_price(self.bids@),
    {
        best_of(&self.bids)
    }

    /// The best ask: the first.
    pub fn best_ask(&self) -> (r: Option<Real>)
        ensures
            r == first_price(self.asks@),
    {
        best_of(&self.asks)
    }

    /// The snapshot of the book. `levels` is the text of all levels.
    pub fn snapshot(
        &self,
        ts: i64,
        market_id: i64,
        figures: BookFigures,
        levels: String,
    ) -> (r: BookSnapshotRow)
        ensures
            r.venue@ == "polymarket"@,
            snapshot_of_book(
                r,
                ts,
                market_id,
                first_price(self.bids@),
                first_price(self.asks@),
                figures,
                levels@,
            ),
    {
        book_snapshot(
            "polymarket",
            ts,
            market_id,
            self.best_bid(),
            self.best_ask(),
            figures,
            levels,
        )
    }
}

/// Every month goes by its own name, in the slugs of days and of hours.
pub proof fn months_go_by_their_names(day: int, year: int, hour: Seq<char>)
    ensures
        above_slug(1, day) == "bitcoin-above-on-january-"@ + numeral(day as nat),
        above_slug(2, day) == "bitcoin-above-on-february-"@ + numeral(day as nat),
        above_slug(3, day) == "bitcoin-above-on-march-"@ + numeral(day as nat),
        above_slug(4, day) == "bitcoin-above-on-april-"@ + numeral(day as nat),
        above_slug(5, day) == "bitcoin-above-on-may-"@ + numeral(day as nat),
        above_slug(6, day) == "bitcoin-above-on-june-"@ + numeral(day as nat),
        above_slug(7, day) == "bitcoin-above-on-july-"@ + numeral(day as nat),
        above_slug(8, day) == "bitcoin-above-on-august-"@ + numeral(day as nat),
        above_slug(9, day) == "bitcoin-above-on-september-"@ + numeral(day as nat),
        above_slug(10, day) == "bitcoin-above-on-october-"@ + numeral(day as nat),
        above_slug(11, day) == "bitcoin-above-on-november-"@ + numeral(day as nat),
        above_slug(12, day) == "bitcoin-above-on-december-"@ + numeral(day as nat),
        daily_slug(1, day, year) == "bitcoin-up-or-down-on-january-"@ + numeral(day as nat) + "-"@
            + int_numeral(year),
        daily_slug(2, day, year) == "bitcoin-up-or-down-on-february-"@ + numeral(day as nat) + "-"@
            + int_numeral(year),
        daily_slug(3, day, year) == "bitcoin-up-or-down-on-march-"@ + numeral(day as nat) + "-"@
            + int_numeral(year),
        daily_slug(4, day, year) == "bitcoin-up-or-down-on-april-"@ + numeral(day as nat) + "-"@
            + int_numeral(year),
        daily_slug(5, day, year) == "bitcoin-up-or-down-on-may-"@ + numeral(day as nat) + "-"@
            + int_numeral(year),
        daily_slug(6, day, year) == "bitcoin-up-or-down-on-june-"@ + numeral(day as nat) + "-"@
            + int_numeral(year),
        daily_slug(7, day, year) == "bitcoin-up-or-down-on-july-"@ + numeral(day as nat) + "-"@
            + int_numeral(year),
        daily_slug(8, day, year) == "bitcoin-up-or-down-on-august-"@ + numeral(day as nat) + "-"@
            + int_numeral(year),
        daily_slug(9, day, year) == "bitcoin-up-or-down-on-september-"@ + numeral(day as nat) + "-"@
            + int_numeral(year),
        daily_slug(10, day, year) == "bitcoin-up-or-down-on-october-"@ + numeral(day as nat) + "-"@
            + int_numeral(year),
        daily_slug(11, day, year) == "bitcoin-up-or-down-on-november-"@ + numeral(day as nat) + "-"@
            + int_numeral(year),
        daily_slug(12, day, year) == "bitcoin-up-or-down-on-december-"@ + numeral(day as nat) + "-"@
            + int_numeral(year),
        hourly_slug(1, day, hour) == "bitcoin-up-or-down-january-"@ + numeral(day as nat) + "-"@
            + hour + "-et"@,
        hourly_slug(2, day, hour) == "bitcoin-up-or-down-february-"@ + numeral(day as nat) + "-"@
            + hour + "-et"@,
        hourly_slug(3, day, hour) == "bitcoin-up-or-down-march-"@ + numeral(day as nat) + "-"@
            + hour + "-et"@,
        hourly_slug(4, day, hour) == "bitcoin-up-or-down-april-"@ + numeral(day as nat) + "-"@
            + hour + "-et"@,
        hourly_slug(5, day, hour) == "bitcoin-up-or-down-may-"@ + numeral(day as nat) + "-"@
            + hour + "-et"@,
        hourly_slug(6, day, hour) == "bitcoin-up-or-down-june-"@ + numeral(day as nat) + "-"@
            + hour + "-et"@,
        hourly_slug(7, day, hour) == "bitcoin-up-or-down-july-"@ + numeral(day as nat) + "-"@
            + hour + "-et"@,
        hourly_slug(8, day, hour) == "bitcoin-up-or-down-august-"@ + numeral(day as nat) + "-"@
            + hour + "-et"@,
        hourly_slug(9, day, hour) == "bitcoin-up-or-down-september-"@ + numeral(day as nat) + "-"@
            + hour + "-et"@,
        hourly_slug(10, day, hour) == "bitcoin-up-or-down-october-"@ + numeral(day as nat) + "-"@
            + hour + "-et"@,
        hourly_slug(11, day, hour) == "bitcoin-up-or-down-november-"@ + numeral(day as nat) + "-"@
            + hour + "-et"@,
        hourly_slug(12, day, hour) == "bitcoin-up-or-down-december-"@ + numeral(day as nat) + "-"@
            + hour + "-et"@,
{
    reveal_strlit("-");
    reveal_strlit("bitcoin-above-on-");
    reveal_strlit("bitcoin-up-or-down-on-");
    reveal_strlit("bitcoin-up-or-down-");
    reveal_strlit("january");
    reveal_strlit("february");
    reveal_strlit("march");
    reveal_strlit("april");
    reveal_strlit("may");
    reveal_strlit("june");
    reveal_strlit("july");
    reveal_strlit("august");
    reveal_strlit("september");
    reveal_strlit("october");
    reveal_strlit("november");
    reveal_strlit("december");
    reveal_strlit("bitcoin-above-on-january-");
    reveal_strlit("bitcoin-up-or-down-on-january-");
    reveal_strlit("bitcoin-up-or-down-january-");
    reveal_strlit("bitcoin-above-on-february-");
    reveal_strlit("bitcoin-up-or-down-on-february-");
    reveal_strlit("bitcoin-up-or-down-february-");
    reveal_strlit("bitcoin-above-on-march-");
    reveal_strlit("bitcoin-up-or-down-on-march-");
    reveal_strlit("bitcoin-up-or-down-march-");
    reveal_strlit("bitcoin-above-on-april-");
    reveal_strlit("bitcoin-up-or-down-on-april-");
    reveal_strlit("bitcoin-up-or-down-april-");
    reveal_strlit("bitcoin-above-on-may-");
    reveal_strlit("bitcoin-up-or-down-on-may-");
    reveal_strlit("bitcoin-up-or-down-may-");
    reveal_strlit("bitcoin-above-on-june-");
    reveal_strlit("bitcoin-up-or-down-on-june-");
    reveal_strlit("bitcoin-up-or-down-june-");
    reveal_strlit("bitcoin-above-on-july-");
    reveal_strlit("bitcoin-up-or-down-on-july-");
    reveal_strlit("bitcoin-up-or-down-july-");
    reveal_strlit("bitcoin-above-on-august-");
    reveal_strlit("bitcoin-up-or-down-on-august-");
    reveal_strlit("bitcoin-up-or-down-august-");
    reveal_strlit("bitcoin-above-on-september-");
    reveal_strlit("bitcoin-up-or-down-on-september-");
    reveal_strlit("bitcoin-up-or-down-september-");
    reveal_strlit("bitcoin-above-on-october-");
    reveal_strlit("bitcoin-up-or-down-on-october-");
    reveal_strlit("bitcoin-up-or-down-october-");
    reveal_strlit("bitcoin-above-on-november-");
    reveal_strlit("bitcoin-up-or-down-on-november-");
    reveal_strlit("bitcoin-up-or-down-november-");
    reveal_strlit("bitcoin-above-on-december-");
    reveal_strlit("bitcoin-up-or-down-on-december-");
    reveal_strlit("bitcoin-up-or-down-december-");
    assert("bitcoin-above-on-"@ + "january"@ + "-"@ =~= "bitcoin-above-on-january-"@);
    assert("bitcoin-up-or-down-on-"@ + "january"@ + "-"@ =~= "bitcoin-up-or-down-on-january-"@);
    assert("bitcoin-up-or-down-"@ + "january"@ + "-"@ =~= "bitcoin-up-or-down-january-"@);
    assert("bitcoin-above-on-"@ + "february"@ + "-"@ =~= "bitcoin-above-on-february-"@);
    assert("bitcoin-up-or-down-on-"@ + "february"@ + "-"@ =~= "bitcoin-up-or-down-on-february-"@);
    assert("bitcoin-up-or-down-"@ + "february"@ + "-"@ =~= "bitcoin-up-or-down-february-"@);
    assert("bitcoin-above-on-"@ + "march"@ + "-"@ =~= "bitcoin-above-on-march-"@);
    assert("bitcoin-up-or-down-on-"@ + "march"@ + "-"@ =~= "bitcoin-up-or-down-on-march-"@);
    assert("bitcoin-up-or-down-"@ + "march"@ + "-"@ =~= "bitcoin-up-or-down-march-"@);
    assert("bitcoin-above-on-"@ + "april"@ + "-"@ =~= "bitcoin-above-on-april-"@);
    assert("bitcoin-up-or-down-on-"@ + "april"@ + "-"@ =~= "bitcoin-up-or-down-on-april-"@);
    assert("bitcoin-up-or-down-"@ + "april"@ + "-"@ =~= "bitcoin-up-or-down-april-"@);
    assert("bitcoin-above-on-"@ + "may"@ + "-"@ =~= "bitcoin-above-on-may-"@);
    assert("bitcoin-up-or-down-on-"@ + "may"@ + "-"@ =~= "bitcoin-up-or-down-on-may-"@);
    assert("bitcoin-up-or-down-"@ + "may"@ + "-"@ =~= "bitcoin-up-or-down-may-"@);
    assert("bitcoin-above-on-"@ + "june"@ + "-"@ =~= "bitcoin-above-on-june-"@);
    assert("bitcoin-up-or-down-on-"@ + "june"@ + "-"@ =~= "bitcoin-up-or-down-on-june-"@);
    assert("bitcoin-up-or-down-"@ + "june"@ + "-"@ =~= "bitcoin-up-or-down-june-"@);
    assert("bitcoin-above-on-"@ + "july"@ + "-"@ =~= "bitcoin-above-on-july-"@);
    assert("bitcoin-up-or-down-on-"@ + "july"@ + "-"@ =~= "bitcoin-up-or-down-on-july-"@);
    assert("bitcoin-up-or-down-"@ + "july"@ + "-"@ =~= "bitcoin-up-or-down-july-"@);
    assert("bitcoin-above-on-"@ + "august"@ + "-"@ =~= "bitcoin-above-on-august-"@);
    assert("bitcoin-up-or-down-on-"@ + "august"@ + "-"@ =~= "bitcoin-up-or-down-on-august-"@);
    assert("bitcoin-up-or-down-"@ + "august"@ + "-"@ =~= "bitcoin-up-or-down-august-"@);
    assert("bitcoin-above-on-"@ + "september"@ + "-"@ =~= "bitcoin-above-on-september-"@);
    assert("bitcoin-up-or-down-on-"@ + "september"@ + "-"@ =~= "bitcoin-up-or-down-on-september-"@);
    assert("bitcoin-up-or-down-"@ + "september"@ + "-"@ =~= "bitcoin-up-or-down-september-"@);
    assert("bitcoin-above-on-"@ + "october"@ + "-"@ =~= "bitcoin-above-on-october-"@);
    assert("bitcoin-up-or-down-on-"@ + "october"@ + "-"@ =~= "bitcoin-up-or-down-on-october-"@);
    assert("bitcoin-up-or-down-"@ + "october"@ + "-"@ =~= "bitcoin-up-or-down-october-"@);
    assert("bitcoin-above-on-"@ + "november"@ + "-"@ =~= "bitcoin-above-on-november-"@);
    assert("bitcoin-up-or-down-on-"@ + "november"@ + "-"@ =~= "bitcoin-up-or-down-on-november-"@);
    assert("bitcoin-up-or-down-"@ + "november"@ + "-"@ =~= "bitcoin-up-or-down-november-"@);
    assert("bitcoin-above-on-"@ + "december"@ + "-"@ =~= "bitcoin-above-on-december-"@);
    assert("bitcoin-up-or-down-on-"@ + "december"@ + "-"@ =~= "bitcoin-up-or-down-on-december-"@);
    assert("bitcoin-up-or-down-"@ + "december"@ + "-"@ =~= "bitcoin-up-or-down-december-"@);
}

/// The hours after midnight and after noon run alike: twelve, one, two and so on, with "am" and
/// "pm" behind them.
pub proof fn hours_run_alike_after_midnight_and_noon(h: int)
    requires
        0 <= h < 12,
    ensures
        hour_text(h) == numeral(
            if h == 0 {
                12
            } else {
                h as nat
            },
        ) + "am"@,
        hour_text(h + 12) == numeral(
            if h == 0 {
                12
            } else {
                h as nat
            },
        ) + "pm"@,
{
    reveal_strlit("am");
    reveal_strlit("pm");
    reveal_strlit("12am");
    reveal_strlit("12pm");
    crate::text::numerals_are_decimal(12);
    crate::text::numerals_are_decimal(1);
    crate::text::numerals_are_decimal(2);
    assert(numeral(12) =~= seq!['1', '2']);
    assert(numeral(12) + "am"@ =~= "12am"@);
    assert(numeral(12) + "pm"@ =~= "12pm"@);
}

/// Daylight time runs from the eighth of March to the sixth of November, every day between.
pub proof fn daylight_time_is_one_season(month: int, day: int)
    requires
        1 <= month <= 12,
        1 <= day <= 31,
    ensures
        daylight_time(month, day) <==> 308 <= month * 100 + day <= 1106,
{
}

/// Dividing a time into days and hours loses nothing but the rest of the hour.
pub proof fn times_split_into_days_and_hours(ts: int)
    ensures
        0 <= hour_of(ts) < 24,
        0 <= ts - day_of(ts) * 86400 - hour_of(ts) * 3600 < 3600,
{
}

proof fn lemma_slug_plan_parts(now: int, i: int)
    ensures
        slug_plan(now).len() == 30,
        0 <= i < 5 ==> slug_plan(now)[i] == above_plan(now)[i],
        0 <= i < 5 ==> slug_plan(now)[5 + i] == intraday_plan("btc-updown-5m"@, 300, now)[i],
        0 <= i < 5 ==> slug_plan(now)[10 + i] == intraday_plan("btc-updown-15m"@, 900, now)[i],
        0 <= i < 5 ==> slug_plan(now)[15 + i] == intraday_plan("btc-updown-4h"@, 14400, now)[i],
        0 <= i < 3 ==> slug_plan(now)[20 + i] == daily_plan(now)[i],
        0 <= i < 7 ==> slug_plan(now)[23 + i] == hourly_plan(now)[i],
{
}

/// The events of a date are looked for from two days before it to two days after, and its up/down
/// event from the day before to the day after: whatever the hour, the date's own slugs are planned.
pub proof fn days_around_are_looked_for(now: int, year: int, month: int, day: int)
    requires
        valid_date(year, month, day),
    ensures
        -2 <= day_number(year, month, day) - now / 86400 <= 2 ==> planned(
            slug_plan(now),
            above_slug(month, day),
        ),
        -1 <= day_number(year, month, day) - now / 86400 <= 1 ==> planned(
            slug_plan(now),
            daily_slug(month, day, year),
        ),
{
    let k = day_number(year, month, day) - now / 86400;
    lemma_date_of(year, month, day);
    if -2 <= k <= 2 {
        assert(day_of(now + k * DAY_SECS) == now / 86400 + k);
        assert(above_plan(now)[k + 2].0 == above_slug(month, day));
        lemma_slug_plan_parts(now, k + 2);
        assert(slug_plan(now)[k + 2].0 == above_slug(month, day));
    }
    if -1 <= k <= 1 {
        assert(day_of(now + k * DAY_SECS) == now / 86400 + k);
        assert(daily_plan(now)[k + 1].0 == daily_slug(month, day, year));
        lemma_slug_plan_parts(now, k + 1);
        assert(slug_plan(now)[20 + (k + 1)].0 == daily_slug(month, day, year));
    }
}

proof fn lemma_interval_begins(now: int, interval: int, start: int, k: int)
    requires
        now >= 0,
        interval > 0,
        start % interval == 0,
        start <= now < start + interval,
    ensures
        (trunc_div(now, interval) + k) * interval == start + k * interval,
{
    let q = start / interval;
    vstd::arithmetic::div_mod::lemma_fundamental_div_mod(start, interval);
    assert(start == q * interval) by (nonlinear_arith)
        requires
            start == interval * q + 0,
    ;
    vstd::arithmetic::div_mod::lemma_fundamental_div_mod_converse(now, interval, q, now - start);
    assert((q + k) * interval == q * interval + k * interval) by (nonlinear_arith);
}

/// Of the intervals of five and fifteen minutes and of four hours, the one that a time lies in, the
/// two before it and the two after it are looked for, each by the second in which it begins.
pub proof fn intervals_around_are_looked_for(now: int, start: int, k: int)
    requires
        now >= 0,
        -2 <= k <= 2,
    ensures
        start % 300 == 0 && start <= now < start + 300 ==> planned(
            slug_plan(now),
            "btc-updown-5m-"@ + int_numeral(start + k * 300),
        ),
        start % 900 == 0 && start <= now < start + 900 ==> planned(
            slug_plan(now),
            "btc-updown-15m-"@ + int_numeral(start + k * 900),
        ),
        start % 14400 == 0 && start <= now < start + 14400 ==> planned(
            slug_plan(now),
            "btc-updown-4h-"@ + int_numeral(start + k * 14400),
        ),
{
    reveal_strlit("-");
    reveal_strlit("btc-updown-5m");
    reveal_strlit("btc-updown-15m");
    reveal_strlit("btc-updown-4h");
    reveal_strlit("btc-updown-5m-");
    reveal_strlit("btc-updown-15m-");
    reveal_strlit("btc-updown-4h-");
    assert("btc-updown-5m"@ + "-"@ =~= "btc-updown-5m-"@);
    assert("btc-updown-15m"@ + "-"@ =~= "btc-updown-15m-"@);
    assert("btc-updown-4h"@ + "-"@ =~= "btc-updown-4h-"@);
    lemma_slug_plan_parts(now, k + 2);
    if start % 300 == 0 && start <= now < start + 300 {
        lemma_interval_begins(now, 300, start, k);
        assert(slug_plan(now)[5 + (k + 2)].0 == "btc-updown-5m-"@ + int_numeral(start + k * 300));
    }
    if start % 900 == 0 && start <= now < start + 900 {
        lemma_interval_begins(now, 900, start, k);
        assert(slug_plan(now)[10 + (k + 2)].0 == "btc-updown-15m-"@ + int_numeral(start + k * 900));
    }
    if start % 14400 == 0 && start <= now < start + 14400 {
        lemma_interval_begins(now, 14400, start, k);
        assert(slug_plan(now)[15 + (k + 2)].0 == "btc-updown-4h-"@ + int_numeral(
            start + k * 14400,
        ));
    }
}

/// The hours around that of New York are looked for, three before it and three after it, on the
/// date there: four hours behind UTC in daylight time and five otherwise. In a leap year the first
/// hours of the first of March are left out: there the slugs name the 28th of February.
pub proof fn hours_of_new_york_are_looked_for(
    now: int,
    year: int,
    month: int,
    day: int,
    local_year: int,
    local_month: int,
    local_day: int,
    k: int,
)
    requires
        valid_date(year, month, day),
        day_number(year, month, day) == now / 86400,
        !leap(year) || month != 3 || day != 1,
        -3 <= k <= 3,
        ({
            let behind = if daylight_time(month, day) {
                4int
            } else {
                5
            };
            &&& valid_date(local_year, local_month, local_day)
            &&& day_number(local_year, local_month, local_day) == (now - behind * 3600) / 86400
        }),
    ensures
        ({
            let behind = if daylight_time(month, day) {
                4int
            } else {
                5
            };
            let hour = (now - behind * 3600) % 86400 / 3600;
            planned(
                slug_plan(now),
                hourly_slug(local_month, local_day, hour_text((hour + k) % 24)),
            )
        }),
{
    let behind = if daylight_time(month, day) {
        4int
    } else {
        5
    };
    let raw = hour_of(now) - behind;
    lemma_date_of(year, month, day);
    assert(et_hour_raw(now) == raw);
    let local = now - behind * 3600;
    times_split_into_days_and_hours(now);
    let hour = local % 86400 / 3600;
    if raw < 0 {
        assert(local / 86400 == now / 86400 - 1);
        assert(hour == raw + 24);
        lemma_day_before(year, month, day);
        let (m, d) = day_before(month, day);
        let y = if month == 1 && day == 1 {
            year - 1
        } else {
            year
        };
        crate::calendar::dates_are_distinct(y, m, d, local_year, local_month, local_day);
    } else {
        assert(local / 86400 == now / 86400);
        assert(hour == raw);
        crate::calendar::dates_are_distinct(
            year,
            month,
            day,
            local_year,
            local_month,
            local_day,
        );
    }
    assert(et_date(now) == (local_month, local_day));
    assert(raw % 24 == hour);
    lemma_slug_plan_parts(now, k + 3);
    assert(hourly_plan(now)[k + 3].0 == hourly_slug(
        local_month,
        local_day,
        hour_text((hour + k) % 24),
    ));
    assert(slug_plan(now)[23 + (k + 3)].0 == hourly_slug(
        local_month,
        local_day,
        hour_text((hour + k) % 24),
    ));
}

proof fn lemma_day_before(year: int, month: int, day: int)
    requires
        valid_date(year, month, day),
        !leap(year) || month != 3 || day != 1,
    ensures
        ({
            let (m, d) = day_before(month, day);
            let y = if month == 1 && day == 1 {
                year - 1
            } else {
                year
            };
            valid_date(y, m, d) && day_number(y, m, d) == day_number(year, month, day) - 1
        }),
{
    reveal_with_fuel(crate::calendar::days_before_month, 13);
    crate::calendar::year_length(year - 1);
    if day > 1 {
    } else if month > 1 {
        assert(month_len(1, month - 1) == month_len(year, month - 1));
    }
}

/// Thirty slugs are planned at a time, and the markets of the intraday ones, and of no others, take
/// the spot price as their strike where they name none.
pub proof fn intraday_markets_take_the_spot(now: int, i: int)
    requires
        0 <= i < slug_plan(now).len(),
    ensures
        slug_plan(now).len() == 5 + 3 * 5 + 3 + 7,
        slug_plan(now)[i].1 <==> slug_plan(now)[i].0.len() >= 11 && slug_plan(now)[i].0.take(11)
            == "btc-updown-"@,
{
    reveal_strlit("btc-updown-");
    reveal_strlit("btc-updown-5m");
    reveal_strlit("btc-updown-15m");
    reveal_strlit("btc-updown-4h");
    reveal_strlit("bitcoin-above-on-");
    reveal_strlit("bitcoin-up-or-down-on-");
    reveal_strlit("bitcoin-up-or-down-");
    let k = if i < 5 {
        i
    } else if i < 10 {
        i - 5
    } else if i < 15 {
        i - 10
    } else if i < 20 {
        i - 15
    } else if i < 23 {
        i - 20
    } else {
        i - 23
    };
    lemma_slug_plan_parts(now, k);
    let slug = slug_plan(now)[i].0;
    if 5 <= i < 20 {
        assert(slug.take(11) =~= "btc-updown-"@);
    } else {
        assert(slug[1] == 'i');
        if slug.len() >= 11 {
            assert(slug.take(11)[1] == slug[1]);
        }
        assert("btc-updown-"@[1] == 't');
    }
}

/// A price shows an outcome where it is decisive: above nine tenths YES, below one tenth NO. It
/// shows none between, and no price shows none.
pub proof fn decisive_prices_show_the_outcome(p: Real)
    requires
        p.finite(),
    ensures
        ({
            let shown = shown_by_price(Some(p));
            let high = (Real { bits: 0x3FEC_CCCC_CCCC_CCCD }).value();
            let low = (Real { bits: 0x3FB9_9999_9999_999A }).value();
            &&& shown == Some("Yes"@) <==> p.value() > high
            &&& shown == Some("No"@) <==> p.value() < low
            &&& shown is None <==> low <= p.value() <= high
        }),
        shown_by_price(None) is None,
{
    reveal_strlit("Yes");
    reveal_strlit("No");
    assert("Yes"@.len() == 3 && "No"@.len() == 2);
    order_is_numeric(Real { bits: NINE_TENTHS }, p);
    order_is_numeric(p, Real { bits: ONE_TENTH });
    order_is_numeric(Real { bits: ONE_TENTH }, Real { bits: NINE_TENTHS });
}

/// The first price is that of YES and decides alone, as a number or as its text; the prices come as
/// a list or as the text of one.
pub proof fn the_first_price_decides(
    m: JsonView,
    first: JsonView,
    rest: Seq<JsonView>,
    p: Real,
    s: Seq<char>,
)
    requires
        p.finite(),
    ensures
        priced_outcome(seq![JsonView::Number(Some(p), s)] + rest) == shown_by_price(Some(p)),
        priced_outcome(seq![JsonView::Str(s)] + rest) == shown_by_price(decimal(s)),
        priced_outcome(Seq::empty()) is None,
        m.field("outcomePrices"@) == Some(JsonView::Array(rest))
            ==> outcome_prices(m) == Some(rest),
        m.field("outcomePrices"@) == Some(JsonView::Str(s)) && parsed(s) == Some(
            JsonView::Array(rest),
        ) ==> outcome_prices(m) == Some(rest),
        !(m.field("outcomePrices"@) matches Some(JsonView::Array(_))) && !(m.field("outcomePrices"@)
            matches Some(JsonView::Str(_))) ==> outcome_prices(m) is None,
        m.field("outcomePrices"@) == Some(JsonView::Str(s)) && !(parsed(s) matches Some(
            JsonView::Array(_),
        )) ==> outcome_prices(m) is None,
        priced_outcome(seq![first] + rest) == shown_by_price(first.finite_number()),
{
}

/// A winner is one of the texts listed, in capitals or not, and a market without a declaration goes
/// by its prices.
pub proof fn winners_are_those_listed(
    m: JsonView,
    winners: Seq<JsonView>,
    prices: Seq<JsonView>,
)
    ensures
        has_winner(winners, "Yes"@, "yes"@) <==> winners.contains(JsonView::Str("Yes"@))
            || winners.contains(JsonView::Str("yes"@)),
        has_winner(winners, "No"@, "no"@) <==> winners.contains(JsonView::Str("No"@))
            || winners.contains(JsonView::Str("no"@)),
        !(m.field("resolved"@) matches Some(JsonView::Bool(_))) || (m.field("resolved"@) == Some(
            JsonView::Bool(true),
        ) && !(m.field("winners"@) matches Some(JsonView::Array(_)))) ==> {
            &&& outcome_prices(m) == Some(prices) ==> api_outcome(m) == priced_outcome(prices)
            &&& outcome_prices(m) is None ==> api_outcome(m) is None
        },
        m.field("resolved"@) == Some(JsonView::Bool(true)) && m.field("winners"@) == Some(
            JsonView::Array(winners),
        ) && (forall|i: int|
            0 <= i < winners.len() ==> (#[trigger] winners[i]) != JsonView::Str("Yes"@)
                && winners[i] != JsonView::Str("yes"@) && winners[i] != JsonView::Str("No"@)
                && winners[i] != JsonView::Str("no"@)) && outcome_prices(m) == Some(prices)
            ==> api_outcome(m) == priced_outcome(prices),
        m.field("resolved"@) == Some(JsonView::Bool(true)) && m.field("winners"@) == Some(
            JsonView::Array(winners),
        ) && winners.contains(JsonView::Str("Yes"@)) ==> api_outcome(m) == Some("Yes"@),
        m.field("resolved"@) == Some(JsonView::Bool(true)) && m.field("winners"@) == Some(
            JsonView::Array(seq![JsonView::Str("No"@)]),
        ) ==> api_outcome(m) == Some("No"@),
{
    reveal_strlit("Yes");
    reveal_strlit("yes");
    reveal_strlit("No");
    reveal_strlit("no");
    assert("Yes"@.len() == 3 && "yes"@.len() == 3 && "No"@.len() == 2 && "no"@.len() == 2);
    if winners.contains(JsonView::Str("Yes"@)) {
        let i = winners.index_of(JsonView::Str("Yes"@));
        assert(winners[i] == JsonView::Str("Yes"@));
    }
    if winners.contains(JsonView::Str("yes"@)) {
        let i = winners.index_of(JsonView::Str("yes"@));
        assert(winners[i] == JsonView::Str("yes"@));
    }
    if winners.contains(JsonView::Str("No"@)) {
        let i = winners.index_of(JsonView::Str("No"@));
        assert(winners[i] == JsonView::Str("No"@));
    }
    if winners.contains(JsonView::Str("no"@)) {
        let i = winners.index_of(JsonView::Str("no"@));
        assert(winners[i] == JsonView::Str("no"@));
    }
    let one = seq![JsonView::Str("No"@)];
    assert(one[0] == JsonView::Str("No"@));
    assert(has_winner(one, "No"@, "no"@));
    assert(!has_winner(one, "Yes"@, "yes"@));
}

/// The source that a market names decides its oracle before its slug does: Chainlink in the source,
/// else Binance in the source or in the question.
pub proof fn named_sources_decide_the_oracle(
    a: Seq<char>,
    b: Seq<char>,
    source: Seq<char>,
    q: Seq<char>,
    s: Seq<char>,
)
    ensures
        oracle_name(a + "chainlink"@ + b, q, s) == "chainlink_streams"@,
        oracle_name(a + "chain.link"@ + b, q, s) == "chainlink_streams"@,
        !occurs(source, "chainlink"@) && !occurs(source, "chain.link"@) && (occurs(
            source,
            "binance"@,
        ) || occurs(q, "binance"@)) ==> oracle_name(source, q, s) == "binance_1m_candle"@,
        oracle_name(source, q, s) != "unknown"@ ==> crate::normalizer::oracle_of(
            oracle_name(source, q, s),
        ) is Some,
{
    crate::text::parts_are_found(a, "chainlink"@, b, s);
    crate::text::parts_are_found(a, "chain.link"@, b, s);
    crate::normalizer::oracles_go_by_their_names(oracle_name(source, q, s));
}

/// Where neither source nor question names an oracle, the slugs that are generated do: the up/down
/// events resolve on Chainlink, the above/below events on the Binance candle, and what has no such
/// slug on none that is known.
pub proof fn generated_slugs_tell_their_oracle(
    source: Seq<char>,
    q: Seq<char>,
    month: int,
    day: int,
    year: int,
    hour: int,
    start: int,
)
    requires
        !occurs(source, "chainlink"@) && !occurs(source, "chain.link"@),
        !occurs(source, "binance"@) && !occurs(q, "binance"@),
        1 <= month <= 12,
        0 <= day,
        0 <= hour < 24,
    ensures
        oracle_name(source, q, above_slug(month, day)) == "binance_1m_candle"@,
        oracle_name(source, q, daily_slug(month, day, year)) == "chainlink_streams"@,
        oracle_name(source, q, hourly_slug(month, day, hour_text(hour))) == "chainlink_streams"@,
        oracle_name(source, q, "btc-updown-5m-"@ + int_numeral(start)) == "chainlink_streams"@,
        oracle_name(source, q, "btc-updown-15m-"@ + int_numeral(start)) == "chainlink_streams"@,
        oracle_name(source, q, "btc-updown-4h-"@ + int_numeral(start)) == "chainlink_streams"@,
        oracle_name(source, q, ""@) == "unknown"@,
{
    reveal_strlit("");
    reveal_strlit("btc-updown-5m");
    reveal_strlit("btc-updown-15m");
    reveal_strlit("btc-updown-4h");
    reveal_strlit("btc-updown-5m-");
    reveal_strlit("btc-updown-15m-");
    reveal_strlit("btc-updown-4h-");
    reveal_strlit("bitcoin-above-on-");
    reveal_strlit("above-on");
    reveal_strlit("up-or-down");
    lemma_above_slug(month, day);
    lemma_daily_slug(month, day, year);
    lemma_hourly_slug(month, day, hour);
    lemma_no_w(above_slug(month, day), month, day);
    let s = above_slug(month, day);
    assert(s.subrange(8, 16) =~= "above-on"@);
    assert(stands_at(s, "above-on"@, 8));
    let five = "btc-updown-5m-"@ + int_numeral(start);
    assert(five.subrange(0, 13) =~= "btc-updown-5m"@);
    assert(stands_at(five, "btc-updown-5m"@, 0));
    let fifteen = "btc-updown-15m-"@ + int_numeral(start);
    assert(fifteen.subrange(0, 14) =~= "btc-updown-15m"@);
    assert(stands_at(fifteen, "btc-updown-15m"@, 0));
    let four = "btc-updown-4h-"@ + int_numeral(start);
    assert(four.subrange(0, 13) =~= "btc-updown-4h"@);
    assert(stands_at(four, "btc-updown-4h"@, 0));
}

/// No slug of a level has the letter that every slug of a direction has.
proof fn lemma_no_w(s: Seq<char>, month: int, day: int)
    requires
        0 <= day,
        s == above_slug(month, day),
    ensures
        !occurs(s, "btc-updown-5m"@),
        !occurs(s, "btc-updown-15m"@),
        !occurs(s, "btc-updown-4h"@),
{
    reveal_strlit("bitcoin-above-on-");
    reveal_strlit("-");
    reveal_strlit("btc-updown-5m");
    reveal_strlit("btc-updown-15m");
    reveal_strlit("btc-updown-4h");
    lemma_month_letters(month);
    lemma_numeral(day as nat);
    assert forall|i: int| 0 <= i < s.len() implies #[trigger] s[i] != 'w' by {}
    assert forall|i: int|
        !(#[trigger] stands_at(s, "btc-updown-5m"@, i)) && !stands_at(s, "btc-updown-15m"@, i)
            && !stands_at(s, "btc-updown-4h"@, i) by {
        if stands_at(s, "btc-updown-5m"@, i) {
            assert(s.subrange(i, i + 13)[8] == s[i + 8]);
        }
        if stands_at(s, "btc-updown-15m"@, i) {
            assert(s.subrange(i, i + 14)[8] == s[i + 8]);
        }
        if stands_at(s, "btc-updown-4h"@, i) {
            assert(s.subrange(i, i + 13)[8] == s[i + 8]);
        }
    }
    assert forall|i: int| !#[trigger] stands_at(s, "btc-updown-15m"@, i) by {
        assert(!stands_at(s, "btc-updown-5m"@, i));
    }
    assert forall|i: int| !#[trigger] stands_at(s, "btc-updown-4h"@, i) by {
        assert(!stands_at(s, "btc-updown-5m"@, i));
    }
}

/// The slugs of intervals tell their type by the interval, whatever their question.
pub proof fn interval_slugs_tell_their_type(start: int, q: Seq<char>)
    ensures
        market_type_name("btc-updown-5m-"@ + int_numeral(start), q) == "up_down_5m"@,
        market_type_name("btc-updown-15m-"@ + int_numeral(start), q) == "up_down_15m"@,
        market_type_name("btc-updown-4h-"@ + int_numeral(start), q) == "up_down_4h"@,
{
    reveal_strlit("btc-updown-5m-");
    reveal_strlit("btc-updown-15m-");
    reveal_strlit("btc-updown-4h-");
    reveal_strlit("15m");
    reveal_strlit("15-min");
    reveal_strlit("5m");
    reveal_strlit("5-min");
    reveal_strlit("4h");
    lemma_numeral(
        if start < 0 {
            (-start) as nat
        } else {
            start as nat
        },
    );
    let number = int_numeral(start);
    assert forall|i: int| 0 <= i < number.len() implies is_digit(#[trigger] number[i]) || number[i]
        == '-' by {}
    let five = "btc-updown-5m-"@ + number;
    let fifteen = "btc-updown-15m-"@ + number;
    let four = "btc-updown-4h-"@ + number;
    assert(five.subrange(11, 13) =~= "5m"@);
    assert(stands_at(five, "5m"@, 11));
    assert(fifteen.subrange(11, 14) =~= "15m"@);
    assert(stands_at(fifteen, "15m"@, 11));
    assert(four.subrange(11, 13) =~= "4h"@);
    assert(stands_at(four, "4h"@, 11));
    assert forall|i: int| 14 <= i < five.len() implies #[trigger] five[i] != 'm' by {
        assert(five[i] == number[i - 14]);
    }
    assert forall|i: int| 14 <= i < four.len() implies #[trigger] four[i] != 'm' by {
        assert(four[i] == number[i - 14]);
    }
    assert forall|i: int| !#[trigger] stands_at(five, "15m"@, i) by {
        if stands_at(five, "15m"@, i) {
            let found = five.subrange(i, i + 3);
            assert(found[2] == five[i + 2] && found[0] == five[i]);
        }
    }
    assert forall|i: int| !#[trigger] stands_at(five, "15-min"@, i) by {
        if stands_at(five, "15-min"@, i) {
            let found = five.subrange(i, i + 6);
            assert(found[3] == five[i + 3] && found[0] == five[i]);
        }
    }
    assert forall|i: int| !#[trigger] stands_at(four, "15m"@, i) by {
        if stands_at(four, "15m"@, i) {
            assert(four.subrange(i, i + 3)[2] == four[i + 2]);
        }
    }
    assert forall|i: int| !#[trigger] stands_at(four, "15-min"@, i) by {
        if stands_at(four, "15-min"@, i) {
            assert(four.subrange(i, i + 6)[3] == four[i + 3]);
        }
    }
    assert forall|i: int| !#[trigger] stands_at(four, "5m"@, i) by {
        if stands_at(four, "5m"@, i) {
            assert(four.subrange(i, i + 2)[1] == four[i + 1]);
        }
    }
    assert forall|i: int| !#[trigger] stands_at(four, "5-min"@, i) by {
        if stands_at(four, "5-min"@, i) {
            assert(four.subrange(i, i + 5)[2] == four[i + 2]);
        }
    }
}

/// A market's ticker is made of its id, a text or a number, else of its condition id; and of its
/// slug and the first thirty characters of its question where it has neither.
pub proof fn tickers_are_made_of_the_id(
    m: JsonView,
    slug: Seq<char>,
    id: Seq<char>,
    x: Option<Real>,
    q: Seq<char>,
)
    requires
        id.len() > 0,
    ensures
        m.field("id"@) == Some(JsonView::Str(id)) ==> market_ticker(m, slug) == "poly-"@ + id,
        m.field("id"@) == Some(JsonView::Number(x, id)) ==> market_ticker(m, slug) == "poly-"@ + id,
        m.full_text_field("id"@) is None && !(m.field("id"@) matches Some(JsonView::Number(_, _)))
            ==> {
            &&& m.field("conditionId"@) == Some(JsonView::Str(id)) ==> market_ticker(m, slug)
                == "poly-"@ + id
            &&& m.full_text_field("conditionId"@) is None && m.field("question"@) == Some(
                JsonView::Str(q),
            ) ==> market_ticker(m, slug) == "poly-"@ + slug + "-"@ + first_chars(q, 30)
        },
        gamma_id("poly-"@ + id) == id,
        !(id.len() >= 5 && id.take(5) == "poly-"@) ==> gamma_id(id) == id,
{
    reveal_strlit("");
    reveal_strlit("poly-");
    assert(""@.len() == 0);
    let ticker = "poly-"@ + id;
    assert(ticker.subrange(0, 5) =~= "poly-"@);
    assert(ticker.skip(5) =~= id);
    if id.len() >= 5 {
        assert(id.subrange(0, 5) =~= id.take(5));
    }
}

/// The token of a market is the first of the ids listed as a text, else that of the first token.
pub proof fn the_first_token_is_that_of_yes(
    m: JsonView,
    listed: Seq<char>,
    id: Seq<char>,
    rest: Seq<JsonView>,
    token: JsonView,
)
    requires
        id.len() > 0,
    ensures
        m.field("clobTokenIds"@) == Some(JsonView::Str(listed)) && all_texts(rest) && parsed(listed)
            == Some(JsonView::Array(seq![JsonView::Str(id)] + rest)) ==> market_token(m) == Some(
            id,
        ),
        (m.field("clobTokenIds"@) matches Some(JsonView::Str(s)) ==> first_text(parsed(s)) is None)
            ==> {
            &&& m.field("tokens"@) == Some(JsonView::Array(seq![token] + rest)) ==> (market_token(m)
                == Some(id) <==> token.field("token_id"@) == Some(JsonView::Str(id)))
            &&& m.field("tokens"@) == Some(JsonView::Array(Seq::empty()))
                ==> market_token(m) is None
            &&& !(m.field("tokens"@) matches Some(JsonView::Array(_))) ==> market_token(m) is None
        },
        first_text(Some(JsonView::Array(rest))) == Some(id) <==> {
            &&& rest.len() > 0 && rest[0] == JsonView::Str(id)
            &&& forall|i: int| 0 <= i < rest.len() ==> (#[trigger] rest[i]) is Str
        },
        !(token is Array) ==> first_text(Some(token)) is None,
        first_text(None) is None,
{
    let items = seq![JsonView::Str(id)] + rest;
    if all_texts(rest) {
        assert forall|i: int| 0 <= i < items.len() implies (#[trigger] items[i]) is Str by {
            if i > 0 {
                assert(items[i] == rest[i - 1]);
            }
        }
        assert(items[0] == JsonView::Str(id));
    }
    assert((seq![token] + rest)[0] == token);
}

/// A market of an event is read from its own fields, under the slug of the event. Only a closed
/// market has an outcome, and only one that was resolved by somebody a time of resolution.
pub proof fn markets_are_read_from_their_fields(
    m: JsonView,
    slug: Seq<char>,
    q: Seq<char>,
    source: Seq<char>,
    time: Seq<char>,
    prices: Seq<JsonView>,
)
    ensures
        ({
            let row = poly_market(m, slug);
            &&& row.series == slug
            &&& row.ticker == market_ticker(m, slug)
            &&& row.token_id == market_token(m)
            &&& m.field("question"@) == Some(JsonView::Str(q)) ==> {
                &&& row.strike == dollar_amount(q)
                &&& row.market_type == market_type_name(lowercase(slug), lowercase(q))
                &&& row.rules == if q.len() > 0 {
                    Some(first_chars(q, 2000))
                } else {
                    None
                }
                &&& m.field("resolutionSource"@) == Some(JsonView::Str(source)) ==> row.oracle
                    == oracle_name(lowercase(source), lowercase(q), lowercase(slug))
                &&& m.text_field("resolutionSource"@) is None ==> row.oracle == oracle_name(
                    lowercase(""@),
                    lowercase(q),
                    lowercase(slug),
                )
            }
            &&& m.text_field("question"@) is None ==> row.rules is None && row.strike
                == dollar_amount(""@)
            &&& m.field("startDate"@) == Some(JsonView::Str(time)) && time.len() > 0
                ==> row.open_time == Some(time)
            &&& m.full_text_field("startDate"@) is None
                ==> (row.open_time == Some(time) <==> m.field(
                "start_date_iso"@,
            ) == Some(JsonView::Str(time)))
            &&& m.field("endDate"@) == Some(JsonView::Str(time)) && time.len() > 0
                ==> row.close_time == Some(time)
            &&& m.full_text_field("endDate"@) is None
                ==> (row.close_time == Some(time) <==> m.field(
                "end_date_iso"@,
            ) == Some(JsonView::Str(time)))
        }),
        ({
            let row = poly_market(m, slug);
            &&& m.field("closed"@) != Some(JsonView::Bool(true)) ==> row.outcome is None
            &&& m.field("closed"@) == Some(JsonView::Bool(true)) && outcome_prices(m)
                == Some(prices)
                ==> row.outcome == priced_outcome(prices)
            &&& outcome_prices(m) is None ==> row.outcome is None
            &&& m.full_text_field("resolvedBy"@) is None ==> row.resolution_time is None
            &&& m.field("resolvedBy"@) == Some(JsonView::Str(source)) && source.len() > 0 ==> {
                &&& m.field("resolutionDate"@) == Some(JsonView::Str(time)) && time.len() > 0
                    ==> row.resolution_time == Some(time)
                &&& m.full_text_field("resolutionDate"@) is None ==> row.resolution_time
                    == row.close_time
            }
        }),
{
    reveal_strlit("");
    assert(""@.len() == 0);
}

/// The spot price stands in for a strike that is not named, where it is positive, and for no strike
/// that is; nothing else of the market changes.
pub proof fn named_strikes_stay(row: PolyMarketView, spot: Real)
    ensures
        row.strike is Some ==> with_strike(row, Some(spot)) == row,
        row.strike is None ==> with_strike(row, Some(spot)) == if (Real { bits: 0 }).below(spot) {
            PolyMarketView { strike: Some(spot), ..row }
        } else {
            row
        },
        with_strike(row, None) == row,
{
}

/// A response is its object, or the first item of its list.
pub proof fn responses_may_be_wrapped(
    entries: Seq<(Seq<char>, JsonView)>,
    item: JsonView,
    rest: Seq<JsonView>,
)
    ensures
        response_object(JsonView::Object(entries)) == Some(JsonView::Object(entries)),
        response_object(JsonView::Array(seq![item] + rest)) == Some(item),
        response_object(JsonView::Array(Seq::empty())) is None,
        response_object(JsonView::Null) is None,
{
    assert((seq![item] + rest)[0] == item);
}

/// A market has settled exactly where it is flagged as closed or as resolved; its outcome is then
/// the one declared or shown, and its times and resolver are those that it names, the end of the
/// market where it names no time of resolution.
pub proof fn settled_markets_say_their_resolution(m: JsonView, s: Seq<char>)
    requires
        s.len() > 0,
    ensures
        resolution_view(m) is Some <==> m.field("closed"@) == Some(JsonView::Bool(true)) || m.field(
            "resolved"@,
        ) == Some(JsonView::Bool(true)),
        resolution_view(m) matches Some(r) ==> {
            &&& r.outcome == api_outcome(m)
            &&& r.oracle_value_at_close is None
            &&& m.field("endDate"@) == Some(JsonView::Str(s)) ==> r.close_time_str == Some(s)
            &&& m.text_field("endDate"@) is None ==> (r.close_time_str == Some(s) <==> m.field(
                "end_date_iso"@,
            ) == Some(JsonView::Str(s)))
            &&& m.field("resolutionDate"@) == Some(JsonView::Str(s)) ==> r.resolution_time_str
                == Some(s)
            &&& m.full_text_field("resolutionDate"@) is None
                ==> r.resolution_time_str == r.close_time_str
            &&& r.resolved_by == Some(s) <==> m.field("resolvedBy"@) == Some(JsonView::Str(s))
        },
{
}

/// The levels of a side are read item by item, in order, each from its price and its size; what has
/// no such texts is passed over.
pub proof fn levels_are_read_in_order(
    a: Seq<JsonView>,
    b: Seq<JsonView>,
    item: JsonView,
    price: Seq<char>,
    size: Seq<char>,
)
    ensures
        object_levels(a + b) == object_levels(a) + object_levels(b),
        object_levels(Seq::empty()) == Seq::<Level>::empty(),
        item.field("price"@) == Some(JsonView::Str(price)) && item.field("size"@) == Some(
            JsonView::Str(size),
        ) ==> object_level(item) == level_from(Some(price), Some(size)),
        item.text_field("price"@) is None || item.text_field("size"@) is None ==> object_level(item)
            is None,
        side_levels(JsonView::Array(a)) == object_levels(a),
    decreases b.len(),
{
    if b.len() == 0 {
        assert(a + b =~= a);
        assert(object_levels(a) + object_levels(b) =~= object_levels(a));
    } else {
        assert((a + b).drop_last() =~= a + b.drop_last());
        assert((a + b).last() == b.last());
        levels_are_read_in_order(a, b.drop_last(), item, price, size);
        if let Some(level) = object_level(b.last()) {
            assert((object_levels(a) + object_levels(b.drop_last())).push(level)
                =~= object_levels(a) + object_levels(b.drop_last()).push(level));
        }
    }
}

/// The best quote is that of the first level, and there is none without levels.
pub proof fn best_quote_is_the_first(level: Level, rest: Seq<Level>)
    ensures
        first_price(seq![level] + rest) == Some(level.price),
        first_price(Seq::empty()) is None,
{
}

/// Division rounds towards zero, on both sides of it alike.
pub proof fn division_rounds_towards_zero(x: int, d: int)
    requires
        d > 0,
    ensures
        trunc_div(-x, d) == -trunc_div(x, d),
        x >= 0 ==> trunc_div(x, d) * d <= x < trunc_div(x, d) * d + d,
{
    vstd::arithmetic::div_mod::lemma_fundamental_div_mod(x, d);
    vstd::arithmetic::div_mod::lemma_mod_bound(x, d);
    let q = x / d;
    assert(q * d == d * q) by (nonlinear_arith);
    if x == 0 {
        assert(0int / d == 0) by (nonlinear_arith)
            requires
                d > 0,
        ;
    }
}

} // verus!
