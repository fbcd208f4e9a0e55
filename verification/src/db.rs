//! Stored rows, and the timestamps in them.

use crate::calendar::{day_number, lemma_from_march, valid_date};
use crate::num::Real;
use crate::text;
use crate::venue::polymarket::trunc_div;
use vstd::arithmetic::power::{lemma_pow_positive, pow};
use vstd::prelude::*;
use vstd::slice::slice_subrange;
use vstd::string::StringSliceAdditionalSpecFns;

verus! {

/// The position of the first `c`, or the length where there is none.
pub open spec fn first_at(s: Seq<u8>, c: u8) -> int
    decreases s.len(),
{
    if s.len() == 0 || s[0] == c {
        0
    } else {
        1 + first_at(s.drop_first(), c)
    }
}

/// What stands before and after the first `c`.
pub open spec fn split_at_first(s: Seq<u8>, c: u8) -> Option<(Seq<u8>, Seq<u8>)> {
    let i = first_at(s, c);
    if i < s.len() {
        Some((s.take(i), s.skip(i + 1)))
    } else {
        None
    }
}

/// The piece numbered `k`, from 0, of what `c` separates.
pub open spec fn piece(s: Seq<u8>, c: u8, k: nat) -> Option<Seq<u8>>
    decreases k,
{
    if k == 0 {
        Some(s.take(first_at(s, c)))
    } else {
        match split_at_first(s, c) {
            Some((_, rest)) => piece(rest, c, (k - 1) as nat),
            None => None,
        }
    }
}

pub open spec fn is_digit(b: u8) -> bool {
    48 <= b <= 57
}

pub open spec fn all_digits(s: Seq<u8>) -> bool {
    forall|i: int| 0 <= i < s.len() ==> is_digit(#[trigger] s[i])
}

/// The number that decimal digits spell.
pub open spec fn digits_value(s: Seq<u8>) -> int
    decreases s.len(),
{
    if s.len() == 0 {
        0
    } else {
        digits_value(s.drop_last()) * 10 + (s.last() - 48)
    }
}

/// The integer that a text spells: an optional sign and digits, within the range of an `i64`.
pub open spec fn int_of(s: Seq<u8>) -> Option<int> {
    let signed = s.len() > 0 && (s[0] == 43 || s[0] == 45);
    let digits = if signed {
        s.drop_first()
    } else {
        s
    };
    let value = if signed && s[0] == 45 {
        -digits_value(digits)
    } else {
        digits_value(digits)
    };
    if digits.len() > 0 && all_digits(digits) && i64::MIN <= value <= i64::MAX {
        Some(value)
    } else {
        None
    }
}

/// How many digits a text begins with.
pub open spec fn digit_run(s: Seq<u8>) -> int
    decreases s.len(),
{
    if s.len() == 0 || !is_digit(s[0]) {
        0
    } else {
        1 + digit_run(s.drop_first())
    }
}

/// The fraction that follows a decimal point: its digits as a number, and the power of ten that
/// scales it. An exponent may follow the digits.
pub open spec fn fraction_of(s: Seq<u8>) -> Option<(int, int)> {
    let k = digit_run(s);
    let value = digits_value(s.take(k));
    if k == s.len() {
        Some((value, -k))
    } else if s[k] == 69 || s[k] == 101 {
        match int_of(s.skip(k + 1)) {
            Some(e) => Some((value, e - k)),
            None => None,
        }
    } else {
        None
    }
}

/// The date and time of a timestamp, and the seconds that its zone adds to reach UTC: `Z` and no
/// zone add none, `+HH:MM` and `-HH:MM` the opposite of what they say.
pub open spec fn zone_of(s: Seq<u8>) -> Option<(Seq<u8>, int)> {
    let n = s.len() as int;
    if n > 0 && s[n - 1] == 90 {
        Some((s.drop_last(), 0))
    } else if n >= 6 && (s[n - 6] == 43 || s[n - 6] == 45) {
        match (int_of(s.subrange(n - 5, n - 3)), int_of(s.subrange(n - 2, n))) {
            (Some(hh), Some(mm)) => {
                let total = hh * 3600 + mm * 60;
                Some(
                    (
                        s.take(n - 6),
                        if s[n - 6] == 43 {
                            -total
                        } else {
                            total
                        },
                    ),
                )
            },
            _ => None,
        }
    } else {
        Some((s, 0))
    }
}

/// The day of a date, counted from 1970. Dates of the calendar have their own day; other numbers
/// carry over.
pub open spec fn iso_days(year: int, month: int, day: int) -> int {
    let m = if month <= 2 {
        month + 9
    } else {
        month - 3
    };
    let y = if month <= 2 {
        year - 1
    } else {
        year
    };
    365 * y + trunc_div(y, 4) - trunc_div(y, 100) + trunc_div(y, 400) + trunc_div(m * 306 + 5, 10)
        + day - 1 - 719468
}

/// The seconds of a timestamp and its fraction: the number behind the point and the power of ten
/// that scales it.
pub open spec fn seconds_of(s: Seq<u8>) -> Option<(int, int, int)> {
    match split_at_first(s, 46) {
        Some((whole, frac)) => match (
            int_of(whole),
            fraction_of(
                frac.take(
                    if frac.len() < 6 {
                        frac.len() as int
                    } else {
                        6
                    },
                ),
            ),
        ) {
            (Some(sec), Some((value, scale))) => Some((sec, value, scale)),
            _ => None,
        },
        None => match int_of(s) {
            Some(sec) => Some((sec, 0, 0)),
            None => None,
        },
    }
}

/// The day of a `YYYY-MM-DD` date.
pub open spec fn date_days(s: Seq<u8>) -> Option<int> {
    match (piece(s, 45, 0), piece(s, 45, 1), piece(s, 45, 2)) {
        (Some(year), Some(month), Some(day)) => match (int_of(year), int_of(month), int_of(day)) {
            (Some(year), Some(month), Some(day)) => Some(iso_days(year, month, day)),
            _ => None,
        },
        _ => None,
    }
}

/// The seconds of an `HH:MM:SS` time of day, and its fraction.
pub open spec fn time_seconds(s: Seq<u8>) -> Option<(int, int, int)> {
    match (piece(s, 58, 0), piece(s, 58, 1), piece(s, 58, 2)) {
        (Some(hour), Some(minute), Some(second)) => match (
            int_of(hour),
            int_of(minute),
            seconds_of(second),
        ) {
            (Some(hour), Some(minute), Some((second, value, scale))) => Some(
                (hour * 3600 + minute * 60 + second, value, scale),
            ),
            _ => None,
        },
        _ => None,
    }
}

/// A time: whole seconds since the Unix epoch, and a fraction of `frac` times ten to the `scale`.
#[derive(Clone, Copy, Debug, PartialEq, Eq, Structural)]
pub struct IsoTime {
    pub secs: i64,
    pub frac: u32,
    pub scale: i32,
}

/// The time that a timestamp says; `None` where it is malformed or out of range.
pub open spec fn iso_time(s: Seq<u8>) -> Option<IsoTime> {
    match zone_of(s) {
        Some((clock, offset)) => match split_at_first(clock, 84) {
            Some((date, time)) => match (date_days(date), time_seconds(time)) {
                (Some(days), Some((secs, value, scale))) => {
                    let unix = days * 86400 + secs + offset;
                    if i64::MIN <= unix <= i64::MAX {
                        Some(
                            IsoTime {
                                secs: unix as i64,
                                frac: value as u32,
                                scale: scale as i32,
                            },
                        )
                    } else {
                        None
                    }
                },
                _ => None,
            },
            None => None,
        },
        None => None,
    }
}

proof fn lemma_first_at(s: Seq<u8>, c: u8, i: int)
    requires
        0 <= i <= s.len(),
        forall|k: int| 0 <= k < i ==> s[k] != c,
        i < s.len() ==> s[i] == c,
    ensures
        first_at(s, c) == i,
    decreases i,
{
    if i > 0 {
        let t = s.drop_first();
        assert forall|k: int| 0 <= k < i - 1 implies t[k] != c by {
            assert(t[k] == s[k + 1]);
        }
        lemma_first_at(t, c, i - 1);
    }
}

fn find(s: &[u8], c: u8) -> (r: usize)
    ensures
        r == first_at(s@, c),
        r <= s@.len(),
{
    let mut i: usize = 0;
    while i < s.len()
        invariant
            i <= s@.len(),
            forall|k: int| 0 <= k < i ==> s@[k] != c,
        decreases s@.len() - i,
    {
        if s[i] == c {
            proof {
                lemma_first_at(s@, c, i as int);
            }
            return i;
        }
        i += 1;
    }
    proof {
        lemma_first_at(s@, c, i as int);
    }
    i
}

fn split_once<'a>(s: &'a [u8], c: u8) -> (r: Option<(&'a [u8], &'a [u8])>)
    ensures
        match r {
            Some((a, b)) => split_at_first(s@, c) == Some((a@, b@)),
            None => split_at_first(s@, c) is None,
        },
{
    let i: usize = find(s, c);
    if i < s.len() {
        let a: &[u8] = slice_subrange(s, 0, i);
        let b: &[u8] = slice_subrange(s, i + 1, s.len());
        assert(a@ =~= s@.take(i as int));
        assert(b@ =~= s@.skip(i + 1));
        Some((a, b))
    } else {
        None
    }
}

fn three_pieces<'a>(s: &'a [u8], c: u8) -> (r: Option<(&'a [u8], &'a [u8], &'a [u8])>)
    ensures
        match r {
            Some((a, b, d)) => {
                &&& piece(s@, c, 0) == Some(a@)
                &&& piece(s@, c, 1) == Some(b@)
                &&& piece(s@, c, 2) == Some(d@)
            },
            None => piece(s@, c, 1) is None || piece(s@, c, 2) is None,
        },
{
    proof {
        reveal_with_fuel(piece, 4);
    }
    match split_once(s, c) {
        Some((a, rest)) => match split_once(rest, c) {
            Some((b, tail)) => {
                let end: usize = find(tail, c);
                let d: &[u8] = slice_subrange(tail, 0, end);
                assert(d@ =~= tail@.take(end as int));
                Some((a, b, d))
            },
            None => None,
        },
        None => None,
    }
}

proof fn lemma_digits_grow(s: Seq<u8>, n: int)
    requires
        all_digits(s),
        0 <= n <= s.len(),
    ensures
        0 <= digits_value(s.take(n)) <= digits_value(s),
    decreases s.len() - n, s.len(),
{
    if n == s.len() {
        assert(s.take(n) =~= s);
        if n > 0 {
            assert(all_digits(s.drop_last()));
            lemma_digits_grow(s.drop_last(), n - 1);
        }
    } else {
        lemma_digits_grow(s, n + 1);
        assert(s.take(n + 1).drop_last() =~= s.take(n));
        assert(all_digits(s.take(n)));
        lemma_digits_nonnegative(s.take(n));
    }
}

proof fn lemma_digits_nonnegative(s: Seq<u8>)
    requires
        all_digits(s),
    ensures
        digits_value(s) >= 0,
    decreases s.len(),
{
    if s.len() > 0 {
        assert(all_digits(s.drop_last()));
        lemma_digits_nonnegative(s.drop_last());
    }
}

fn parse_digits(s: &[u8]) -> (r: Option<i128>)
    ensures
        match r {
            Some(v) => all_digits(s@) && v == digits_value(s@) && 0 <= v <= 9223372036854775808,
            None => !all_digits(s@) || digits_value(s@) > 9223372036854775808,
        },
{
    let mut v: i128 = 0;
    let mut i: usize = 0;
    assert(s@.take(0) =~= Seq::<u8>::empty());
    while i < s.len()
        invariant
            i <= s@.len(),
            forall|k: int| 0 <= k < i ==> is_digit(#[trigger] s@[k]),
            v == digits_value(s@.take(i as int)),
            0 <= v <= 9223372036854775808,
        decreases s@.len() - i,
    {
        let b: u8 = s[i];
        if b < 48 || b > 57 {
            return None;
        }
        assert(s@.take(i + 1).drop_last() =~= s@.take(i as int));
        v = v * 10 + (b - 48) as i128;
        if v > 9223372036854775808 {
            proof {
                if all_digits(s@) {
                    lemma_digits_grow(s@, i + 1);
                }
            }
            return None;
        }
        i += 1;
    }
    assert(s@.take(i as int) =~= s@);
    Some(v)
}

fn parse_int(s: &[u8]) -> (r: Option<i64>)
    ensures
        match r {
            Some(v) => int_of(s@) == Some(v as int),
            None => int_of(s@) is None,
        },
{
    if s.len() == 0 {
        return None;
    }
    let signed: bool = s[0] == 43 || s[0] == 45;
    let digits: &[u8] = if signed {
        slice_subrange(s, 1, s.len())
    } else {
        s
    };
    assert(signed ==> digits@ =~= s@.drop_first());
    if digits.len() == 0 {
        return None;
    }
    let v: i128 = match parse_digits(digits) {
        Some(v) => v,
        None => {
            proof {
                if all_digits(digits@) {
                    lemma_digits_nonnegative(digits@);
                }
            }
            return None;
        },
    };
    if s[0] == 45 {
        Some((0 - v) as i64)
    } else if v <= i64::MAX as i128 {
        Some(v as i64)
    } else {
        None
    }
}

proof fn lemma_digit_run(s: Seq<u8>, k: int)
    requires
        0 <= k <= s.len(),
        forall|i: int| 0 <= i < k ==> is_digit(#[trigger] s[i]),
        k < s.len() ==> !is_digit(s[k]),
    ensures
        digit_run(s) == k,
    decreases k,
{
    if k > 0 {
        let t = s.drop_first();
        assert(is_digit(s[0]));
        assert forall|i: int| 0 <= i < k - 1 implies is_digit(#[trigger] t[i]) by {
            assert(t[i] == s[i + 1]);
        }
        lemma_digit_run(t, k - 1);
    }
}

proof fn lemma_small_digits(s: Seq<u8>)
    requires
        all_digits(s),
        s.len() <= 6,
    ensures
        0 <= digits_value(s) <= 999_999,
{
    reveal_with_fuel(digits_value, 8);
    assert(forall|i: int| 0 <= i < s.len() ==> is_digit(#[trigger] s[i]));
}

proof fn lemma_small_int(s: Seq<u8>)
    requires
        s.len() <= 5,
        int_of(s) is Some,
    ensures
        -999_999 <= int_of(s)->0 <= 999_999,
{
    let digits = if s[0] == 43 || s[0] == 45 {
        s.drop_first()
    } else {
        s
    };
    lemma_small_digits(digits);
}

fn parse_fraction(s: &[u8]) -> (r: Option<(u32, i32)>)
    requires
        s@.len() <= 6,
    ensures
        match r {
            Some((value, scale)) => fraction_of(s@) == Some((value as int, scale as int)),
            None => fraction_of(s@) is None,
        },
{
    let mut k: usize = 0;
    while k < s.len() && 48 <= s[k] && s[k] <= 57
        invariant
            k <= s@.len(),
            forall|i: int| 0 <= i < k ==> is_digit(#[trigger] s@[i]),
        decreases s@.len() - k,
    {
        k += 1;
    }
    proof {
        lemma_digit_run(s@, k as int);
    }
    let digits: &[u8] = slice_subrange(s, 0, k);
    assert(digits@ =~= s@.take(k as int));
    proof {
        assert(all_digits(digits@));
        lemma_small_digits(digits@);
    }
    let value: u32 = match parse_digits(digits) {
        Some(v) => v as u32,
        None => {
            return None;
        },
    };
    if k == s.len() {
        return Some((value, -(k as i32)));
    }
    if s[k] != 69 && s[k] != 101 {
        return None;
    }
    let rest: &[u8] = slice_subrange(s, k + 1, s.len());
    assert(rest@ =~= s@.skip(k + 1));
    match parse_int(rest) {
        Some(e) => {
            proof {
                lemma_small_int(rest@);
            }
            Some((value, (e - k as i64) as i32))
        },
        None => None,
    }
}

fn parse_zone<'a>(s: &'a [u8]) -> (r: Option<(&'a [u8], i128)>)
    ensures
        match r {
            Some((clock, offset)) => {
                &&& zone_of(s@) == Some((clock@, offset as int))
                &&& -100_000_000_000_000_000_000_000 <= offset <= 100_000_000_000_000_000_000_000
            },
            None => zone_of(s@) is None,
        },
{
    let n: usize = s.len();
    if n > 0 && s[n - 1] == 90 {
        let clock: &[u8] = slice_subrange(s, 0, n - 1);
        assert(clock@ =~= s@.drop_last());
        return Some((clock, 0));
    }
    if n >= 6 && (s[n - 6] == 43 || s[n - 6] == 45) {
        let hh: i64 = parse_int(slice_subrange(s, n - 5, n - 3))?;
        let mm: i64 = parse_int(slice_subrange(s, n - 2, n))?;
        let total: i128 = hh as i128 * 3600 + mm as i128 * 60;
        let clock: &[u8] = slice_subrange(s, 0, n - 6);
        assert(clock@ =~= s@.take(n - 6));
        let offset: i128 = if s[n - 6] == 43 {
            -total
        } else {
            total
        };
        return Some((clock, offset));
    }
    Some((s, 0))
}

#[verifier::spinoff_prover]
#[verifier::rlimit(40)]
fn parse_date(s: &[u8]) -> (r: Option<i128>)
    ensures
        match r {
            Some(days) => {
                &&& date_days(s@) == Some(days as int)
                &&& -10_000_000_000_000_000_000_000 <= days <= 10_000_000_000_000_000_000_000
            },
            None => date_days(s@) is None,
        },
{
    let (year_text, month_text, day_text) = three_pieces(s, 45)?;
    let year: i128 = parse_int(year_text)? as i128;
    let month: i128 = parse_int(month_text)? as i128;
    let day: i128 = parse_int(day_text)? as i128;
    let m: i128 = if month <= 2 {
        month + 9
    } else {
        month - 3
    };
    let y: i128 = if month <= 2 {
        year - 1
    } else {
        year
    };
    let days: i128 = 365 * y + y / 4 - y / 100 + y / 400 + (m * 306 + 5) / 10 + day - 1 - 719468;
    Some(days)
}

fn parse_time(s: &[u8]) -> (r: Option<(i128, u32, i32)>)
    ensures
        match r {
            Some((secs, value, scale)) => {
                &&& time_seconds(s@) == Some((secs as int, value as int, scale as int))
                &&& -100_000_000_000_000_000_000_000 <= secs <= 100_000_000_000_000_000_000_000
            },
            None => time_seconds(s@) is None,
        },
{
    let (hour_text, minute_text, second_text) = three_pieces(s, 58)?;
    let hour: i128 = parse_int(hour_text)? as i128;
    let minute: i128 = parse_int(minute_text)? as i128;
    match split_once(second_text, 46) {
        Some((whole, frac)) => {
            let second: i128 = parse_int(whole)? as i128;
            let len: usize = if frac.len() < 6 {
                frac.len()
            } else {
                6
            };
            let cut: &[u8] = slice_subrange(frac, 0, len);
            assert(cut@ =~= frac@.take(len as int));
            let (value, scale) = parse_fraction(cut)?;
            Some((hour * 3600 + minute * 60 + second, value, scale))
        },
        None => {
            let second: i128 = parse_int(second_text)? as i128;
            Some((hour * 3600 + minute * 60 + second, 0, 0))
        },
    }
}

/// Parses an ISO-8601 / RFC-3339 timestamp to Unix time. Handles `Z`, `+HH:MM` and `-HH:MM`
/// suffixes; up to six bytes of a fraction of a second count. `None` where the timestamp is
/// malformed or its seconds do not fit an `i64`.
pub fn parse_iso_to_unix(s: &str) -> (r: Option<IsoTime>)
    ensures
        r == iso_time(s.spec_bytes()),
{
    let bytes: &[u8] = s.as_bytes();
    let (clock, offset) = parse_zone(bytes)?;
    let (date, time) = split_once(clock, 84)?;
    let days: i128 = parse_date(date)?;
    let (secs, frac, scale) = parse_time(time)?;
    let unix: i128 = days * 86400 + secs + offset;
    if unix < i64::MIN as i128 || unix > i64::MAX as i128 {
        return None;
    }
    Some(IsoTime { secs: unix as i64, frac, scale })
}

/// For a date of the calendar from year 1 on, the day that a timestamp counts is the date's own.
pub proof fn iso_dates_follow_the_calendar(year: int, month: int, day: int)
    requires
        valid_date(year, month, day),
        year >= 1,
    ensures
        iso_days(year, month, day) == day_number(year, month, day),
{
    let m = if month <= 2 {
        month + 9
    } else {
        month - 3
    };
    let y = if month <= 2 {
        year - 1
    } else {
        year
    };
    lemma_from_march(y, m, day);
    assert((m * 306 + 5) / 10 == (153 * m + 2) / 5);
}

/// A time with an offset is the same clock in UTC, less the offset.
pub proof fn offsets_are_taken_off(clock: Seq<u8>, zone: Seq<u8>, hours: int, minutes: int)
    requires
        zone.len() == 6,
        zone[0] == 43 || zone[0] == 45,
        int_of(zone.subrange(1, 3)) == Some(hours),
        int_of(zone.subrange(4, 6)) == Some(minutes),
    ensures
        ({
            let ahead = if zone[0] == 43 {
                hours * 3600 + minutes * 60
            } else {
                -(hours * 3600 + minutes * 60)
            };
            match iso_time(clock.push(90)) {
                Some(t) => i64::MIN <= t.secs - ahead <= i64::MAX ==> iso_time(clock + zone)
                    == Some(IsoTime { secs: (t.secs - ahead) as i64, ..t }),
                None => true,
            }
        }),
{
    let zulu = clock.push(90);
    let local = clock + zone;
    let n = local.len() as int;
    assert(zulu.drop_last() =~= clock);
    assert(local.take(n - 6) =~= clock);
    assert(local.subrange(n - 5, n - 3) =~= zone.subrange(1, 3));
    assert(local.subrange(n - 2, n) =~= zone.subrange(4, 6));
    assert(local[n - 1] == zone.subrange(4, 6).last());
    assert(is_digit(zone.subrange(4, 6).last())) by {
        let s = zone.subrange(4, 6);
        if s[0] == 43 || s[0] == 45 {
            assert(s.drop_first().last() == s.last());
        }
    }
}

impl IsoTime {
    /// The fraction is no larger than a binary64 can be. A fraction is at most six characters, so
    /// one this large has at most two digits: the largest binary64, between 17 and 18 times ten to
    /// the 307, lies between two of them.
    pub open spec fn finite(self) -> bool {
        if self.scale >= 307 {
            self.frac * pow(10, (self.scale - 307) as nat) < 18
        } else {
            self.frac < 18 * pow(10, (307 - self.scale) as nat)
        }
    }

    /// The time is after a time in microseconds since the Unix epoch.
    pub open spec fn after(self, micros: int) -> bool {
        let whole = self.secs * 1_000_000;
        let k = self.scale + 6;
        if k >= 0 {
            whole + self.frac * pow(10, k as nat) > micros
        } else {
            self.frac > (micros - whole) * pow(10, (-k) as nat)
        }
    }

    /// The time is a time in microseconds since the Unix epoch, or after it.
    pub open spec fn at_least(self, micros: int) -> bool {
        let whole = self.secs * 1_000_000;
        let k = self.scale + 6;
        if k >= 0 {
            whole + self.frac * pow(10, k as nat) >= micros
        } else {
            self.frac >= (micros - whole) * pow(10, (-k) as nat)
        }
    }

    /// Whether the fraction is no larger than a binary64 can be.
    pub fn is_finite(&self) -> (r: bool)
        ensures
            r == self.finite(),
    {
        if self.scale >= 307 {
            match scaled_up(self.frac, (self.scale - 307) as u32) {
                Some(v) => v < 18,
                None => false,
            }
        } else {
            match scaled_up(18, (307 - self.scale as i64) as u32) {
                Some(v) => (self.frac as i128) < v,
                None => true,
            }
        }
    }

    /// Whether the time is after a time in microseconds since the Unix epoch.
    pub fn is_after(&self, micros: i64) -> (r: bool)
        ensures
            r == self.after(micros as int),
    {
        matches!(self.side_of(micros as i128), TimeSide::After)
    }

    /// Whether at least `wait` microseconds lie between `now` and the time.
    pub fn is_at_least(&self, now: i64, wait: u64) -> (r: bool)
        ensures
            r == self.at_least(now + wait),
    {
        !matches!(self.side_of(now as i128 + wait as i128), TimeSide::Before)
    }

    fn side_of(&self, micros: i128) -> (r: TimeSide)
        requires
            -100_000_000_000_000_000_000 <= micros <= 100_000_000_000_000_000_000,
        ensures
            r is After <==> self.after(micros as int),
            r is Before <==> !self.at_least(micros as int),
    {
        let k: i64 = self.scale as i64 + 6;
        let rest: i128 = micros - self.secs as i128 * 1_000_000;
        let frac: i128 = self.frac as i128;
        if k >= 0 {
            return match scaled_up(self.frac, k as u32) {
                Some(v) => TimeSide::between(v, rest),
                None => TimeSide::After,
            };
        }
        let ghost power = pow(10, (-k) as nat);
        proof {
            lemma_pow_positive(10, (-k) as nat);
        }
        if rest < 0 {
            assert(rest * power < 0) by (nonlinear_arith)
                requires
                    rest < 0,
                    power > 0,
            ;
            return TimeSide::After;
        }
        if rest > frac {
            assert(rest * power >= rest) by (nonlinear_arith)
                requires
                    rest > 0,
                    power > 0,
            ;
            return TimeSide::Before;
        }
        match scaled_up(rest as u32, (-k) as u32) {
            Some(v) => TimeSide::between(frac, v),
            None => TimeSide::Before,
        }
    }
}

/// On which side of another time a time lies.
enum TimeSide {
    Before,
    Same,
    After,
}

impl TimeSide {
    fn between(time: i128, other: i128) -> (r: TimeSide)
        ensures
            r is After <==> time > other,
            r is Before <==> time < other,
    {
        if time > other {
            TimeSide::After
        } else if time < other {
            TimeSide::Before
        } else {
            TimeSide::Same
        }
    }
}

/// `value` times ten to the `k`; `None` where that is beyond any time.
fn scaled_up(value: u32, k: u32) -> (r: Option<i128>)
    ensures
        match r {
            Some(v) => v == value * pow(10, k as nat) && 0 <= v
                <= 10_000_000_000_000_000_000_000_000_000,
            None => value * pow(10, k as nat) > 1_000_000_000_000_000_000_000_000_000,
        },
{
    let mut v: i128 = value as i128;
    let mut j: u32 = 0;
    proof {
        vstd::arithmetic::power::lemma_pow0(10);
    }
    while j < k
        invariant
            j <= k,
            v == value * pow(10, j as nat),
            0 <= v <= 10_000_000_000_000_000_000_000_000_000,
        decreases k - j,
    {
        if v == 0 {
            proof {
                lemma_pow_positive(10, j as nat);
                assert(value == 0) by (nonlinear_arith)
                    requires
                        0 == value * pow(10, j as nat),
                        pow(10, j as nat) > 0,
                ;
                assert(0 * pow(10, k as nat) == 0) by (nonlinear_arith);
            }
            return Some(0);
        }
        if v > 1_000_000_000_000_000_000_000_000_000 {
            proof {
                vstd::arithmetic::power::lemma_pow_increases(10, j as nat, k as nat);
                assert(value * pow(10, k as nat) >= value * pow(10, j as nat)) by (nonlinear_arith)
                    requires
                        pow(10, k as nat) >= pow(10, j as nat),
                        value >= 0,
                ;
            }
            return None;
        }
        proof {
            vstd::arithmetic::power::lemma_pow_adds(10, j as nat, 1);
            vstd::arithmetic::power::lemma_pow1(10);
            assert(value * (pow(10, j as nat) * 10) == value * pow(10, j as nat) * 10)
                by (nonlinear_arith);
        }
        v = v * 10;
        j += 1;
    }
    Some(v)
}

/// A prediction market as stored.
pub struct MarketRow {
    pub id: i64,
    pub venue: String,
    pub ticker: String,
    pub series: Option<String>,
    pub market_type: Option<String>,
    pub oracle: Option<String>,
    pub strike: Option<Real>,
    pub open_time: Option<String>,
    pub close_time: Option<String>,
    pub resolution_time: Option<String>,
    pub outcome: Option<String>,
    pub rules: Option<String>,
    pub token_id: Option<String>,
    /// Microseconds since the Unix epoch.
    pub discovered_at: Option<i64>,
}

/// An order book snapshot of a venue.
pub struct BookSnapshotRow {
    /// Microseconds since the Unix epoch.
    pub ts: i64,
    pub market_id: i64,
    pub venue: String,
    pub bid_depth: Real,
    pub ask_depth: Real,
    pub spread: Real,
    pub best_bid: Option<Real>,
    pub best_ask: Option<Real>,
    pub levels: Option<String>,
}

/// When a market closed and resolved.
#[derive(Clone, Copy, Debug, PartialEq, Eq, Structural)]
pub struct ResolutionTimes {
    pub close: Option<IsoTime>,
    pub resolution: Option<IsoTime>,
}

/// The time of a timestamp, where there is one.
pub open spec fn stamp_time(s: Option<Seq<u8>>) -> Option<IsoTime> {
    match s {
        Some(bytes) => iso_time(bytes),
        None => None,
    }
}

/// The bytes of an optional text.
pub open spec fn opt_bytes(s: Option<&str>) -> Option<Seq<u8>> {
    match s {
        Some(t) => Some(t.spec_bytes()),
        None => None,
    }
}

/// Parses a timestamp, where there is one.
pub fn parse_stamp(s: Option<&str>) -> (r: Option<IsoTime>)
    ensures
        r == stamp_time(opt_bytes(s)),
{
    match s {
        Some(text) => parse_iso_to_unix(text),
        None => None,
    }
}

/// The times of a resolution from its timestamps.
pub fn resolution_times(close: Option<&str>, resolution: Option<&str>) -> (r: ResolutionTimes)
    ensures
        r.close == stamp_time(opt_bytes(close)),
        r.resolution == stamp_time(opt_bytes(resolution)),
{
    ResolutionTimes { close: parse_stamp(close), resolution: parse_stamp(resolution) }
}

/// A resolved market outcome.
pub struct ResolutionRow {
    pub market_id: i64,
    pub close_time: Option<IsoTime>,
    pub resolution_time: Option<IsoTime>,
    /// Seconds from close to resolution.
    pub resolution_lag_s: Option<Real>,
    pub outcome: Option<String>,
    pub oracle_value_at_close: Option<Real>,
    pub binance_at_close: Option<Real>,
    /// Spot at close less the oracle's value.
    pub displacement_at_close: Option<Real>,
    pub meta: Option<String>,
}

/// The record of a resolution.
pub open spec fn resolution_record(
    market_id: i64,
    times: ResolutionTimes,
    lag: Real,
    outcome: Option<String>,
    oracle_value: Option<Real>,
    binance: Option<Real>,
    difference: Real,
) -> ResolutionRow {
    ResolutionRow {
        market_id,
        close_time: times.close,
        resolution_time: times.resolution,
        resolution_lag_s: if times.close is Some && times.resolution is Some {
            Some(lag)
        } else {
            None
        },
        outcome,
        oracle_value_at_close: oracle_value,
        binance_at_close: binance,
        displacement_at_close: if oracle_value is Some && binance is Some {
            Some(difference)
        } else {
            None
        },
        meta: None,
    }
}

/// Assembles the record of a resolution. `lag` is the seconds from close to resolution, kept where
/// both times are known; `difference` is the spot at close less the oracle's value, kept where both
/// of these are known.
pub fn resolution_row(
    market_id: i64,
    times: ResolutionTimes,
    lag: Real,
    outcome: Option<String>,
    oracle_value: Option<Real>,
    binance: Option<Real>,
    difference: Real,
) -> (r: ResolutionRow)
    ensures
        r == resolution_record(
            market_id,
            times,
            lag,
            outcome,
            oracle_value,
            binance,
            difference,
        ),
{
    let resolution_lag_s: Option<Real> = if times.close.is_some() && times.resolution.is_some() {
        Some(lag)
    } else {
        None
    };
    let displacement: Option<Real> = if oracle_value.is_some() && binance.is_some() {
        Some(difference)
    } else {
        None
    };
    ResolutionRow {
        market_id,
        close_time: times.close,
        resolution_time: times.resolution,
        resolution_lag_s,
        outcome,
        oracle_value_at_close: oracle_value,
        binance_at_close: binance,
        displacement_at_close: displacement,
        meta: None,
    }
}

/// Where to ask whether a market has resolved.
#[derive(Clone, Copy, Debug, PartialEq, Eq, Structural)]
pub enum ResolutionSource {
    Kalshi,
    Polymarket,
}

impl ResolutionSource {
    /// How long to wait before asking, in milliseconds.
    pub open spec fn delay(self) -> u64 {
        match self {
            ResolutionSource::Kalshi => 500,
            ResolutionSource::Polymarket => 1000,
        }
    }

    /// How long to wait before asking, in milliseconds.
    pub fn delay_ms(&self) -> (r: u64)
        ensures
            r == self.delay(),
    {
        match self {
            ResolutionSource::Kalshi => 500,
            ResolutionSource::Polymarket => 1000,
        }
    }
}

/// Where to ask whether a market of a venue has resolved.
pub open spec fn source_for(venue: Seq<char>) -> Option<ResolutionSource> {
    if venue == "kalshi"@ {
        Some(ResolutionSource::Kalshi)
    } else if venue == "polymarket"@ {
        Some(ResolutionSource::Polymarket)
    } else {
        None
    }
}

/// Where to ask whether a market of this venue has resolved; `None` for other venues.
pub fn resolution_source(venue: &str) -> (r: Option<ResolutionSource>)
    ensures
        r == source_for(venue@),
{
    if text::same(venue, "kalshi") {
        Some(ResolutionSource::Kalshi)
    } else if text::same(venue, "polymarket") {
        Some(ResolutionSource::Polymarket)
    } else {
        None
    }
}

/// The tickers of the Kalshi markets, in order.
pub open spec fn kalshi_tickers_of(markets: Seq<MarketRow>) -> Seq<Seq<char>>
    decreases markets.len(),
{
    if markets.len() == 0 {
        Seq::empty()
    } else {
        let before = kalshi_tickers_of(markets.drop_last());
        if markets.last().venue@ == "kalshi"@ {
            before.push(markets.last().ticker@)
        } else {
            before
        }
    }
}

/// The token ids of the Polymarket markets that have one, in order.
pub open spec fn poly_tokens_of(markets: Seq<MarketRow>) -> Seq<Seq<char>>
    decreases markets.len(),
{
    if markets.len() == 0 {
        Seq::empty()
    } else {
        let before = poly_tokens_of(markets.drop_last());
        match markets.last().token_id {
            Some(id) => if markets.last().venue@ == "polymarket"@ {
                before.push(id@)
            } else {
                before
            },
            None => before,
        }
    }
}

/// The texts of strings.
pub open spec fn texts(items: Seq<String>) -> Seq<Seq<char>> {
    Seq::new(items.len(), |i: int| items[i]@)
}

/// The tickers to subscribe to on Kalshi.
pub fn kalshi_tickers(markets: &Vec<MarketRow>) -> (r: Vec<String>)
    ensures
        texts(r@) == kalshi_tickers_of(markets@),
{
    let mut out: Vec<String> = Vec::new();
    let mut i: usize = 0;
    assert(texts(out@) =~= kalshi_tickers_of(markets@.take(0)));
    while i < markets.len()
        invariant
            i <= markets@.len(),
            texts(out@) == kalshi_tickers_of(markets@.take(i as int)),
        decreases markets@.len() - i,
    {
        let ghost before = out@;
        assert(markets@.take(i + 1).drop_last() =~= markets@.take(i as int));
        if text::same(markets[i].venue.as_str(), "kalshi") {
            out.push(markets[i].ticker.clone());
            assert(texts(out@) =~= texts(before).push(markets@[i as int].ticker@));
        }
        i += 1;
    }
    assert(markets@.take(i as int) =~= markets@);
    out
}

/// The token ids to subscribe to on Polymarket.
pub fn poly_token_ids(markets: &Vec<MarketRow>) -> (r: Vec<String>)
    ensures
        texts(r@) == poly_tokens_of(markets@),
{
    let mut out: Vec<String> = Vec::new();
    let mut i: usize = 0;
    assert(texts(out@) =~= poly_tokens_of(markets@.take(0)));
    while i < markets.len()
        invariant
            i <= markets@.len(),
            texts(out@) == poly_tokens_of(markets@.take(i as int)),
        decreases markets@.len() - i,
    {
        let ghost before = out@;
        assert(markets@.take(i + 1).drop_last() =~= markets@.take(i as int));
        if let Some(id) = &markets[i].token_id {
            if text::same(markets[i].venue.as_str(), "polymarket") {
                out.push(id.clone());
                assert(texts(out@) =~= texts(before).push(id@));
            }
        }
        i += 1;
    }
    assert(markets@.take(i as int) =~= markets@);
    out
}

/// A resolution is recorded as it was found, each value in its own place: the outcome and the times
/// as they are, the lag where both times are known, and the displacement where both prices are.
pub proof fn resolutions_are_recorded_as_found(
    market_id: i64,
    times: ResolutionTimes,
    lag: Real,
    outcome: Option<String>,
    oracle_value: Option<Real>,
    binance: Option<Real>,
    difference: Real,
)
    ensures
        ({
            let row = resolution_record(
                market_id,
                times,
                lag,
                outcome,
                oracle_value,
                binance,
                difference,
            );
            &&& row.market_id == market_id
            &&& row.outcome == outcome
            &&& row.close_time == times.close && row.resolution_time == times.resolution
            &&& row.oracle_value_at_close == oracle_value && row.binance_at_close == binance
            &&& row.resolution_lag_s == Some(lag) <==> times.close is Some && times.resolution
                is Some
            &&& row.resolution_lag_s is None <==> times.close is None || times.resolution is None
            &&& row.displacement_at_close == Some(difference) <==> oracle_value is Some && binance
                is Some
            &&& row.displacement_at_close is None <==> oracle_value is None || binance is None
            &&& row.meta is None
        }),
{
}

/// Each venue is asked about its own markets, Polymarket twice as slowly as Kalshi, and no other
/// venue is asked.
pub proof fn venues_are_asked_about_their_own_markets(venue: Seq<char>)
    ensures
        source_for("kalshi"@) == Some(ResolutionSource::Kalshi),
        source_for("polymarket"@) == Some(ResolutionSource::Polymarket),
        source_for(venue) is Some ==> venue == "kalshi"@ || venue == "polymarket"@,
        ResolutionSource::Kalshi.delay() == 500,
        ResolutionSource::Polymarket.delay() == 2 * ResolutionSource::Kalshi.delay(),
{
    reveal_strlit("kalshi");
    reveal_strlit("polymarket");
    assert("kalshi"@.len() == 6 && "polymarket"@.len() == 10);
}

/// The markets to subscribe to are found one by one, in order: Kalshi's by ticker, Polymarket's by
/// token id where they have one, and those of no other venue.
pub proof fn subscriptions_follow_the_markets(a: Seq<MarketRow>, b: Seq<MarketRow>, m: MarketRow)
    ensures
        kalshi_tickers_of(a + b) == kalshi_tickers_of(a) + kalshi_tickers_of(b),
        poly_tokens_of(a + b) == poly_tokens_of(a) + poly_tokens_of(b),
        m.venue@ == "kalshi"@ ==> kalshi_tickers_of(seq![m]) == seq![m.ticker@],
        m.venue@ != "kalshi"@ ==> kalshi_tickers_of(seq![m]).len() == 0,
        m.venue@ == "polymarket"@ ==> (m.token_id matches Some(id) ==> poly_tokens_of(seq![m])
            == seq![id@]),
        m.venue@ != "polymarket"@ || m.token_id is None ==> poly_tokens_of(seq![m]).len() == 0,
    decreases b.len(),
{
    let none = Seq::<MarketRow>::empty();
    let nothing = Seq::<Seq<char>>::empty();
    assert(seq![m].drop_last() =~= none);
    assert(seq![m].last() == m);
    assert(kalshi_tickers_of(none) =~= nothing);
    assert(poly_tokens_of(none) =~= nothing);
    assert(nothing.push(m.ticker@) =~= seq![m.ticker@]);
    if let Some(id) = m.token_id {
        assert(nothing.push(id@) =~= seq![id@]);
    }
    if b.len() == 0 {
        assert(a + b =~= a);
        assert(kalshi_tickers_of(a) + kalshi_tickers_of(b) =~= kalshi_tickers_of(a));
        assert(poly_tokens_of(a) + poly_tokens_of(b) =~= poly_tokens_of(a));
    } else {
        let last = b.last();
        let rest = b.drop_last();
        assert((a + b).drop_last() =~= a + rest);
        assert((a + b).last() == last);
        subscriptions_follow_the_markets(a, rest, m);
        assert((kalshi_tickers_of(a) + kalshi_tickers_of(rest)).push(last.ticker@)
            =~= kalshi_tickers_of(a) + kalshi_tickers_of(rest).push(last.ticker@));
        if let Some(id) = last.token_id {
            assert((poly_tokens_of(a) + poly_tokens_of(rest)).push(id@) =~= poly_tokens_of(a)
                + poly_tokens_of(rest).push(id@));
        }
    }
}

proof fn lemma_first_of_joined(a: Seq<u8>, c: u8, b: Seq<u8>)
    requires
        !a.contains(c),
    ensures
        first_at(a + seq![c] + b, c) == a.len(),
        first_at(a, c) == a.len(),
        (a + seq![c] + b).take(a.len() as int) == a,
        (a + seq![c] + b).skip(a.len() as int + 1) == b,
{
    let s = a + seq![c] + b;
    assert forall|k: int| 0 <= k < a.len() implies s[k] != c by {
        assert(a.contains(a[k]));
        assert(s[k] == a[k]);
    }
    assert(s[a.len() as int] == c);
    lemma_first_at(s, c, a.len() as int);
    assert forall|k: int| 0 <= k < a.len() implies a[k] != c by {
        assert(a.contains(a[k]));
    }
    lemma_first_at(a, c, a.len() as int);
    assert(s.take(a.len() as int) =~= a);
    assert(s.skip(a.len() as int + 1) =~= b);
    assert(a.take(a.len() as int) =~= a);
}

proof fn lemma_three_pieces(a: Seq<u8>, b: Seq<u8>, d: Seq<u8>, c: u8)
    requires
        !a.contains(c),
        !b.contains(c),
        !d.contains(c),
    ensures
        ({
            let s = a + seq![c] + (b + seq![c] + d);
            piece(s, c, 0) == Some(a) && piece(s, c, 1) == Some(b) && piece(s, c, 2) == Some(d)
        }),
{
    let tail = b + seq![c] + d;
    let s = a + seq![c] + tail;
    lemma_first_of_joined(a, c, tail);
    lemma_first_of_joined(b, c, d);
    lemma_first_of_joined(d, c, d);
    assert(d.take(d.len() as int) =~= d);
    assert(s.len() > a.len());
    assert(tail.len() > b.len());
    assert(split_at_first(s, c) == Some((a, tail)));
    assert(split_at_first(tail, c) == Some((b, d)));
    reveal_with_fuel(piece, 4);
    assert(piece(tail, c, 0) == Some(b));
    assert(piece(d, c, 0) == Some(d));
    assert(piece(tail, c, 1) == piece(d, c, 0));
    assert(piece(s, c, 1) == piece(tail, c, 0));
    assert(piece(s, c, 2) == piece(tail, c, 1));
}

/// A timestamp is read from its six numbers: the day of year, month and day, and on it an hour of
/// 3600 seconds, a minute of 60 and a second. Whatever the numbers are, they count as they stand.
pub proof fn timestamps_are_read_from_their_numbers(
    year: Seq<u8>,
    month: Seq<u8>,
    day: Seq<u8>,
    hour: Seq<u8>,
    minute: Seq<u8>,
    second: Seq<u8>,
    y: int,
    m: int,
    d: int,
    h: int,
    n: int,
    s: int,
)
    requires
        int_of(year) == Some(y) && int_of(month) == Some(m) && int_of(day) == Some(d),
        int_of(hour) == Some(h) && int_of(minute) == Some(n) && int_of(second) == Some(s),
        !year.contains(45) && !month.contains(45) && !day.contains(45),
        !hour.contains(58) && !minute.contains(58) && !second.contains(58),
        i64::MIN <= iso_days(y, m, d) * 86400 + h * 3600 + n * 60 + s <= i64::MAX,
    ensures
        ({
            let date = year + seq![45u8] + (month + seq![45u8] + day);
            let time = hour + seq![58u8] + (minute + seq![58u8] + second);
            iso_time((date + seq![84u8] + time).push(90)) == Some(
                IsoTime {
                    secs: (iso_days(y, m, d) * 86400 + h * 3600 + n * 60 + s) as i64,
                    frac: 0,
                    scale: 0,
                },
            )
        }),
{
    let date = year + seq![45u8] + (month + seq![45u8] + day);
    let time = hour + seq![58u8] + (minute + seq![58u8] + second);
    let clock = date + seq![84u8] + time;
    lemma_three_pieces(year, month, day, 45);
    lemma_three_pieces(hour, minute, second, 58);
    lemma_number_is_plain(year, y);
    lemma_number_is_plain(month, m);
    lemma_number_is_plain(day, d);
    lemma_number_is_plain(second, s);
    assert(!date.contains(84)) by {
        if date.contains(84) {
            let i = date.index_of(84);
            if i < year.len() {
                assert(year.contains(year[i]));
            } else if i > year.len() && i < year.len() + 1 + month.len() {
                assert(month.contains(month[i - year.len() - 1]));
            } else if i > year.len() + 1 + month.len() {
                assert(day.contains(day[i - year.len() - month.len() - 2]));
            }
        }
    }
    lemma_first_of_joined(date, 84, time);
    assert(split_at_first(clock, 84) == Some((date, time)));
    lemma_first_of_joined(second, 46, second);
    assert(split_at_first(second, 46) is None);
    let zulu = clock.push(90);
    assert(zulu.drop_last() =~= clock);
    assert(zone_of(zulu) == Some((clock, 0int)));
}

/// A number has digits only, behind a sign at most.
proof fn lemma_number_is_plain(s: Seq<u8>, value: int)
    requires
        int_of(s) == Some(value),
    ensures
        !s.contains(84),
        !s.contains(46),
{
    let signed = s.len() > 0 && (s[0] == 43 || s[0] == 45);
    let digits = if signed {
        s.drop_first()
    } else {
        s
    };
    assert forall|i: int| 0 <= i < s.len() implies s[i] != 84 && s[i] != 46 by {
        if signed {
            if i > 0 {
                assert(digits[i - 1] == s[i]);
                assert(is_digit(digits[i - 1]));
            }
        } else {
            assert(is_digit(digits[i]));
        }
    }
}

/// The times that are after a moment are those at least at a later one, and a time on a whole
/// microsecond is where its microseconds say.
pub proof fn times_are_ordered(t: IsoTime, micros: int, later: int)
    ensures
        t.after(micros) ==> t.at_least(micros),
        micros < later && t.at_least(later) ==> t.after(micros),
        micros <= later && t.after(later) ==> t.after(micros),
        t.scale == -6 ==> (t.after(micros) <==> t.secs * 1_000_000 + t.frac > micros),
        t.scale == -6 ==> (t.at_least(micros) <==> t.secs * 1_000_000 + t.frac >= micros),
        t.frac == 0 ==> (t.after(micros) <==> t.secs * 1_000_000 > micros),
        t.frac == 0 ==> (t.at_least(micros) <==> t.secs * 1_000_000 >= micros),
        t.frac == 0 ==> t.finite(),
        t.scale <= 0 && t.frac <= 999_999 ==> t.finite(),
{
    let k = t.scale + 6;
    let whole = t.secs * 1_000_000;
    if t.scale == -6 {
        vstd::arithmetic::power::lemma_pow0(10);
    }
    if k >= 0 {
        let p = pow(10, k as nat);
        assert(0 * p == 0);
    } else {
        let p = pow(10, (-k) as nat);
        lemma_pow_positive(10, (-k) as nat);
        let a = micros - whole;
        let b = later - whole;
        assert(a < b ==> a * p < b * p) by (nonlinear_arith)
            requires
                p > 0,
        ;
        assert(a < 0 <==> a * p < 0) by (nonlinear_arith)
            requires
                p > 0,
        ;
        assert(a <= 0 <==> a * p <= 0) by (nonlinear_arith)
            requires
                p > 0,
        ;
    }
    if t.scale >= 307 {
        let p = pow(10, (t.scale - 307) as nat);
        assert(0 * p == 0);
    } else {
        let q = pow(10, (307 - t.scale) as nat);
        lemma_pow_positive(10, (307 - t.scale) as nat);
        if t.scale <= 0 {
            vstd::arithmetic::power::lemma_pow_increases(10, 6, (307 - t.scale) as nat);
            vstd::arithmetic::power::lemma_pow1(10);
            vstd::arithmetic::power::lemma_pow_adds(10, 1, 1);
            assert(pow(10, 2) == 100);
            vstd::arithmetic::power::lemma_pow_adds(10, 1, 2);
            assert(pow(10, 3) == 1000);
            vstd::arithmetic::power::lemma_pow_adds(10, 3, 3);
            assert(pow(10, 6) == 1_000_000);
        }
    }
}

/// A fraction of a second counts by its digits, the first six of them: the number that they spell,
/// scaled down by as many tens.
pub proof fn fractions_count_by_their_digits(whole: Seq<u8>, frac: Seq<u8>, s: int)
    requires
        int_of(whole) == Some(s),
        all_digits(frac),
    ensures
        frac.len() <= 6 ==> seconds_of(whole + seq![46u8] + frac) == Some(
            (s, digits_value(frac), -(frac.len() as int)),
        ),
        frac.len() > 6 ==> seconds_of(whole + seq![46u8] + frac) == Some(
            (s, digits_value(frac.take(6)), -6int),
        ),
{
    lemma_number_is_plain(whole, s);
    lemma_first_of_joined(whole, 46, frac);
    let cut = if frac.len() <= 6 {
        frac
    } else {
        frac.take(6)
    };
    assert(frac.take(frac.len() as int) =~= frac);
    assert forall|i: int| 0 <= i < cut.len() implies is_digit(#[trigger] cut[i]) by {
        assert(cut[i] == frac[i]);
    }
    lemma_digit_run(cut, cut.len() as int);
    assert(cut.take(cut.len() as int) =~= cut);
}

} // verus!
