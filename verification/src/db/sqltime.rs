//! How the store's date and time functions read a time value, as SQLite's
//! `date()` and `strftime()` do: `YYYY-MM-DD`, optionally followed (after
//! spaces or a `T`) by `HH:MM`, `HH:MM:SS` or `HH:MM:SS.fff…`, then an optional
//! `Z` or `±HH:MM` offset; or a time of day alone (taken on 2000-01-01). A
//! day past the 28th is normalised through the day count (so 2023-02-31 is
//! 2023-03-03), and an offset moves the value to UTC.
use crate::text::{chars_of, digit_value, is_digit, padded, push_char, push_padded};
use vstd::prelude::*;

verus! {

/// The ASCII white space that SQLite skips.
pub open spec fn is_space(c: char) -> bool {
    c == ' ' || ('\t' <= c && c <= '\r')
}

pub open spec fn digit_at(s: Seq<char>, i: int) -> bool {
    0 <= i < s.len() && is_digit(s[i])
}

pub open spec fn char_at(s: Seq<char>, i: int, c: char) -> bool {
    0 <= i < s.len() && s[i] == c
}

pub open spec fn two_digits(s: Seq<char>, i: int) -> bool {
    digit_at(s, i) && digit_at(s, i + 1)
}

pub open spec fn val2(s: Seq<char>, i: int) -> int {
    (digit_value(s[i]) * 10 + digit_value(s[i + 1])) as int
}

/// The first position from `i` that is not white space.
pub open spec fn skip_space(s: Seq<char>, i: int) -> int
    decreases s.len() - i,
{
    if 0 <= i < s.len() && is_space(s[i]) {
        skip_space(s, i + 1)
    } else {
        i
    }
}

/// The first position from `i` that is neither white space nor `T`.
pub open spec fn skip_space_t(s: Seq<char>, i: int) -> int
    decreases s.len() - i,
{
    if 0 <= i < s.len() && (is_space(s[i]) || s[i] == 'T') {
        skip_space_t(s, i + 1)
    } else {
        i
    }
}

/// The first position from `i` that is not a digit.
pub open spec fn digits_end(s: Seq<char>, i: int) -> int
    decreases s.len() - i,
{
    if digit_at(s, i) {
        digits_end(s, i + 1)
    } else {
        i
    }
}

/// The first position from `i` that holds a NUL character, or the end.
pub open spec fn nul_at(s: Seq<char>, i: int) -> int
    decreases s.len() - i,
{
    if 0 <= i < s.len() && s[i] != '\0' {
        nul_at(s, i + 1)
    } else {
        i
    }
}

/// The text as SQLite sees it: up to the first NUL character.
pub open spec fn c_text(s: Seq<char>) -> Seq<char> {
    s.take(nul_at(s, 0))
}

/// An offset suffix from position `i`: its minutes (zero when there is none,
/// or for `Z`), or `None` when something else follows.
pub open spec fn tz_suffix(s: Seq<char>, i: int) -> Option<int> {
    let j = skip_space(s, i);
    if j >= s.len() {
        Some(0)
    } else if s[j] == '-' || s[j] == '+' {
        if two_digits(s, j + 1) && char_at(s, j + 3, ':') && two_digits(s, j + 4) && val2(s, j + 1)
            <= 14 && val2(s, j + 4) <= 59 && skip_space(s, j + 6) >= s.len() {
            let minutes = val2(s, j + 1) * 60 + val2(s, j + 4);
            Some(
                if s[j] == '-' {
                    -minutes
                } else {
                    minutes
                },
            )
        } else {
            None
        }
    } else if s[j] == 'Z' || s[j] == 'z' {
        if skip_space(s, j + 1) >= s.len() {
            Some(0)
        } else {
            None
        }
    } else {
        None
    }
}

/// Digit `k` of the run of digits that starts at `i` and ends at `e`, zero
/// past its end.
pub open spec fn frac_digit(s: Seq<char>, i: int, e: int, k: int) -> int {
    if i + k < e {
        digit_value(s[i + k]) as int
    } else {
        0
    }
}

/// Milliseconds of a fraction of a second: the fraction times 1000, rounded
/// half up.
pub open spec fn frac_ms(s: Seq<char>, i: int) -> int {
    let e = digits_end(s, i);
    frac_digit(s, i, e, 0) * 100 + frac_digit(s, i, e, 1) * 10 + frac_digit(s, i, e, 2) + if frac_digit(
        s,
        i,
        e,
        3,
    ) >= 5 {
        1int
    } else {
        0int
    }
}

/// A time of day: hour (up to 24), minute, milliseconds and offset in minutes.
pub struct TimeOfDay {
    pub h: int,
    pub m: int,
    pub ms: int,
    pub tz: int,
}

/// The seconds part after `HH:MM` (at `j`): its milliseconds and where the
/// text goes on; `None` when malformed.
pub open spec fn seconds_at(s: Seq<char>, j: int) -> Option<(int, int)> {
    if char_at(s, j, ':') {
        if two_digits(s, j + 1) && val2(s, j + 1) <= 59 {
            let k = j + 3;
            if char_at(s, k, '.') && digit_at(s, k + 1) {
                Some((val2(s, j + 1) * 1000 + frac_ms(s, k + 1), digits_end(s, k + 1)))
            } else {
                Some((val2(s, j + 1) * 1000, k))
            }
        } else {
            None
        }
    } else {
        Some((0, j))
    }
}

/// A time of day written from position `i` to the end of the text.
pub open spec fn time_at(s: Seq<char>, i: int) -> Option<TimeOfDay> {
    if two_digits(s, i) && char_at(s, i + 2, ':') && two_digits(s, i + 3) && val2(s, i) <= 24
        && val2(s, i + 3) <= 59 {
        match seconds_at(s, i + 5) {
            Some((ms, tail)) => match tz_suffix(s, tail) {
                Some(tz) => Some(TimeOfDay { h: val2(s, i), m: val2(s, i + 3), ms, tz }),
                None => None,
            },
            None => None,
        }
    } else {
        None
    }
}

/// A time value as written: its date (when there is one) and its time of day
/// (when there is one).
pub struct TimeValue {
    pub ymd: Option<(int, int, int)>,
    pub time: Option<TimeOfDay>,
}

/// `YYYY-MM-DD` at `b`, with month 1 to 12 and day 1 to 31.
pub open spec fn date_at(s: Seq<char>, b: int) -> bool {
    &&& two_digits(s, b)
    &&& two_digits(s, b + 2)
    &&& char_at(s, b + 4, '-')
    &&& two_digits(s, b + 5)
    &&& 1 <= val2(s, b + 5) <= 12
    &&& char_at(s, b + 7, '-')
    &&& two_digits(s, b + 8)
    &&& 1 <= val2(s, b + 8) <= 31
}

/// How a text reads as a time value.
pub open spec fn time_value(s: Seq<char>) -> Option<TimeValue> {
    let b: int = if char_at(s, 0, '-') {
        1
    } else {
        0
    };
    let alone = match time_at(s, 0) {
        Some(t) => Some(TimeValue { ymd: None, time: Some(t) }),
        None => None,
    };
    if date_at(s, b) {
        let y0 = val2(s, b) * 100 + val2(s, b + 2);
        let y = if b == 1 {
            -y0
        } else {
            y0
        };
        let ymd = Some((y, val2(s, b + 5), val2(s, b + 8)));
        let j = skip_space_t(s, b + 10);
        match time_at(s, j) {
            Some(t) => Some(TimeValue { ymd, time: Some(t) }),
            None => if j >= s.len() {
                Some(TimeValue { ymd, time: None })
            } else {
                alone
            },
        }
    } else {
        alone
    }
}

/// Division truncating towards zero, for a positive divisor.
pub open spec fn tdiv(a: int, b: int) -> int {
    if a >= 0 {
        a / b
    } else {
        -((-a) / b)
    }
}

/// The day count of a date (Meeus's formula, Gregorian calendar).
pub open spec fn day_number(y: int, m: int, d: int) -> int {
    let yy = if m <= 2 {
        y - 1
    } else {
        y
    };
    let mm = if m <= 2 {
        m + 12
    } else {
        m
    };
    let a = tdiv(yy, 100);
    let b = 2 - a + tdiv(a, 4);
    tdiv(36525 * (yy + 4716), 100) + tdiv(306001 * (mm + 1), 10000) + d + b - 1524
}

/// The date taken when a value has none.
pub open spec fn value_ymd(v: TimeValue) -> (int, int, int) {
    match v.ymd {
        Some(t) => t,
        None => (2000, 1, 1),
    }
}

/// The instant of a value, in milliseconds of the Julian day count.
pub open spec fn instant_ms(v: TimeValue) -> int {
    let (y, m, d) = value_ymd(v);
    let base = day_number(y, m, d) * 86400000 - 43200000;
    match v.time {
        Some(t) => base + t.h * 3600000 + t.m * 60000 + t.ms - t.tz * 60000,
        None => base,
    }
}

/// Largest instant accepted (the end of 9999-12-31).
pub open spec fn max_instant() -> int {
    464269060799999
}

/// The value's year is from -4713 to 9999 and its instant in range.
pub open spec fn value_in_range(v: TimeValue) -> bool {
    -4713 <= value_ymd(v).0 <= 9999 && 0 <= instant_ms(v) <= max_instant()
}

/// The calendar date of a day count (the inverse of `day_number` that the
/// store uses).
pub open spec fn civil_day(z: int) -> (int, int, int) {
    let a0 = tdiv(4 * z - 7468865, 146097);
    let a = z + 1 + a0 - tdiv(a0, 4);
    let b = a + 1524;
    let c = (20 * b - 2442) / 7305;
    let d = 36525 * c / 100;
    let e = (b - d) * 10000 / 306001;
    let x1 = 306001 * e / 10000;
    let month = if e < 14 {
        e - 1
    } else {
        e - 13
    };
    (
        if month > 2 {
            c - 4716
        } else {
            c - 4715
        },
        month,
        b - d - x1,
    )
}

/// The calendar date of an instant.
pub open spec fn civil_of(jd: int) -> (int, int, int) {
    civil_day((jd + 43200000) / 86400000)
}

/// Days in month `m` of year `y` (Gregorian calendar).
pub open spec fn days_in_month(y: int, m: int) -> int {
    if m == 2 {
        if (y % 4 == 0 && y % 100 != 0) || y % 400 == 0 {
            29
        } else {
            28
        }
    } else if m == 4 || m == 6 || m == 9 || m == 11 {
        30
    } else {
        31
    }
}

/// A date as `date()` writes it: the year's four digits (after `-` when
/// negative), month and day.
pub open spec fn date_text_of(y: int, m: int, d: int) -> Seq<char> {
    (if y < 0 {
        seq!['-']
    } else {
        Seq::<char>::empty()
    }) + padded((if y < 0 {
        -y
    } else {
        y
    }) as nat, 4) + seq!['-'] + padded(m as nat, 2) + seq!['-'] + padded(d as nat, 2)
}

/// What the store's date functions read from a time value: the date as
/// `date()` gives it, its day of the month, the hour and minute that
/// `strftime('%H')` and `strftime('%M')` give, and the day of the week of
/// `strftime('%w')` (0 for Sunday).
pub struct SqlTime {
    pub date: Seq<char>,
    pub day: nat,
    pub hour: nat,
    pub minute: nat,
    pub weekday: nat,
}

/// How the date functions read a text; `None` when they give NULL.
pub open spec fn sql_time(text: Seq<char>) -> Option<SqlTime> {
    match time_value(c_text(text)) {
        None => None,
        Some(v) => sql_of_value(v),
    }
}

/// What the date functions read from a time value; `None` out of range.
pub open spec fn sql_of_value(v: TimeValue) -> Option<SqlTime> {
    if !value_in_range(v) {
        None
    } else {
        let jd = instant_ms(v);
        let shifted = match v.time {
            Some(t) => t.tz != 0,
            None => false,
        };
        let (y, m, d) = if v.ymd is Some && !shifted && value_ymd(v).2 <= 28 {
            value_ymd(v)
        } else {
            civil_of(jd)
        };
        let day_ms = (jd + 43200000) % 86400000;
        let (h, mi) = match v.time {
            Some(t) => if !shifted {
                (t.h, t.m)
            } else {
                (day_ms / 3600000, (day_ms / 60000) % 60)
            },
            None => (day_ms / 3600000, (day_ms / 60000) % 60),
        };
        Some(
            SqlTime {
                date: date_text_of(y, m, d),
                day: d as nat,
                hour: h as nat,
                minute: mi as nat,
                weekday: (((jd + 129600000) / 86400000) % 7) as nat,
            },
        )
    }
}

/// The time value that machine-integer parts stand for.
spec fn tv_of(ymd: Option<(i64, u64, u64)>, time: Option<(u64, u64, u64, i64)>) -> TimeValue {
    TimeValue {
        ymd: match ymd {
            Some(q) => Some((q.0 as int, q.1 as int, q.2 as int)),
            None => None,
        },
        time: match time {
            Some(q) => Some(TimeOfDay { h: q.0 as int, m: q.1 as int, ms: q.2 as int, tz: q.3 as int }),
            None => None,
        },
    }
}

fn is_space_char(c: char) -> (r: bool)
    ensures
        r == is_space(c),
{
    c == ' ' || ('\t' <= c && c <= '\r')
}

fn digit_of(v: &Vec<char>, i: usize) -> (r: Option<u64>)
    ensures
        r is Some <==> digit_at(v@, i as int),
        r matches Some(d) ==> d == digit_value(v@[i as int]) && d < 10,
{
    if i < v.len() && '0' <= v[i] && v[i] <= '9' {
        Some((v[i] as u32 - '0' as u32) as u64)
    } else {
        None
    }
}

fn two_of(v: &Vec<char>, i: usize) -> (r: Option<u64>)
    ensures
        r is Some <==> two_digits(v@, i as int),
        r matches Some(n) ==> n == val2(v@, i as int) && n < 100,
{
    if i >= v.len() {
        return None;
    }
    match (digit_of(v, i), digit_of(v, i + 1)) {
        (Some(a), Some(b)) => Some(a * 10 + b),
        _ => None,
    }
}

fn is_char(v: &Vec<char>, i: usize, c: char) -> (r: bool)
    ensures
        r == char_at(v@, i as int, c),
{
    i < v.len() && v[i] == c
}

fn skip_space_from(v: &Vec<char>, i: usize) -> (r: usize)
    requires
        i <= v@.len(),
    ensures
        r as int == skip_space(v@, i as int),
        i <= r <= v@.len(),
{
    let mut k = i;
    while k < v.len() && is_space_char(v[k])
        invariant
            i <= k <= v@.len(),
            skip_space(v@, i as int) == skip_space(v@, k as int),
        decreases v@.len() - k,
    {
        k = k + 1;
    }
    k
}

fn skip_space_t_from(v: &Vec<char>, i: usize) -> (r: usize)
    requires
        i <= v@.len(),
    ensures
        r as int == skip_space_t(v@, i as int),
        i <= r <= v@.len(),
{
    let mut k = i;
    while k < v.len() && (is_space_char(v[k]) || v[k] == 'T')
        invariant
            i <= k <= v@.len(),
            skip_space_t(v@, i as int) == skip_space_t(v@, k as int),
        decreases v@.len() - k,
    {
        k = k + 1;
    }
    k
}

fn digits_end_from(v: &Vec<char>, i: usize) -> (r: usize)
    requires
        i <= v@.len(),
    ensures
        r as int == digits_end(v@, i as int),
        i <= r <= v@.len(),
{
    let mut k = i;
    while k < v.len() && digit_of(v, k).is_some()
        invariant
            i <= k <= v@.len(),
            digits_end(v@, i as int) == digits_end(v@, k as int),
        decreases v@.len() - k,
    {
        k = k + 1;
    }
    k
}

fn tz_suffix_from(v: &Vec<char>, i: usize) -> (r: Option<i64>)
    requires
        i <= v@.len(),
    ensures
        match tz_suffix(v@, i as int) {
            Some(t) => r == Some(t as i64),
            None => r is None,
        },
        r matches Some(t) ==> -899 <= t <= 899,
{
    let j = skip_space_from(v, i);
    if j >= v.len() {
        return Some(0);
    }
    if v[j] == '-' || v[j] == '+' {
        if v.len() - j < 6 {
            return None;
        }
        match (two_of(v, j + 1), two_of(v, j + 4)) {
            (Some(hh), Some(mm)) => {
                if is_char(v, j + 3, ':') && hh <= 14 && mm <= 59 {
                    let k = skip_space_from(v, j + 6);
                    if k >= v.len() {
                        let minutes = (hh * 60 + mm) as i64;
                        return Some(
                            if v[j] == '-' {
                                -minutes
                            } else {
                                minutes
                            },
                        );
                    }
                }
                None
            },
            _ => None,
        }
    } else if v[j] == 'Z' || v[j] == 'z' {
        if skip_space_from(v, j + 1) >= v.len() {
            Some(0)
        } else {
            None
        }
    } else {
        None
    }
}

fn frac_ms_from(v: &Vec<char>, i: usize) -> (r: u64)
    requires
        i <= v@.len(),
    ensures
        r == frac_ms(v@, i as int),
        r <= 1000,
{
    let e = digits_end_from(v, i);
    let mut d: [u64; 4] = [0, 0, 0, 0];
    let mut k: usize = 0;
    while k < 4
        invariant
            k <= 4,
            e as int == digits_end(v@, i as int),
            i <= e <= v@.len(),
            forall|t: int| 0 <= t < k ==> d@[t] == frac_digit(v@, i as int, e as int, t) && d@[t] < 10,
            forall|t: int| k <= t < 4 ==> d@[t] == 0,
        decreases 4 - k,
    {
        if k < e - i {
            proof {
                lemma_digits_before_end(v@, i as int, (i + k) as int);
            }
            let x = digit_of(v, i + k).unwrap();
            d[k] = x;
        }
        k = k + 1;
    }
    d[0] * 100 + d[1] * 10 + d[2] + if d[3] >= 5 {
        1
    } else {
        0
    }
}

proof fn lemma_digits_before_end(s: Seq<char>, i: int, k: int)
    requires
        0 <= i <= k < digits_end(s, i),
    ensures
        digit_at(s, k),
    decreases k - i,
{
    if k > i {
        lemma_digits_before_end(s, i + 1, k);
    }
}

fn seconds_from(v: &Vec<char>, j: usize) -> (r: Option<(u64, usize)>)
    requires
        j <= v@.len(),
    ensures
        match seconds_at(v@, j as int) {
            Some((ms, tail)) => r matches Some(p) && p.0 == ms && p.1 == tail && p.1 <= v@.len(),
            None => r is None,
        },
        r matches Some(p) ==> p.0 <= 60000,
{
    if j < v.len() && v[j] == ':' {
        match two_of(v, j + 1) {
            Some(sec) => {
                if sec <= 59 {
                    let k = j + 3;
                    if k < v.len() && v[k] == '.' && digit_of(v, k + 1).is_some() {
                        let f = frac_ms_from(v, k + 1);
                        let e = digits_end_from(v, k + 1);
                        Some((sec * 1000 + f, e))
                    } else {
                        Some((sec * 1000, k))
                    }
                } else {
                    None
                }
            },
            None => None,
        }
    } else {
        Some((0, j))
    }
}

/// (hour, minute, milliseconds, offset minutes).
fn time_from(v: &Vec<char>, i: usize) -> (r: Option<(u64, u64, u64, i64)>)
    requires
        i <= v@.len(),
    ensures
        match time_at(v@, i as int) {
            Some(t) => r matches Some(p) && p.0 == t.h && p.1 == t.m && p.2 == t.ms && p.3 == t.tz,
            None => r is None,
        },
        r matches Some(p) ==> p.0 <= 24 && p.1 <= 59 && p.2 <= 60000 && -899 <= p.3 <= 899,
{
    if v.len() - i < 5 {
        return None;
    }
    match (two_of(v, i), two_of(v, i + 3)) {
        (Some(h), Some(m)) => {
            if !(is_char(v, i + 2, ':') && h <= 24 && m <= 59) {
                return None;
            }
            match seconds_from(v, i + 5) {
                Some((ms, tail)) => match tz_suffix_from(v, tail) {
                    Some(tz) => Some((h, m, ms, tz)),
                    None => None,
                },
                None => None,
            }
        },
        _ => None,
    }
}

/// The value's date (year, month, day) and time of day, as read.
fn value_from(v: &Vec<char>) -> (r: Option<(Option<(i64, u64, u64)>, Option<(u64, u64, u64, i64)>)>)
    ensures
        r is None <==> time_value(v@) is None,
        r matches Some(p) ==> time_value(v@) == Some(tv_of(p.0, p.1)),
        r matches Some(p) ==> (p.0 matches Some(q) ==> -9999 <= q.0 <= 9999 && 1 <= q.1 <= 12 && 1 <= q.2 <= 31),
        r matches Some(p) ==> (p.1 matches Some(q) ==> q.0 <= 24 && q.1 <= 59 && q.2 <= 60000 && -899 <= q.3 <= 899),
{
    let b: usize = if is_char(v, 0, '-') {
        1
    } else {
        0
    };
    let alone = match time_from(v, 0) {
        Some(t) => Some((None, Some(t))),
        None => None,
    };
    let date = match (two_of(v, b), two_of(v, b + 2), two_of(v, b + 5), two_of(v, b + 8)) {
        (Some(y1), Some(y2), Some(m), Some(d)) => if is_char(v, b + 4, '-') && is_char(v, b + 7, '-')
            && 1 <= m && m <= 12 && 1 <= d && d <= 31 {
            Some((y1 * 100 + y2, m, d))
        } else {
            None
        },
        _ => None,
    };
    match date {
        Some((y0, m, d)) => {
            let y: i64 = if b == 1 {
                -(y0 as i64)
            } else {
                y0 as i64
            };
            let j = skip_space_t_from(v, b + 10);
            match time_from(v, j) {
                Some(t) => Some((Some((y, m, d)), Some(t))),
                None => if j >= v.len() {
                    Some((Some((y, m, d)), None))
                } else {
                    alone
                },
            }
        },
        None => alone,
    }
}

fn tdiv_of(a: i64, b: i64) -> (r: i64)
    requires
        b > 0,
        a > i64::MIN,
    ensures
        r == tdiv(a as int, b as int),
        a >= 0 ==> 0 <= r <= a,
        a < 0 ==> a <= r <= 0,
{
    if a >= 0 {
        let q = (a as u64) / (b as u64);
        proof {
            assert((a as int) / (b as int) <= a as int) by (nonlinear_arith)
                requires
                    a >= 0,
                    b > 0,
            ;
        }
        q as i64
    } else {
        let q = ((-a) as u64) / (b as u64);
        proof {
            assert((-a as int) / (b as int) <= -a as int) by (nonlinear_arith)
                requires
                    a < 0,
                    b > 0,
            ;
        }
        -(q as i64)
    }
}

fn day_number_of(y: i64, m: u64, d: u64) -> (r: i64)
    requires
        -4713 <= y <= 9999,
        1 <= m <= 12,
        1 <= d <= 31,
    ensures
        r == day_number(y as int, m as int, d as int),
        -1000000000 <= r <= 1000000000,
{
    let yy: i64 = if m <= 2 {
        y - 1
    } else {
        y
    };
    let mm: i64 = if m <= 2 {
        m as i64 + 12
    } else {
        m as i64
    };
    let a = tdiv_of(yy, 100);
    let b = 2 - a + tdiv_of(a, 4);
    tdiv_of(36525 * (yy + 4716), 100) + tdiv_of(306001 * (mm + 1), 10000) + d as i64 + b - 1524
}

/// The instant of a value whose year is in range.
fn instant_from(ymd: Option<(i64, u64, u64)>, time: Option<(u64, u64, u64, i64)>) -> (r: i64)
    requires
        ymd matches Some(q) ==> -4713 <= q.0 <= 9999 && 1 <= q.1 <= 12 && 1 <= q.2 <= 31,
        time matches Some(q) ==> q.0 <= 24 && q.1 <= 59 && q.2 <= 60000 && -899 <= q.3 <= 899,
    ensures
        r == instant_ms(tv_of(ymd, time)),
{
    let (y, m, d) = match ymd {
        Some(t) => t,
        None => (2000i64, 1u64, 1u64),
    };
    let days = day_number_of(y, m, d);
    let base: i64 = days * 86400000 - 43200000;
    match time {
        Some((h, mi, ms, tz)) => base + h as i64 * 3600000 + mi as i64 * 60000 + ms as i64 - tz * 60000,
        None => base,
    }
}

/// The text up to its first NUL character.
fn c_text_of(s: &String) -> (r: Vec<char>)
    ensures
        r@ == c_text(s@),
{
    let v = chars_of(s.as_str());
    let mut out: Vec<char> = Vec::new();
    let mut i: usize = 0;
    while i < v.len() && v[i] != '\0'
        invariant
            i <= v@.len(),
            v@ == s@,
            out@ == v@.take(i as int),
            nul_at(v@, 0) == nul_at(v@, i as int),
        decreases v@.len() - i,
    {
        out.push(v[i]);
        i = i + 1;
        assert(out@ =~= v@.take(i as int));
    }
    out
}

/// What the date functions read from a time value (see `sql_time`).
pub struct SqlTimeValue {
    pub date: String,
    pub day: u64,
    pub hour: u64,
    pub minute: u64,
    pub weekday: u64,
}

/// Reads a time value as the store's date functions do; `None` where they
/// give NULL.
pub fn read_sql_time(s: &String) -> (r: Option<SqlTimeValue>)
    ensures
        match sql_time(s@) {
            Some(t) => r matches Some(x) && x.date@ == t.date && x.day == t.day && x.hour == t.hour
                && x.minute == t.minute && x.weekday == t.weekday,
            None => r is None,
        },
        r matches Some(x) ==> 1 <= x.day <= 31 && x.hour <= 24 && x.minute <= 59 && x.weekday < 7,
{
    proof {
        lemma_sql_time_bounds(s@);
    }
    let v = c_text_of(s);
    match value_from(&v) {
        Some((ymd, time)) => sql_time_from(ymd, time),
        None => None,
    }
}

fn sql_time_from(ymd: Option<(i64, u64, u64)>, time: Option<(u64, u64, u64, i64)>) -> (r: Option<SqlTimeValue>)
    requires
        ymd matches Some(q) ==> -9999 <= q.0 <= 9999 && 1 <= q.1 <= 12 && 1 <= q.2 <= 31,
        time matches Some(q) ==> q.0 <= 24 && q.1 <= 59 && q.2 <= 60000 && -899 <= q.3 <= 899,
    ensures
        match sql_of_value(tv_of(ymd, time)) {
            Some(t) => r matches Some(x) && x.date@ == t.date && x.day == t.day && x.hour == t.hour
                && x.minute == t.minute && x.weekday == t.weekday,
            None => r is None,
        },
{
    let ghost tv = tv_of(ymd, time);
    if let Some((y, _, _)) = ymd {
        if y < -4713 || y > 9999 {
            return None;
        }
    }
    let jd = instant_from(ymd, time);
    if jd < 0 || jd > 464269060799999 {
        return None;
    }
    assert(value_in_range(tv));
    let shifted = match time {
        Some((_, _, _, tz)) => tz != 0,
        None => false,
    };
    let (yr, mo, dy): (i64, i64, i64) = match ymd {
        Some((y, m, d)) => if !shifted && d <= 28 {
            (y, m as i64, d as i64)
        } else {
            civil_from(jd)
        },
        None => civil_from(jd),
    };
    let day_ms = (jd + 43200000) % 86400000;
    let (h, mi): (i64, i64) = match time {
        Some((h, mi, _, _)) => if !shifted {
            (h as i64, mi as i64)
        } else {
            (day_ms / 3600000, (day_ms / 60000) % 60)
        },
        None => (day_ms / 3600000, (day_ms / 60000) % 60),
    };
    let weekday = ((jd + 129600000) / 86400000) % 7;
    let date = date_text_from(yr, mo, dy);
    Some(SqlTimeValue { date, day: dy as u64, hour: h as u64, minute: mi as u64, weekday: weekday as u64 })
}

fn date_text_from(yr: i64, mo: i64, dy: i64) -> (r: String)
    requires
        -9999 <= yr <= 9999,
        1 <= mo <= 12,
        1 <= dy <= 31,
    ensures
        r@ == date_text_of(yr as int, mo as int, dy as int),
{
    let mut date = String::new();
    if yr < 0 {
        push_char(&mut date, '-');
    }
    let ay: i64 = if yr < 0 {
        -yr
    } else {
        yr
    };
    push_padded(&mut date, ay as u64, 4);
    push_char(&mut date, '-');
    push_padded(&mut date, mo as u64, 2);
    push_char(&mut date, '-');
    push_padded(&mut date, dy as u64, 2);
    proof {
        assert(date@ =~= date_text_of(yr as int, mo as int, dy as int));
    }
    date
}

/// The calendar date of an instant in range.
fn civil_from(jd: i64) -> (r: (i64, i64, i64))
    requires
        0 <= jd <= 464269060799999,
    ensures
        (r.0 as int, r.1 as int, r.2 as int) == civil_of(jd as int),
        -4713 <= r.0 <= 9999,
        1 <= r.1 <= 12,
        1 <= r.2 <= 31,
{
    let z = (jd + 43200000) / 86400000;
    let a0 = tdiv_of(4 * z - 7468865, 146097);
    let a = z + 1 + a0 - tdiv_of(a0, 4);
    let b = a + 1524;
    let c = (20 * b - 2442) / 7305;
    let d = 36525 * c / 100;
    let e = (b - d) * 10000 / 306001;
    let x1 = 306001 * e / 10000;
    let month = if e < 14 {
        e - 1
    } else {
        e - 13
    };
    (
        if month > 2 {
            c - 4716
        } else {
            c - 4715
        },
        month,
        b - d - x1,
    )
}

proof fn lemma_civil_bounds(jd: int)
    requires
        0 <= jd <= max_instant(),
    ensures
        1 <= civil_of(jd).1 <= 12,
        1 <= civil_of(jd).2 <= 31,
{
}

proof fn lemma_time_at_bounds(s: Seq<char>, i: int)
    ensures
        time_at(s, i) matches Some(t) ==> 0 <= t.h <= 24 && 0 <= t.m <= 59,
{
}

/// The fields read from a time value stay in their ranges.
pub proof fn lemma_sql_time_bounds(text: Seq<char>)
    ensures
        sql_time(text) matches Some(t) ==> 1 <= t.day <= 31 && t.hour <= 24 && t.minute <= 59 && t.weekday < 7,
{
    let s = c_text(text);
    let b: int = if char_at(s, 0, '-') {
        1
    } else {
        0
    };
    lemma_time_at_bounds(s, 0);
    lemma_time_at_bounds(s, skip_space_t(s, b + 10));
    if let Some(v) = time_value(s) {
        if value_in_range(v) {
            lemma_civil_bounds(instant_ms(v));
        }
    }
}

#[verifier::spinoff_prover]
#[verifier::rlimit(100)]
proof fn lemma_round_trip_jan_apr(y: int, m: int, d: int)
    requires
        0 <= y <= 9999,
        1 <= m <= 4,
        29 <= d <= days_in_month(y, m),
    ensures
        civil_day(day_number(y, m, d)) == (y, m, d),
{
}

#[verifier::spinoff_prover]
#[verifier::rlimit(100)]
proof fn lemma_round_trip_may_aug(y: int, m: int, d: int)
    requires
        0 <= y <= 9999,
        5 <= m <= 8,
        29 <= d <= days_in_month(y, m),
    ensures
        civil_day(day_number(y, m, d)) == (y, m, d),
{
}

#[verifier::spinoff_prover]
#[verifier::rlimit(100)]
proof fn lemma_round_trip_sep_dec(y: int, m: int, d: int)
    requires
        0 <= y <= 9999,
        9 <= m <= 12,
        29 <= d <= days_in_month(y, m),
    ensures
        civil_day(day_number(y, m, d)) == (y, m, d),
{
}

/// A calendar date from the 29th on, of a year from 0 to 9999, is given back by
/// the day count's inverse. (Earlier days are read as written and need no
/// round trip; the inverse does not give back 0300-03-01.)
pub proof fn lemma_day_count_round_trip(y: int, m: int, d: int)
    requires
        0 <= y <= 9999,
        1 <= m <= 12,
        29 <= d <= days_in_month(y, m),
    ensures
        civil_day(day_number(y, m, d)) == (y, m, d),
{
    if m <= 4 {
        lemma_round_trip_jan_apr(y, m, d);
    } else if m <= 8 {
        lemma_round_trip_may_aug(y, m, d);
    } else {
        lemma_round_trip_sep_dec(y, m, d);
    }
}

/// Law: the day of the week read from a time value is the day count of its
/// instant plus one, modulo 7 — it advances by one at each midnight of the
/// instant, whatever the month, and 0 is Sunday.
pub proof fn law_weekday_counts_days(text: Seq<char>)
    ensures
        sql_time(text) matches Some(t) ==> (time_value(c_text(text)) matches Some(v) && t.weekday == ((
        instant_ms(v) + 43200000) / 86400000 + 1) % 7),
{
}

} // verus!
