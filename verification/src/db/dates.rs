//! The month keys and ranges that the queries take, and how the store reads
//! back the date and timestamp keys that the monitoring loop writes.
use crate::db::sqltime::{
    c_text, char_at, date_at, date_text_of, day_number, days_in_month, lemma_day_count_round_trip,
    nul_at, seconds_at, skip_space, skip_space_t, sql_time, time_at, time_value, tz_suffix, val2,
    sql_of_value, value_in_range, TimeOfDay, TimeValue,
};
use crate::text::{
    decimal, digit_char, digit_value, is_digit, padded, push_char, push_decimal, push_padded, push_str,
};
use vstd::prelude::*;

verus! {

spec fn num2(s: Seq<char>, i: int) -> nat {
    digit_value(s[i]) * 10 + digit_value(s[i + 1])
}

spec fn num4(s: Seq<char>, i: int) -> nat {
    num2(s, i) * 100 + num2(s, i + 2)
}

spec fn digits_at(s: Seq<char>, i: int, n: int) -> bool {
    forall|k: int| i <= k < i + n ==> is_digit(#[trigger] s[k])
}

/// A year as `{}` prints an `i32`: decimal, with `-` when negative.
pub open spec fn int_text(y: int) -> Seq<char> {
    if y < 0 {
        seq!['-'] + decimal((-y) as nat)
    } else {
        decimal(y as nat)
    }
}

/// `{year}-{month:02}-01`, the first day of a month as the month queries write it.
pub open spec fn month_start_text(y: int, m: nat) -> Seq<char> {
    int_text(y) + seq!['-'] + padded(m, 2) + seq!['-', '0', '1']
}

/// The first day of the month after (`year`, `month`): January of the next year
/// after December.
pub open spec fn next_month(y: int, m: nat) -> (int, nat) {
    if m == 12 {
        (y + 1, 1)
    } else {
        (y, m + 1)
    }
}

/// Whether computing the following month stays within the integer types.
pub open spec fn next_month_defined(y: i32, m: u32) -> bool {
    if m == 12 {
        y < i32::MAX
    } else {
        m < u32::MAX
    }
}

pub fn push_int(out: &mut String, y: i32)
    ensures
        final(out)@ == old(out)@ + int_text(y as int),
{
    if y < 0 {
        push_char(out, '-');
        let magnitude: u64 = (0 - (y as i64)) as u64;
        push_decimal(out, magnitude);
    } else {
        push_decimal(out, y as u64);
    }
    assert(out@ =~= old(out)@ + int_text(y as int));
}

/// The first day of the month as text.
pub fn month_start(year: i32, month: u32) -> (r: String)
    ensures
        r@ == month_start_text(year as int, month as nat),
{
    let mut r = String::new();
    push_int(&mut r, year);
    push_char(&mut r, '-');
    push_padded(&mut r, month as u64, 2);
    push_str(&mut r, "-01");
    proof {
        reveal_strlit("-01");
    }
    assert(r@ =~= month_start_text(year as int, month as nat));
    r
}

/// The bounds of a month's date range: its first day and the first day of the next month.
pub fn month_range(year: i32, month: u32) -> (r: (String, String))
    requires
        next_month_defined(year, month),
    ensures
        r.0@ == month_start_text(year as int, month as nat),
        r.1@ == month_start_text(next_month(year as int, month as nat).0, next_month(year as int, month as nat).1),
{
    let start = month_start(year, month);
    let next_month_number = if month == 12 {
        1
    } else {
        month + 1
    };
    let next_year = if month == 12 {
        year + 1
    } else {
        year
    };
    let end = month_start(next_year, next_month_number);
    (start, end)
}


proof fn lemma_digit_char(d: int)
    requires
        0 <= d < 10,
    ensures
        is_digit(digit_char(d)),
        digit_value(digit_char(d)) == d,
{
}

proof fn lemma_decimal_small(n: nat)
    requires
        n < 10000,
    ensures
        n < 10 ==> decimal(n) == seq![digit_char(n as int)],
        10 <= n < 100 ==> decimal(n) == seq![digit_char((n / 10) as int), digit_char((n % 10) as int)],
        100 <= n < 1000 ==> decimal(n) == seq![
            digit_char((n / 100) as int),
            digit_char(((n / 10) % 10) as int),
            digit_char((n % 10) as int),
        ],
        1000 <= n ==> decimal(n) == seq![
            digit_char((n / 1000) as int),
            digit_char(((n / 100) % 10) as int),
            digit_char(((n / 10) % 10) as int),
            digit_char((n % 10) as int),
        ],
{
    reveal_with_fuel(decimal, 4);
    if n >= 10 {
        assert(n / 10 / 10 == n / 100);
        assert(n / 100 / 10 == n / 1000);
        assert((n / 10) % 10 == (n / 10) % 10);
        assert(decimal(n) == decimal(n / 10).push(digit_char((n % 10) as int)));
        if n >= 100 {
            assert(decimal(n / 10) == decimal(n / 100).push(digit_char(((n / 10) % 10) as int)));
            if n >= 1000 {
                assert(decimal(n / 100) == decimal(n / 1000).push(digit_char(((n / 100) % 10) as int)));
            }
        }
    }
}

/// The digits of a number below 100 padded to two places.
proof fn lemma_padded2(n: nat)
    requires
        n < 100,
    ensures
        padded(n, 2).len() == 2,
        is_digit(padded(n, 2)[0]) && is_digit(padded(n, 2)[1]),
        digit_value(padded(n, 2)[0]) * 10 + digit_value(padded(n, 2)[1]) == n,
{
    lemma_decimal_small(n);
    lemma_digit_char((n / 10) as int);
    lemma_digit_char((n % 10) as int);
    if n < 10 {
        assert(padded(n, 2) =~= seq!['0', digit_char(n as int)]);
    } else {
        assert(padded(n, 2) =~= seq![digit_char((n / 10) as int), digit_char((n % 10) as int)]);
    }
}

/// The digits of a number below 10000 padded to four places.
proof fn lemma_padded4(n: nat)
    requires
        n < 10000,
    ensures
        padded(n, 4).len() == 4,
        digits_at(padded(n, 4), 0, 4),
        num4(padded(n, 4), 0) == n,
{
    lemma_decimal_small(n);
    let a = (n / 1000) as int;
    let b = ((n / 100) % 10) as int;
    let c = ((n / 10) % 10) as int;
    let d = (n % 10) as int;
    lemma_digit_char(a);
    lemma_digit_char(b);
    lemma_digit_char(c);
    lemma_digit_char(d);
    let s = seq![digit_char(a), digit_char(b), digit_char(c), digit_char(d)];
    if n < 10 {
        assert(padded(n, 4) =~= seq!['0', '0', '0', digit_char(d)]);
    } else if n < 100 {
        assert(padded(n, 4) =~= seq!['0', '0', digit_char(c), digit_char(d)]);
    } else if n < 1000 {
        assert(padded(n, 4) =~= seq!['0', digit_char(b), digit_char(c), digit_char(d)]);
    } else {
        assert(padded(n, 4) =~= s);
    }
    assert(((a * 10 + b) * 100 + c * 10 + d) == n) by (nonlinear_arith)
        requires
            a == n / 1000,
            b == (n / 100) % 10,
            c == (n / 10) % 10,
            d == n % 10,
            n < 10000,
    ;
}

proof fn lemma_no_nul(s: Seq<char>, i: int)
    requires
        0 <= i <= s.len(),
        forall|k: int| 0 <= k < s.len() ==> s[k] != '\0',
    ensures
        nul_at(s, i) == s.len(),
    decreases s.len() - i,
{
    if i < s.len() {
        lemma_no_nul(s, i + 1);
    }
}

/// The first ten characters of `s` are the date `y`-`m`-`d` written as
/// `date_text_of` writes it.
pub open spec fn date_written(s: Seq<char>, y: nat, m: nat, d: nat) -> bool {
    &&& s.len() >= 10
    &&& s.subrange(0, 10) == date_text_of(y as int, m as int, d as int)
}

proof fn lemma_date_written(s: Seq<char>, y: nat, m: nat, d: nat)
    requires
        y <= 9999,
        1 <= m <= 12,
        1 <= d <= 31,
        s.len() >= 10,
        s.subrange(0, 10) == padded(y, 4) + seq!['-'] + padded(m, 2) + seq!['-'] + padded(d, 2),
    ensures
        date_written(s, y, m, d),
        date_at(s, 0),
        !char_at(s, 0, '-'),
        val2(s, 0) * 100 + val2(s, 2) == y,
        val2(s, 5) == m,
        val2(s, 8) == d,
{
    lemma_padded4(y);
    lemma_padded2(m);
    lemma_padded2(d);
    let p = s.subrange(0, 10);
    assert(p[0] == s[0] && p[1] == s[1] && p[2] == s[2] && p[3] == s[3] && p[4] == s[4]);
    assert(p[5] == s[5] && p[6] == s[6] && p[7] == s[7] && p[8] == s[8] && p[9] == s[9]);
    assert(date_text_of(y as int, m as int, d as int) =~= padded(y, 4) + seq!['-'] + padded(m, 2) + seq!['-']
        + padded(d, 2));
    assert(is_digit(s[0]) && is_digit(s[1]) && is_digit(s[2]) && is_digit(s[3]));
}

proof fn lemma_day_number_range(y: int, m: int, d: int)
    requires
        0 <= y <= 9999,
        1 <= m <= 12,
        1 <= d <= 31,
    ensures
        1721000 <= day_number(y, m, d) <= 5373484,
{
}

/// How the store reads a clock reading's date and timestamp keys.
proof fn lemma_clock_key_values(c: crate::clock::ClockReading)
    requires
        c.wf(),
        0 <= c.year <= 9999,
    ensures
        time_value(c_text(crate::clock::date_text(c))) == Some(clock_date_value(c)),
        time_value(c_text(crate::clock::timestamp_text(c))) == Some(clock_value(c)),
        date_text_of(c.year as int, c.month as int, c.day as int) == crate::clock::date_text(c),
{
    let y = c.year as nat;
    let date = crate::clock::date_text(c);
    let ts = crate::clock::timestamp_text(c);
    let h = padded(c.hour as nat, 2);
    let mi = padded(c.minute as nat, 2);
    let se = padded(c.second as nat, 2);
    lemma_padded4(y);
    lemma_padded2(c.month as nat);
    lemma_padded2(c.day as nat);
    lemma_padded2(c.hour as nat);
    lemma_padded2(c.minute as nat);
    lemma_padded2(c.second as nat);
    assert(date =~= padded(y, 4) + seq!['-'] + padded(c.month as nat, 2) + seq!['-'] + padded(c.day as nat, 2));
    assert(ts =~= date + seq![' '] + h + seq![':'] + mi + seq![':'] + se);
    assert(date.subrange(0, 10) =~= date);
    assert(ts.subrange(0, 10) =~= date);
    lemma_date_written(date, y, c.month as nat, c.day as nat);
    lemma_date_written(ts, y, c.month as nat, c.day as nat);
    assert forall|k: int| 0 <= k < date.len() implies date[k] != '\0' by {
        if k < 4 {
            assert(is_digit(date[k]));
        } else if k == 5 || k == 6 || k == 8 || k == 9 {
            assert(is_digit(date[k]));
        }
    }
    assert forall|k: int| 0 <= k < ts.len() implies ts[k] != '\0' by {
        if k < 10 {
            assert(ts[k] == date[k]);
        } else if k == 11 || k == 12 {
            assert(is_digit(h[k - 11]));
        } else if k == 14 || k == 15 {
            assert(is_digit(mi[k - 14]));
        } else if k == 17 || k == 18 {
            assert(is_digit(se[k - 17]));
        }
    }
    lemma_no_nul(date, 0);
    lemma_no_nul(ts, 0);
    assert(c_text(date) =~= date);
    assert(c_text(ts) =~= ts);
    // the date alone
    assert(skip_space_t(date, 10) == 10);
    assert(time_at(date, 10) is None);
    // the timestamp: a time of day after one space, with seconds and no offset
    assert(ts[10] == ' ' && is_digit(ts[11]));
    assert(skip_space_t(ts, 11) == 11);
    assert(skip_space_t(ts, 10) == 11);
    assert(ts[13] == ':' && ts[16] == ':');
    assert(val2(ts, 11) == c.hour && val2(ts, 14) == c.minute && val2(ts, 17) == c.second);
    assert(seconds_at(ts, 16) == Some((c.second as int * 1000, 19int)));
    assert(skip_space(ts, 19) == 19);
    assert(tz_suffix(ts, 19) == Some(0int));
    assert(time_at(ts, 11) == Some(TimeOfDay { h: c.hour as int, m: c.minute as int, ms: c.second as int * 1000, tz: 0 }));
    assert(time_value(date) == Some(clock_date_value(c)));
    assert(time_value(ts) == Some(clock_value(c)));
}

proof fn lemma_clock_values_in_range(c: crate::clock::ClockReading)
    requires
        c.wf(),
        0 <= c.year <= 9999,
    ensures
        value_in_range(clock_date_value(c)),
        value_in_range(clock_value(c)),
{
    lemma_day_number_range(c.year as int, c.month as int, c.day as int);
}

/// The time value of a clock reading's date key.
pub open spec fn clock_date_value(c: crate::clock::ClockReading) -> TimeValue {
    TimeValue { ymd: Some((c.year as int, c.month as int, c.day as int)), time: None }
}

/// The time value of a clock reading's timestamp key.
pub open spec fn clock_value(c: crate::clock::ClockReading) -> TimeValue {
    TimeValue {
        ymd: Some((c.year as int, c.month as int, c.day as int)),
        time: Some(TimeOfDay { h: c.hour as int, m: c.minute as int, ms: c.second as int * 1000, tz: 0 }),
    }
}

/// Law: the date and timestamp keys that the monitoring loop writes from a clock
/// reading are read back by the store's date functions as that reading's date,
/// day of the month, hour and minute (for years written with four digits and a
/// reading that names a calendar date; the hour and minute for any reading).
pub proof fn law_clock_keys_read_back(c: crate::clock::ClockReading)
    requires
        c.wf(),
        0 <= c.year <= 9999,
    ensures
        sql_time(crate::clock::timestamp_text(c)) matches Some(t) && t.hour == c.hour && t.minute == c.minute,
        sql_time(crate::clock::date_text(c)) is Some,
        c.day <= days_in_month(c.year as int, c.month as int) ==> (sql_time(crate::clock::timestamp_text(c))
            matches Some(t) && t.date == crate::clock::date_text(c) && t.day == c.day),
        c.day <= days_in_month(c.year as int, c.month as int) ==> (sql_time(crate::clock::date_text(c))
            matches Some(t) && t.date == crate::clock::date_text(c) && t.day == c.day),
{
    lemma_clock_key_values(c);
    lemma_clock_values_in_range(c);
    let y = c.year as nat;
    lemma_day_number_range(y as int, c.month as int, c.day as int);
    assert(sql_time(crate::clock::date_text(c)) == sql_of_value(clock_date_value(c)));
    assert(sql_time(crate::clock::timestamp_text(c)) == sql_of_value(clock_value(c)));
    if 28 < c.day <= days_in_month(c.year as int, c.month as int) {
        let n = day_number(y as int, c.month as int, c.day as int);
        lemma_day_count_round_trip(y as int, c.month as int, c.day as int);
        let t = c.hour as int * 3600000 + c.minute as int * 60000 + c.second as int * 1000;
        assert((n * 86400000 - 43200000 + 43200000) / 86400000 == n) by (nonlinear_arith);
        assert((n * 86400000 - 43200000 + t + 43200000) / 86400000 == n) by (nonlinear_arith)
            requires
                0 <= t < 86400000,
        ;
    }
}

/// Law: the weekday read from a clock reading's date key, and from its
/// timestamp key, is the date's day count plus one, modulo 7 (0 for Sunday):
/// 1970-01-01 is a Thursday, and whatever the month, each day's keys read one
/// weekday later than the day before.
pub proof fn law_key_weekday(c: crate::clock::ClockReading)
    requires
        c.wf(),
        0 <= c.year <= 9999,
    ensures
        sql_time(crate::clock::date_text(c)) matches Some(t) && t.weekday == (day_number(
            c.year as int,
            c.month as int,
            c.day as int,
        ) + 1) % 7,
        sql_time(crate::clock::timestamp_text(c)) matches Some(t) && t.weekday == (day_number(
            c.year as int,
            c.month as int,
            c.day as int,
        ) + 1) % 7,
        c.year == 1970 && c.month == 1 && c.day == 1 ==> (sql_time(crate::clock::date_text(c)) matches Some(
            t,
        ) && t.weekday == 4),
{
    lemma_clock_key_values(c);
    lemma_clock_values_in_range(c);
    assert(sql_time(crate::clock::date_text(c)) == sql_of_value(clock_date_value(c)));
    assert(sql_time(crate::clock::timestamp_text(c)) == sql_of_value(clock_value(c)));
    let n = day_number(c.year as int, c.month as int, c.day as int);
    let t = c.hour as int * 3600000 + c.minute as int * 60000 + c.second as int * 1000;
    assert((n * 86400000 - 43200000 + 129600000) / 86400000 == n + 1) by (nonlinear_arith);
    assert((n * 86400000 - 43200000 + t + 129600000) / 86400000 == n + 1) by (nonlinear_arith)
        requires
            0 <= t < 86400000,
    ;
}

/// Law: of two clock readings whose dates are consecutive days, the later
/// one's keys read as the next day of the week.
pub proof fn law_next_day_next_weekday(c1: crate::clock::ClockReading, c2: crate::clock::ClockReading)
    requires
        c1.wf(),
        c2.wf(),
        0 <= c1.year <= 9999,
        0 <= c2.year <= 9999,
        day_number(c2.year as int, c2.month as int, c2.day as int) == day_number(
            c1.year as int,
            c1.month as int,
            c1.day as int,
        ) + 1,
    ensures
        sql_time(crate::clock::date_text(c1)) matches Some(t1) && sql_time(crate::clock::date_text(c2)) matches Some(
            t2,
        ) && t2.weekday == (t1.weekday + 1) % 7,
{
    law_key_weekday(c1);
    law_key_weekday(c2);
    lemma_next_mod7(day_number(c1.year as int, c1.month as int, c1.day as int));
}

proof fn lemma_next_mod7(n: int)
    ensures
        (n + 2) % 7 == ((n + 1) % 7 + 1) % 7,
{
}

} // verus!
