//! Wall-clock readings and the textual date and time keys derived from them
//! (`%Y-%m-%d`, `%Y-%m-%d %H:%M:%S`, `%Y-%m`).
use crate::text::{padded, push_char, push_padded};
use vstd::prelude::*;

verus! {

/// Calendar date and time of day, as read from a clock.
#[derive(Clone, Copy, Debug, PartialEq, Eq)]
pub struct ClockReading {
    pub year: i32,
    pub month: u32,
    pub day: u32,
    pub hour: u32,
    pub minute: u32,
    pub second: u32,
}

impl ClockReading {
    /// Field ranges that a calendar reading always has.
    pub open spec fn wf(self) -> bool {
        &&& 1 <= self.month <= 12
        &&& 1 <= self.day <= 31
        &&& self.hour < 24
        &&& self.minute < 60
        &&& self.second < 60
    }
}

/// `%Y`: the year zero-padded to four digits; years outside 0..=9999 carry a sign.
pub open spec fn year_text(y: int) -> Seq<char> {
    if 0 <= y <= 9999 {
        padded(y as nat, 4)
    } else if y < 0 {
        seq!['-'] + padded((-y) as nat, 4)
    } else {
        seq!['+'] + padded(y as nat, 4)
    }
}

/// `%Y-%m`.
pub open spec fn month_key_text(c: ClockReading) -> Seq<char> {
    year_text(c.year as int) + seq!['-'] + padded(c.month as nat, 2)
}

/// `%Y-%m-%d`.
pub open spec fn date_text(c: ClockReading) -> Seq<char> {
    month_key_text(c) + seq!['-'] + padded(c.day as nat, 2)
}

/// `%Y-%m-%d %H:%M:%S`.
pub open spec fn timestamp_text(c: ClockReading) -> Seq<char> {
    date_text(c) + seq![' '] + padded(c.hour as nat, 2) + seq![':'] + padded(c.minute as nat, 2)
        + seq![':'] + padded(c.second as nat, 2)
}

/// Reads the local wall clock (`chrono::Local::now`). The reading depends on the
/// time and the machine's time zone, so nothing is said of it beyond the field
/// ranges that chrono documents for `Datelike` and `Timelike`.
#[verifier::external_body]
fn read_local_clock() -> (c: ClockReading)
    ensures
        c.wf(),
{
    let now = chrono::Local::now();
    ClockReading {
        year: chrono::Datelike::year(&now),
        month: chrono::Datelike::month(&now),
        day: chrono::Datelike::day(&now),
        hour: chrono::Timelike::hour(&now),
        minute: chrono::Timelike::minute(&now),
        second: chrono::Timelike::second(&now),
    }
}

/// Reads the UTC wall clock (`chrono::Utc::now`). As with the local clock, only
/// the documented field ranges are stated.
#[verifier::external_body]
fn read_utc_clock() -> (c: ClockReading)
    ensures
        c.wf(),
{
    let now = chrono::Utc::now();
    ClockReading {
        year: chrono::Datelike::year(&now),
        month: chrono::Datelike::month(&now),
        day: chrono::Datelike::day(&now),
        hour: chrono::Timelike::hour(&now),
        minute: chrono::Timelike::minute(&now),
        second: chrono::Timelike::second(&now),
    }
}

/// Appends `%Y` for `year`.
pub fn push_year(out: &mut String, year: i32)
    ensures
        final(out)@ == old(out)@ + year_text(year as int),
{
    if 0 <= year && year <= 9999 {
        push_padded(out, year as u64, 4);
    } else if year < 0 {
        push_char(out, '-');
        let magnitude: u64 = (0 - (year as i64)) as u64;
        push_padded(out, magnitude, 4);
    } else {
        push_char(out, '+');
        push_padded(out, year as u64, 4);
    }
    assert(out@ =~= old(out)@ + year_text(year as int));
}

impl ClockReading {
    /// The reading as `%Y-%m`.
    pub fn month_key(&self) -> (r: String)
        ensures
            r@ == month_key_text(*self),
    {
        let mut r = String::new();
        push_year(&mut r, self.year);
        push_char(&mut r, '-');
        push_padded(&mut r, self.month as u64, 2);
        assert(r@ =~= month_key_text(*self));
        r
    }

    /// The reading as `%Y-%m-%d`.
    pub fn date(&self) -> (r: String)
        ensures
            r@ == date_text(*self),
    {
        let mut r = self.month_key();
        push_char(&mut r, '-');
        push_padded(&mut r, self.day as u64, 2);
        assert(r@ =~= date_text(*self));
        r
    }

    /// The reading as `%Y-%m-%d %H:%M:%S`.
    pub fn timestamp(&self) -> (r: String)
        ensures
            r@ == timestamp_text(*self),
    {
        let mut r = self.date();
        push_char(&mut r, ' ');
        push_padded(&mut r, self.hour as u64, 2);
        push_char(&mut r, ':');
        push_padded(&mut r, self.minute as u64, 2);
        push_char(&mut r, ':');
        push_padded(&mut r, self.second as u64, 2);
        assert(r@ =~= timestamp_text(*self));
        r
    }

    /// Minutes since midnight.
    pub fn minute_of_day(&self) -> (r: u32)
        requires
            self.wf(),
        ensures
            r == self.hour * 60 + self.minute,
    {
        self.hour * 60 + self.minute
    }
}

/// The local time, as the monitoring and alert loops key their records by it.
pub struct LocalPeriod {
    pub clock: ClockReading,
    /// `%Y-%m-%d`
    pub date: String,
    /// `%Y-%m-%d %H:%M:%S`
    pub timestamp: String,
    /// `%Y-%m`
    pub month_key: String,
    pub year: i32,
    pub month: u32,
}

/// Reads the local clock and derives the keys used for daily and monthly records.
pub fn current_local_period() -> (p: LocalPeriod)
    ensures
        p.clock.wf(),
        p.date@ == date_text(p.clock),
        p.timestamp@ == timestamp_text(p.clock),
        p.month_key@ == month_key_text(p.clock),
        p.year == p.clock.year,
        p.month == p.clock.month,
{
    let clock = read_local_clock();
    LocalPeriod {
        clock,
        date: clock.date(),
        timestamp: clock.timestamp(),
        month_key: clock.month_key(),
        year: clock.year,
        month: clock.month,
    }
}

/// Reads the UTC clock and renders it as `%Y-%m-%d %H:%M:%S`.
pub fn current_utc_timestamp() -> (r: (ClockReading, String))
    ensures
        r.0.wf(),
        r.1@ == timestamp_text(r.0),
{
    let clock = read_utc_clock();
    (clock, clock.timestamp())
}

} // verus!
