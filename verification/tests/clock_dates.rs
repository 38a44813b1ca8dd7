use data_tracker::clock::{current_local_period, current_utc_timestamp, ClockReading};
use data_tracker::db::dates::{month_range, month_start};
use data_tracker::db::sqltime::{read_sql_time, SqlTimeValue};

#[test]
fn clock_keys() {
    let c = ClockReading { year: 2024, month: 3, day: 7, hour: 9, minute: 5, second: 2 };
    assert_eq!(c.date(), "2024-03-07");
    assert_eq!(c.timestamp(), "2024-03-07 09:05:02");
    assert_eq!(c.month_key(), "2024-03");
    assert_eq!(c.minute_of_day(), 545);
    let early = ClockReading { year: 999, month: 12, day: 31, hour: 23, minute: 59, second: 59 };
    assert_eq!(early.date(), "0999-12-31");
}

#[test]
fn local_period_matches_its_clock() {
    let p = current_local_period();
    assert_eq!(p.date, p.clock.date());
    assert_eq!(p.timestamp, p.clock.timestamp());
    assert_eq!(p.month_key, p.clock.month_key());
    assert_eq!(p.year, p.clock.year);
    assert!(p.clock.year >= 2024);
    assert!((1..=12).contains(&p.month));
    let (c, ts) = current_utc_timestamp();
    assert_eq!(ts, c.timestamp());
    assert!(c.year >= 2024);
}

fn read(s: &str) -> Option<(String, u64, u64, u64, u64)> {
    read_sql_time(&s.to_string()).map(|t: SqlTimeValue| (t.date, t.day, t.hour, t.minute, t.weekday))
}

fn fields(date: &str, day: u64, hour: u64, minute: u64, weekday: u64) -> Option<(String, u64, u64, u64, u64)> {
    Some((date.to_string(), day, hour, minute, weekday))
}

#[test]
fn time_values_read_as_the_store_reads_them() {
    assert_eq!(read("2024-05-01"), fields("2024-05-01", 1, 0, 0, 3));
    assert_eq!(read("2024-05-01 13:45:30"), fields("2024-05-01", 1, 13, 45, 3));
    assert_eq!(read("2024-05-01T13:45"), fields("2024-05-01", 1, 13, 45, 3));
    assert_eq!(read("2024-05-01   13:45:30.250"), fields("2024-05-01", 1, 13, 45, 3));
    assert_eq!(read("2024-05-01 13:45:30Z"), fields("2024-05-01", 1, 13, 45, 3));
    assert_eq!(read("2024-05-01 24:00:00"), fields("2024-05-01", 1, 24, 0, 4));
    assert_eq!(read(" 2024-05-01"), None);
    assert_eq!(read("2024-5-01"), None);
    assert_eq!(read("2024-05-01 13"), None);
    assert_eq!(read("2024-05-01 13:45:30 x"), None);
    assert_eq!(read("2024-13-01"), None);
    assert_eq!(read(""), None);
}

#[test]
fn days_past_the_28th_are_normalised() {
    assert_eq!(read("2024-02-30"), fields("2024-03-01", 1, 0, 0, 5));
    assert_eq!(read("2023-02-29 10:00:00"), fields("2023-03-01", 1, 10, 0, 3));
    assert_eq!(read("2024-02-29"), fields("2024-02-29", 29, 0, 0, 4));
    assert_eq!(read("2024-04-31 08:15"), fields("2024-05-01", 1, 8, 15, 3));
    assert_eq!(read("1999-12-31 23:59:59"), fields("1999-12-31", 31, 23, 59, 5));
}

#[test]
fn offsets_move_the_value_to_utc() {
    assert_eq!(read("2024-05-01 10:00:00+02:00"), fields("2024-05-01", 1, 8, 0, 3));
    assert_eq!(read("2024-05-01 01:30-03:30"), fields("2024-05-01", 1, 5, 0, 3));
    assert_eq!(read("2024-05-01 01:00:00+02:00"), fields("2024-04-30", 30, 23, 0, 2));
    assert_eq!(read("2024-05-01 10:00:00+15:00"), None);
}

#[test]
fn a_time_alone_falls_on_the_first_of_january_2000() {
    assert_eq!(read("10:30"), fields("2000-01-01", 1, 10, 30, 6));
    assert_eq!(read("23:59:59.9996"), fields("2000-01-02", 2, 23, 59, 0));
}

#[test]
fn weekdays() {
    assert_eq!(read("2024-05-05").unwrap().4, 0);
    assert_eq!(read("2024-05-06").unwrap().4, 1);
    assert_eq!(read("2000-01-01").unwrap().4, 6);
    assert_eq!(read("2024-02-29").unwrap().4, 4);
    assert_eq!(read("1970-01-01").unwrap().4, 4);
}

#[test]
fn years_out_of_range() {
    assert_eq!(read("-4713-11-24 12:00:00"), fields("-4713-11-24", 24, 12, 0, 1));
    assert_eq!(read("-4713-11-24 11:59:59"), None);
    assert_eq!(read("-4714-01-01"), None);
    assert_eq!(read("9999-12-31 23:59:59"), fields("9999-12-31", 31, 23, 59, 5));
}

#[test]
fn month_bounds() {
    assert_eq!(month_start(2024, 5), "2024-05-01");
    assert_eq!(month_start(-5, 1), "-5-01-01");
    assert_eq!(month_range(2024, 12), ("2024-12-01".to_string(), "2025-01-01".to_string()));
    assert_eq!(month_range(2024, 1), ("2024-01-01".to_string(), "2024-02-01".to_string()));
}

#[test]
fn clock_keys_are_read_back() {
    for (y, mo, d, h, mi) in [(2024, 2, 29, 0, 0), (1999, 12, 31, 23, 59), (7, 1, 1, 9, 5)] {
        let c = ClockReading { year: y, month: mo, day: d, hour: h, minute: mi, second: 30 };
        let t = read_sql_time(&c.date()).unwrap();
        assert_eq!((t.date, t.day), (c.date(), d as u64));
        let t = read_sql_time(&c.timestamp()).unwrap();
        assert_eq!((t.date, t.day, t.hour, t.minute), (c.date(), d as u64, h as u64, mi as u64));
    }
}
