//! Usage figures as the interface shows them: daily and monthly totals,
//! history, hourly and daily breakdowns, and the weekly heat map.
use crate::db::dates::{month_range, month_start_text, next_month, next_month_defined};
use crate::db::queries::{
    app_daily_breakdown_view, app_group_nonempty, app_hour_filter, app_hour_reached, app_down,
    app_total, app_up, cell_filter, cell_reached, day_breakdown_ok, day_filter, daily_breakdown_view,
    get_app_daily_breakdown_month as query_app_daily_breakdown,
    get_app_hourly_breakdown as query_app_hourly, get_daily_breakdown_for_month,
    get_daily_usage as query_daily_usage, get_hourly_breakdown as query_hourly,
    get_monthly_usage as query_monthly_usage, get_peak_hours_data, get_usage_history as query_history,
    group_filter, history_filter, history_reached, hour_filter, hour_reached, in_groups,
    month_days_filter, month_filter, sel_download, sel_peak_down, sel_peak_up, sel_total,
    sel_upload, snap_down, snap_group_nonempty, snap_total, snap_up, sums_fit, DbError, UsageStore,
};
use crate::db::{max_by, sum_by};
use crate::text::text_lt;
use vstd::prelude::*;

verus! {

/// The usage of one day.
pub struct DailyUsage {
    pub date: String,
    pub upload_bytes: u64,
    pub download_bytes: u64,
    pub total_bytes: u64,
    pub peak_upload_speed: u64,
    pub peak_download_speed: u64,
}

/// The usage of one month.
pub struct MonthlyUsage {
    pub year: i32,
    pub month: u32,
    pub upload_bytes: u64,
    pub download_bytes: u64,
    pub total_bytes: u64,
}

/// One day of the usage calendar.
pub struct DailyCalendarEntry {
    pub date: String,
    pub total_bytes: u64,
}

/// One hour of a day's adapter traffic.
pub struct HourlyBreakdown {
    pub hour: u32,
    pub upload_bytes: u64,
    pub download_bytes: u64,
}

/// One day of a month's adapter traffic.
pub struct DailyBreakdownEntry {
    pub day: u32,
    pub upload_bytes: u64,
    pub download_bytes: u64,
    pub total_bytes: u64,
}

/// One hour of a day's traffic of one application.
pub struct AppHourlyBreakdownEntry {
    pub hour: u32,
    pub upload_bytes: u64,
    pub download_bytes: u64,
    pub total_bytes: u64,
}

/// One day of a month's traffic of one application.
pub struct AppDailyBreakdownEntry {
    pub day: u32,
    pub upload_bytes: u64,
    pub download_bytes: u64,
    pub total_bytes: u64,
}

/// One cell of the weekly heat map: a day of the week (0 is Sunday) and an hour.
pub struct PeakHourEntry {
    pub day_of_week: u32,
    pub hour: u32,
    pub total_bytes: u64,
}

/// The text of a store error.
pub open spec fn error_text(e: DbError) -> Seq<char> {
    match e {
        DbError::ValueOutOfRange => "out of range integral type conversion attempted"@,
        DbError::IntegerOverflow => "integer overflow"@,
    }
}

/// The day's totals over all adapters; an error when a sum exceeds the
/// integer range.
pub fn get_daily_usage(store: &UsageStore, date: &str) -> (r: Result<DailyUsage, String>)
    ensures
        match r {
            Ok(u) => sums_fit(store.daily_rows(), day_filter(date@)) && {
                let f = day_filter(date@);
                let rows = store.daily_rows();
                &&& u.date@ == date@
                &&& u.upload_bytes == sum_by(rows, sel_upload(f))
                &&& u.download_bytes == sum_by(rows, sel_download(f))
                &&& u.total_bytes == sum_by(rows, sel_total(f))
                &&& u.peak_upload_speed == max_by(rows, sel_peak_up(f))
                &&& u.peak_download_speed == max_by(rows, sel_peak_down(f))
            },
            Err(e) => e@ == error_text(DbError::IntegerOverflow) && !sums_fit(
                store.daily_rows(),
                day_filter(date@),
            ),
        },
{
    match query_daily_usage(store, date) {
        Ok(row) => Ok(
            DailyUsage {
                date: row.date,
                upload_bytes: row.upload_bytes,
                download_bytes: row.download_bytes,
                total_bytes: row.total_bytes,
                peak_upload_speed: row.peak_upload_speed,
                peak_download_speed: row.peak_download_speed,
            },
        ),
        Err(e) => Err(e.message()),
    }
}

/// The month's totals over all adapters; an error when a sum exceeds the
/// integer range.
pub fn get_monthly_usage(store: &UsageStore, year: i32, month: u32) -> (r: Result<MonthlyUsage, String>)
    ensures
        match r {
            Ok(u) => sums_fit(store.monthly_rows(), month_filter(year, month)) && {
                let f = month_filter(year, month);
                let rows = store.monthly_rows();
                &&& u.year == year
                &&& u.month == month
                &&& u.upload_bytes == sum_by(rows, sel_upload(f))
                &&& u.download_bytes == sum_by(rows, sel_download(f))
                &&& u.total_bytes == sum_by(rows, sel_total(f))
            },
            Err(e) => e@ == error_text(DbError::IntegerOverflow) && !sums_fit(
                store.monthly_rows(),
                month_filter(year, month),
            ),
        },
{
    match query_monthly_usage(store, year, month) {
        Ok(row) => Ok(
            MonthlyUsage {
                year: row.year,
                month: row.month,
                upload_bytes: row.upload_bytes,
                download_bytes: row.download_bytes,
                total_bytes: row.total_bytes,
            },
        ),
        Err(e) => Err(e.message()),
    }
}


/// Download and upload per hour of `date`, in hour order (hours without records
/// left out); the listing stops before the first hour whose sums exceed the
/// integer range.
pub fn get_hourly_breakdown(store: &UsageStore, date: &str) -> (r: Result<Vec<HourlyBreakdown>, String>)
    ensures
        r matches Ok(out) && {
            let rows = store.snapshot_rows();
            &&& forall|i: int, j: int| 0 <= i < j < out@.len() ==> out@[i].hour < out@[j].hour
            &&& forall|i: int|
                0 <= i < out@.len() ==> {
                    let h = (#[trigger] out@[i]).hour as nat;
                    let f = hour_filter(date@, h);
                    &&& h < 25
                    &&& snap_group_nonempty(rows, f)
                    &&& hour_reached(rows, date@, h)
                    &&& out@[i].download_bytes == sum_by(rows, snap_down(f))
                    &&& out@[i].upload_bytes == sum_by(rows, snap_up(f))
                }
            &&& forall|h: nat|
                h < 25 && #[trigger] snap_group_nonempty(rows, hour_filter(date@, h)) && hour_reached(
                    rows,
                    date@,
                    h,
                ) ==> exists|i: int| 0 <= i < out@.len() && out@[i].hour == h
        },
{
    let rows = match query_hourly(store, date) {
        Ok(v) => v,
        Err(e) => return Err(e.message()),
    };
    let mut out: Vec<HourlyBreakdown> = Vec::new();
    let mut i: usize = 0;
    while i < rows.len()
        invariant
            i <= rows@.len(),
            out@.len() == i,
            forall|k: int|
                0 <= k < i ==> (#[trigger] out@[k]).hour == rows@[k].hour && out@[k].upload_bytes
                    == rows@[k].upload_bytes && out@[k].download_bytes == rows@[k].download_bytes,
        decreases rows@.len() - i,
    {
        let e = &rows[i];
        out.push(
            HourlyBreakdown {
                hour: e.hour,
                upload_bytes: e.upload_bytes,
                download_bytes: e.download_bytes,
            },
        );
        i = i + 1;
    }
    proof {
        let srows = store.snapshot_rows();
        assert forall|h: nat|
            h < 25 && #[trigger] snap_group_nonempty(srows, hour_filter(date@, h)) && hour_reached(
                srows,
                date@,
                h,
            ) implies exists|i: int| 0 <= i < out@.len() && out@[i].hour == h by {
            let i = choose|i: int| 0 <= i < rows@.len() && rows@[i].hour == h;
            assert(out@[i].hour == h);
        }
    }
    Ok(out)
}

/// Download, upload and total per hour of `date` for one application, in hour
/// order; the listing stops before the first hour whose sums exceed the
/// integer range.
pub fn get_app_hourly_breakdown(store: &UsageStore, app_name: &str, date: &str) -> (r: Result<
    Vec<AppHourlyBreakdownEntry>,
    String,
>)
    ensures
        r matches Ok(out) && {
            let rows = store.app_rows();
            &&& forall|i: int, j: int| 0 <= i < j < out@.len() ==> out@[i].hour < out@[j].hour
            &&& forall|i: int|
                0 <= i < out@.len() ==> {
                    let h = (#[trigger] out@[i]).hour as nat;
                    let f = app_hour_filter(app_name@, date@, h);
                    &&& h < 25
                    &&& app_group_nonempty(rows, f)
                    &&& app_hour_reached(rows, app_name@, date@, h)
                    &&& out@[i].download_bytes == sum_by(rows, app_down(f))
                    &&& out@[i].upload_bytes == sum_by(rows, app_up(f))
                    &&& out@[i].total_bytes == sum_by(rows, app_total(f))
                }
            &&& forall|h: nat|
                h < 25 && #[trigger] app_group_nonempty(rows, app_hour_filter(app_name@, date@, h))
                    && app_hour_reached(rows, app_name@, date@, h) ==> exists|i: int|
                    0 <= i < out@.len() && out@[i].hour == h
        },
{
    let rows = match query_app_hourly(store, app_name, date) {
        Ok(v) => v,
        Err(e) => return Err(e.message()),
    };
    let mut out: Vec<AppHourlyBreakdownEntry> = Vec::new();
    let mut i: usize = 0;
    while i < rows.len()
        invariant
            i <= rows@.len(),
            out@.len() == i,
            forall|k: int|
                0 <= k < i ==> (#[trigger] out@[k]).hour == rows@[k].hour && out@[k].upload_bytes
                    == rows@[k].upload_bytes && out@[k].download_bytes == rows@[k].download_bytes
                    && out@[k].total_bytes == rows@[k].total_bytes,
        decreases rows@.len() - i,
    {
        let e = &rows[i];
        out.push(
            AppHourlyBreakdownEntry {
                hour: e.hour,
                upload_bytes: e.upload_bytes,
                download_bytes: e.download_bytes,
                total_bytes: e.total_bytes,
            },
        );
        i = i + 1;
    }
    proof {
        let arows = store.app_rows();
        assert forall|h: nat|
            h < 25 && #[trigger] app_group_nonempty(arows, app_hour_filter(app_name@, date@, h))
                && app_hour_reached(arows, app_name@, date@, h) implies exists|i: int|
                0 <= i < out@.len() && out@[i].hour == h by {
            let i = choose|i: int| 0 <= i < rows@.len() && rows@[i].hour == h;
            assert(out@[i].hour == h);
        }
    }
    Ok(out)
}

/// The daily totals from `start_date` to `end_date` (both included), in date
/// order; the listing stops before the first date whose total exceeds the
/// integer range.
pub fn get_usage_history(store: &UsageStore, start_date: &str, end_date: &str) -> (r: Result<
    Vec<DailyCalendarEntry>,
    String,
>)
    ensures
        r matches Ok(out) && {
            let rows = store.daily_rows();
            let f = history_filter(start_date@, end_date@);
            &&& forall|i: int, j: int|
                0 <= i < j < out@.len() ==> text_lt(out@[i].date@, out@[j].date@)
            &&& forall|i: int|
                0 <= i < out@.len() ==> {
                    let d = (#[trigger] out@[i]).date@;
                    &&& in_groups(rows, f, false, (0, d))
                    &&& history_reached(rows, start_date@, end_date@, d)
                    &&& out@[i].total_bytes == sum_by(rows, sel_total(group_filter(d, None)))
                }
            &&& forall|d: Seq<char>|
                #[trigger] in_groups(rows, f, false, (0, d)) && history_reached(
                    rows,
                    start_date@,
                    end_date@,
                    d,
                ) ==> exists|i: int| 0 <= i < out@.len() && out@[i].date@ == d
        },
{
    let rows = match query_history(store, start_date, end_date) {
        Ok(v) => v,
        Err(e) => return Err(e.message()),
    };
    let mut out: Vec<DailyCalendarEntry> = Vec::new();
    let mut i: usize = 0;
    while i < rows.len()
        invariant
            i <= rows@.len(),
            out@.len() == i,
            forall|k: int|
                0 <= k < i ==> (#[trigger] out@[k]).date@ == rows@[k].date@ && out@[k].total_bytes
                    == rows@[k].total_bytes,
        decreases rows@.len() - i,
    {
        let e = &rows[i];
        out.push(DailyCalendarEntry { date: e.date.clone(), total_bytes: e.total_bytes });
        i = i + 1;
    }
    proof {
        let drows = store.daily_rows();
        let f = history_filter(start_date@, end_date@);
        assert forall|i: int, j: int| 0 <= i < j < out@.len() implies text_lt(
            out@[i].date@,
            out@[j].date@,
        ) by {
            assert(out@[i].date@ == rows@[i].date@ && out@[j].date@ == rows@[j].date@);
        }
        assert forall|d: Seq<char>|
            #[trigger] in_groups(drows, f, false, (0, d)) && history_reached(
                drows,
                start_date@,
                end_date@,
                d,
            ) implies exists|i: int| 0 <= i < out@.len() && out@[i].date@ == d by {
            let i = choose|i: int| 0 <= i < rows@.len() && rows@[i].date@ == d;
            assert(out@[i].date@ == d);
        }
    }
    Ok(out)
}

pub open spec fn daily_entries_view(v: Seq<DailyBreakdownEntry>) -> Seq<(nat, nat, nat, nat)> {
    v.map_values(
        |e: DailyBreakdownEntry|
            (e.day as nat, e.download_bytes as nat, e.upload_bytes as nat, e.total_bytes as nat),
    )
}

pub open spec fn app_daily_entries_view(v: Seq<AppDailyBreakdownEntry>) -> Seq<(nat, nat, nat, nat)> {
    v.map_values(
        |e: AppDailyBreakdownEntry|
            (e.day as nat, e.download_bytes as nat, e.upload_bytes as nat, e.total_bytes as nat),
    )
}

/// Download, upload and total per day of the month over all adapters, in date
/// order; empty when some day's sums exceed the integer range.
pub fn get_daily_breakdown(store: &UsageStore, year: i32, month: u32) -> (r: Result<
    Vec<DailyBreakdownEntry>,
    String,
>)
    requires
        next_month_defined(year, month),
    ensures
        r matches Ok(out) && day_breakdown_ok(
            store.daily_rows(),
            month_days_filter(
                month_start_text(year as int, month as nat),
                month_start_text(
                    next_month(year as int, month as nat).0,
                    next_month(year as int, month as nat).1,
                ),
                None,
            ),
            None,
            daily_entries_view(out@),
        ),
{
    let rows = match get_daily_breakdown_for_month(store, year, month) {
        Ok(v) => v,
        Err(e) => return Err(e.message()),
    };
    let mut out: Vec<DailyBreakdownEntry> = Vec::new();
    let mut i: usize = 0;
    while i < rows.len()
        invariant
            i <= rows@.len(),
            daily_entries_view(out@) == daily_breakdown_view(rows@).take(i as int),
        decreases rows@.len() - i,
    {
        let e = &rows[i];
        let ghost before = out@;
        out.push(
            DailyBreakdownEntry {
                day: e.day,
                upload_bytes: e.upload_bytes,
                download_bytes: e.download_bytes,
                total_bytes: e.total_bytes,
            },
        );
        assert(daily_entries_view(out@) =~= daily_entries_view(before).push(daily_breakdown_view(rows@)[i as int]));
        i = i + 1;
        assert(daily_entries_view(out@) =~= daily_breakdown_view(rows@).take(i as int));
    }
    assert(daily_breakdown_view(rows@).take(rows@.len() as int) =~= daily_breakdown_view(rows@));
    Ok(out)
}

/// Download, upload and total per day of the month for one application, in
/// date order; empty when some day's sums exceed the integer range.
pub fn get_app_daily_breakdown_month(store: &UsageStore, app_name: &str, year: i32, month: u32) -> (r:
    Result<Vec<AppDailyBreakdownEntry>, String>)
    requires
        next_month_defined(year, month),
    ensures
        r matches Ok(out) && day_breakdown_ok(
            store.daily_app_rows(),
            month_days_filter(
                month_start_text(year as int, month as nat),
                month_start_text(
                    next_month(year as int, month as nat).0,
                    next_month(year as int, month as nat).1,
                ),
                Some(app_name@),
            ),
            Some(app_name@),
            app_daily_entries_view(out@),
        ),
{
    let rows = match query_app_daily_breakdown(store, app_name, year, month) {
        Ok(v) => v,
        Err(e) => return Err(e.message()),
    };
    let mut out: Vec<AppDailyBreakdownEntry> = Vec::new();
    let mut i: usize = 0;
    while i < rows.len()
        invariant
            i <= rows@.len(),
            app_daily_entries_view(out@) == app_daily_breakdown_view(rows@).take(i as int),
        decreases rows@.len() - i,
    {
        let e = &rows[i];
        let ghost before = out@;
        out.push(
            AppDailyBreakdownEntry {
                day: e.day,
                upload_bytes: e.upload_bytes,
                download_bytes: e.download_bytes,
                total_bytes: e.total_bytes,
            },
        );
        assert(app_daily_entries_view(out@) =~= app_daily_entries_view(before).push(app_daily_breakdown_view(rows@)[i as int]));
        i = i + 1;
        assert(app_daily_entries_view(out@) =~= app_daily_breakdown_view(rows@).take(i as int));
    }
    assert(app_daily_breakdown_view(rows@).take(rows@.len() as int) =~= app_daily_breakdown_view(
        rows@,
    ));
    Ok(out)
}

/// The heat-map cell of a day of the week and an hour.
pub open spec fn cell_key(day_of_week: u32, hour: u32) -> nat {
    (day_of_week * 25 + hour) as nat
}

/// The month's adapter traffic per (day of the week, hour) cell, cells in
/// order (empty cells left out); the listing stops before the first cell whose
/// sum exceeds the integer range.
pub fn get_peak_hours_heatmap(store: &UsageStore, year: i32, month: u32) -> (r: Result<
    Vec<PeakHourEntry>,
    String,
>)
    requires
        next_month_defined(year, month),
    ensures
        r matches Ok(out) && {
            let rows = store.snapshot_rows();
            let start = month_start_text(year as int, month as nat);
            let end = month_start_text(
                next_month(year as int, month as nat).0,
                next_month(year as int, month as nat).1,
            );
            &&& forall|i: int, j: int|
                0 <= i < j < out@.len() ==> cell_key(out@[i].day_of_week, out@[i].hour) < cell_key(
                    out@[j].day_of_week,
                    out@[j].hour,
                )
            &&& forall|i: int|
                0 <= i < out@.len() ==> {
                    let c = #[trigger] out@[i];
                    let f = cell_filter(start, end, cell_key(c.day_of_week, c.hour));
                    &&& c.day_of_week < 7
                    &&& c.hour < 25
                    &&& snap_group_nonempty(rows, f)
                    &&& cell_reached(rows, start, end, cell_key(c.day_of_week, c.hour))
                    &&& c.total_bytes == sum_by(rows, snap_total(f))
                }
            &&& forall|k: nat|
                k < 175 && #[trigger] snap_group_nonempty(rows, cell_filter(start, end, k))
                    && cell_reached(rows, start, end, k) ==> exists|i: int|
                    0 <= i < out@.len() && cell_key(out@[i].day_of_week, out@[i].hour) == k
        },
{
    let (start_date, end_date) = month_range(year, month);
    let rows = match get_peak_hours_data(store, start_date.as_str(), end_date.as_str()) {
        Ok(v) => v,
        Err(e) => return Err(e.message()),
    };
    let mut out: Vec<PeakHourEntry> = Vec::new();
    let mut i: usize = 0;
    while i < rows.len()
        invariant
            i <= rows@.len(),
            out@.len() == i,
            forall|k: int|
                0 <= k < i ==> (#[trigger] out@[k]).day_of_week == rows@[k].day_of_week
                    && out@[k].hour == rows@[k].hour && out@[k].total_bytes == rows@[k].total_bytes,
        decreases rows@.len() - i,
    {
        let e = &rows[i];
        out.push(PeakHourEntry { day_of_week: e.day_of_week, hour: e.hour, total_bytes: e.total_bytes });
        i = i + 1;
    }
    proof {
        let srows = store.snapshot_rows();
        assert forall|i: int, j: int| 0 <= i < j < out@.len() implies cell_key(
            out@[i].day_of_week,
            out@[i].hour,
        ) < cell_key(out@[j].day_of_week, out@[j].hour) by {
            assert(out@[i].day_of_week == rows@[i].day_of_week && out@[j].day_of_week
                == rows@[j].day_of_week);
        }
        assert forall|k: nat|
            k < 175 && #[trigger] snap_group_nonempty(srows, cell_filter(start_date@, end_date@, k))
                && cell_reached(srows, start_date@, end_date@, k) implies exists|i: int|
                0 <= i < out@.len() && cell_key(out@[i].day_of_week, out@[i].hour) == k by {
            let i = choose|i: int|
                0 <= i < rows@.len() && (rows@[i].day_of_week * 25 + rows@[i].hour) as nat == k;
            assert(out@[i].day_of_week == rows@[i].day_of_week);
        }
    }
    Ok(out)
}

} // verus!
