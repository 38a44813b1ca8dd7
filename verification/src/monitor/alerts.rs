//! Limit alerts and the daily summary: which notification is due, given the
//! stored usage, the user's settings and what was already sent.
use crate::clock::LocalPeriod;
use crate::db::queries::{
    day_filter, get_daily_usage, get_monthly_usage, get_settings, month_filter, sel_download,
    sel_total, sel_upload, sums_fit, UsageStore,
};
use crate::db::{sum_by, UserSettings};
use crate::monitor::aggregator::{format_bytes, format_bytes_text};
use crate::text::{
    chars_of, parse_unsigned, parse_unsigned_range, push_str, split_on, split_ranges, trim,
    trim_range,
};
use vstd::prelude::*;

verus! {

/// How far usage has gone towards a limit.
#[derive(Clone, Copy, Debug, PartialEq, Eq)]
pub enum Level {
    Warning,
    Danger,
    Limit,
}

/// What has been sent already: per day and per month, one flag per level, and
/// the date of the last daily summary.
pub struct AlertState {
    pub day_key: String,
    pub day_warning_sent: bool,
    pub day_danger_sent: bool,
    pub day_limit_sent: bool,
    pub month_key: String,
    pub month_warning_sent: bool,
    pub month_danger_sent: bool,
    pub month_limit_sent: bool,
    pub summary_date: String,
}

/// The three "sent" flags of one period: (warning, danger, limit).
pub type SentFlags = (bool, bool, bool);

impl AlertState {
    /// Nothing sent, no period seen yet.
    pub fn new() -> (s: Self)
        ensures
            s.day_key@ == Seq::<char>::empty(),
            s.month_key@ == Seq::<char>::empty(),
            s.summary_date@ == Seq::<char>::empty(),
            s.day_flags() == (false, false, false),
            s.month_flags() == (false, false, false),
    {
        Self {
            day_key: String::new(),
            day_warning_sent: false,
            day_danger_sent: false,
            day_limit_sent: false,
            month_key: String::new(),
            month_warning_sent: false,
            month_danger_sent: false,
            month_limit_sent: false,
            summary_date: String::new(),
        }
    }

    pub open spec fn day_flags(self) -> SentFlags {
        (self.day_warning_sent, self.day_danger_sent, self.day_limit_sent)
    }

    pub open spec fn month_flags(self) -> SentFlags {
        (self.month_warning_sent, self.month_danger_sent, self.month_limit_sent)
    }
}

/// `limit * pct / 100` in the `u64` arithmetic of the threshold test.
pub open spec fn threshold(limit: u64, pct: i32) -> int {
    (limit * (pct as u64)) / 100
}

/// The products that `crossed` evaluates fit in a `u64` (otherwise the
/// multiplication would overflow): the danger product unless the limit is
/// reached, the warning product unless the danger threshold is reached.
pub open spec fn crossed_defined(total: u64, limit: u64, warning_pct: i32, danger_pct: i32) -> bool {
    total >= limit || (limit * (danger_pct as u64) <= u64::MAX && (total >= threshold(
        limit,
        danger_pct,
    ) || limit * (warning_pct as u64) <= u64::MAX))
}

/// The highest level that `total` has reached against `limit`.
pub open spec fn crossed_level(total: u64, limit: u64, warning_pct: i32, danger_pct: i32) -> Option<
    Level,
> {
    if total >= limit {
        Some(Level::Limit)
    } else if total >= threshold(limit, danger_pct) {
        Some(Level::Danger)
    } else if total >= threshold(limit, warning_pct) {
        Some(Level::Warning)
    } else {
        None
    }
}

/// The level reached, if any: the limit itself, the danger percentage of it, or
/// the warning percentage of it (percentages taken as `u64`).
pub fn crossed(total: u64, limit: u64, warning_pct: i32, danger_pct: i32) -> (r: Option<Level>)
    requires
        crossed_defined(total, limit, warning_pct, danger_pct),
    ensures
        r == crossed_level(total, limit, warning_pct, danger_pct),
{
    if total >= limit {
        Some(Level::Limit)
    } else if total >= limit * danger_pct as u64 / 100 {
        Some(Level::Danger)
    } else if total >= limit * warning_pct as u64 / 100 {
        Some(Level::Warning)
    } else {
        None
    }
}

pub open spec fn flag_of(f: SentFlags, l: Level) -> bool {
    match l {
        Level::Warning => f.0,
        Level::Danger => f.1,
        Level::Limit => f.2,
    }
}

pub open spec fn mark(f: SentFlags, l: Level) -> SentFlags {
    match l {
        Level::Warning => (true, f.1, f.2),
        Level::Danger => (f.0, true, f.2),
        Level::Limit => (f.0, f.1, true),
    }
}

/// One period's step: the flags are cleared when the period key changes; then
/// a reached level whose flag is clear is sent and its flag set.
/// Returns the new flags and the level sent, if any.
pub open spec fn period_step(old_key: Seq<char>, flags: SentFlags, key: Seq<char>, level: Option<Level>) -> (
    SentFlags,
    Option<Level>,
) {
    let f = if old_key == key {
        flags
    } else {
        (false, false, false)
    };
    match level {
        Some(l) => if flag_of(f, l) {
            (f, None)
        } else {
            (mark(f, l), Some(l))
        },
        None => (f, None),
    }
}

/// The level reached against a limit setting; none when the limit is not positive.
pub open spec fn limit_level(total: u64, limit: i64, settings: UserSettings) -> Option<Level> {
    if limit > 0 {
        crossed_level(total, limit as u64, settings.warning_threshold_pct, settings.danger_threshold_pct)
    } else {
        None
    }
}

pub open spec fn limit_defined(total: u64, limit: i64, settings: UserSettings) -> bool {
    limit > 0 ==> crossed_defined(
        total,
        limit as u64,
        settings.warning_threshold_pct,
        settings.danger_threshold_pct,
    )
}

/// The limit notifications that are due now.
pub struct LimitAlerts {
    pub daily: Option<Level>,
    pub monthly: Option<Level>,
    /// A notification is due and sound alerts are on.
    pub play_sound: bool,
}

fn step_flags(
    key: &mut String,
    w: &mut bool,
    d: &mut bool,
    l: &mut bool,
    new_key: &str,
    level: Option<Level>,
) -> (sent: Option<Level>)
    ensures
        final(key)@ == new_key@,
        ((*final(w), *final(d), *final(l)), sent) == period_step(
            old(key)@,
            (*old(w), *old(d), *old(l)),
            new_key@,
            level,
        ),
{
    let nk = String::from_str(new_key);
    if !(*key == nk) {
        *key = nk;
        *w = false;
        *d = false;
        *l = false;
    }
    match level {
        Some(Level::Warning) => if *w {
            None
        } else {
            *w = true;
            Some(Level::Warning)
        },
        Some(Level::Danger) => if *d {
            None
        } else {
            *d = true;
            Some(Level::Danger)
        },
        Some(Level::Limit) => if *l {
            None
        } else {
            *l = true;
            Some(Level::Limit)
        },
        None => None,
    }
}

/// Decides the limit notifications for today (`today`, `%Y-%m-%d`) and this
/// month (`month_key`, `%Y-%m`) from the usage totals, and records them as sent.
pub fn evaluate_limits(
    state: &mut AlertState,
    today: &str,
    month_key: &str,
    settings: &UserSettings,
    day_total: u64,
    month_total: u64,
) -> (r: LimitAlerts)
    requires
        limit_defined(day_total, settings.daily_limit_bytes, *settings),
        limit_defined(month_total, settings.monthly_limit_bytes, *settings),
    ensures
        final(state).day_key@ == today@,
        final(state).month_key@ == month_key@,
        final(state).summary_date == old(state).summary_date,
        (final(state).day_flags(), r.daily) == period_step(
            old(state).day_key@,
            old(state).day_flags(),
            today@,
            limit_level(day_total, settings.daily_limit_bytes, *settings),
        ),
        (final(state).month_flags(), r.monthly) == period_step(
            old(state).month_key@,
            old(state).month_flags(),
            month_key@,
            limit_level(month_total, settings.monthly_limit_bytes, *settings),
        ),
        r.play_sound == ((r.daily is Some || r.monthly is Some) && settings.sound_alerts_enabled),
{
    let day_level = if settings.daily_limit_bytes > 0 {
        crossed(
            day_total,
            settings.daily_limit_bytes as u64,
            settings.warning_threshold_pct,
            settings.danger_threshold_pct,
        )
    } else {
        None
    };
    let daily = step_flags(
        &mut state.day_key,
        &mut state.day_warning_sent,
        &mut state.day_danger_sent,
        &mut state.day_limit_sent,
        today,
        day_level,
    );
    let month_level = if settings.monthly_limit_bytes > 0 {
        crossed(
            month_total,
            settings.monthly_limit_bytes as u64,
            settings.warning_threshold_pct,
            settings.danger_threshold_pct,
        )
    } else {
        None
    };
    let monthly = step_flags(
        &mut state.month_key,
        &mut state.month_warning_sent,
        &mut state.month_danger_sent,
        &mut state.month_limit_sent,
        month_key,
        month_level,
    );
    let play_sound = (daily.is_some() || monthly.is_some()) && settings.sound_alerts_enabled;
    LimitAlerts { daily, monthly, play_sound }
}

/// The daily-summary time `HH:MM`: exactly one colon, each side trimmed and
/// read as a `u32`.
pub open spec fn summary_time(s: Seq<char>) -> Option<(nat, nat)> {
    let parts = split_on(s, ':');
    if parts.len() != 2 {
        None
    } else {
        match (
            parse_unsigned(trim(parts[0]), u32::MAX as nat),
            parse_unsigned(trim(parts[1]), u32::MAX as nat),
        ) {
            (Some(h), Some(m)) => Some((h, m)),
            _ => None,
        }
    }
}

/// The summary time in minutes fits a `u32` whenever the summary is enabled and
/// its time parses.
pub open spec fn summary_defined(settings: UserSettings) -> bool {
    settings.notifications_enabled && settings.daily_summary_enabled ==> match summary_time(
        settings.daily_summary_time@,
    ) {
        Some((h, m)) => h * 60 + m <= u32::MAX,
        None => true,
    }
}

/// The summary is due: notifications and the summary are enabled, the time
/// parses, `now_minute` (minutes since midnight) has reached it, and none was
/// sent for `today` yet.
pub open spec fn summary_due_at(
    settings: UserSettings,
    last_date: Seq<char>,
    today: Seq<char>,
    now_minute: nat,
) -> bool {
    &&& settings.notifications_enabled
    &&& settings.daily_summary_enabled
    &&& summary_time(settings.daily_summary_time@) matches Some((h, m))
    &&& now_minute >= h * 60 + m
    &&& last_date != today
}

/// Parses the summary time.
pub fn parse_summary_time(s: &str) -> (r: Option<(u32, u32)>)
    ensures
        match summary_time(s@) {
            Some((h, m)) => r == Some((h as u32, m as u32)),
            None => r is None,
        },
{
    let v = chars_of(s);
    let parts = split_ranges(&v, ':');
    if parts.len() != 2 {
        return None;
    }
    let (a0, a1) = trim_range(&v, parts[0].0, parts[0].1);
    let (b0, b1) = trim_range(&v, parts[1].0, parts[1].1);
    let h = parse_unsigned_range(&v, a0, a1, u32::MAX as u64);
    let m = parse_unsigned_range(&v, b0, b1, u32::MAX as u64);
    match (h, m) {
        (Some(h), Some(m)) => Some((h as u32, m as u32)),
        _ => None,
    }
}

/// Decides whether the daily summary is due now, and if so records `today` as
/// the date of the last summary.
pub fn summary_due(
    state: &mut AlertState,
    today: &str,
    settings: &UserSettings,
    now_minute: u32,
) -> (due: bool)
    requires
        summary_defined(*settings),
    ensures
        due == summary_due_at(*settings, old(state).summary_date@, today@, now_minute as nat),
        due ==> final(state).summary_date@ == today@,
        !due ==> final(state).summary_date == old(state).summary_date,
        final(state).day_key == old(state).day_key,
        final(state).month_key == old(state).month_key,
        final(state).day_flags() == old(state).day_flags(),
        final(state).month_flags() == old(state).month_flags(),
{
    if !settings.notifications_enabled || !settings.daily_summary_enabled {
        return false;
    }
    let (hour, minute) = match parse_summary_time(settings.daily_summary_time.as_str()) {
        Some(t) => t,
        None => return false,
    };
    if now_minute < hour * 60 + minute {
        return false;
    }
    let t = String::from_str(today);
    if state.summary_date == t {
        return false;
    }
    state.summary_date = t;
    true
}

/// The outcome of a limit check: the notifications due, with the usage and the
/// limits they report.
pub struct LimitCheck {
    pub alerts: LimitAlerts,
    pub day_total: u64,
    pub month_total: u64,
    pub daily_limit_bytes: i64,
    pub monthly_limit_bytes: i64,
}

/// Bytes used on `date` across adapters.
pub open spec fn day_total_of(store: UsageStore, date: Seq<char>) -> nat {
    sum_by(store.daily_rows(), sel_total(day_filter(date)))
}

/// Bytes used in the month across adapters.
pub open spec fn month_total_of(store: UsageStore, year: i32, month: u32) -> nat {
    sum_by(store.monthly_rows(), sel_total(month_filter(year, month)))
}

/// The limit check at `now` has something to decide: notifications are on, the
/// day's and the month's usage can be read, and the thresholds can be computed
/// for them.
pub open spec fn limit_check_runs(store: UsageStore, now: LocalPeriod) -> bool {
    let s = store.settings_value();
    &&& s.notifications_enabled
    &&& sums_fit(store.daily_rows(), day_filter(now.date@))
    &&& sums_fit(store.monthly_rows(), month_filter(now.year, now.month))
    &&& limit_defined(day_total_of(store, now.date@) as u64, s.daily_limit_bytes, s)
    &&& limit_defined(month_total_of(store, now.year, now.month) as u64, s.monthly_limit_bytes, s)
}

/// The limit check of the alert loop at the local time `now`: which daily and
/// monthly notifications are due, recorded as sent. `None`, with nothing
/// changed, when notifications are off, when the day's or the month's usage
/// cannot be read (a sum exceeds the integer range), or when a threshold
/// product exceeds a `u64`.
pub fn check_limits(store: &UsageStore, state: &mut AlertState, now: &LocalPeriod) -> (r: Option<
    LimitCheck,
>)
    ensures
        r is Some <==> limit_check_runs(*store, *now),
        r is None ==> *final(state) == *old(state),
        r matches Some(c) ==> {
            let s = store.settings_value();
            let day = day_total_of(*store, now.date@);
            let month = month_total_of(*store, now.year, now.month);
            &&& c.day_total == day
            &&& c.month_total == month
            &&& c.daily_limit_bytes == s.daily_limit_bytes
            &&& c.monthly_limit_bytes == s.monthly_limit_bytes
            &&& final(state).day_key@ == now.date@
            &&& final(state).month_key@ == now.month_key@
            &&& final(state).summary_date == old(state).summary_date
            &&& (final(state).day_flags(), c.alerts.daily) == period_step(
                old(state).day_key@,
                old(state).day_flags(),
                now.date@,
                limit_level(day as u64, s.daily_limit_bytes, s),
            )
            &&& (final(state).month_flags(), c.alerts.monthly) == period_step(
                old(state).month_key@,
                old(state).month_flags(),
                now.month_key@,
                limit_level(month as u64, s.monthly_limit_bytes, s),
            )
            &&& c.alerts.play_sound == ((c.alerts.daily is Some || c.alerts.monthly is Some)
                && s.sound_alerts_enabled)
        },
{
    let settings = match get_settings(store) {
        Ok(s) => s,
        Err(_) => return None,
    };
    if !settings.notifications_enabled {
        return None;
    }
    let day = match get_daily_usage(store, now.date.as_str()) {
        Ok(d) => d,
        Err(_) => return None,
    };
    let month = match get_monthly_usage(store, now.year, now.month) {
        Ok(m) => m,
        Err(_) => return None,
    };
    if !(limit_fits(day.total_bytes, settings.daily_limit_bytes, &settings) && limit_fits(
        month.total_bytes,
        settings.monthly_limit_bytes,
        &settings,
    )) {
        return None;
    }
    let alerts = evaluate_limits(
        state,
        now.date.as_str(),
        now.month_key.as_str(),
        &settings,
        day.total_bytes,
        month.total_bytes,
    );
    Some(
        LimitCheck {
            alerts,
            day_total: day.total_bytes,
            month_total: month.total_bytes,
            daily_limit_bytes: settings.daily_limit_bytes,
            monthly_limit_bytes: settings.monthly_limit_bytes,
        },
    )
}

fn limit_fits(total: u64, limit: i64, settings: &UserSettings) -> (r: bool)
    ensures
        r == limit_defined(total, limit, *settings),
{
    if limit <= 0 {
        return true;
    }
    let l = limit as u64;
    let d = settings.danger_threshold_pct as u64;
    let w = settings.warning_threshold_pct as u64;
    if total >= l {
        return true;
    }
    if d != 0 && l > u64::MAX / d {
        proof {
            assert(l * d > u64::MAX) by (nonlinear_arith)
                requires
                    d > 0,
                    l > u64::MAX / d,
            ;
        }
        return false;
    }
    proof {
        assert(l * d <= u64::MAX) by (nonlinear_arith)
            requires
                d == 0 || l <= u64::MAX / d,
        ;
    }
    if total >= l * d / 100 {
        return true;
    }
    if w != 0 && l > u64::MAX / w {
        proof {
            assert(l * w > u64::MAX) by (nonlinear_arith)
                requires
                    w > 0,
                    l > u64::MAX / w,
            ;
        }
        return false;
    }
    proof {
        assert(l * w <= u64::MAX) by (nonlinear_arith)
            requires
                w == 0 || l <= u64::MAX / w,
        ;
    }
    true
}

/// The text of the daily summary notification.
pub open spec fn summary_text(download: nat, upload: nat, total: nat) -> Seq<char> {
    "Downloaded "@ + format_bytes_text(download) + " · Uploaded "@ + format_bytes_text(upload)
        + " · Total "@ + format_bytes_text(total) + " today"@
}

/// A daily summary to show.
pub struct DailySummary {
    pub body: String,
    pub play_sound: bool,
}

/// The daily summary check of the alert loop at the local time `now`: when the
/// summary is due it is recorded as sent for the day, and its text (the day's
/// download, upload and total) is returned, unless the day's usage cannot be
/// read. `None`, with nothing changed, when it is not due or when the summary
/// time in minutes exceeds a `u32`.
pub fn check_daily_summary(store: &UsageStore, state: &mut AlertState, now: &LocalPeriod) -> (r:
    Option<DailySummary>)
    requires
        now.clock.wf(),
    ensures
        ({
            let s = store.settings_value();
            let due = summary_defined(s) && summary_due_at(
                s,
                old(state).summary_date@,
                now.date@,
                (now.clock.hour * 60 + now.clock.minute) as nat,
            );
            let f = day_filter(now.date@);
            let rows = store.daily_rows();
            &&& due ==> final(state).summary_date@ == now.date@
            &&& !due ==> final(state).summary_date == old(state).summary_date
            &&& final(state).day_key == old(state).day_key
            &&& final(state).month_key == old(state).month_key
            &&& final(state).day_flags() == old(state).day_flags()
            &&& final(state).month_flags() == old(state).month_flags()
            &&& (r is Some <==> due && sums_fit(rows, f))
            &&& r matches Some(d) ==> {
                &&& d.body@ == summary_text(
                    sum_by(rows, sel_download(f)),
                    sum_by(rows, sel_upload(f)),
                    sum_by(rows, sel_total(f)),
                )
                &&& d.play_sound == s.sound_alerts_enabled
            }
        }),
{
    let settings = match get_settings(store) {
        Ok(s) => s,
        Err(_) => return None,
    };
    if !summary_time_fits(&settings) {
        return None;
    }
    if !summary_due(state, now.date.as_str(), &settings, now.clock.minute_of_day()) {
        return None;
    }
    let day = match get_daily_usage(store, now.date.as_str()) {
        Ok(d) => d,
        Err(_) => return None,
    };
    let mut body = String::from_str("Downloaded ");
    push_str(&mut body, format_bytes(day.download_bytes).as_str());
    push_str(&mut body, " · Uploaded ");
    push_str(&mut body, format_bytes(day.upload_bytes).as_str());
    push_str(&mut body, " · Total ");
    push_str(&mut body, format_bytes(day.total_bytes).as_str());
    push_str(&mut body, " today");
    Some(DailySummary { body, play_sound: settings.sound_alerts_enabled })
}

fn summary_time_fits(settings: &UserSettings) -> (r: bool)
    ensures
        r == summary_defined(*settings),
{
    if !(settings.notifications_enabled && settings.daily_summary_enabled) {
        return true;
    }
    match parse_summary_time(settings.daily_summary_time.as_str()) {
        Some((h, m)) => h <= (u32::MAX - m) / 60,
        None => true,
    }
}

/// Law: an alert level is sent at most once per period — once a step has sent
/// it, a later step with the same period key does not send it again, whatever
/// level is reached then.
pub proof fn law_alert_sent_once_per_period(
    old_key: Seq<char>,
    flags: SentFlags,
    key: Seq<char>,
    first: Option<Level>,
    second: Option<Level>,
)
    ensures
        ({
            let (f1, sent1) = period_step(old_key, flags, key, first);
            let (f2, sent2) = period_step(key, f1, key, second);
            sent1 is Some ==> sent2 != sent1
        }),
{
}

/// Law: flags never clear within a period — after a step, every level that was
/// already sent in the same period is still marked sent.
pub proof fn law_flags_persist_within_period(
    flags: SentFlags,
    key: Seq<char>,
    level: Option<Level>,
    l: Level,
)
    ensures
        flag_of(flags, l) ==> flag_of(period_step(key, flags, key, level).0, l),
{
}

/// Law: a new period starts afresh — the first step with a new key sends
/// whatever level is reached, whatever was sent before.
pub proof fn law_new_period_alerts(old_key: Seq<char>, flags: SentFlags, key: Seq<char>, l: Level)
    requires
        old_key != key,
    ensures
        period_step(old_key, flags, key, Some(l)).1 == Some(l),
        period_step(old_key, flags, key, Some(l)).0 == mark((false, false, false), l),
{
}

/// Law: a higher total never yields a lower level.
pub proof fn law_crossed_monotone(t1: u64, t2: u64, limit: u64, w: i32, d: i32)
    requires
        t1 <= t2,
    ensures
        crossed_level(t1, limit, w, d) matches Some(Level::Limit) ==> crossed_level(t2, limit, w, d)
            matches Some(Level::Limit),
        crossed_level(t1, limit, w, d) matches Some(Level::Danger) ==> crossed_level(t2, limit, w, d)
            matches Some(Level::Danger) || crossed_level(t2, limit, w, d) matches Some(Level::Limit),
        crossed_level(t1, limit, w, d) is Some ==> crossed_level(t2, limit, w, d) is Some,
{
}

/// Law: for percentages from 0 to 100 with the warning one not above the
/// danger one, the thresholds come in order: warning, danger, then the limit.
pub proof fn law_thresholds_ordered(limit: u64, w: i32, d: i32)
    requires
        0 <= w <= d <= 100,
    ensures
        threshold(limit, w) <= threshold(limit, d) <= limit,
{
    assert(threshold(limit, w) <= threshold(limit, d) <= limit) by (nonlinear_arith)
        requires
            0 <= w <= d <= 100,
            threshold(limit, w) == (limit * (w as u64)) / 100,
            threshold(limit, d) == (limit * (d as u64)) / 100,
            w as u64 == w,
            d as u64 == d,
    ;
}

/// Law: the daily summary goes out at most once per date — once it has been
/// sent for a date, it is not due again on that date.
pub proof fn law_summary_once_per_day(settings: UserSettings, today: Seq<char>, now_minute: nat)
    ensures
        !summary_due_at(settings, today, today, now_minute),
{
}

} // verus!
