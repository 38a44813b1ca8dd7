//! The usage store and the queries over it: settings, snapshot and per-app
//! records, daily and monthly totals (kept per adapter and per application),
//! and the breakdowns read from them.
use crate::db::{
    lemma_max_by_update_grow, lemma_sum_by_push, lemma_sum_by_take,
    lemma_sum_by_update, max_by, opt_max_by, opt_min_by, sum_by, UserSettings, SQL_INT_MAX,
};
use crate::text::{text_le, text_less, text_lt};
use crate::db::sqltime::{lemma_sql_time_bounds, read_sql_time, sql_time};
use vstd::prelude::*;

verus! {

/// Why a store operation failed.
#[derive(Clone, Copy, Debug, PartialEq, Eq)]
pub enum DbError {
    /// A value does not fit a 64-bit signed integer column.
    ValueOutOfRange,
    /// A sum exceeds the 64-bit signed integer range.
    IntegerOverflow,
}

impl DbError {
    /// The error text.
    pub fn message(&self) -> (r: String)
        ensures
            r@ == match self {
                DbError::ValueOutOfRange => "out of range integral type conversion attempted"@,
                DbError::IntegerOverflow => "integer overflow"@,
            },
    {
        match self {
            DbError::ValueOutOfRange => String::from_str(
                "out of range integral type conversion attempted",
            ),
            DbError::IntegerOverflow => String::from_str("integer overflow"),
        }
    }
}

/// One sampling period of adapter traffic.
pub struct SnapshotRecord {
    pub timestamp: String,
    pub adapter_name: String,
    pub upload_bytes: u64,
    pub download_bytes: u64,
    pub total_bytes: u64,
    pub upload_speed_bps: u64,
    pub download_speed_bps: u64,
}

pub struct SnapshotView {
    pub timestamp: Seq<char>,
    pub adapter_name: Seq<char>,
    pub upload_bytes: nat,
    pub download_bytes: nat,
    pub total_bytes: nat,
    pub upload_speed_bps: nat,
    pub download_speed_bps: nat,
}

impl View for SnapshotRecord {
    type V = SnapshotView;

    open spec fn view(&self) -> SnapshotView {
        SnapshotView {
            timestamp: self.timestamp@,
            adapter_name: self.adapter_name@,
            upload_bytes: self.upload_bytes as nat,
            download_bytes: self.download_bytes as nat,
            total_bytes: self.total_bytes as nat,
            upload_speed_bps: self.upload_speed_bps as nat,
            download_speed_bps: self.download_speed_bps as nat,
        }
    }
}

/// One sampling period of one application's traffic.
pub struct AppUsageRecord {
    pub timestamp: String,
    pub app_name: String,
    pub app_path: String,
    pub upload_bytes: u64,
    pub download_bytes: u64,
    pub total_bytes: u64,
}

pub struct AppUsageView {
    pub timestamp: Seq<char>,
    pub app_name: Seq<char>,
    pub app_path: Seq<char>,
    pub upload_bytes: nat,
    pub download_bytes: nat,
    pub total_bytes: nat,
}

impl View for AppUsageRecord {
    type V = AppUsageView;

    open spec fn view(&self) -> AppUsageView {
        AppUsageView {
            timestamp: self.timestamp@,
            app_name: self.app_name@,
            app_path: self.app_path@,
            upload_bytes: self.upload_bytes as nat,
            download_bytes: self.download_bytes as nat,
            total_bytes: self.total_bytes as nat,
        }
    }
}

/// The period a totals row belongs to: a day (`YYYY-MM-DD`) or a month
/// (year, month).
pub enum Period {
    Day(String),
    Month(i32, i32),
}

pub enum PeriodView {
    Day(Seq<char>),
    Month(int, int),
}

impl View for Period {
    type V = PeriodView;

    open spec fn view(&self) -> PeriodView {
        match self {
            Period::Day(d) => PeriodView::Day(d@),
            Period::Month(y, m) => PeriodView::Month(*y as int, *m as int),
        }
    }
}

/// Accumulated totals of one adapter or application in one period.
pub struct TotalsRecord {
    pub period: Period,
    pub name: String,
    pub upload_bytes: u64,
    pub download_bytes: u64,
    pub total_bytes: u64,
    pub peak_upload_speed: u64,
    pub peak_download_speed: u64,
}

pub struct TotalsView {
    pub period: PeriodView,
    pub name: Seq<char>,
    pub upload_bytes: nat,
    pub download_bytes: nat,
    pub total_bytes: nat,
    pub peak_upload_speed: nat,
    pub peak_download_speed: nat,
}

impl View for TotalsRecord {
    type V = TotalsView;

    open spec fn view(&self) -> TotalsView {
        TotalsView {
            period: self.period@,
            name: self.name@,
            upload_bytes: self.upload_bytes as nat,
            download_bytes: self.download_bytes as nat,
            total_bytes: self.total_bytes as nat,
            peak_upload_speed: self.peak_upload_speed as nat,
            peak_download_speed: self.peak_download_speed as nat,
        }
    }
}

pub fn same_period(a: &Period, b: &Period) -> (r: bool)
    ensures
        r == (a@ == b@),
{
    match (a, b) {
        (Period::Day(x), Period::Day(y)) => *x == *y,
        (Period::Month(y1, m1), Period::Month(y2, m2)) => *y1 == *y2 && *m1 == *m2,
        _ => false,
    }
}

/// The store: settings and the six usage tables.
pub struct UsageStore {
    settings: UserSettings,
    snapshots: Vec<SnapshotRecord>,
    app_records: Vec<AppUsageRecord>,
    daily: Vec<TotalsRecord>,
    daily_app: Vec<TotalsRecord>,
    monthly: Vec<TotalsRecord>,
    monthly_app: Vec<TotalsRecord>,
}

pub open spec fn fits(n: nat) -> bool {
    n <= SQL_INT_MAX
}

pub open spec fn snapshot_fits(r: SnapshotView) -> bool {
    fits(r.upload_bytes) && fits(r.download_bytes) && fits(r.total_bytes) && fits(
        r.upload_speed_bps,
    ) && fits(r.download_speed_bps)
}

pub open spec fn app_record_fits(r: AppUsageView) -> bool {
    fits(r.upload_bytes) && fits(r.download_bytes) && fits(r.total_bytes)
}

pub open spec fn totals_fits(r: TotalsView) -> bool {
    fits(r.upload_bytes) && fits(r.download_bytes) && fits(r.total_bytes) && fits(
        r.peak_upload_speed,
    ) && fits(r.peak_download_speed)
}

/// No two rows share a (period, name) key, and every value fits a column.
pub open spec fn totals_table_ok(rows: Seq<TotalsView>) -> bool {
    &&& forall|i: int| 0 <= i < rows.len() ==> totals_fits(#[trigger] rows[i])
    &&& forall|i: int, j: int|
        0 <= i < j < rows.len() ==> !(#[trigger] rows[i].period == #[trigger] rows[j].period
            && rows[i].name == rows[j].name)
}

pub open spec fn totals_view(v: Seq<TotalsRecord>) -> Seq<TotalsView> {
    v.map_values(|r: TotalsRecord| r@)
}

impl UsageStore {
    pub closed spec fn snapshot_rows(&self) -> Seq<SnapshotView> {
        self.snapshots@.map_values(|r: SnapshotRecord| r@)
    }

    pub closed spec fn app_rows(&self) -> Seq<AppUsageView> {
        self.app_records@.map_values(|r: AppUsageRecord| r@)
    }

    /// Per-adapter daily totals.
    pub closed spec fn daily_rows(&self) -> Seq<TotalsView> {
        totals_view(self.daily@)
    }

    /// Per-application daily totals.
    pub closed spec fn daily_app_rows(&self) -> Seq<TotalsView> {
        totals_view(self.daily_app@)
    }

    /// Per-adapter monthly totals.
    pub closed spec fn monthly_rows(&self) -> Seq<TotalsView> {
        totals_view(self.monthly@)
    }

    /// Per-application monthly totals.
    pub closed spec fn monthly_app_rows(&self) -> Seq<TotalsView> {
        totals_view(self.monthly_app@)
    }

    pub closed spec fn settings_value(&self) -> UserSettings {
        self.settings
    }

    #[verifier::type_invariant]
    closed spec fn inv(&self) -> bool {
        &&& forall|i: int|
            0 <= i < self.snapshots@.len() ==> snapshot_fits(#[trigger] self.snapshots@[i]@)
        &&& forall|i: int|
            0 <= i < self.app_records@.len() ==> app_record_fits(#[trigger] self.app_records@[i]@)
        &&& totals_table_ok(self.daily_rows())
        &&& totals_table_ok(self.daily_app_rows())
        &&& totals_table_ok(self.monthly_rows())
        &&& totals_table_ok(self.monthly_app_rows())
    }
}

/// The settings of a new store (the column defaults).
pub open spec fn default_settings_ok(s: UserSettings) -> bool {
    &&& s.daily_limit_bytes == 0
    &&& s.monthly_limit_bytes == 0
    &&& s.warning_threshold_pct == 80
    &&& s.danger_threshold_pct == 95
    &&& s.notifications_enabled
    &&& !s.sound_alerts_enabled
    &&& s.auto_start_enabled
    &&& s.minimize_to_tray
    &&& s.theme@ == "auto"@
    &&& s.data_retention_days == 90
    &&& s.selected_adapter@ == Seq::<char>::empty()
    &&& !s.daily_summary_enabled
    &&& s.daily_summary_time@ == "20:00"@
}

pub fn copy_settings(s: &UserSettings) -> (r: UserSettings)
    ensures
        settings_same(r, *s),
{
    UserSettings {
        daily_limit_bytes: s.daily_limit_bytes,
        monthly_limit_bytes: s.monthly_limit_bytes,
        warning_threshold_pct: s.warning_threshold_pct,
        danger_threshold_pct: s.danger_threshold_pct,
        notifications_enabled: s.notifications_enabled,
        sound_alerts_enabled: s.sound_alerts_enabled,
        auto_start_enabled: s.auto_start_enabled,
        minimize_to_tray: s.minimize_to_tray,
        theme: s.theme.clone(),
        data_retention_days: s.data_retention_days,
        selected_adapter: s.selected_adapter.clone(),
        daily_summary_enabled: s.daily_summary_enabled,
        daily_summary_time: s.daily_summary_time.clone(),
    }
}

/// Two settings values agree field by field (strings by their text).
pub open spec fn settings_same(a: UserSettings, b: UserSettings) -> bool {
    &&& a.daily_limit_bytes == b.daily_limit_bytes
    &&& a.monthly_limit_bytes == b.monthly_limit_bytes
    &&& a.warning_threshold_pct == b.warning_threshold_pct
    &&& a.danger_threshold_pct == b.danger_threshold_pct
    &&& a.notifications_enabled == b.notifications_enabled
    &&& a.sound_alerts_enabled == b.sound_alerts_enabled
    &&& a.auto_start_enabled == b.auto_start_enabled
    &&& a.minimize_to_tray == b.minimize_to_tray
    &&& a.theme@ == b.theme@
    &&& a.data_retention_days == b.data_retention_days
    &&& a.selected_adapter@ == b.selected_adapter@
    &&& a.daily_summary_enabled == b.daily_summary_enabled
    &&& a.daily_summary_time@ == b.daily_summary_time@
}

impl UsageStore {
    /// An empty store with the default settings.
    pub fn new() -> (s: Self)
        ensures
            default_settings_ok(s.settings_value()),
            s.snapshot_rows().len() == 0,
            s.app_rows().len() == 0,
            s.daily_rows().len() == 0,
            s.daily_app_rows().len() == 0,
            s.monthly_rows().len() == 0,
            s.monthly_app_rows().len() == 0,
    {
        let s = UsageStore {
            settings: UserSettings {
                daily_limit_bytes: 0,
                monthly_limit_bytes: 0,
                warning_threshold_pct: 80,
                danger_threshold_pct: 95,
                notifications_enabled: true,
                sound_alerts_enabled: false,
                auto_start_enabled: true,
                minimize_to_tray: true,
                theme: String::from_str("auto"),
                data_retention_days: 90,
                selected_adapter: String::new(),
                daily_summary_enabled: false,
                daily_summary_time: String::from_str("20:00"),
            },
            snapshots: Vec::new(),
            app_records: Vec::new(),
            daily: Vec::new(),
            daily_app: Vec::new(),
            monthly: Vec::new(),
            monthly_app: Vec::new(),
        };
        assert(s.daily_rows() =~= Seq::<TotalsView>::empty());
        assert(s.daily_app_rows() =~= Seq::<TotalsView>::empty());
        assert(s.monthly_rows() =~= Seq::<TotalsView>::empty());
        assert(s.monthly_app_rows() =~= Seq::<TotalsView>::empty());
        s
    }
}

/// The stored settings.
pub fn get_settings(store: &UsageStore) -> (r: Result<UserSettings, DbError>)
    ensures
        r matches Ok(s) && settings_same(s, store.settings_value()),
{
    Ok(copy_settings(&store.settings))
}

/// `Some` value replaces the setting, `None` keeps it.
pub open spec fn choose_field<T>(new: Option<T>, old: T) -> T {
    match new {
        Some(v) => v,
        None => old,
    }
}

pub open spec fn choose_text(new: Option<String>, old: String) -> Seq<char> {
    match new {
        Some(v) => v@,
        None => old@,
    }
}

/// Settings after an update: each given value replaces the stored one.
pub open spec fn settings_updated(
    s: UserSettings,
    old: UserSettings,
    daily_limit_bytes: Option<i64>,
    monthly_limit_bytes: Option<i64>,
    warning_threshold_pct: Option<i32>,
    danger_threshold_pct: Option<i32>,
    notifications_enabled: Option<bool>,
    sound_alerts_enabled: Option<bool>,
    auto_start_enabled: Option<bool>,
    minimize_to_tray: Option<bool>,
    theme: Option<String>,
    data_retention_days: Option<i32>,
    selected_adapter: Option<String>,
    daily_summary_enabled: Option<bool>,
    daily_summary_time: Option<String>,
) -> bool {
    &&& s.daily_limit_bytes == choose_field(daily_limit_bytes, old.daily_limit_bytes)
    &&& s.monthly_limit_bytes == choose_field(monthly_limit_bytes, old.monthly_limit_bytes)
    &&& s.warning_threshold_pct == choose_field(warning_threshold_pct, old.warning_threshold_pct)
    &&& s.danger_threshold_pct == choose_field(danger_threshold_pct, old.danger_threshold_pct)
    &&& s.notifications_enabled == choose_field(notifications_enabled, old.notifications_enabled)
    &&& s.sound_alerts_enabled == choose_field(sound_alerts_enabled, old.sound_alerts_enabled)
    &&& s.auto_start_enabled == choose_field(auto_start_enabled, old.auto_start_enabled)
    &&& s.minimize_to_tray == choose_field(minimize_to_tray, old.minimize_to_tray)
    &&& s.theme@ == choose_text(theme, old.theme)
    &&& s.data_retention_days == choose_field(data_retention_days, old.data_retention_days)
    &&& s.selected_adapter@ == choose_text(selected_adapter, old.selected_adapter)
    &&& s.daily_summary_enabled == choose_field(daily_summary_enabled, old.daily_summary_enabled)
    &&& s.daily_summary_time@ == choose_text(daily_summary_time, old.daily_summary_time)
}

/// Law: an update of the settings stores each value that was given in place of
/// the old one, and keeps every setting that was not given.
pub proof fn law_settings_update_replaces_given(
    s: UserSettings,
    old: UserSettings,
    daily_limit_bytes: Option<i64>,
    monthly_limit_bytes: Option<i64>,
    warning_threshold_pct: Option<i32>,
    danger_threshold_pct: Option<i32>,
    notifications_enabled: Option<bool>,
    sound_alerts_enabled: Option<bool>,
    auto_start_enabled: Option<bool>,
    minimize_to_tray: Option<bool>,
    theme: Option<String>,
    data_retention_days: Option<i32>,
    selected_adapter: Option<String>,
    daily_summary_enabled: Option<bool>,
    daily_summary_time: Option<String>,
)
    requires
        settings_updated(
            s,
            old,
            daily_limit_bytes,
            monthly_limit_bytes,
            warning_threshold_pct,
            danger_threshold_pct,
            notifications_enabled,
            sound_alerts_enabled,
            auto_start_enabled,
            minimize_to_tray,
            theme,
            data_retention_days,
            selected_adapter,
            daily_summary_enabled,
            daily_summary_time,
        ),
    ensures
        daily_limit_bytes matches Some(v) ==> s.daily_limit_bytes == v,
        daily_limit_bytes is None ==> s.daily_limit_bytes == old.daily_limit_bytes,
        monthly_limit_bytes matches Some(v) ==> s.monthly_limit_bytes == v,
        monthly_limit_bytes is None ==> s.monthly_limit_bytes == old.monthly_limit_bytes,
        warning_threshold_pct matches Some(v) ==> s.warning_threshold_pct == v,
        warning_threshold_pct is None ==> s.warning_threshold_pct == old.warning_threshold_pct,
        danger_threshold_pct matches Some(v) ==> s.danger_threshold_pct == v,
        danger_threshold_pct is None ==> s.danger_threshold_pct == old.danger_threshold_pct,
        notifications_enabled matches Some(v) ==> s.notifications_enabled == v,
        notifications_enabled is None ==> s.notifications_enabled == old.notifications_enabled,
        sound_alerts_enabled matches Some(v) ==> s.sound_alerts_enabled == v,
        sound_alerts_enabled is None ==> s.sound_alerts_enabled == old.sound_alerts_enabled,
        auto_start_enabled matches Some(v) ==> s.auto_start_enabled == v,
        auto_start_enabled is None ==> s.auto_start_enabled == old.auto_start_enabled,
        minimize_to_tray matches Some(v) ==> s.minimize_to_tray == v,
        minimize_to_tray is None ==> s.minimize_to_tray == old.minimize_to_tray,
        theme matches Some(v) ==> s.theme@ == v@,
        theme is None ==> s.theme@ == old.theme@,
        data_retention_days matches Some(v) ==> s.data_retention_days == v,
        data_retention_days is None ==> s.data_retention_days == old.data_retention_days,
        selected_adapter matches Some(v) ==> s.selected_adapter@ == v@,
        selected_adapter is None ==> s.selected_adapter@ == old.selected_adapter@,
        daily_summary_enabled matches Some(v) ==> s.daily_summary_enabled == v,
        daily_summary_enabled is None ==> s.daily_summary_enabled == old.daily_summary_enabled,
        daily_summary_time matches Some(v) ==> s.daily_summary_time@ == v@,
        daily_summary_time is None ==> s.daily_summary_time@ == old.daily_summary_time@,
{
}

fn pick<T>(new: Option<T>, old: T) -> (r: T)
    ensures
        r == choose_field(new, old),
{
    match new {
        Some(v) => v,
        None => old,
    }
}

fn pick_text(new: Option<String>, old: &String) -> (r: String)
    ensures
        r@ == choose_text(new, *old),
{
    match new {
        Some(v) => v,
        None => old.clone(),
    }
}

/// Replaces the given settings, keeps the others, and returns the result.
pub fn update_settings(
    store: &mut UsageStore,
    daily_limit_bytes: Option<i64>,
    monthly_limit_bytes: Option<i64>,
    warning_threshold_pct: Option<i32>,
    danger_threshold_pct: Option<i32>,
    notifications_enabled: Option<bool>,
    sound_alerts_enabled: Option<bool>,
    auto_start_enabled: Option<bool>,
    minimize_to_tray: Option<bool>,
    theme: Option<String>,
    data_retention_days: Option<i32>,
    selected_adapter: Option<String>,
    daily_summary_enabled: Option<bool>,
    daily_summary_time: Option<String>,
) -> (r: Result<UserSettings, DbError>)
    ensures
        settings_updated(
            final(store).settings_value(),
            old(store).settings_value(),
            daily_limit_bytes,
            monthly_limit_bytes,
            warning_threshold_pct,
            danger_threshold_pct,
            notifications_enabled,
            sound_alerts_enabled,
            auto_start_enabled,
            minimize_to_tray,
            theme,
            data_retention_days,
            selected_adapter,
            daily_summary_enabled,
            daily_summary_time,
        ),
        r matches Ok(s) && settings_same(s, final(store).settings_value()),
        final(store).snapshot_rows() == old(store).snapshot_rows(),
        final(store).app_rows() == old(store).app_rows(),
        final(store).daily_rows() == old(store).daily_rows(),
        final(store).daily_app_rows() == old(store).daily_app_rows(),
        final(store).monthly_rows() == old(store).monthly_rows(),
        final(store).monthly_app_rows() == old(store).monthly_app_rows(),
{
    proof {
        use_type_invariant(&*store);
    }
    let old = &store.settings;
    let s = UserSettings {
        daily_limit_bytes: pick(daily_limit_bytes, old.daily_limit_bytes),
        monthly_limit_bytes: pick(monthly_limit_bytes, old.monthly_limit_bytes),
        warning_threshold_pct: pick(warning_threshold_pct, old.warning_threshold_pct),
        danger_threshold_pct: pick(danger_threshold_pct, old.danger_threshold_pct),
        notifications_enabled: pick(notifications_enabled, old.notifications_enabled),
        sound_alerts_enabled: pick(sound_alerts_enabled, old.sound_alerts_enabled),
        auto_start_enabled: pick(auto_start_enabled, old.auto_start_enabled),
        minimize_to_tray: pick(minimize_to_tray, old.minimize_to_tray),
        theme: pick_text(theme, &old.theme),
        data_retention_days: pick(data_retention_days, old.data_retention_days),
        selected_adapter: pick_text(selected_adapter, &old.selected_adapter),
        daily_summary_enabled: pick(daily_summary_enabled, old.daily_summary_enabled),
        daily_summary_time: pick_text(daily_summary_time, &old.daily_summary_time),
    };
    store.settings = s;
    get_settings(store)
}

// ---------------------------------------------------------------------------
// Totals tables (daily and monthly, per adapter and per application)
// ---------------------------------------------------------------------------

pub open spec fn totals_key_is(r: TotalsView, period: PeriodView, name: Seq<char>) -> bool {
    r.period == period && r.name == name
}

pub open spec fn nat_max(a: nat, b: nat) -> nat {
    if a >= b {
        a
    } else {
        b
    }
}

/// A row after adding traffic: bytes accumulate, peaks keep the larger value.
pub open spec fn totals_merged(r: TotalsView, up: nat, down: nat, up_speed: nat, down_speed: nat) -> TotalsView {
    TotalsView {
        upload_bytes: r.upload_bytes + up,
        download_bytes: r.download_bytes + down,
        total_bytes: r.total_bytes + (up + down),
        peak_upload_speed: nat_max(r.peak_upload_speed, up_speed),
        peak_download_speed: nat_max(r.peak_download_speed, down_speed),
        ..r
    }
}

/// The table after adding traffic to the (period, name) row: an existing row is
/// merged; otherwise a row holding just this traffic is appended.
pub open spec fn totals_upserted(
    rows: Seq<TotalsView>,
    period: PeriodView,
    name: Seq<char>,
    up: nat,
    down: nat,
    up_speed: nat,
    down_speed: nat,
) -> Seq<TotalsView> {
    if exists|i: int| 0 <= i < rows.len() && totals_key_is(rows[i], period, name) {
        let i = choose|i: int| 0 <= i < rows.len() && totals_key_is(rows[i], period, name);
        rows.update(i, totals_merged(rows[i], up, down, up_speed, down_speed))
    } else {
        rows.push(
            TotalsView {
                period,
                name,
                upload_bytes: up,
                download_bytes: down,
                total_bytes: up + down,
                peak_upload_speed: up_speed,
                peak_download_speed: down_speed,
            },
        )
    }
}

/// Every value of the upserted table fits a column.
pub open spec fn totals_upsert_fits(
    rows: Seq<TotalsView>,
    period: PeriodView,
    name: Seq<char>,
    up: nat,
    down: nat,
    up_speed: nat,
    down_speed: nat,
) -> bool {
    forall|i: int|
        0 <= i < totals_upserted(rows, period, name, up, down, up_speed, down_speed).len()
            ==> totals_fits(
            #[trigger] totals_upserted(rows, period, name, up, down, up_speed, down_speed)[i],
        )
}

fn add_fits(a: u64, b: u64) -> (r: Option<u64>)
    requires
        a <= SQL_INT_MAX,
        b <= SQL_INT_MAX,
    ensures
        match r {
            Some(s) => s == a + b && fits(s as nat),
            None => !fits((a + b) as nat),
        },
{
    if a + b <= SQL_INT_MAX {
        Some(a + b)
    } else {
        None
    }
}

fn find_totals(rows: &Vec<TotalsRecord>, period: &Period, name: &String) -> (r: Option<usize>)
    ensures
        match r {
            Some(i) => i < rows@.len() && totals_key_is(rows@[i as int]@, period@, name@),
            None => forall|i: int|
                0 <= i < rows@.len() ==> !totals_key_is(#[trigger] rows@[i]@, period@, name@),
        },
{
    let mut i: usize = 0;
    while i < rows.len()
        invariant
            i <= rows@.len(),
            forall|j: int| 0 <= j < i ==> !totals_key_is(#[trigger] rows@[j]@, period@, name@),
        decreases rows@.len() - i,
    {
        if same_period(&rows[i].period, period) && rows[i].name == *name {
            return Some(i);
        }
        i = i + 1;
    }
    None
}

proof fn lemma_totals_key_unique(rows: Seq<TotalsView>, i: int, period: PeriodView, name: Seq<char>)
    requires
        totals_table_ok(rows),
        0 <= i < rows.len(),
        totals_key_is(rows[i], period, name),
    ensures
        (choose|k: int| 0 <= k < rows.len() && totals_key_is(rows[k], period, name)) == i,
{
    let k = choose|k: int| 0 <= k < rows.len() && totals_key_is(rows[k], period, name);
    if k < i {
        assert(rows[k].period == rows[i].period);
    } else if k > i {
        assert(rows[i].period == rows[k].period);
    }
}

proof fn lemma_totals_update_ok(rows: Seq<TotalsView>, i: int, x: TotalsView)
    requires
        totals_table_ok(rows),
        0 <= i < rows.len(),
        totals_key_is(x, rows[i].period, rows[i].name),
        totals_fits(x),
    ensures
        totals_table_ok(rows.update(i, x)),
{
    let n = rows.update(i, x);
    assert forall|a: int, b: int| 0 <= a < b < n.len() implies !(#[trigger] n[a].period
        == #[trigger] n[b].period && n[a].name == n[b].name) by {
        if a != i && b != i {
            assert(n[a] == rows[a] && n[b] == rows[b]);
        } else if a == i {
            assert(n[b] == rows[b]);
            assert(!(rows[i].period == rows[b].period && rows[i].name == rows[b].name));
        } else {
            assert(n[a] == rows[a]);
            assert(!(rows[a].period == rows[i].period && rows[a].name == rows[i].name));
        }
    }
    assert forall|a: int| 0 <= a < n.len() implies totals_fits(#[trigger] n[a]) by {
        if a != i {
            assert(n[a] == rows[a]);
        }
    }
}

proof fn lemma_totals_push_ok(rows: Seq<TotalsView>, x: TotalsView)
    requires
        totals_table_ok(rows),
        totals_fits(x),
        forall|j: int| 0 <= j < rows.len() ==> !totals_key_is(#[trigger] rows[j], x.period, x.name),
    ensures
        totals_table_ok(rows.push(x)),
{
    let n = rows.push(x);
    assert forall|a: int, b: int| 0 <= a < b < n.len() implies !(#[trigger] n[a].period
        == #[trigger] n[b].period && n[a].name == n[b].name) by {
        assert(n[a] == rows[a]);
        if b < rows.len() {
            assert(n[b] == rows[b]);
        } else {
            assert(!totals_key_is(rows[a], x.period, x.name));
        }
    }
    assert forall|a: int| 0 <= a < n.len() implies totals_fits(#[trigger] n[a]) by {
        if a < rows.len() {
            assert(n[a] == rows[a]);
        }
    }
}

/// Adds traffic to the (period, name) row of a totals table.
fn upsert_totals(
    table: &mut Vec<TotalsRecord>,
    period: Period,
    name: String,
    up: u64,
    down: u64,
    up_speed: u64,
    down_speed: u64,
) -> (r: Result<(), DbError>)
    requires
        totals_table_ok(totals_view(old(table)@)),
        fits(up as nat),
        fits(down as nat),
        fits(up_speed as nat),
        fits(down_speed as nat),
    ensures
        totals_table_ok(totals_view(final(table)@)),
        if totals_upsert_fits(
            totals_view(old(table)@),
            period@,
            name@,
            up as nat,
            down as nat,
            up_speed as nat,
            down_speed as nat,
        ) {
            r is Ok && totals_view(final(table)@) == totals_upserted(
                totals_view(old(table)@),
                period@,
                name@,
                up as nat,
                down as nat,
                up_speed as nat,
                down_speed as nat,
            )
        } else {
            r == Err::<(), DbError>(DbError::IntegerOverflow) && final(table)@ == old(table)@
        },
{
    let ghost rows = totals_view(table@);
    let ghost next = totals_upserted(
        rows,
        period@,
        name@,
        up as nat,
        down as nat,
        up_speed as nat,
        down_speed as nat,
    );
    let pair = match add_fits(up, down) {
        Some(t) => t,
        None => {
            proof {
                if exists|i: int| 0 <= i < rows.len() && totals_key_is(rows[i], period@, name@) {
                    let i = choose|i: int|
                        0 <= i < rows.len() && totals_key_is(rows[i], period@, name@);
                    assert(!totals_fits(next[i]));
                } else {
                    assert(!totals_fits(next[rows.len() as int]));
                }
            }
            return Err(DbError::IntegerOverflow);
        },
    };
    match find_totals(table, &period, &name) {
        Some(i) => {
            proof {
                assert(rows[i as int] == table@[i as int]@);
                lemma_totals_key_unique(rows, i as int, period@, name@);
            }
            let row = &table[i];
            let new_up = add_fits(row.upload_bytes, up);
            let new_down = add_fits(row.download_bytes, down);
            let new_total = add_fits(row.total_bytes, pair);
            match (new_up, new_down, new_total) {
                (Some(new_up), Some(new_down), Some(new_total)) => {
                    let merged = TotalsRecord {
                        period,
                        name,
                        upload_bytes: new_up,
                        download_bytes: new_down,
                        total_bytes: new_total,
                        peak_upload_speed: if row.peak_upload_speed >= up_speed {
                            row.peak_upload_speed
                        } else {
                            up_speed
                        },
                        peak_download_speed: if row.peak_download_speed >= down_speed {
                            row.peak_download_speed
                        } else {
                            down_speed
                        },
                    };
                    proof {
                        assert(merged@ == totals_merged(
                            rows[i as int],
                            up as nat,
                            down as nat,
                            up_speed as nat,
                            down_speed as nat,
                        ));
                        assert(next == rows.update(i as int, merged@));
                        assert(totals_view(table@.update(i as int, merged)) =~= next);
                        lemma_totals_update_ok(rows, i as int, merged@);
                    }
                    table.set(i, merged);
                    Ok(())
                },
                _ => {
                    proof {
                        assert(!totals_fits(next[i as int]));
                    }
                    Err(DbError::IntegerOverflow)
                },
            }
        },
        None => {
            let row = TotalsRecord {
                period,
                name,
                upload_bytes: up,
                download_bytes: down,
                total_bytes: pair,
                peak_upload_speed: up_speed,
                peak_download_speed: down_speed,
            };
            proof {
                assert forall|j: int| 0 <= j < rows.len() implies !totals_key_is(
                    #[trigger] rows[j],
                    row@.period,
                    row@.name,
                ) by {
                    assert(rows[j] == table@[j]@);
                }
                assert(next == rows.push(row@));
                assert(totals_view(table@.push(row)) =~= next);
                lemma_totals_push_ok(rows, row@);
            }
            table.push(row);
            Ok(())
        },
    }
}

/// The four inputs of an upsert fit integer columns; otherwise it is refused.
pub open spec fn inputs_fit(a: u64, b: u64, c: u64, d: u64) -> bool {
    fits(a as nat) && fits(b as nat) && fits(c as nat) && fits(d as nat)
}

/// Outcome of an upsert on one table: refused for out-of-range inputs, refused
/// without change when a stored value would exceed the range, else applied.
pub open spec fn upsert_outcome(
    r: Result<(), DbError>,
    before: Seq<TotalsView>,
    after: Seq<TotalsView>,
    period: PeriodView,
    name: Seq<char>,
    up: u64,
    down: u64,
    up_speed: u64,
    down_speed: u64,
) -> bool {
    if !inputs_fit(up, down, up_speed, down_speed) {
        r == Err::<(), DbError>(DbError::ValueOutOfRange) && after == before
    } else if totals_upsert_fits(
        before,
        period,
        name,
        up as nat,
        down as nat,
        up_speed as nat,
        down_speed as nat,
    ) {
        r is Ok && after == totals_upserted(
            before,
            period,
            name,
            up as nat,
            down as nat,
            up_speed as nat,
            down_speed as nat,
        )
    } else {
        r == Err::<(), DbError>(DbError::IntegerOverflow) && after == before
    }
}

/// The table after an upsert: the traffic added when it was applied, the
/// table unchanged when it was refused.
pub open spec fn upsert_applied(
    before: Seq<TotalsView>,
    period: PeriodView,
    name: Seq<char>,
    up: u64,
    down: u64,
    up_speed: u64,
    down_speed: u64,
) -> Seq<TotalsView> {
    if inputs_fit(up, down, up_speed, down_speed) && totals_upsert_fits(
        before,
        period,
        name,
        up as nat,
        down as nat,
        up_speed as nat,
        down_speed as nat,
    ) {
        totals_upserted(before, period, name, up as nat, down as nat, up_speed as nat, down_speed as nat)
    } else {
        before
    }
}

/// Whatever the outcome of an upsert, the table afterwards is `upsert_applied`.
pub proof fn lemma_upsert_applied(
    r: Result<(), DbError>,
    before: Seq<TotalsView>,
    after: Seq<TotalsView>,
    period: PeriodView,
    name: Seq<char>,
    up: u64,
    down: u64,
    up_speed: u64,
    down_speed: u64,
)
    requires
        upsert_outcome(r, before, after, period, name, up, down, up_speed, down_speed),
    ensures
        after == upsert_applied(before, period, name, up, down, up_speed, down_speed),
{
}

/// Adds one period of adapter traffic to the adapter's row for `date`.
pub fn upsert_daily_usage(
    store: &mut UsageStore,
    date: &str,
    adapter_name: &str,
    upload_bytes: u64,
    download_bytes: u64,
    upload_speed: u64,
    download_speed: u64,
) -> (r: Result<(), DbError>)
    ensures
        upsert_outcome(
            r,
            old(store).daily_rows(),
            final(store).daily_rows(),
            PeriodView::Day(date@),
            adapter_name@,
            upload_bytes,
            download_bytes,
            upload_speed,
            download_speed,
        ),
        final(store).settings_value() == old(store).settings_value(),
        final(store).snapshot_rows() == old(store).snapshot_rows(),
        final(store).app_rows() == old(store).app_rows(),
        final(store).daily_app_rows() == old(store).daily_app_rows(),
        final(store).monthly_rows() == old(store).monthly_rows(),
        final(store).monthly_app_rows() == old(store).monthly_app_rows(),
{
    proof {
        use_type_invariant(&*store);
    }
    if !(upload_bytes <= SQL_INT_MAX && download_bytes <= SQL_INT_MAX && upload_speed
        <= SQL_INT_MAX && download_speed <= SQL_INT_MAX) {
        return Err(DbError::ValueOutOfRange);
    }
    let mut table: Vec<TotalsRecord> = Vec::new();
    std::mem::swap(&mut table, &mut store.daily);
    let r = upsert_totals(
        &mut table,
        Period::Day(String::from_str(date)),
        String::from_str(adapter_name),
        upload_bytes,
        download_bytes,
        upload_speed,
        download_speed,
    );
    store.daily = table;
    r
}

/// Adds one period of adapter traffic to the adapter's row for the month.
pub fn upsert_monthly_usage(
    store: &mut UsageStore,
    year: i32,
    month: u32,
    adapter_name: &str,
    upload_bytes: u64,
    download_bytes: u64,
    upload_speed: u64,
    download_speed: u64,
) -> (r: Result<(), DbError>)
    ensures
        upsert_outcome(
            r,
            old(store).monthly_rows(),
            final(store).monthly_rows(),
            PeriodView::Month(year as int, (month as i32) as int),
            adapter_name@,
            upload_bytes,
            download_bytes,
            upload_speed,
            download_speed,
        ),
        final(store).settings_value() == old(store).settings_value(),
        final(store).snapshot_rows() == old(store).snapshot_rows(),
        final(store).app_rows() == old(store).app_rows(),
        final(store).daily_rows() == old(store).daily_rows(),
        final(store).daily_app_rows() == old(store).daily_app_rows(),
        final(store).monthly_app_rows() == old(store).monthly_app_rows(),
{
    proof {
        use_type_invariant(&*store);
    }
    if !(upload_bytes <= SQL_INT_MAX && download_bytes <= SQL_INT_MAX && upload_speed
        <= SQL_INT_MAX && download_speed <= SQL_INT_MAX) {
        return Err(DbError::ValueOutOfRange);
    }
    let mut table: Vec<TotalsRecord> = Vec::new();
    std::mem::swap(&mut table, &mut store.monthly);
    let r = upsert_totals(
        &mut table,
        Period::Month(year, month as i32),
        String::from_str(adapter_name),
        upload_bytes,
        download_bytes,
        upload_speed,
        download_speed,
    );
    store.monthly = table;
    r
}

/// Adds one period of an application's traffic to its row for `date`.
pub fn upsert_app_daily_usage(
    store: &mut UsageStore,
    date: &str,
    app_name: &str,
    upload_bytes: u64,
    download_bytes: u64,
) -> (r: Result<(), DbError>)
    ensures
        upsert_outcome(
            r,
            old(store).daily_app_rows(),
            final(store).daily_app_rows(),
            PeriodView::Day(date@),
            app_name@,
            upload_bytes,
            download_bytes,
            0,
            0,
        ),
        final(store).settings_value() == old(store).settings_value(),
        final(store).snapshot_rows() == old(store).snapshot_rows(),
        final(store).app_rows() == old(store).app_rows(),
        final(store).daily_rows() == old(store).daily_rows(),
        final(store).monthly_rows() == old(store).monthly_rows(),
        final(store).monthly_app_rows() == old(store).monthly_app_rows(),
{
    proof {
        use_type_invariant(&*store);
    }
    if !(upload_bytes <= SQL_INT_MAX && download_bytes <= SQL_INT_MAX) {
        return Err(DbError::ValueOutOfRange);
    }
    let mut table: Vec<TotalsRecord> = Vec::new();
    std::mem::swap(&mut table, &mut store.daily_app);
    let r = upsert_totals(
        &mut table,
        Period::Day(String::from_str(date)),
        String::from_str(app_name),
        upload_bytes,
        download_bytes,
        0,
        0,
    );
    store.daily_app = table;
    r
}

/// Adds one period of an application's traffic to its row for the month.
pub fn upsert_app_monthly_usage(
    store: &mut UsageStore,
    year: i32,
    month: u32,
    app_name: &str,
    upload_bytes: u64,
    download_bytes: u64,
) -> (r: Result<(), DbError>)
    ensures
        upsert_outcome(
            r,
            old(store).monthly_app_rows(),
            final(store).monthly_app_rows(),
            PeriodView::Month(year as int, (month as i32) as int),
            app_name@,
            upload_bytes,
            download_bytes,
            0,
            0,
        ),
        final(store).settings_value() == old(store).settings_value(),
        final(store).snapshot_rows() == old(store).snapshot_rows(),
        final(store).app_rows() == old(store).app_rows(),
        final(store).daily_rows() == old(store).daily_rows(),
        final(store).daily_app_rows() == old(store).daily_app_rows(),
        final(store).monthly_rows() == old(store).monthly_rows(),
{
    proof {
        use_type_invariant(&*store);
    }
    if !(upload_bytes <= SQL_INT_MAX && download_bytes <= SQL_INT_MAX) {
        return Err(DbError::ValueOutOfRange);
    }
    let mut table: Vec<TotalsRecord> = Vec::new();
    std::mem::swap(&mut table, &mut store.monthly_app);
    let r = upsert_totals(
        &mut table,
        Period::Month(year, month as i32),
        String::from_str(app_name),
        upload_bytes,
        download_bytes,
        0,
        0,
    );
    store.monthly_app = table;
    r
}

// ---------------------------------------------------------------------------
// Selecting and summing totals rows
// ---------------------------------------------------------------------------

/// Which periods a query reads: one period, or the days whose text lies from
/// `start` up to `end` (inclusive or not), compared as text.
pub enum PeriodFilter {
    Exact(Period),
    Days(String, String, bool),
}

pub enum PeriodFilterView {
    Exact(PeriodView),
    Days(Seq<char>, Seq<char>, bool),
}

impl View for PeriodFilter {
    type V = PeriodFilterView;

    open spec fn view(&self) -> PeriodFilterView {
        match self {
            PeriodFilter::Exact(p) => PeriodFilterView::Exact(p@),
            PeriodFilter::Days(s, e, inclusive) => PeriodFilterView::Days(s@, e@, *inclusive),
        }
    }
}

/// A period filter, and optionally the one adapter or application to read.
pub struct RowFilter {
    pub period: PeriodFilter,
    pub name: Option<String>,
}

pub struct RowFilterView {
    pub period: PeriodFilterView,
    pub name: Option<Seq<char>>,
}

impl View for RowFilter {
    type V = RowFilterView;

    open spec fn view(&self) -> RowFilterView {
        RowFilterView {
            period: self.period@,
            name: match self.name {
                Some(n) => Some(n@),
                None => None,
            },
        }
    }
}

pub open spec fn period_selected(f: PeriodFilterView, p: PeriodView) -> bool {
    match f {
        PeriodFilterView::Exact(q) => p == q,
        PeriodFilterView::Days(s, e, inclusive) => match p {
            PeriodView::Day(d) => text_le(s, d) && if inclusive {
                text_le(d, e)
            } else {
                text_lt(d, e)
            },
            PeriodView::Month(_, _) => false,
        },
    }
}

pub open spec fn row_selected(f: RowFilterView, r: TotalsView) -> bool {
    period_selected(f.period, r.period) && match f.name {
        Some(n) => r.name == n,
        None => true,
    }
}

pub open spec fn sel_upload(f: RowFilterView) -> spec_fn(TotalsView) -> nat {
    |r: TotalsView|
        if row_selected(f, r) {
            r.upload_bytes
        } else {
            0
        }
}

pub open spec fn sel_download(f: RowFilterView) -> spec_fn(TotalsView) -> nat {
    |r: TotalsView|
        if row_selected(f, r) {
            r.download_bytes
        } else {
            0
        }
}

pub open spec fn sel_total(f: RowFilterView) -> spec_fn(TotalsView) -> nat {
    |r: TotalsView|
        if row_selected(f, r) {
            r.total_bytes
        } else {
            0
        }
}

pub open spec fn sel_peak_up(f: RowFilterView) -> spec_fn(TotalsView) -> nat {
    |r: TotalsView|
        if row_selected(f, r) {
            r.peak_upload_speed
        } else {
            0
        }
}

pub open spec fn sel_peak_down(f: RowFilterView) -> spec_fn(TotalsView) -> nat {
    |r: TotalsView|
        if row_selected(f, r) {
            r.peak_download_speed
        } else {
            0
        }
}

pub open spec fn sel_count(f: RowFilterView) -> spec_fn(TotalsView) -> nat {
    |r: TotalsView|
        if row_selected(f, r) {
            1nat
        } else {
            0nat
        }
}

/// The three byte sums over the selected rows fit an integer column.
pub open spec fn sums_fit(rows: Seq<TotalsView>, f: RowFilterView) -> bool {
    fits(sum_by(rows, sel_upload(f))) && fits(sum_by(rows, sel_download(f))) && fits(
        sum_by(rows, sel_total(f)),
    )
}

/// Sums and maxima over the selected rows, with the number of rows selected.
pub struct TotalsSums {
    pub upload_bytes: u128,
    pub download_bytes: u128,
    pub total_bytes: u128,
    pub peak_upload_speed: u64,
    pub peak_download_speed: u64,
    pub rows: u64,
}

pub open spec fn sums_match(s: TotalsSums, rows: Seq<TotalsView>, f: RowFilterView) -> bool {
    &&& s.upload_bytes == sum_by(rows, sel_upload(f))
    &&& s.download_bytes == sum_by(rows, sel_download(f))
    &&& s.total_bytes == sum_by(rows, sel_total(f))
    &&& s.peak_upload_speed == max_by(rows, sel_peak_up(f))
    &&& s.peak_download_speed == max_by(rows, sel_peak_down(f))
    &&& s.rows == sum_by(rows, sel_count(f))
}

fn text_at_most(a: &String, b: &String) -> (r: bool)
    ensures
        r == text_le(a@, b@),
{
    *a == *b || text_less(a, b)
}

pub fn row_matches(f: &RowFilter, r: &TotalsRecord) -> (b: bool)
    ensures
        b == row_selected(f@, r@),
{
    let period_ok = match (&f.period, &r.period) {
        (PeriodFilter::Exact(p), q) => same_period(p, q),
        (PeriodFilter::Days(s, e, inclusive), Period::Day(d)) => text_at_most(s, d) && if *inclusive {
            text_at_most(d, e)
        } else {
            text_less(d, e)
        },
        (PeriodFilter::Days(_, _, _), Period::Month(_, _)) => false,
    };
    period_ok && match &f.name {
        Some(n) => r.name == *n,
        None => true,
    }
}

/// The largest sum a table can give: every value is at most `SQL_INT_MAX`.
pub open spec fn sum_bound(n: int) -> int {
    n * (SQL_INT_MAX as int)
}

proof fn lemma_sum_step_bound(acc: u128, x: u64, i: int)
    requires
        acc <= sum_bound(i),
        x <= SQL_INT_MAX,
        0 <= i < 18446744073709551616,
    ensures
        acc + x <= sum_bound(i + 1),
        sum_bound(i + 1) < u128::MAX,
{
    assert(sum_bound(i + 1) == sum_bound(i) + SQL_INT_MAX) by (nonlinear_arith);
    assert(sum_bound(i + 1) <= 18446744073709551616 * 9223372036854775807) by (nonlinear_arith)
        requires
            0 <= i < 18446744073709551616,
    ;
}

/// Sums and maxima over the rows `f` selects.
pub fn sum_totals(rows: &Vec<TotalsRecord>, f: &RowFilter) -> (r: TotalsSums)
    requires
        totals_table_ok(totals_view(rows@)),
    ensures
        sums_match(r, totals_view(rows@), f@),
{
    let ghost v = totals_view(rows@);
    let ghost fv = f@;
    let mut s = TotalsSums {
        upload_bytes: 0,
        download_bytes: 0,
        total_bytes: 0,
        peak_upload_speed: 0,
        peak_download_speed: 0,
        rows: 0,
    };
    let mut i: usize = 0;
    proof {
        assert(v.take(0) =~= Seq::<TotalsView>::empty());
    }
    while i < rows.len()
        invariant
            i <= rows@.len(),
            v == totals_view(rows@),
            fv == f@,
            totals_table_ok(v),
            sums_match(s, v.take(i as int), fv),
            s.upload_bytes <= sum_bound(i as int),
            s.download_bytes <= sum_bound(i as int),
            s.total_bytes <= sum_bound(i as int),
            s.rows <= i,
        decreases rows@.len() - i,
    {
        proof {
            lemma_sum_by_take(v, sel_upload(fv), i as int);
            lemma_sum_by_take(v, sel_download(fv), i as int);
            lemma_sum_by_take(v, sel_total(fv), i as int);
            lemma_sum_by_take(v, sel_peak_up(fv), i as int);
            lemma_sum_by_take(v, sel_peak_down(fv), i as int);
            lemma_sum_by_take(v, sel_count(fv), i as int);
            assert(v[i as int] == rows@[i as int]@);
            assert(totals_fits(v[i as int]));
        }
        let r = &rows[i];
        if row_matches(f, r) {
            proof {
                lemma_sum_step_bound(s.upload_bytes, r.upload_bytes, i as int);
                lemma_sum_step_bound(s.download_bytes, r.download_bytes, i as int);
                lemma_sum_step_bound(s.total_bytes, r.total_bytes, i as int);
            }
            s.upload_bytes = s.upload_bytes + r.upload_bytes as u128;
            s.download_bytes = s.download_bytes + r.download_bytes as u128;
            s.total_bytes = s.total_bytes + r.total_bytes as u128;
            if r.peak_upload_speed > s.peak_upload_speed {
                s.peak_upload_speed = r.peak_upload_speed;
            }
            if r.peak_download_speed > s.peak_download_speed {
                s.peak_download_speed = r.peak_download_speed;
            }
            s.rows = s.rows + 1;
        } else {
            proof {
                lemma_sum_step_bound(s.upload_bytes, 0, i as int);
                lemma_sum_step_bound(s.download_bytes, 0, i as int);
                lemma_sum_step_bound(s.total_bytes, 0, i as int);
            }
        }
        i = i + 1;
    }
    proof {
        assert(v.take(i as int) =~= v);
    }
    s
}

/// Law support: adding traffic to a key moves every sum that selects the key by
/// the amounts added, and leaves sums that do not select it unchanged.
pub proof fn lemma_upsert_sums(
    rows: Seq<TotalsView>,
    period: PeriodView,
    name: Seq<char>,
    up: nat,
    down: nat,
    up_speed: nat,
    down_speed: nat,
    f: RowFilterView,
)
    requires
        totals_table_ok(rows),
    ensures
        ({
            let next = totals_upserted(rows, period, name, up, down, up_speed, down_speed);
            let key = TotalsView {
                period,
                name,
                upload_bytes: 0,
                download_bytes: 0,
                total_bytes: 0,
                peak_upload_speed: 0,
                peak_download_speed: 0,
            };
            if row_selected(f, key) {
                &&& sum_by(next, sel_upload(f)) == sum_by(rows, sel_upload(f)) + up
                &&& sum_by(next, sel_download(f)) == sum_by(rows, sel_download(f)) + down
                &&& sum_by(next, sel_total(f)) == sum_by(rows, sel_total(f)) + up + down
                &&& max_by(next, sel_peak_up(f)) == nat_max(max_by(rows, sel_peak_up(f)), up_speed)
                &&& max_by(next, sel_peak_down(f)) == nat_max(
                    max_by(rows, sel_peak_down(f)),
                    down_speed,
                )
            } else {
                &&& sum_by(next, sel_upload(f)) == sum_by(rows, sel_upload(f))
                &&& sum_by(next, sel_download(f)) == sum_by(rows, sel_download(f))
                &&& sum_by(next, sel_total(f)) == sum_by(rows, sel_total(f))
                &&& max_by(next, sel_peak_up(f)) == max_by(rows, sel_peak_up(f))
                &&& max_by(next, sel_peak_down(f)) == max_by(rows, sel_peak_down(f))
            }
        }),
{
    let next = totals_upserted(rows, period, name, up, down, up_speed, down_speed);
    if exists|i: int| 0 <= i < rows.len() && totals_key_is(rows[i], period, name) {
        let i = choose|i: int| 0 <= i < rows.len() && totals_key_is(rows[i], period, name);
        let x = totals_merged(rows[i], up, down, up_speed, down_speed);
        assert(next == rows.update(i, x));
        lemma_sum_by_update(rows, sel_upload(f), i, x);
        lemma_sum_by_update(rows, sel_download(f), i, x);
        lemma_sum_by_update(rows, sel_total(f), i, x);
        crate::db::lemma_max_by_ge(rows, sel_peak_up(f), i);
        crate::db::lemma_max_by_ge(rows, sel_peak_down(f), i);
        lemma_max_by_update_grow(rows, sel_peak_up(f), i, x);
        lemma_max_by_update_grow(rows, sel_peak_down(f), i, x);
        assert(x.period == period && x.name == name);
        assert(rows[i].period == period && rows[i].name == name);
        if !row_selected(f, x) {
            assert forall|k: int| 0 <= k < rows.len() implies sel_peak_up(f)(
                rows.update(i, x)[k],
            ) == sel_peak_up(f)(rows[k]) by {
                if k == i {
                } else {
                    assert(rows.update(i, x)[k] == rows[k]);
                }
            }
            assert forall|k: int| 0 <= k < rows.len() implies sel_peak_down(f)(
                rows.update(i, x)[k],
            ) == sel_peak_down(f)(rows[k]) by {
                if k == i {
                } else {
                    assert(rows.update(i, x)[k] == rows[k]);
                }
            }
            lemma_max_by_same(rows.update(i, x), rows, sel_peak_up(f));
            lemma_max_by_same(rows.update(i, x), rows, sel_peak_down(f));
        }
    } else {
        let x = TotalsView {
            period,
            name,
            upload_bytes: up,
            download_bytes: down,
            total_bytes: up + down,
            peak_upload_speed: up_speed,
            peak_download_speed: down_speed,
        };
        assert(next == rows.push(x));
        lemma_sum_by_push(rows, sel_upload(f), x);
        lemma_sum_by_push(rows, sel_download(f), x);
        lemma_sum_by_push(rows, sel_total(f), x);
        lemma_sum_by_push(rows, sel_peak_up(f), x);
        lemma_sum_by_push(rows, sel_peak_down(f), x);
    }
}

/// Two sequences on which `f` takes the same values have the same maximum.
pub proof fn lemma_max_by_same<T>(a: Seq<T>, b: Seq<T>, f: spec_fn(T) -> nat)
    requires
        a.len() == b.len(),
        forall|k: int| 0 <= k < a.len() ==> f(a[k]) == f(b[k]),
    ensures
        max_by(a, f) == max_by(b, f),
    decreases a.len(),
{
    if a.len() > 0 {
        assert forall|k: int| 0 <= k < a.drop_last().len() implies f(a.drop_last()[k]) == f(
            b.drop_last()[k],
        ) by {
            assert(a.drop_last()[k] == a[k]);
            assert(b.drop_last()[k] == b[k]);
        }
        lemma_max_by_same(a.drop_last(), b.drop_last(), f);
    }
}

/// The usage of one day across adapters.
pub struct DailyUsageRow {
    pub date: String,
    pub upload_bytes: u64,
    pub download_bytes: u64,
    pub total_bytes: u64,
    pub peak_upload_speed: u64,
    pub peak_download_speed: u64,
}

/// The usage of one month across adapters.
pub struct MonthlyUsageRow {
    pub year: i32,
    pub month: u32,
    pub upload_bytes: u64,
    pub download_bytes: u64,
    pub total_bytes: u64,
}

pub open spec fn day_filter(date: Seq<char>) -> RowFilterView {
    RowFilterView { period: PeriodFilterView::Exact(PeriodView::Day(date)), name: None }
}

pub open spec fn month_filter(year: i32, month: u32) -> RowFilterView {
    RowFilterView {
        period: PeriodFilterView::Exact(PeriodView::Month(year as int, (month as i32) as int)),
        name: None,
    }
}

/// The day's totals over all adapters (bytes summed, peaks the largest; zeros
/// when nothing was recorded); an error when a sum exceeds the integer range.
pub fn get_daily_usage(store: &UsageStore, date: &str) -> (r: Result<DailyUsageRow, DbError>)
    ensures
        match r {
            Ok(row) => sums_fit(store.daily_rows(), day_filter(date@)) && {
                let f = day_filter(date@);
                let rows = store.daily_rows();
                &&& row.date@ == date@
                &&& row.upload_bytes == sum_by(rows, sel_upload(f))
                &&& row.download_bytes == sum_by(rows, sel_download(f))
                &&& row.total_bytes == sum_by(rows, sel_total(f))
                &&& row.peak_upload_speed == max_by(rows, sel_peak_up(f))
                &&& row.peak_download_speed == max_by(rows, sel_peak_down(f))
            },
            Err(e) => e == DbError::IntegerOverflow && !sums_fit(
                store.daily_rows(),
                day_filter(date@),
            ),
        },
{
    proof {
        use_type_invariant(store);
    }
    let f = RowFilter { period: PeriodFilter::Exact(Period::Day(String::from_str(date))), name: None };
    let s = sum_totals(&store.daily, &f);
    if !(s.upload_bytes <= SQL_INT_MAX as u128 && s.download_bytes <= SQL_INT_MAX as u128
        && s.total_bytes <= SQL_INT_MAX as u128) {
        return Err(DbError::IntegerOverflow);
    }
    Ok(
        DailyUsageRow {
            date: String::from_str(date),
            upload_bytes: s.upload_bytes as u64,
            download_bytes: s.download_bytes as u64,
            total_bytes: s.total_bytes as u64,
            peak_upload_speed: s.peak_upload_speed,
            peak_download_speed: s.peak_download_speed,
        },
    )
}

/// The month's totals over all adapters; an error when a sum exceeds the integer range.
pub fn get_monthly_usage(store: &UsageStore, year: i32, month: u32) -> (r: Result<
    MonthlyUsageRow,
    DbError,
>)
    ensures
        match r {
            Ok(row) => sums_fit(store.monthly_rows(), month_filter(year, month)) && {
                let f = month_filter(year, month);
                let rows = store.monthly_rows();
                &&& row.year == year
                &&& row.month == month
                &&& row.upload_bytes == sum_by(rows, sel_upload(f))
                &&& row.download_bytes == sum_by(rows, sel_download(f))
                &&& row.total_bytes == sum_by(rows, sel_total(f))
            },
            Err(e) => e == DbError::IntegerOverflow && !sums_fit(
                store.monthly_rows(),
                month_filter(year, month),
            ),
        },
{
    proof {
        use_type_invariant(store);
    }
    let f = RowFilter { period: PeriodFilter::Exact(Period::Month(year, month as i32)), name: None };
    let s = sum_totals(&store.monthly, &f);
    if !(s.upload_bytes <= SQL_INT_MAX as u128 && s.download_bytes <= SQL_INT_MAX as u128
        && s.total_bytes <= SQL_INT_MAX as u128) {
        return Err(DbError::IntegerOverflow);
    }
    Ok(
        MonthlyUsageRow {
            year,
            month,
            upload_bytes: s.upload_bytes as u64,
            download_bytes: s.download_bytes as u64,
            total_bytes: s.total_bytes as u64,
        },
    )
}

// ---------------------------------------------------------------------------
// Snapshot and per-application records
// ---------------------------------------------------------------------------

/// Records one sampling period of adapter traffic. Values beyond the signed
/// 64-bit range are refused.
pub fn insert_snapshot(
    store: &mut UsageStore,
    timestamp: &str,
    adapter_name: &str,
    upload_bytes: u64,
    download_bytes: u64,
    upload_speed: u64,
    download_speed: u64,
) -> (r: Result<(), DbError>)
    requires
        upload_bytes + download_bytes <= u64::MAX,
    ensures
        ({
            let ok = fits(upload_bytes as nat) && fits(download_bytes as nat) && fits(
                (upload_bytes + download_bytes) as nat,
            ) && fits(upload_speed as nat) && fits(download_speed as nat);
            if ok {
                r is Ok && final(store).snapshot_rows() == old(store).snapshot_rows().push(
                    SnapshotView {
                        timestamp: timestamp@,
                        adapter_name: adapter_name@,
                        upload_bytes: upload_bytes as nat,
                        download_bytes: download_bytes as nat,
                        total_bytes: (upload_bytes + download_bytes) as nat,
                        upload_speed_bps: upload_speed as nat,
                        download_speed_bps: download_speed as nat,
                    },
                )
            } else {
                r == Err::<(), DbError>(DbError::ValueOutOfRange) && final(store).snapshot_rows()
                    == old(store).snapshot_rows()
            }
        }),
        final(store).settings_value() == old(store).settings_value(),
        final(store).app_rows() == old(store).app_rows(),
        final(store).daily_rows() == old(store).daily_rows(),
        final(store).daily_app_rows() == old(store).daily_app_rows(),
        final(store).monthly_rows() == old(store).monthly_rows(),
        final(store).monthly_app_rows() == old(store).monthly_app_rows(),
{
    proof {
        use_type_invariant(&*store);
    }
    let total = upload_bytes + download_bytes;
    if !(upload_bytes <= SQL_INT_MAX && download_bytes <= SQL_INT_MAX && total <= SQL_INT_MAX
        && upload_speed <= SQL_INT_MAX && download_speed <= SQL_INT_MAX) {
        return Err(DbError::ValueOutOfRange);
    }
    let rec = SnapshotRecord {
        timestamp: String::from_str(timestamp),
        adapter_name: String::from_str(adapter_name),
        upload_bytes,
        download_bytes,
        total_bytes: total,
        upload_speed_bps: upload_speed,
        download_speed_bps: download_speed,
    };
    let mut table: Vec<SnapshotRecord> = Vec::new();
    std::mem::swap(&mut table, &mut store.snapshots);
    proof {
        assert(table@.push(rec).map_values(|r: SnapshotRecord| r@) =~= table@.map_values(
            |r: SnapshotRecord| r@,
        ).push(rec@));
    }
    table.push(rec);
    store.snapshots = table;
    Ok(())
}

/// Records one sampling period of an application's traffic. Values beyond the
/// signed 64-bit range are refused.
pub fn insert_app_usage(
    store: &mut UsageStore,
    timestamp: &str,
    app_name: &str,
    app_path: &str,
    upload_bytes: u64,
    download_bytes: u64,
) -> (r: Result<(), DbError>)
    requires
        upload_bytes + download_bytes <= u64::MAX,
    ensures
        ({
            let ok = fits(upload_bytes as nat) && fits(download_bytes as nat) && fits(
                (upload_bytes + download_bytes) as nat,
            );
            if ok {
                r is Ok && final(store).app_rows() == old(store).app_rows().push(
                    AppUsageView {
                        timestamp: timestamp@,
                        app_name: app_name@,
                        app_path: app_path@,
                        upload_bytes: upload_bytes as nat,
                        download_bytes: download_bytes as nat,
                        total_bytes: (upload_bytes + download_bytes) as nat,
                    },
                )
            } else {
                r == Err::<(), DbError>(DbError::ValueOutOfRange) && final(store).app_rows() == old(
                    store,
                ).app_rows()
            }
        }),
        final(store).settings_value() == old(store).settings_value(),
        final(store).snapshot_rows() == old(store).snapshot_rows(),
        final(store).daily_rows() == old(store).daily_rows(),
        final(store).daily_app_rows() == old(store).daily_app_rows(),
        final(store).monthly_rows() == old(store).monthly_rows(),
        final(store).monthly_app_rows() == old(store).monthly_app_rows(),
{
    proof {
        use_type_invariant(&*store);
    }
    let total = upload_bytes + download_bytes;
    if !(upload_bytes <= SQL_INT_MAX && download_bytes <= SQL_INT_MAX && total <= SQL_INT_MAX) {
        return Err(DbError::ValueOutOfRange);
    }
    let rec = AppUsageRecord {
        timestamp: String::from_str(timestamp),
        app_name: String::from_str(app_name),
        app_path: String::from_str(app_path),
        upload_bytes,
        download_bytes,
        total_bytes: total,
    };
    let mut table: Vec<AppUsageRecord> = Vec::new();
    std::mem::swap(&mut table, &mut store.app_records);
    proof {
        assert(table@.push(rec).map_values(|r: AppUsageRecord| r@) =~= table@.map_values(
            |r: AppUsageRecord| r@,
        ).push(rec@));
    }
    table.push(rec);
    store.app_records = table;
    Ok(())
}

/// Which timestamped records a sum reads: those of one application (or of any)
/// whose timestamp falls on a date (or in a date range, `start` inclusive and
/// `end` exclusive), optionally in one hour and on one day of the week.
pub struct StampFilter {
    pub app: Option<String>,
    pub date: Option<String>,
    pub range: Option<(String, String)>,
    pub hour: Option<u64>,
    pub weekday: Option<u64>,
}

pub struct StampFilterView {
    pub app: Option<Seq<char>>,
    pub date: Option<Seq<char>>,
    pub range: Option<(Seq<char>, Seq<char>)>,
    pub hour: Option<nat>,
    pub weekday: Option<nat>,
}

impl View for StampFilter {
    type V = StampFilterView;

    open spec fn view(&self) -> StampFilterView {
        StampFilterView {
            app: match self.app {
                Some(a) => Some(a@),
                None => None,
            },
            date: match self.date {
                Some(d) => Some(d@),
                None => None,
            },
            range: match self.range {
                Some(r) => Some((r.0@, r.1@)),
                None => None,
            },
            hour: match self.hour {
                Some(h) => Some(h as nat),
                None => None,
            },
            weekday: match self.weekday {
                Some(w) => Some(w as nat),
                None => None,
            },
        }
    }
}

/// A record with timestamp `ts` (of application `app`) passes the filter.
pub open spec fn stamp_selected(f: StampFilterView, ts: Seq<char>, app: Seq<char>) -> bool {
    &&& sql_time(ts) is Some
    &&& match f.app {
        Some(a) => app == a,
        None => true,
    }
    &&& match sql_time(ts) {
        Some(t) => {
            let date = t.date;
            &&& match f.date {
                Some(d) => date == d,
                None => true,
            }
            &&& match f.range {
                Some((s, e)) => text_le(s, date) && text_lt(date, e),
                None => true,
            }
            &&& match f.hour {
                Some(h) => t.hour == h,
                None => true,
            }
            &&& match f.weekday {
                Some(w) => t.weekday == w,
                None => true,
            }
        },
        None => false,
    }
}

pub open spec fn snap_up(f: StampFilterView) -> spec_fn(SnapshotView) -> nat {
    |r: SnapshotView|
        if stamp_selected(f, r.timestamp, r.adapter_name) {
            r.upload_bytes
        } else {
            0
        }
}

pub open spec fn snap_down(f: StampFilterView) -> spec_fn(SnapshotView) -> nat {
    |r: SnapshotView|
        if stamp_selected(f, r.timestamp, r.adapter_name) {
            r.download_bytes
        } else {
            0
        }
}

pub open spec fn snap_total(f: StampFilterView) -> spec_fn(SnapshotView) -> nat {
    |r: SnapshotView|
        if stamp_selected(f, r.timestamp, r.adapter_name) {
            r.total_bytes
        } else {
            0
        }
}

pub open spec fn snap_count(f: StampFilterView) -> spec_fn(SnapshotView) -> nat {
    |r: SnapshotView|
        if stamp_selected(f, r.timestamp, r.adapter_name) {
            1nat
        } else {
            0nat
        }
}

pub open spec fn app_up(f: StampFilterView) -> spec_fn(AppUsageView) -> nat {
    |r: AppUsageView|
        if stamp_selected(f, r.timestamp, r.app_name) {
            r.upload_bytes
        } else {
            0
        }
}

pub open spec fn app_down(f: StampFilterView) -> spec_fn(AppUsageView) -> nat {
    |r: AppUsageView|
        if stamp_selected(f, r.timestamp, r.app_name) {
            r.download_bytes
        } else {
            0
        }
}

pub open spec fn app_total(f: StampFilterView) -> spec_fn(AppUsageView) -> nat {
    |r: AppUsageView|
        if stamp_selected(f, r.timestamp, r.app_name) {
            r.total_bytes
        } else {
            0
        }
}

pub open spec fn app_count(f: StampFilterView) -> spec_fn(AppUsageView) -> nat {
    |r: AppUsageView|
        if stamp_selected(f, r.timestamp, r.app_name) {
            1nat
        } else {
            0nat
        }
}

/// Sum over the first `n` hours of `date` of what `part` reads from the
/// snapshots of that hour.
pub open spec fn hours_sum(
    rows: Seq<SnapshotView>,
    date: Seq<char>,
    n: nat,
    part: spec_fn(StampFilterView) -> spec_fn(SnapshotView) -> nat,
) -> nat
    decreases n,
{
    if n == 0 {
        0
    } else {
        hours_sum(rows, date, (n - 1) as nat, part) + sum_by(rows, part(hour_filter(date, (n - 1) as nat)))
    }
}

/// What `part` reads from one snapshot, summed over the first `n` hours of `date`.
pub open spec fn row_hours(
    r: SnapshotView,
    date: Seq<char>,
    n: nat,
    part: spec_fn(StampFilterView) -> spec_fn(SnapshotView) -> nat,
) -> nat
    decreases n,
{
    if n == 0 {
        0
    } else {
        row_hours(r, date, (n - 1) as nat, part) + part(hour_filter(date, (n - 1) as nat))(r)
    }
}

proof fn lemma_sum_by_add<T>(rows: Seq<T>, f: spec_fn(T) -> nat, g: spec_fn(T) -> nat, h: spec_fn(T) -> nat)
    requires
        forall|x: T| #[trigger] h(x) == f(x) + g(x),
    ensures
        sum_by(rows, h) == sum_by(rows, f) + sum_by(rows, g),
    decreases rows.len(),
{
    if rows.len() > 0 {
        lemma_sum_by_add(rows.drop_last(), f, g, h);
    }
}

proof fn lemma_sum_by_same<T>(rows: Seq<T>, f: spec_fn(T) -> nat, g: spec_fn(T) -> nat)
    requires
        forall|x: T| #[trigger] f(x) == g(x),
    ensures
        sum_by(rows, f) == sum_by(rows, g),
    decreases rows.len(),
{
    if rows.len() > 0 {
        lemma_sum_by_same(rows.drop_last(), f, g);
    }
}

proof fn lemma_hours_sum_rows(
    rows: Seq<SnapshotView>,
    date: Seq<char>,
    n: nat,
    part: spec_fn(StampFilterView) -> spec_fn(SnapshotView) -> nat,
)
    ensures
        hours_sum(rows, date, n, part) == sum_by(rows, |r: SnapshotView| row_hours(r, date, n, part)),
    decreases n,
{
    if n == 0 {
        assert(sum_by(rows, |r: SnapshotView| row_hours(r, date, 0, part)) == 0) by {
            lemma_sum_by_same(rows, |r: SnapshotView| row_hours(r, date, 0, part), |r: SnapshotView| 0nat);
            lemma_sum_by_zero(rows);
        }
    } else {
        let m = (n - 1) as nat;
        lemma_hours_sum_rows(rows, date, m, part);
        lemma_sum_by_add(
            rows,
            |r: SnapshotView| row_hours(r, date, m, part),
            part(hour_filter(date, m)),
            |r: SnapshotView| row_hours(r, date, n, part),
        );
    }
}

proof fn lemma_sum_by_zero(rows: Seq<SnapshotView>)
    ensures
        sum_by(rows, |r: SnapshotView| 0nat) == 0,
    decreases rows.len(),
{
    if rows.len() > 0 {
        lemma_sum_by_zero(rows.drop_last());
    }
}

/// The reading `v` of the snapshots that `f` selects.
pub open spec fn snap_part(v: spec_fn(SnapshotView) -> nat) -> spec_fn(StampFilterView) -> spec_fn(
    SnapshotView,
) -> nat {
    |f: StampFilterView|
        |r: SnapshotView|
            if stamp_selected(f, r.timestamp, r.adapter_name) {
                v(r)
            } else {
                0
            }
}

proof fn lemma_row_hours(r: SnapshotView, date: Seq<char>, n: nat, v: spec_fn(SnapshotView) -> nat)
    ensures
        row_hours(r, date, n, snap_part(v)) == match sql_time(r.timestamp) {
            Some(t) => if t.date == date && t.hour < n {
                v(r)
            } else {
                0
            },
            None => 0,
        },
    decreases n,
{
    if n > 0 {
        lemma_row_hours(r, date, (n - 1) as nat, v);
    }
}

/// For any reading of the snapshots, its sums over the hours 0 to 24 of `date` add
/// up to its sum over the snapshots of `date`.
proof fn lemma_hours_add_up_to_day(rows: Seq<SnapshotView>, date: Seq<char>, v: spec_fn(SnapshotView) -> nat)
    ensures
        hours_sum(rows, date, 25, snap_part(v)) == sum_by(rows, snap_part(v)(date_filter(date))),
{
    lemma_hours_sum_rows(rows, date, 25, snap_part(v));
    assert forall|r: SnapshotView|
        #[trigger] row_hours(r, date, 25, snap_part(v)) == snap_part(v)(date_filter(date))(r) by {
        lemma_row_hours(r, date, 25, v);
        lemma_sql_time_bounds(r.timestamp);
    }
    lemma_sum_by_same(
        rows,
        |r: SnapshotView| row_hours(r, date, 25, snap_part(v)),
        snap_part(v)(date_filter(date)),
    );
}

proof fn lemma_snap_parts(f: StampFilterView)
    ensures
        snap_down(f) == snap_part(|r: SnapshotView| r.download_bytes)(f),
        snap_up(f) == snap_part(|r: SnapshotView| r.upload_bytes)(f),
        snap_total(f) == snap_part(|r: SnapshotView| r.total_bytes)(f),
{
    assert(snap_down(f) =~= snap_part(|r: SnapshotView| r.download_bytes)(f));
    assert(snap_up(f) =~= snap_part(|r: SnapshotView| r.upload_bytes)(f));
    assert(snap_total(f) =~= snap_part(|r: SnapshotView| r.total_bytes)(f));
}

proof fn lemma_hours_sum_same(
    rows: Seq<SnapshotView>,
    date: Seq<char>,
    n: nat,
    p: spec_fn(StampFilterView) -> spec_fn(SnapshotView) -> nat,
    q: spec_fn(StampFilterView) -> spec_fn(SnapshotView) -> nat,
)
    requires
        forall|f: StampFilterView| #[trigger] p(f) == q(f),
    ensures
        hours_sum(rows, date, n, p) == hours_sum(rows, date, n, q),
    decreases n,
{
    if n > 0 {
        lemma_hours_sum_same(rows, date, (n - 1) as nat, p, q);
        assert(p(hour_filter(date, (n - 1) as nat)) == q(hour_filter(date, (n - 1) as nat)));
    }
}

/// Law: a day's hourly breakdown adds up to the day — the download (upload,
/// total) of the snapshots of each of the hours 0 to 24 of `date` (a time
/// written `24:MM` reads as hour 24) add up to the
/// download (upload, total) of all the snapshots of `date`.
pub proof fn law_hourly_breakdown_adds_up(rows: Seq<SnapshotView>, date: Seq<char>)
    ensures
        hours_sum(rows, date, 25, |f: StampFilterView| snap_down(f)) == sum_by(rows, snap_down(date_filter(date))),
        hours_sum(rows, date, 25, |f: StampFilterView| snap_up(f)) == sum_by(rows, snap_up(date_filter(date))),
        hours_sum(rows, date, 25, |f: StampFilterView| snap_total(f)) == sum_by(rows, snap_total(date_filter(date))),
{
    let vd = |r: SnapshotView| r.download_bytes;
    let vu = |r: SnapshotView| r.upload_bytes;
    let vt = |r: SnapshotView| r.total_bytes;
    assert forall|f: StampFilterView| #[trigger] snap_down(f) == snap_part(vd)(f) by {
        lemma_snap_parts(f);
    }
    assert forall|f: StampFilterView| #[trigger] snap_up(f) == snap_part(vu)(f) by {
        lemma_snap_parts(f);
    }
    assert forall|f: StampFilterView| #[trigger] snap_total(f) == snap_part(vt)(f) by {
        lemma_snap_parts(f);
    }
    lemma_hours_sum_same(rows, date, 25, |f: StampFilterView| snap_down(f), snap_part(vd));
    lemma_hours_sum_same(rows, date, 25, |f: StampFilterView| snap_up(f), snap_part(vu));
    lemma_hours_sum_same(rows, date, 25, |f: StampFilterView| snap_total(f), snap_part(vt));
    lemma_hours_add_up_to_day(rows, date, vd);
    lemma_hours_add_up_to_day(rows, date, vu);
    lemma_hours_add_up_to_day(rows, date, vt);
    lemma_snap_parts(date_filter(date));
}

fn stamp_matches(f: &StampFilter, ts: &String, app: &String) -> (r: bool)
    ensures
        r == stamp_selected(f@, ts@, app@),
{
    let app_ok = match &f.app {
        Some(a) => *app == *a,
        None => true,
    };
    if !app_ok {
        return false;
    }
    match read_sql_time(ts) {
        None => false,
        Some(t) => {
            let date = t.date;
            let hour = t.hour;
            let date_ok = match &f.date {
                Some(d) => date == *d,
                None => true,
            };
            let range_ok = match &f.range {
                Some((s, e)) => text_at_most(s, &date) && text_less(&date, e),
                None => true,
            };
            let hour_ok = match f.hour {
                Some(h) => hour == h,
                None => true,
            };
            let weekday_ok = match f.weekday {
                Some(w) => t.weekday == w,
                None => true,
            };
            date_ok && range_ok && hour_ok && weekday_ok
        },
    }
}

/// Byte sums over selected records, with the number of records selected.
pub struct StampSums {
    pub upload_bytes: u128,
    pub download_bytes: u128,
    pub total_bytes: u128,
    pub rows: u64,
}

/// The sums over the snapshots `f` selects.
fn sum_snapshots(rows: &Vec<SnapshotRecord>, f: &StampFilter) -> (r: StampSums)
    requires
        forall|i: int| 0 <= i < rows@.len() ==> snapshot_fits(#[trigger] rows@[i]@),
    ensures
        ({
            let v = rows@.map_values(|r: SnapshotRecord| r@);
            &&& r.upload_bytes == sum_by(v, snap_up(f@))
            &&& r.download_bytes == sum_by(v, snap_down(f@))
            &&& r.total_bytes == sum_by(v, snap_total(f@))
            &&& r.rows == sum_by(v, snap_count(f@))
        }),
{
    let ghost v = rows@.map_values(|r: SnapshotRecord| r@);
    let ghost fv = f@;
    let mut s = StampSums { upload_bytes: 0, download_bytes: 0, total_bytes: 0, rows: 0 };
    let mut i: usize = 0;
    proof {
        assert(v.take(0) =~= Seq::<<SnapshotRecord as View>::V>::empty());
    }
    while i < rows.len()
        invariant
            i <= rows@.len(),
            v == rows@.map_values(|r: SnapshotRecord| r@),
            fv == f@,
            forall|k: int| 0 <= k < rows@.len() ==> snapshot_fits(#[trigger] rows@[k]@),
            s.upload_bytes == sum_by(v.take(i as int), snap_up(fv)),
            s.download_bytes == sum_by(v.take(i as int), snap_down(fv)),
            s.total_bytes == sum_by(v.take(i as int), snap_total(fv)),
            s.rows == sum_by(v.take(i as int), snap_count(fv)),
            s.upload_bytes <= sum_bound(i as int),
            s.download_bytes <= sum_bound(i as int),
            s.total_bytes <= sum_bound(i as int),
            s.rows <= i,
        decreases rows@.len() - i,
    {
        proof {
            lemma_sum_by_take(v, snap_up(fv), i as int);
            lemma_sum_by_take(v, snap_down(fv), i as int);
            lemma_sum_by_take(v, snap_total(fv), i as int);
            lemma_sum_by_take(v, snap_count(fv), i as int);
            assert(v[i as int] == rows@[i as int]@);
            assert(snapshot_fits(rows@[i as int]@));
        }
        let r = &rows[i];
        if stamp_matches(f, &r.timestamp, &r.adapter_name) {
            proof {
                lemma_sum_step_bound(s.upload_bytes, r.upload_bytes, i as int);
                lemma_sum_step_bound(s.download_bytes, r.download_bytes, i as int);
                lemma_sum_step_bound(s.total_bytes, r.total_bytes, i as int);
            }
            s.upload_bytes = s.upload_bytes + r.upload_bytes as u128;
            s.download_bytes = s.download_bytes + r.download_bytes as u128;
            s.total_bytes = s.total_bytes + r.total_bytes as u128;
            s.rows = s.rows + 1;
        } else {
            proof {
                lemma_sum_step_bound(s.upload_bytes, 0, i as int);
                lemma_sum_step_bound(s.download_bytes, 0, i as int);
                lemma_sum_step_bound(s.total_bytes, 0, i as int);
            }
        }
        i = i + 1;
    }
    proof {
        assert(v.take(i as int) =~= v);
    }
    s
}

/// The sums over the per-application records `f` selects.
fn sum_app_records(rows: &Vec<AppUsageRecord>, f: &StampFilter) -> (r: StampSums)
    requires
        forall|i: int| 0 <= i < rows@.len() ==> app_record_fits(#[trigger] rows@[i]@),
    ensures
        ({
            let v = rows@.map_values(|r: AppUsageRecord| r@);
            &&& r.upload_bytes == sum_by(v, app_up(f@))
            &&& r.download_bytes == sum_by(v, app_down(f@))
            &&& r.total_bytes == sum_by(v, app_total(f@))
            &&& r.rows == sum_by(v, app_count(f@))
        }),
{
    let ghost v = rows@.map_values(|r: AppUsageRecord| r@);
    let ghost fv = f@;
    let mut s = StampSums { upload_bytes: 0, download_bytes: 0, total_bytes: 0, rows: 0 };
    let mut i: usize = 0;
    proof {
        assert(v.take(0) =~= Seq::<<AppUsageRecord as View>::V>::empty());
    }
    while i < rows.len()
        invariant
            i <= rows@.len(),
            v == rows@.map_values(|r: AppUsageRecord| r@),
            fv == f@,
            forall|k: int| 0 <= k < rows@.len() ==> app_record_fits(#[trigger] rows@[k]@),
            s.upload_bytes == sum_by(v.take(i as int), app_up(fv)),
            s.download_bytes == sum_by(v.take(i as int), app_down(fv)),
            s.total_bytes == sum_by(v.take(i as int), app_total(fv)),
            s.rows == sum_by(v.take(i as int), app_count(fv)),
            s.upload_bytes <= sum_bound(i as int),
            s.download_bytes <= sum_bound(i as int),
            s.total_bytes <= sum_bound(i as int),
            s.rows <= i,
        decreases rows@.len() - i,
    {
        proof {
            lemma_sum_by_take(v, app_up(fv), i as int);
            lemma_sum_by_take(v, app_down(fv), i as int);
            lemma_sum_by_take(v, app_total(fv), i as int);
            lemma_sum_by_take(v, app_count(fv), i as int);
            assert(v[i as int] == rows@[i as int]@);
            assert(app_record_fits(rows@[i as int]@));
        }
        let r = &rows[i];
        if stamp_matches(f, &r.timestamp, &r.app_name) {
            proof {
                lemma_sum_step_bound(s.upload_bytes, r.upload_bytes, i as int);
                lemma_sum_step_bound(s.download_bytes, r.download_bytes, i as int);
                lemma_sum_step_bound(s.total_bytes, r.total_bytes, i as int);
            }
            s.upload_bytes = s.upload_bytes + r.upload_bytes as u128;
            s.download_bytes = s.download_bytes + r.download_bytes as u128;
            s.total_bytes = s.total_bytes + r.total_bytes as u128;
            s.rows = s.rows + 1;
        } else {
            proof {
                lemma_sum_step_bound(s.upload_bytes, 0, i as int);
                lemma_sum_step_bound(s.download_bytes, 0, i as int);
                lemma_sum_step_bound(s.total_bytes, 0, i as int);
            }
        }
        i = i + 1;
    }
    proof {
        assert(v.take(i as int) =~= v);
    }
    s
}

// ---------------------------------------------------------------------------
// Breakdowns by hour and by day of the week
// ---------------------------------------------------------------------------

/// One hour of a day's adapter traffic.
pub struct HourlyBreakdownRow {
    pub hour: u32,
    pub download_bytes: u64,
    pub upload_bytes: u64,
}

/// Snapshots of `date` in hour `h`.
pub open spec fn hour_filter(date: Seq<char>, h: nat) -> StampFilterView {
    StampFilterView { app: None, date: Some(date), range: None, hour: Some(h), weekday: None }
}

pub open spec fn snap_group_nonempty(rows: Seq<SnapshotView>, f: StampFilterView) -> bool {
    sum_by(rows, snap_count(f)) > 0
}

/// An hour group whose download and upload sums fit the integer range.
pub open spec fn hour_group_fits(rows: Seq<SnapshotView>, f: StampFilterView) -> bool {
    fits(sum_by(rows, snap_down(f))) && fits(sum_by(rows, snap_up(f)))
}

/// Groups are produced in hour order until the first one whose sums overflow:
/// hour `h` is reached when no earlier or equal non-empty hour overflows.
pub open spec fn hour_reached(rows: Seq<SnapshotView>, date: Seq<char>, h: nat) -> bool {
    forall|j: nat|
        j <= h && #[trigger] snap_group_nonempty(rows, hour_filter(date, j)) ==> hour_group_fits(
            rows,
            hour_filter(date, j),
        )
}

fn hour_stamp_filter(date: &str, h: u64) -> (f: StampFilter)
    ensures
        f@ == hour_filter(date@, h as nat),
{
    StampFilter { app: None, date: Some(String::from_str(date)), range: None, hour: Some(h), weekday: None }
}

/// Download and upload per hour of `date` (hours without records are left out),
/// in hour order; the listing stops before the first hour whose sums exceed the
/// integer range.
pub fn get_hourly_breakdown(store: &UsageStore, date: &str) -> (r: Result<Vec<HourlyBreakdownRow>, DbError>)
    ensures
        r matches Ok(out) && {
            let rows = store.snapshot_rows();
            &&& forall|i: int, j: int| 0 <= i < j < out@.len() ==> out@[i].hour < out@[j].hour
            &&& forall|i: int|
                0 <= i < out@.len() ==> {
                    let h = (#[trigger] out@[i]).hour as nat;
                    let f = hour_filter(date@, h);
                    &&& h < 25
                    &&& snap_group_nonempty(rows, f)
                    &&& hour_reached(rows, date@, h)
                    &&& out@[i].download_bytes == sum_by(rows, snap_down(f))
                    &&& out@[i].upload_bytes == sum_by(rows, snap_up(f))
                }
            &&& forall|h: nat|
                h < 25 && #[trigger] snap_group_nonempty(rows, hour_filter(date@, h)) && hour_reached(
                    rows,
                    date@,
                    h,
                ) ==> exists|i: int| 0 <= i < out@.len() && out@[i].hour == h
        },
{
    proof {
        use_type_invariant(store);
    }
    let ghost rows = store.snapshot_rows();
    let mut out: Vec<HourlyBreakdownRow> = Vec::new();
    let mut h: u64 = 0;
    let mut stopped = false;
    while h < 25 && !stopped
        invariant
            h <= 25,
            rows == store.snapshot_rows(),
            forall|k: int| 0 <= k < store.snapshots@.len() ==> snapshot_fits(#[trigger] store.snapshots@[k]@),
            forall|i: int, j: int| 0 <= i < j < out@.len() ==> out@[i].hour < out@[j].hour,
            forall|i: int|
                0 <= i < out@.len() ==> {
                    let hh = (#[trigger] out@[i]).hour as nat;
                    let f = hour_filter(date@, hh);
                    &&& hh < h
                    &&& snap_group_nonempty(rows, f)
                    &&& hour_reached(rows, date@, hh)
                    &&& out@[i].download_bytes == sum_by(rows, snap_down(f))
                    &&& out@[i].upload_bytes == sum_by(rows, snap_up(f))
                },
            forall|hh: nat|
                hh < h && #[trigger] snap_group_nonempty(rows, hour_filter(date@, hh)) && hour_reached(
                    rows,
                    date@,
                    hh,
                ) ==> exists|i: int| 0 <= i < out@.len() && out@[i].hour == hh,
            !stopped ==> forall|j: nat|
                j < h && #[trigger] snap_group_nonempty(rows, hour_filter(date@, j)) ==> hour_group_fits(
                    rows,
                    hour_filter(date@, j),
                ),
            stopped ==> exists|j: nat|
                j < h && #[trigger] snap_group_nonempty(rows, hour_filter(date@, j)) && !hour_group_fits(
                    rows,
                    hour_filter(date@, j),
                ),
        decreases 25 - h,
    {
        let f = hour_stamp_filter(date, h);
        let s = sum_snapshots(&store.snapshots, &f);
        let ghost fv = hour_filter(date@, h as nat);
        proof {
            assert(store.snapshots@.map_values(|r: SnapshotRecord| r@) == rows);
        }
        if s.rows > 0 {
            if s.download_bytes <= SQL_INT_MAX as u128 && s.upload_bytes <= SQL_INT_MAX as u128 {
                let ghost before = out@;
                out.push(
                    HourlyBreakdownRow {
                        hour: h as u32,
                        download_bytes: s.download_bytes as u64,
                        upload_bytes: s.upload_bytes as u64,
                    },
                );
                proof {
                    assert(hour_reached(rows, date@, h as nat));
                    assert(out@[out@.len() - 1].hour == h);
                    assert forall|i: int| 0 <= i < before.len() implies out@[i] == before[i] by {}
                }
            } else {
                stopped = true;
                proof {
                    assert(snap_group_nonempty(rows, hour_filter(date@, h as nat)));
                }
            }
        }
        h = h + 1;
    }
    Ok(out)
}

/// One hour of a day's traffic of one application.
pub struct AppHourlyBreakdownRow {
    pub hour: u32,
    pub download_bytes: u64,
    pub upload_bytes: u64,
    pub total_bytes: u64,
}

/// Records of application `app` on `date` in hour `h`.
pub open spec fn app_hour_filter(app: Seq<char>, date: Seq<char>, h: nat) -> StampFilterView {
    StampFilterView { app: Some(app), date: Some(date), range: None, hour: Some(h), weekday: None }
}

pub open spec fn app_group_nonempty(rows: Seq<AppUsageView>, f: StampFilterView) -> bool {
    sum_by(rows, app_count(f)) > 0
}

pub open spec fn app_group_fits(rows: Seq<AppUsageView>, f: StampFilterView) -> bool {
    fits(sum_by(rows, app_down(f))) && fits(sum_by(rows, app_up(f))) && fits(
        sum_by(rows, app_total(f)),
    )
}

pub open spec fn app_hour_reached(rows: Seq<AppUsageView>, app: Seq<char>, date: Seq<char>, h: nat) -> bool {
    forall|j: nat|
        j <= h && #[trigger] app_group_nonempty(rows, app_hour_filter(app, date, j)) ==> app_group_fits(
            rows,
            app_hour_filter(app, date, j),
        )
}

/// Traffic of `app_name` per hour of `date` (hours without records left out), in
/// hour order; the listing stops before the first hour whose sums exceed the
/// integer range.
pub fn get_app_hourly_breakdown(store: &UsageStore, app_name: &str, date: &str) -> (r: Result<
    Vec<AppHourlyBreakdownRow>,
    DbError,
>)
    ensures
        r matches Ok(out) && {
            let rows = store.app_rows();
            &&& forall|i: int, j: int| 0 <= i < j < out@.len() ==> out@[i].hour < out@[j].hour
            &&& forall|i: int|
                0 <= i < out@.len() ==> {
                    let h = (#[trigger] out@[i]).hour as nat;
                    let f = app_hour_filter(app_name@, date@, h);
                    &&& h < 25
                    &&& app_group_nonempty(rows, f)
                    &&& app_hour_reached(rows, app_name@, date@, h)
                    &&& out@[i].download_bytes == sum_by(rows, app_down(f))
                    &&& out@[i].upload_bytes == sum_by(rows, app_up(f))
                    &&& out@[i].total_bytes == sum_by(rows, app_total(f))
                }
            &&& forall|h: nat|
                h < 25 && #[trigger] app_group_nonempty(rows, app_hour_filter(app_name@, date@, h))
                    && app_hour_reached(rows, app_name@, date@, h) ==> exists|i: int|
                    0 <= i < out@.len() && out@[i].hour == h
        },
{
    proof {
        use_type_invariant(store);
    }
    let ghost rows = store.app_rows();
    let mut out: Vec<AppHourlyBreakdownRow> = Vec::new();
    let mut h: u64 = 0;
    let mut stopped = false;
    while h < 25 && !stopped
        invariant
            h <= 25,
            rows == store.app_rows(),
            forall|k: int|
                0 <= k < store.app_records@.len() ==> app_record_fits(#[trigger] store.app_records@[k]@),
            forall|i: int, j: int| 0 <= i < j < out@.len() ==> out@[i].hour < out@[j].hour,
            forall|i: int|
                0 <= i < out@.len() ==> {
                    let hh = (#[trigger] out@[i]).hour as nat;
                    let f = app_hour_filter(app_name@, date@, hh);
                    &&& hh < h
                    &&& app_group_nonempty(rows, f)
                    &&& app_hour_reached(rows, app_name@, date@, hh)
                    &&& out@[i].download_bytes == sum_by(rows, app_down(f))
                    &&& out@[i].upload_bytes == sum_by(rows, app_up(f))
                    &&& out@[i].total_bytes == sum_by(rows, app_total(f))
                },
            forall|hh: nat|
                hh < h && #[trigger] app_group_nonempty(rows, app_hour_filter(app_name@, date@, hh))
                    && app_hour_reached(rows, app_name@, date@, hh) ==> exists|i: int|
                    0 <= i < out@.len() && out@[i].hour == hh,
            !stopped ==> forall|j: nat|
                j < h && #[trigger] app_group_nonempty(rows, app_hour_filter(app_name@, date@, j))
                    ==> app_group_fits(rows, app_hour_filter(app_name@, date@, j)),
            stopped ==> exists|j: nat|
                j < h && #[trigger] app_group_nonempty(rows, app_hour_filter(app_name@, date@, j))
                    && !app_group_fits(rows, app_hour_filter(app_name@, date@, j)),
        decreases 25 - h,
    {
        let f = StampFilter {
            app: Some(String::from_str(app_name)),
            date: Some(String::from_str(date)),
            range: None,
            hour: Some(h),
            weekday: None,
        };
        let s = sum_app_records(&store.app_records, &f);
        proof {
            assert(f@ == app_hour_filter(app_name@, date@, h as nat));
            assert(store.app_records@.map_values(|r: AppUsageRecord| r@) == rows);
        }
        if s.rows > 0 {
            if s.download_bytes <= SQL_INT_MAX as u128 && s.upload_bytes <= SQL_INT_MAX as u128
                && s.total_bytes <= SQL_INT_MAX as u128 {
                let ghost before = out@;
                out.push(
                    AppHourlyBreakdownRow {
                        hour: h as u32,
                        download_bytes: s.download_bytes as u64,
                        upload_bytes: s.upload_bytes as u64,
                        total_bytes: s.total_bytes as u64,
                    },
                );
                proof {
                    assert(app_hour_reached(rows, app_name@, date@, h as nat));
                    assert(out@[out@.len() - 1].hour == h);
                    assert forall|i: int| 0 <= i < before.len() implies out@[i] == before[i] by {}
                }
            } else {
                stopped = true;
                proof {
                    assert(app_group_nonempty(rows, app_hour_filter(app_name@, date@, h as nat)));
                }
            }
        }
        h = h + 1;
    }
    Ok(out)
}

/// Traffic in one hour of one day of the week.
pub struct PeakHourCell {
    pub day_of_week: u32,
    pub hour: u32,
    pub total_bytes: u64,
}

/// Snapshots dated from `start` (inclusive) to `end` (exclusive) that fall on
/// weekday `k / 25` in hour `k % 25`.
pub open spec fn cell_filter(start: Seq<char>, end: Seq<char>, k: nat) -> StampFilterView {
    StampFilterView {
        app: None,
        date: None,
        range: Some((start, end)),
        hour: Some(k % 25),
        weekday: Some(k / 25),
    }
}

pub open spec fn cell_reached(rows: Seq<SnapshotView>, start: Seq<char>, end: Seq<char>, k: nat) -> bool {
    forall|j: nat|
        j <= k && #[trigger] snap_group_nonempty(rows, cell_filter(start, end, j)) ==> fits(
            sum_by(rows, snap_total(cell_filter(start, end, j))),
        )
}

/// Total traffic per (day of week, hour) over the snapshots dated from
/// `start_date` up to, not including, `end_date`; cells without records are left
/// out; in (day, hour) order, stopping before the first cell whose sum exceeds
/// the integer range. Days of the week count from 0 for Sunday.
pub fn get_peak_hours_data(store: &UsageStore, start_date: &str, end_date: &str) -> (r: Result<
    Vec<PeakHourCell>,
    DbError,
>)
    ensures
        r matches Ok(out) && {
            let rows = store.snapshot_rows();
            let key = |c: PeakHourCell| (c.day_of_week * 25 + c.hour) as nat;
            &&& forall|i: int, j: int| 0 <= i < j < out@.len() ==> key(out@[i]) < key(out@[j])
            &&& forall|i: int|
                0 <= i < out@.len() ==> {
                    let c = #[trigger] out@[i];
                    let f = cell_filter(start_date@, end_date@, key(c));
                    &&& c.day_of_week < 7
                    &&& c.hour < 25
                    &&& snap_group_nonempty(rows, f)
                    &&& cell_reached(rows, start_date@, end_date@, key(c))
                    &&& c.total_bytes == sum_by(rows, snap_total(f))
                }
            &&& forall|k: nat|
                k < 175 && #[trigger] snap_group_nonempty(rows, cell_filter(start_date@, end_date@, k))
                    && cell_reached(rows, start_date@, end_date@, k) ==> exists|i: int|
                    0 <= i < out@.len() && key(out@[i]) == k
        },
{
    proof {
        use_type_invariant(store);
    }
    let ghost rows = store.snapshot_rows();
    let ghost key = |c: PeakHourCell| (c.day_of_week * 25 + c.hour) as nat;
    let mut out: Vec<PeakHourCell> = Vec::new();
    let mut k: u64 = 0;
    let mut stopped = false;
    while k < 175 && !stopped
        invariant
            k <= 175,
            rows == store.snapshot_rows(),
            key == |c: PeakHourCell| (c.day_of_week * 25 + c.hour) as nat,
            forall|n: int| 0 <= n < store.snapshots@.len() ==> snapshot_fits(#[trigger] store.snapshots@[n]@),
            forall|i: int, j: int| 0 <= i < j < out@.len() ==> key(out@[i]) < key(out@[j]),
            forall|i: int|
                0 <= i < out@.len() ==> {
                    let c = #[trigger] out@[i];
                    let f = cell_filter(start_date@, end_date@, key(c));
                    &&& c.day_of_week < 7
                    &&& c.hour < 25
                    &&& key(c) < k
                    &&& snap_group_nonempty(rows, f)
                    &&& cell_reached(rows, start_date@, end_date@, key(c))
                    &&& c.total_bytes == sum_by(rows, snap_total(f))
                },
            forall|kk: nat|
                kk < k && #[trigger] snap_group_nonempty(rows, cell_filter(start_date@, end_date@, kk))
                    && cell_reached(rows, start_date@, end_date@, kk) ==> exists|i: int|
                    0 <= i < out@.len() && key(out@[i]) == kk,
            !stopped ==> forall|j: nat|
                j < k && #[trigger] snap_group_nonempty(rows, cell_filter(start_date@, end_date@, j))
                    ==> fits(sum_by(rows, snap_total(cell_filter(start_date@, end_date@, j)))),
            stopped ==> exists|j: nat|
                j < k && #[trigger] snap_group_nonempty(rows, cell_filter(start_date@, end_date@, j))
                    && !fits(sum_by(rows, snap_total(cell_filter(start_date@, end_date@, j)))),
        decreases 175 - k,
    {
        let f = StampFilter {
            app: None,
            date: None,
            range: Some((String::from_str(start_date), String::from_str(end_date))),
            hour: Some(k % 25),
            weekday: Some(k / 25),
        };
        let s = sum_snapshots(&store.snapshots, &f);
        proof {
            assert(f@ == cell_filter(start_date@, end_date@, k as nat));
            assert(store.snapshots@.map_values(|r: SnapshotRecord| r@) == rows);
        }
        if s.rows > 0 {
            if s.total_bytes <= SQL_INT_MAX as u128 {
                let ghost before = out@;
                let cell = PeakHourCell {
                    day_of_week: (k / 25) as u32,
                    hour: (k % 25) as u32,
                    total_bytes: s.total_bytes as u64,
                };
                proof {
                    assert(key(cell) == k);
                }
                out.push(cell);
                proof {
                    assert(cell_reached(rows, start_date@, end_date@, k as nat));
                    assert(key(out@[out@.len() - 1]) == k);
                    assert forall|i: int| 0 <= i < before.len() implies out@[i] == before[i] by {}
                }
            } else {
                stopped = true;
                proof {
                    assert(snap_group_nonempty(rows, cell_filter(start_date@, end_date@, k as nat)));
                }
            }
        }
        k = k + 1;
    }
    Ok(out)
}

// ---------------------------------------------------------------------------
// Grouping daily rows by date
// ---------------------------------------------------------------------------

/// Group keys are (day of month, date text), ordered by day, then by text.
pub open spec fn key_lt(a: (nat, Seq<char>), b: (nat, Seq<char>)) -> bool {
    a.0 < b.0 || (a.0 == b.0 && text_lt(a.1, b.1))
}

pub open spec fn keys_view(v: Seq<(u32, String)>) -> Seq<(nat, Seq<char>)> {
    v.map_values(|k: (u32, String)| (k.0 as nat, k.1@))
}

pub open spec fn strictly_sorted(s: Seq<(nat, Seq<char>)>) -> bool {
    forall|i: int, j: int| 0 <= i < j < s.len() ==> key_lt(#[trigger] s[i], #[trigger] s[j])
}

proof fn lemma_key_lt_transitive(a: (nat, Seq<char>), b: (nat, Seq<char>), c: (nat, Seq<char>))
    requires
        key_lt(a, b),
        key_lt(b, c),
    ensures
        key_lt(a, c),
{
    if a.0 == b.0 && b.0 == c.0 {
        crate::text::lemma_text_lt_transitive(a.1, b.1, c.1);
    }
}

proof fn lemma_key_lt_irreflexive(a: (nat, Seq<char>))
    ensures
        !key_lt(a, a),
{
    crate::text::lemma_text_lt_irreflexive(a.1);
}

proof fn lemma_key_lt_total(a: (nat, Seq<char>), b: (nat, Seq<char>))
    ensures
        a == b || key_lt(a, b) || key_lt(b, a),
{
    crate::text::lemma_text_lt_total(a.1, b.1);
}

fn key_less(a: &(u32, String), b: &(u32, String)) -> (r: bool)
    ensures
        r == key_lt((a.0 as nat, a.1@), (b.0 as nat, b.1@)),
{
    a.0 < b.0 || (a.0 == b.0 && text_less(&a.1, &b.1))
}

/// Adds a key to a strictly sorted key list, unless it is there already.
fn insert_key(keys: &mut Vec<(u32, String)>, k: (u32, String))
    requires
        strictly_sorted(keys_view(old(keys)@)),
    ensures
        strictly_sorted(keys_view(final(keys)@)),
        forall|x: (nat, Seq<char>)|
            keys_view(final(keys)@).contains(x) <==> (keys_view(old(keys)@).contains(x) || x == (
                k.0 as nat,
                k.1@,
            )),
{
    let ghost old_v = keys_view(keys@);
    let ghost kv = (k.0 as nat, k.1@);
    let mut j: usize = 0;
    while j < keys.len() && key_less(&keys[j], &k)
        invariant
            j <= keys@.len(),
            old_v == keys_view(keys@),
            kv == (k.0 as nat, k.1@),
            strictly_sorted(old_v),
            forall|i: int| 0 <= i < j ==> key_lt(#[trigger] old_v[i], kv),
        decreases keys@.len() - j,
    {
        j = j + 1;
    }
    if j < keys.len() && keys[j].0 == k.0 && keys[j].1 == k.1 {
        proof {
            assert(old_v[j as int] == kv);
        }
        return;
    }
    proof {
        if j < keys@.len() {
            assert(!key_lt(old_v[j as int], kv));
            lemma_key_lt_total(old_v[j as int], kv);
            assert(old_v[j as int] != kv);
            assert(key_lt(kv, old_v[j as int]));
        }
    }
    keys.insert(j, k);
    proof {
        let n = keys_view(keys@);
        assert(n =~= old_v.insert(j as int, kv));
        assert forall|a: int, b: int| 0 <= a < b < n.len() implies key_lt(#[trigger] n[a], #[trigger] n[b]) by {
            if b < j {
                assert(n[a] == old_v[a] && n[b] == old_v[b]);
            } else if b == j {
                assert(n[a] == old_v[a]);
            } else if a < j {
                assert(n[a] == old_v[a] && n[b] == old_v[b - 1]);
                if j < old_v.len() {
                    lemma_key_lt_transitive(old_v[a], kv, old_v[j as int]);
                    if b - 1 > j {
                        lemma_key_lt_transitive(old_v[a], old_v[j as int], old_v[b - 1]);
                    }
                }
            } else if a == j {
                assert(n[b] == old_v[b - 1]);
                if b - 1 > j {
                    lemma_key_lt_transitive(kv, old_v[j as int], old_v[b - 1]);
                }
            } else {
                assert(n[a] == old_v[a - 1] && n[b] == old_v[b - 1]);
            }
        }
        assert forall|x: (nat, Seq<char>)| n.contains(x) <==> (old_v.contains(x) || x == kv) by {
            if n.contains(x) {
                let i = choose|i: int| 0 <= i < n.len() && n[i] == x;
                if i < j {
                    assert(old_v[i] == x);
                } else if i > j {
                    assert(old_v[i - 1] == x);
                }
            }
            if old_v.contains(x) {
                let i = choose|i: int| 0 <= i < old_v.len() && old_v[i] == x;
                if i < j {
                    assert(n[i] == x);
                } else {
                    assert(n[i + 1] == x);
                }
            }
            if x == kv {
                assert(n[j as int] == x);
            }
        }
    }
}

/// The group key of a day: its date text, with the day of month when grouping
/// by day (dates that are not calendar dates have no key then).
pub open spec fn group_key(by_day: bool, d: Seq<char>) -> Option<(nat, Seq<char>)> {
    if by_day {
        match sql_time(d) {
            Some(t) => Some((t.day, d)),
            None => None,
        }
    } else {
        Some((0, d))
    }
}

/// `k` is the key of a day among the rows `f` selects.
pub open spec fn in_groups(rows: Seq<TotalsView>, f: RowFilterView, by_day: bool, k: (nat, Seq<char>)) -> bool {
    exists|i: int|
        #![trigger rows[i]]
        0 <= i < rows.len() && row_selected(f, rows[i]) && match rows[i].period {
            PeriodView::Day(d) => group_key(by_day, d) == Some(k),
            PeriodView::Month(_, _) => false,
        }
}

fn collect_keys(rows: &Vec<TotalsRecord>, f: &RowFilter, by_day: bool) -> (keys: Vec<(u32, String)>)
    ensures
        strictly_sorted(keys_view(keys@)),
        forall|k: (nat, Seq<char>)|
            keys_view(keys@).contains(k) <==> in_groups(totals_view(rows@), f@, by_day, k),
        forall|i: int| 0 <= i < keys@.len() ==> (#[trigger] keys@[i]).0 <= 31,
{
    let ghost v = totals_view(rows@);
    let mut keys: Vec<(u32, String)> = Vec::new();
    let mut i: usize = 0;
    while i < rows.len()
        invariant
            i <= rows@.len(),
            v == totals_view(rows@),
            strictly_sorted(keys_view(keys@)),
            forall|n: int| 0 <= n < keys@.len() ==> (#[trigger] keys@[n]).0 <= 31,
            forall|k: (nat, Seq<char>)|
                keys_view(keys@).contains(k) <==> in_groups(v.take(i as int), f@, by_day, k),
        decreases rows@.len() - i,
    {
        let r = &rows[i];
        let ghost before = keys_view(keys@);
        let mut added: Option<(u32, String)> = None;
        if row_matches(f, r) {
            match &r.period {
                Period::Day(d) => {
                    if by_day {
                        match read_sql_time(d) {
                            Some(t) => {
                                added = Some((t.day as u32, d.clone()));
                            },
                            None => {},
                        }
                    } else {
                        added = Some((0, d.clone()));
                    }
                },
                Period::Month(_, _) => {},
            }
        }
        let ghost added_key: Option<(nat, Seq<char>)> = match &added {
            Some(k) => Some((k.0 as nat, k.1@)),
            None => None,
        };
        match added {
            Some(k) => {
                proof {
                    lemma_sql_time_bounds(k.1@);
                }
                let ghost pre_keys = keys@;
                insert_key(&mut keys, k);
                proof {
                    assert forall|n: int| 0 <= n < keys@.len() implies (#[trigger] keys@[n]).0 <= 31 by {
                        let kn = keys_view(keys@)[n];
                        assert(keys_view(keys@).contains(kn));
                        if keys_view(pre_keys).contains(kn) {
                            let m = choose|m: int| 0 <= m < keys_view(pre_keys).len() && keys_view(pre_keys)[m] == kn;
                            assert(pre_keys[m].0 <= 31);
                        }
                    }
                }
            },
            None => {},
        }
        proof {
            let vt = v.take(i + 1);
            assert(vt[i as int] == r@);
            assert forall|k: (nat, Seq<char>)|
                keys_view(keys@).contains(k) <==> in_groups(vt, f@, by_day, k) by {
                if in_groups(vt, f@, by_day, k) {
                    let n = choose|n: int|
                        #![trigger vt[n]]
                        0 <= n < vt.len() && row_selected(f@, vt[n]) && match vt[n].period {
                            PeriodView::Day(d) => group_key(by_day, d) == Some(k),
                            PeriodView::Month(_, _) => false,
                        };
                    if n < i {
                        assert(v.take(i as int)[n] == vt[n]);
                        assert(in_groups(v.take(i as int), f@, by_day, k));
                    } else {
                        assert(added_key == Some(k));
                    }
                }
                if in_groups(v.take(i as int), f@, by_day, k) {
                    let n = choose|n: int|
                        #![trigger v.take(i as int)[n]]
                        0 <= n < v.take(i as int).len() && row_selected(f@, v.take(i as int)[n])
                            && match v.take(i as int)[n].period {
                            PeriodView::Day(d) => group_key(by_day, d) == Some(k),
                            PeriodView::Month(_, _) => false,
                        };
                    assert(vt[n] == v.take(i as int)[n]);
                }
                if added_key == Some(k) {
                    assert(in_groups(vt, f@, by_day, k));
                }
            }
        }
        i = i + 1;
    }
    proof {
        assert(v.take(i as int) =~= v);
    }
    keys
}

/// Rows of one day (and, when given, of one adapter or application).
pub open spec fn group_filter(d: Seq<char>, name: Option<Seq<char>>) -> RowFilterView {
    RowFilterView { period: PeriodFilterView::Exact(PeriodView::Day(d)), name }
}

/// Total traffic of one day.
pub struct DailyCalendarRow {
    pub date: String,
    pub total_bytes: u64,
}

pub open spec fn history_filter(start: Seq<char>, end: Seq<char>) -> RowFilterView {
    RowFilterView { period: PeriodFilterView::Days(start, end, true), name: None }
}

/// Dates are listed in order until the first one whose total overflows: date `d`
/// is reached when no listed date up to and including it overflows.
pub open spec fn history_reached(rows: Seq<TotalsView>, start: Seq<char>, end: Seq<char>, d: Seq<char>) -> bool {
    forall|d2: Seq<char>|
        #[trigger] in_groups(rows, history_filter(start, end), false, (0, d2)) && text_le(d2, d)
            ==> fits(sum_by(rows, sel_total(group_filter(d2, None))))
}

/// Total traffic per date from `start_date` to `end_date` (both inclusive, as
/// text), in date order, stopping before the first date whose total exceeds the
/// integer range.
pub fn get_usage_history(store: &UsageStore, start_date: &str, end_date: &str) -> (r: Result<
    Vec<DailyCalendarRow>,
    DbError,
>)
    ensures
        r matches Ok(out) && {
            let rows = store.daily_rows();
            let f = history_filter(start_date@, end_date@);
            &&& forall|i: int, j: int|
                0 <= i < j < out@.len() ==> text_lt(out@[i].date@, out@[j].date@)
            &&& forall|i: int|
                0 <= i < out@.len() ==> {
                    let d = (#[trigger] out@[i]).date@;
                    &&& in_groups(rows, f, false, (0, d))
                    &&& history_reached(rows, start_date@, end_date@, d)
                    &&& out@[i].total_bytes == sum_by(rows, sel_total(group_filter(d, None)))
                }
            &&& forall|d: Seq<char>|
                #[trigger] in_groups(rows, f, false, (0, d)) && history_reached(
                    rows,
                    start_date@,
                    end_date@,
                    d,
                ) ==> exists|i: int| 0 <= i < out@.len() && out@[i].date@ == d
        },
{
    proof {
        use_type_invariant(store);
    }
    let ghost rows = store.daily_rows();
    let f = RowFilter {
        period: PeriodFilter::Days(String::from_str(start_date), String::from_str(end_date), true),
        name: None,
    };
    let ghost fv = f@;
    let keys = collect_keys(&store.daily, &f, false);
    let ghost ks = keys_view(keys@);
    proof {
        assert forall|p: int| 0 <= p < ks.len() implies (#[trigger] ks[p]).0 == 0 by {
            assert(ks.contains(ks[p]));
        }
    }
    let mut out: Vec<DailyCalendarRow> = Vec::new();
    let mut idx: usize = 0;
    let mut stopped = false;
    while idx < keys.len() && !stopped
        invariant
            idx <= keys@.len(),
            rows == store.daily_rows(),
            totals_table_ok(totals_view(store.daily@)),
            fv == f@,
            fv == history_filter(start_date@, end_date@),
            ks == keys_view(keys@),
            out@.len() == idx,
            forall|p: int|
                0 <= p < idx ==> {
                    &&& (#[trigger] out@[p]).date@ == ks[p].1
                    &&& out@[p].total_bytes == sum_by(rows, sel_total(group_filter(ks[p].1, None)))
                    &&& fits(sum_by(rows, sel_total(group_filter(ks[p].1, None))))
                },
            stopped ==> idx < ks.len() && !fits(
                sum_by(rows, sel_total(group_filter(ks[idx as int].1, None))),
            ),
        decreases keys@.len() - idx + if stopped {
            0int
        } else {
            1int
        },
    {
        let gf = RowFilter { period: PeriodFilter::Exact(Period::Day(keys[idx].1.clone())), name: None };
        proof {
            assert(gf@ == group_filter(ks[idx as int].1, None));
        }
        let s = sum_totals(&store.daily, &gf);
        if s.total_bytes <= SQL_INT_MAX as u128 {
            out.push(DailyCalendarRow { date: keys[idx].1.clone(), total_bytes: s.total_bytes as u64 });
            idx = idx + 1;
        } else {
            stopped = true;
        }
    }
    proof {
        let stop = idx as int;
        assert forall|i: int| 0 <= i < out@.len() implies {
            let d = (#[trigger] out@[i]).date@;
            &&& in_groups(rows, fv, false, (0, d))
            &&& history_reached(rows, start_date@, end_date@, d)
            &&& out@[i].total_bytes == sum_by(rows, sel_total(group_filter(d, None)))
        } by {
            let d = out@[i].date@;
            assert(ks[i] == (0nat, d));
            assert(ks.contains(ks[i]));
            assert forall|d2: Seq<char>|
                #[trigger] in_groups(rows, history_filter(start_date@, end_date@), false, (0, d2))
                    && text_le(d2, d) implies fits(sum_by(rows, sel_total(group_filter(d2, None)))) by {
                assert(ks.contains((0nat, d2)));
                let p2 = choose|p2: int| 0 <= p2 < ks.len() && ks[p2] == (0nat, d2);
                if p2 <= i {
                    assert(out@[p2].date@ == ks[p2].1);
                }
                if p2 > i {
                    assert(key_lt(ks[i], ks[p2]));
                    if d2 == d {
                        lemma_key_lt_irreflexive(ks[i]);
                    } else {
                        crate::text::lemma_text_lt_asymmetric(d, d2);
                    }
                }
            }
        }
        assert forall|i: int, j: int| 0 <= i < j < out@.len() implies text_lt(
            out@[i].date@,
            out@[j].date@,
        ) by {
            assert(key_lt(ks[i], ks[j]));
        }
        assert forall|d: Seq<char>|
            #[trigger] in_groups(rows, fv, false, (0, d)) && history_reached(
                rows,
                start_date@,
                end_date@,
                d,
            ) implies exists|i: int| 0 <= i < out@.len() && out@[i].date@ == d by {
            assert(ks.contains((0nat, d)));
            let p = choose|p: int| 0 <= p < ks.len() && ks[p] == (0nat, d);
            if p >= stop {
                // the listing stopped at an earlier (or this) date that overflows
                let q = stop;
                assert(stopped);
                let dq = ks[q].1;
                assert(ks[q].0 == 0);
                assert(ks.contains(ks[q]));
                if q < p {
                    assert(key_lt(ks[q], ks[p]));
                }
                assert(text_le(dq, d));
                assert(in_groups(rows, history_filter(start_date@, end_date@), false, (0, dq)));
                assert(false);
            }
            assert(out@[p].date@ == d);
        }
    }
    Ok(out)
}

/// One day of a month's adapter traffic.
pub struct DailyBreakdownRow {
    pub day: u32,
    pub download_bytes: u64,
    pub upload_bytes: u64,
    pub total_bytes: u64,
}

/// One day of a month's traffic of one application.
pub struct AppDailyBreakdownRow {
    pub day: u32,
    pub download_bytes: u64,
    pub upload_bytes: u64,
    pub total_bytes: u64,
}

pub open spec fn day_sums_view(v: Seq<(u32, u64, u64, u64)>) -> Seq<(nat, nat, nat, nat)> {
    v.map_values(|e: (u32, u64, u64, u64)| (e.0 as nat, e.1 as nat, e.2 as nat, e.3 as nat))
}

pub open spec fn daily_breakdown_view(v: Seq<DailyBreakdownRow>) -> Seq<(nat, nat, nat, nat)> {
    v.map_values(
        |e: DailyBreakdownRow|
            (e.day as nat, e.download_bytes as nat, e.upload_bytes as nat, e.total_bytes as nat),
    )
}

pub open spec fn app_daily_breakdown_view(v: Seq<AppDailyBreakdownRow>) -> Seq<(nat, nat, nat, nat)> {
    v.map_values(
        |e: AppDailyBreakdownRow|
            (e.day as nat, e.download_bytes as nat, e.upload_bytes as nat, e.total_bytes as nat),
    )
}

/// Rows dated in [start, end) as text, optionally of one name.
pub open spec fn month_days_filter(start: Seq<char>, end: Seq<char>, name: Option<Seq<char>>) -> RowFilterView {
    RowFilterView { period: PeriodFilterView::Days(start, end, false), name }
}

pub open spec fn day_group_fits(rows: Seq<TotalsView>, d: Seq<char>, name: Option<Seq<char>>) -> bool {
    let g = group_filter(d, name);
    fits(sum_by(rows, sel_download(g))) && fits(sum_by(rows, sel_upload(g))) && fits(
        sum_by(rows, sel_total(g)),
    )
}

/// The per-day listing of a month: `keys` are the (day, date) groups in order;
/// when every group's sums fit, one entry per group with its sums, else none.
pub open spec fn day_breakdown_matches(
    rows: Seq<TotalsView>,
    f: RowFilterView,
    name: Option<Seq<char>>,
    ks: Seq<(nat, Seq<char>)>,
    days: Seq<(nat, nat, nat, nat)>,
) -> bool {
    &&& strictly_sorted(ks)
    &&& forall|k: (nat, Seq<char>)| ks.contains(k) <==> in_groups(rows, f, true, k)
    &&& if forall|p: int| 0 <= p < ks.len() ==> day_group_fits(rows, #[trigger] ks[p].1, name) {
        &&& days.len() == ks.len()
        &&& forall|p: int|
            0 <= p < ks.len() ==> {
                let g = group_filter(ks[p].1, name);
                #[trigger] days[p] == (ks[p].0, sum_by(rows, sel_download(g)), sum_by(
                    rows,
                    sel_upload(g),
                ), sum_by(rows, sel_total(g)))
            }
    } else {
        days.len() == 0
    }
}

/// The sums of one day group, and whether they fit.
pub open spec fn day_entry_ok(
    rows: Seq<TotalsView>,
    name: Option<Seq<char>>,
    k: (nat, Seq<char>),
    e: (u32, u64, u64, u64),
) -> bool {
    let g = group_filter(k.1, name);
    &&& day_group_fits(rows, k.1, name)
    &&& e.0 == k.0
    &&& e.1 == sum_by(rows, sel_download(g))
    &&& e.2 == sum_by(rows, sel_upload(g))
    &&& e.3 == sum_by(rows, sel_total(g))
}

/// Some ordering of the groups matches `days` (the groups and their order are
/// in fact determined by the rows).
pub open spec fn day_breakdown_ok(
    rows: Seq<TotalsView>,
    f: RowFilterView,
    name: Option<Seq<char>>,
    days: Seq<(nat, nat, nat, nat)>,
) -> bool {
    exists|ks: Seq<(nat, Seq<char>)>| #[trigger] day_breakdown_matches(rows, f, name, ks, days)
}

/// The per-day sums of the rows `f` selects, by (day, date) group in order, or
/// nothing when some group's sums exceed the integer range.
fn day_breakdown(rows: &Vec<TotalsRecord>, f: &RowFilter, name: &Option<String>) -> (r: Vec<(u32, u64, u64, u64)>)
    requires
        totals_table_ok(totals_view(rows@)),
        f@.name == match name {
            Some(n) => Some(n@),
            None => None::<Seq<char>>,
        },
    ensures
        day_breakdown_ok(
                totals_view(rows@),
                f@,
                f@.name,
                day_sums_view(r@),
            ),
{
    let ghost v = totals_view(rows@);
    let ghost nm = f@.name;
    let keys = collect_keys(rows, f, true);
    let ghost ks = keys_view(keys@);
    let mut sums: Vec<(u32, u64, u64, u64)> = Vec::new();
    let mut idx: usize = 0;
    while idx < keys.len()
        invariant
            idx <= keys@.len(),
            v == totals_view(rows@),
            totals_table_ok(v),
            ks == keys_view(keys@),
            nm == f@.name,
            nm == match name {
                Some(n) => Some(n@),
                None => None::<Seq<char>>,
            },
            sums@.len() == idx,
            strictly_sorted(ks),
            forall|k: (nat, Seq<char>)| ks.contains(k) <==> in_groups(v, f@, true, k),
            forall|p: int| 0 <= p < idx ==> #[trigger] day_entry_ok(v, nm, ks[p], sums@[p]),
        decreases keys@.len() - idx,
    {
        let gname = match name {
            Some(n) => Some(n.clone()),
            None => None,
        };
        let gf = RowFilter { period: PeriodFilter::Exact(Period::Day(keys[idx].1.clone())), name: gname };
        proof {
            assert(gf@ == group_filter(ks[idx as int].1, nm));
        }
        let s = sum_totals(rows, &gf);
        if !(s.download_bytes <= SQL_INT_MAX as u128 && s.upload_bytes <= SQL_INT_MAX as u128
            && s.total_bytes <= SQL_INT_MAX as u128) {
            let empty: Vec<(u32, u64, u64, u64)> = Vec::new();
            proof {
                assert(!day_group_fits(v, ks[idx as int].1, nm));
                let e = day_sums_view(empty@);
                assert(e.len() == 0);
                assert(!(forall|p: int| 0 <= p < ks.len() ==> day_group_fits(v, #[trigger] ks[p].1, nm)));
                assert(strictly_sorted(ks));
                assert(forall|k: (nat, Seq<char>)| ks.contains(k) <==> in_groups(v, f@, true, k));
                assert(day_breakdown_matches(v, f@, nm, ks, e));
            }
            return empty;
        }
        proof {
            assert(ks.contains(ks[idx as int]));
        }
        let ghost before = sums@;
        sums.push((keys[idx].0, s.download_bytes as u64, s.upload_bytes as u64, s.total_bytes as u64));
        proof {
            let g = group_filter(ks[idx as int].1, nm);
            assert(gf@ == g);
            assert(v == totals_view(rows@));
            assert(s.download_bytes == sum_by(v, sel_download(g)));
            assert(s.upload_bytes == sum_by(v, sel_upload(g)));
            assert(s.total_bytes == sum_by(v, sel_total(g)));
            assert(day_group_fits(v, ks[idx as int].1, nm));
            assert(sums@[idx as int].0 == ks[idx as int].0);
            assert(sums@[idx as int].1 == sum_by(v, sel_download(g)));
            assert(sums@[idx as int].2 == sum_by(v, sel_upload(g)));
            assert(sums@[idx as int].3 == sum_by(v, sel_total(g)));
            assert(day_entry_ok(v, nm, ks[idx as int], sums@[idx as int]));
            assert forall|p: int| 0 <= p < idx + 1 implies #[trigger] day_entry_ok(v, nm, ks[p], sums@[p]) by {
                if p < idx {
                    assert(sums@[p] == before[p]);
                }
            }
        }
        idx = idx + 1;
    }
    proof {
        let e = day_sums_view(sums@);
        assert forall|p: int| 0 <= p < ks.len() implies {
            let g = group_filter(ks[p].1, nm);
            #[trigger] e[p] == (ks[p].0, sum_by(v, sel_download(g)), sum_by(v, sel_upload(g)), sum_by(v, sel_total(g)))
        } by {
            assert(day_entry_ok(v, nm, ks[p], sums@[p]));
            assert(e[p] == (sums@[p].0 as nat, sums@[p].1 as nat, sums@[p].2 as nat, sums@[p].3 as nat));
        }
        assert forall|p: int| 0 <= p < ks.len() implies day_group_fits(v, #[trigger] ks[p].1, nm) by {
            assert(day_entry_ok(v, nm, ks[p], sums@[p]));
        }
        assert(e.len() == ks.len());
        assert(day_breakdown_matches(v, f@, nm, ks, e));
    }
    sums
}

/// Traffic per day of the month (`year`, `month`), by date, in day order; empty
/// when some day's sums exceed the integer range. Dates that are not calendar
/// dates are left out.
pub fn get_daily_breakdown_for_month(store: &UsageStore, year: i32, month: u32) -> (r: Result<
    Vec<DailyBreakdownRow>,
    DbError,
>)
    requires
        crate::db::dates::next_month_defined(year, month),
    ensures
        r matches Ok(out) && day_breakdown_ok(
                store.daily_rows(),
                month_days_filter(
                    crate::db::dates::month_start_text(year as int, month as nat),
                    crate::db::dates::month_start_text(
                        crate::db::dates::next_month(year as int, month as nat).0,
                        crate::db::dates::next_month(year as int, month as nat).1,
                    ),
                    None,
                ),
                None,
                daily_breakdown_view(out@),
            ),
{
    proof {
        use_type_invariant(store);
    }
    let (start, end) = crate::db::dates::month_range(year, month);
    let f = RowFilter { period: PeriodFilter::Days(start, end, false), name: None };
    let sums = day_breakdown(&store.daily, &f, &None);
    let ghost ks = choose|ks: Seq<(nat, Seq<char>)>|
        #[trigger] day_breakdown_matches(totals_view(store.daily@), f@, f@.name, ks, day_sums_view(sums@));
    let ghost ff = month_days_filter(
        crate::db::dates::month_start_text(year as int, month as nat),
        crate::db::dates::month_start_text(
            crate::db::dates::next_month(year as int, month as nat).0,
            crate::db::dates::next_month(year as int, month as nat).1,
        ),
        None,
    );
    proof {
        assert(f@ == ff);
        assert(store.daily_rows() == totals_view(store.daily@));
    }
    let mut out: Vec<DailyBreakdownRow> = Vec::new();
    let mut i: usize = 0;
    while i < sums.len()
        invariant
            i <= sums@.len(),
            out@.len() == i,
            day_breakdown_matches(store.daily_rows(), ff, None, ks, day_sums_view(sums@)),
            forall|p: int|
                0 <= p < i ==> {
                    &&& (#[trigger] out@[p]).day == sums@[p].0
                    &&& out@[p].download_bytes == sums@[p].1
                    &&& out@[p].upload_bytes == sums@[p].2
                    &&& out@[p].total_bytes == sums@[p].3
                },
        decreases sums@.len() - i,
    {
        let e = sums[i];
        out.push(DailyBreakdownRow { day: e.0, download_bytes: e.1, upload_bytes: e.2, total_bytes: e.3 });
        i = i + 1;
    }
    proof {
        assert(daily_breakdown_view(out@)
            =~= day_sums_view(sums@));
        assert(day_breakdown_matches(
            store.daily_rows(),
            month_days_filter(
                crate::db::dates::month_start_text(year as int, month as nat),
                crate::db::dates::month_start_text(
                    crate::db::dates::next_month(year as int, month as nat).0,
                    crate::db::dates::next_month(year as int, month as nat).1,
                ),
                None,
            ),
            None,
            ks,
            daily_breakdown_view(out@),
        ));
    }
    Ok(out)
}

/// Traffic of `app_name` per day of the month (`year`, `month`), in day order;
/// empty when some day's sums exceed the integer range.
pub fn get_app_daily_breakdown_month(store: &UsageStore, app_name: &str, year: i32, month: u32) -> (r: Result<
    Vec<AppDailyBreakdownRow>,
    DbError,
>)
    requires
        crate::db::dates::next_month_defined(year, month),
    ensures
        r matches Ok(out) && day_breakdown_ok(
                store.daily_app_rows(),
                month_days_filter(
                    crate::db::dates::month_start_text(year as int, month as nat),
                    crate::db::dates::month_start_text(
                        crate::db::dates::next_month(year as int, month as nat).0,
                        crate::db::dates::next_month(year as int, month as nat).1,
                    ),
                    Some(app_name@),
                ),
                Some(app_name@),
                app_daily_breakdown_view(out@),
            ),
{
    proof {
        use_type_invariant(store);
    }
    let (start, end) = crate::db::dates::month_range(year, month);
    let name = Some(String::from_str(app_name));
    let f = RowFilter { period: PeriodFilter::Days(start, end, false), name: Some(String::from_str(app_name)) };
    let sums = day_breakdown(&store.daily_app, &f, &name);
    let ghost ks = choose|ks: Seq<(nat, Seq<char>)>|
        #[trigger] day_breakdown_matches(totals_view(store.daily_app@), f@, f@.name, ks, day_sums_view(sums@));
    let ghost ff = month_days_filter(
        crate::db::dates::month_start_text(year as int, month as nat),
        crate::db::dates::month_start_text(
            crate::db::dates::next_month(year as int, month as nat).0,
            crate::db::dates::next_month(year as int, month as nat).1,
        ),
        Some(app_name@),
    );
    proof {
        assert(f@ == ff);
        assert(store.daily_app_rows() == totals_view(store.daily_app@));
    }
    let mut out: Vec<AppDailyBreakdownRow> = Vec::new();
    let mut i: usize = 0;
    while i < sums.len()
        invariant
            i <= sums@.len(),
            out@.len() == i,
            day_breakdown_matches(store.daily_app_rows(), ff, Some(app_name@), ks, day_sums_view(sums@)),
            forall|p: int|
                0 <= p < i ==> {
                    &&& (#[trigger] out@[p]).day == sums@[p].0
                    &&& out@[p].download_bytes == sums@[p].1
                    &&& out@[p].upload_bytes == sums@[p].2
                    &&& out@[p].total_bytes == sums@[p].3
                },
        decreases sums@.len() - i,
    {
        let e = sums[i];
        out.push(AppDailyBreakdownRow { day: e.0, download_bytes: e.1, upload_bytes: e.2, total_bytes: e.3 });
        i = i + 1;
    }
    proof {
        assert(app_daily_breakdown_view(out@)
            =~= day_sums_view(sums@));
        assert(day_breakdown_matches(
            store.daily_app_rows(),
            month_days_filter(
                crate::db::dates::month_start_text(year as int, month as nat),
                crate::db::dates::month_start_text(
                    crate::db::dates::next_month(year as int, month as nat).0,
                    crate::db::dates::next_month(year as int, month as nat).1,
                ),
                Some(app_name@),
            ),
            Some(app_name@),
            ks,
            app_daily_breakdown_view(out@),
        ));
    }
    Ok(out)
}

// ---------------------------------------------------------------------------
// Usage rates
// ---------------------------------------------------------------------------

/// Total traffic of a period with the extent of its activity: the first and last
/// minute of the day that has records (for a day), or the first and last day of
/// the month that has records (for a month).
pub struct UsageRateRow {
    pub total_bytes: u64,
    pub first: Option<u32>,
    pub last: Option<u32>,
}

/// Minute of the day of a snapshot taken on `date`.
pub open spec fn minute_on(date: Seq<char>) -> spec_fn(SnapshotView) -> Option<nat> {
    |r: SnapshotView|
        match sql_time(r.timestamp) {
            Some(t) => if t.date == date {
                Some(t.hour * 60 + t.minute)
            } else {
                None
            },
            None => None,
        }
}

pub open spec fn date_filter(date: Seq<char>) -> StampFilterView {
    StampFilterView { app: None, date: Some(date), range: None, hour: None, weekday: None }
}

fn opt_min(a: Option<u32>, x: u32) -> (r: Option<u32>)
    ensures
        r == match a {
            None => Some(x),
            Some(y) => Some(
                if x < y {
                    x
                } else {
                    y
                },
            ),
        },
{
    match a {
        None => Some(x),
        Some(y) => Some(
            if x < y {
                x
            } else {
                y
            },
        ),
    }
}

fn opt_max(a: Option<u32>, x: u32) -> (r: Option<u32>)
    ensures
        r == match a {
            None => Some(x),
            Some(y) => Some(
                if x > y {
                    x
                } else {
                    y
                },
            ),
        },
{
    match a {
        None => Some(x),
        Some(y) => Some(
            if x > y {
                x
            } else {
                y
            },
        ),
    }
}

pub open spec fn opt_u32_view(o: Option<u32>) -> Option<nat> {
    match o {
        Some(x) => Some(x as nat),
        None => None,
    }
}

/// Today's traffic so far with the first and last minute that has records; an
/// error when the total exceeds the integer range.
pub fn get_today_usage_rate(store: &UsageStore, date: &str) -> (r: Result<UsageRateRow, DbError>)
    ensures
        ({
            let rows = store.snapshot_rows();
            let total = sum_by(rows, snap_total(date_filter(date@)));
            match r {
                Ok(row) => fits(total) && row.total_bytes == total && opt_u32_view(row.first)
                    == opt_min_by(rows, minute_on(date@)) && opt_u32_view(row.last) == opt_max_by(
                    rows,
                    minute_on(date@),
                ),
                Err(e) => e == DbError::IntegerOverflow && !fits(total),
            }
        }),
{
    proof {
        use_type_invariant(store);
    }
    let ghost rows = store.snapshot_rows();
    let ghost mf = minute_on(date@);
    let d = String::from_str(date);
    let f = StampFilter { app: None, date: Some(String::from_str(date)), range: None, hour: None, weekday: None };
    let s = sum_snapshots(&store.snapshots, &f);
    proof {
        assert(store.snapshots@.map_values(|r: SnapshotRecord| r@) == rows);
        assert(f@ == date_filter(date@));
    }
    if s.total_bytes > SQL_INT_MAX as u128 {
        return Err(DbError::IntegerOverflow);
    }
    let mut first: Option<u32> = None;
    let mut last: Option<u32> = None;
    let mut i: usize = 0;
    while i < store.snapshots.len()
        invariant
            i <= store.snapshots@.len(),
            rows == store.snapshot_rows(),
            d@ == date@,
            mf == minute_on(date@),
            opt_u32_view(first) == opt_min_by(rows.take(i as int), mf),
            opt_u32_view(last) == opt_max_by(rows.take(i as int), mf),
            forall|x: nat| opt_max_by(rows.take(i as int), mf) == Some(x) ==> x < 1500,
            forall|x: nat| opt_min_by(rows.take(i as int), mf) == Some(x) ==> x < 1500,
        decreases store.snapshots@.len() - i,
    {
        proof {
            crate::db::lemma_opt_by_take(rows, mf, i as int);
            assert(rows[i as int] == store.snapshots@[i as int]@);
        }
        match read_sql_time(&store.snapshots[i].timestamp) {
            Some(t) => {
                if t.date == d {
                    let minute = (t.hour * 60 + t.minute) as u32;
                    first = opt_min(first, minute);
                    last = opt_max(last, minute);
                }
            },
            None => {},
        }
        i = i + 1;
    }
    proof {
        assert(rows.take(i as int) =~= rows);
    }
    Ok(UsageRateRow { total_bytes: s.total_bytes as u64, first, last })
}

/// Day of the month of a selected daily row whose date is a calendar date.
pub open spec fn day_in(f: RowFilterView) -> spec_fn(TotalsView) -> Option<nat> {
    |r: TotalsView|
        if row_selected(f, r) {
            match r.period {
                PeriodView::Day(d) => match sql_time(d) {
                    Some(t) => Some(t.day),
                    None => None,
                },
                PeriodView::Month(_, _) => None,
            }
        } else {
            None
        }
}

/// The month's traffic so far with the first and last day that has records; an
/// error when the total exceeds the integer range.
pub fn get_monthly_usage_rate(store: &UsageStore, year: i32, month: u32) -> (r: Result<
    UsageRateRow,
    DbError,
>)
    requires
        crate::db::dates::next_month_defined(year, month),
    ensures
        ({
            let rows = store.daily_rows();
            let f = month_days_filter(
                crate::db::dates::month_start_text(year as int, month as nat),
                crate::db::dates::month_start_text(
                    crate::db::dates::next_month(year as int, month as nat).0,
                    crate::db::dates::next_month(year as int, month as nat).1,
                ),
                None,
            );
            let total = sum_by(rows, sel_total(f));
            match r {
                Ok(row) => fits(total) && row.total_bytes == total && opt_u32_view(row.first)
                    == opt_min_by(rows, day_in(f)) && opt_u32_view(row.last) == opt_max_by(
                    rows,
                    day_in(f),
                ),
                Err(e) => e == DbError::IntegerOverflow && !fits(total),
            }
        }),
{
    proof {
        use_type_invariant(store);
    }
    let ghost rows = store.daily_rows();
    let (start, end) = crate::db::dates::month_range(year, month);
    let f = RowFilter { period: PeriodFilter::Days(start, end, false), name: None };
    let ghost fv = f@;
    let ghost df = day_in(fv);
    let s = sum_totals(&store.daily, &f);
    if s.total_bytes > SQL_INT_MAX as u128 {
        return Err(DbError::IntegerOverflow);
    }
    let mut first: Option<u32> = None;
    let mut last: Option<u32> = None;
    let mut i: usize = 0;
    while i < store.daily.len()
        invariant
            i <= store.daily@.len(),
            rows == store.daily_rows(),
            fv == f@,
            df == day_in(fv),
            opt_u32_view(first) == opt_min_by(rows.take(i as int), df),
            opt_u32_view(last) == opt_max_by(rows.take(i as int), df),
        decreases store.daily@.len() - i,
    {
        proof {
            crate::db::lemma_opt_by_take(rows, df, i as int);
            assert(rows[i as int] == store.daily@[i as int]@);
        }
        let r = &store.daily[i];
        if row_matches(&f, r) {
            match &r.period {
                Period::Day(d) => match read_sql_time(d) {
                    Some(t) => {
                        first = opt_min(first, t.day as u32);
                        last = opt_max(last, t.day as u32);
                    },
                    None => {},
                },
                Period::Month(_, _) => {},
            }
        }
        i = i + 1;
    }
    proof {
        assert(rows.take(i as int) =~= rows);
    }
    Ok(UsageRateRow { total_bytes: s.total_bytes as u64, first, last })
}

// ---------------------------------------------------------------------------
// Per-application breakdown of a day or a month
// ---------------------------------------------------------------------------

/// One application's traffic in a period, with the period's total over all
/// applications (its share is `total_bytes / period_total_bytes`).
pub struct AppUsageSummaryRow {
    pub app_name: String,
    pub upload_bytes: u64,
    pub download_bytes: u64,
    pub total_bytes: u64,
    pub period_total_bytes: u64,
}

pub open spec fn summary_view(r: AppUsageSummaryRow) -> (Seq<char>, nat, nat, nat) {
    (r.app_name@, r.upload_bytes as nat, r.download_bytes as nat, r.total_bytes as nat)
}

pub open spec fn totals_summary(r: TotalsView) -> (Seq<char>, nat, nat, nat) {
    (r.name, r.upload_bytes, r.download_bytes, r.total_bytes)
}

pub open spec fn summaries_view(v: Seq<AppUsageSummaryRow>) -> Seq<(Seq<char>, nat, nat, nat)> {
    v.map_values(|r: AppUsageSummaryRow| summary_view(r))
}

pub open spec fn selected_pred(f: RowFilterView) -> spec_fn(TotalsView) -> bool {
    |r: TotalsView| row_selected(f, r)
}

/// The rows `f` selects, as (name, upload, download, total).
pub open spec fn selected_summaries(rows: Seq<TotalsView>, f: RowFilterView) -> Seq<(Seq<char>, nat, nat, nat)> {
    rows.filter(selected_pred(f)).map_values(|r: TotalsView| totals_summary(r))
}

/// The breakdown of a period: every selected row once, largest total first, each
/// with the period's total — or nothing when that total exceeds the integer range.
pub open spec fn app_breakdown_matches(rows: Seq<TotalsView>, f: RowFilterView, out: Seq<AppUsageSummaryRow>) -> bool {
    let total = sum_by(rows, sel_total(f));
    if fits(total) {
        &&& summaries_view(out).to_multiset() == selected_summaries(rows, f).to_multiset()
        &&& forall|i: int, j: int| 0 <= i < j < out.len() ==> out[i].total_bytes >= out[j].total_bytes
        &&& forall|i: int| 0 <= i < out.len() ==> (#[trigger] out[i]).period_total_bytes == total
    } else {
        out.len() == 0
    }
}

proof fn lemma_insert_to_multiset<A>(s: Seq<A>, j: int, x: A)
    requires
        0 <= j <= s.len(),
    ensures
        s.insert(j, x).to_multiset() == s.to_multiset().insert(x),
{
    let t = s.insert(j, x);
    assert(t.remove(j) =~= s);
    t.to_multiset_ensures();
    assert(t[j] == x);
    assert(t.contains(x));
    assert(t.to_multiset().count(x) > 0);
    assert(s.to_multiset() == t.to_multiset().remove(x));
    assert(t.to_multiset() =~= t.to_multiset().remove(x).insert(x));
}

proof fn lemma_selected_step(rows: Seq<TotalsView>, f: RowFilterView, i: int)
    requires
        0 <= i < rows.len(),
    ensures
        selected_summaries(rows.take(i + 1), f) == if row_selected(f, rows[i]) {
            selected_summaries(rows.take(i), f).push(totals_summary(rows[i]))
        } else {
            selected_summaries(rows.take(i), f)
        },
{
    let pred = selected_pred(f);
    reveal_with_fuel(Seq::<_>::filter, 1);
    assert(rows.take(i + 1).drop_last() =~= rows.take(i));
    assert(rows.take(i + 1).last() == rows[i]);
    let a = rows.take(i).filter(pred);
    if row_selected(f, rows[i]) {
        assert(rows.take(i + 1).filter(pred) == a.push(rows[i]));
        assert(a.push(rows[i]).map_values(|r: TotalsView| totals_summary(r)) =~= a.map_values(
            |r: TotalsView| totals_summary(r),
        ).push(totals_summary(rows[i])));
    } else {
        assert(rows.take(i + 1).filter(pred) == a);
    }
}

fn app_breakdown(rows: &Vec<TotalsRecord>, f: &RowFilter) -> (out: Vec<AppUsageSummaryRow>)
    requires
        totals_table_ok(totals_view(rows@)),
    ensures
        app_breakdown_matches(totals_view(rows@), f@, out@),
{
    let ghost v = totals_view(rows@);
    let ghost fv = f@;
    let sums = sum_totals(rows, f);
    let mut out: Vec<AppUsageSummaryRow> = Vec::new();
    if sums.total_bytes > SQL_INT_MAX as u128 {
        return out;
    }
    let period_total = sums.total_bytes as u64;
    let mut i: usize = 0;
    proof {
        assert(v.take(0) =~= Seq::<TotalsView>::empty());
        assert(selected_summaries(v.take(0), fv) =~= Seq::<(Seq<char>, nat, nat, nat)>::empty());
        assert(summaries_view(out@) =~= Seq::<(Seq<char>, nat, nat, nat)>::empty());
    }
    while i < rows.len()
        invariant
            i <= rows@.len(),
            v == totals_view(rows@),
            fv == f@,
            period_total == sum_by(v, sel_total(fv)),
            summaries_view(out@).to_multiset() == selected_summaries(v.take(i as int), fv).to_multiset(),
            forall|a: int, b: int| 0 <= a < b < out@.len() ==> out@[a].total_bytes >= out@[b].total_bytes,
            forall|a: int| 0 <= a < out@.len() ==> (#[trigger] out@[a]).period_total_bytes == period_total,
        decreases rows@.len() - i,
    {
        proof {
            lemma_selected_step(v, fv, i as int);
            assert(v[i as int] == rows@[i as int]@);
        }
        let r = &rows[i];
        if row_matches(f, r) {
            let item = AppUsageSummaryRow {
                app_name: r.name.clone(),
                upload_bytes: r.upload_bytes,
                download_bytes: r.download_bytes,
                total_bytes: r.total_bytes,
                period_total_bytes: period_total,
            };
            let mut j: usize = 0;
            while j < out.len() && out[j].total_bytes >= item.total_bytes
                invariant
                    j <= out@.len(),
                    forall|a: int| 0 <= a < j ==> out@[a].total_bytes >= item.total_bytes,
                decreases out@.len() - j,
            {
                j = j + 1;
            }
            let ghost before = out@;
            proof {
                assert(summary_view(item) == totals_summary(v[i as int]));
            }
            out.insert(j, item);
            proof {
                assert(summaries_view(out@) =~= summaries_view(before).insert(j as int, summary_view(item)));
                lemma_insert_to_multiset(summaries_view(before), j as int, summary_view(item));
                summaries_view(before).to_multiset_ensures();
                selected_summaries(v.take(i as int), fv).to_multiset_ensures();
                assert forall|a: int, b: int| 0 <= a < b < out@.len() implies out@[a].total_bytes
                    >= out@[b].total_bytes by {
                    if b < j {
                        assert(out@[a] == before[a] && out@[b] == before[b]);
                    } else if b == j {
                        assert(out@[a] == before[a]);
                    } else if a < j {
                        assert(out@[a] == before[a] && out@[b] == before[b - 1]);
                        if j < before.len() {
                            assert(before[j as int].total_bytes < item.total_bytes);
                        }
                    } else if a == j {
                        assert(out@[b] == before[b - 1]);
                        assert(before[j as int].total_bytes < item.total_bytes);
                    } else {
                        assert(out@[a] == before[a - 1] && out@[b] == before[b - 1]);
                    }
                }
                assert forall|a: int| 0 <= a < out@.len() implies (#[trigger] out@[a]).period_total_bytes
                    == period_total by {
                    if a < j {
                        assert(out@[a] == before[a]);
                    } else if a > j {
                        assert(out@[a] == before[a - 1]);
                    }
                }
            }
        }
        i = i + 1;
    }
    proof {
        assert(v.take(i as int) =~= v);
    }
    out
}

/// The applications' traffic on `date`, largest total first, each with the day's
/// total over all applications; empty when that total exceeds the integer range.
pub fn get_daily_app_breakdown(store: &UsageStore, date: &str) -> (r: Result<
    Vec<AppUsageSummaryRow>,
    DbError,
>)
    ensures
        r matches Ok(out) && app_breakdown_matches(store.daily_app_rows(), day_filter(date@), out@),
{
    proof {
        use_type_invariant(store);
    }
    let f = RowFilter { period: PeriodFilter::Exact(Period::Day(String::from_str(date))), name: None };
    Ok(app_breakdown(&store.daily_app, &f))
}

/// The applications' traffic in the month, largest total first, each with the
/// month's total over all applications; empty when that total exceeds the
/// integer range.
pub fn get_monthly_app_breakdown(store: &UsageStore, year: i32, month: u32) -> (r: Result<
    Vec<AppUsageSummaryRow>,
    DbError,
>)
    ensures
        r matches Ok(out) && app_breakdown_matches(
            store.monthly_app_rows(),
            month_filter(year, month),
            out@,
        ),
{
    proof {
        use_type_invariant(store);
    }
    let f = RowFilter { period: PeriodFilter::Exact(Period::Month(year, month as i32)), name: None };
    Ok(app_breakdown(&store.monthly_app, &f))
}

// ---------------------------------------------------------------------------
// Laws of the totals tables
// ---------------------------------------------------------------------------

/// No two rows share a (period, name) key.
pub open spec fn keys_unique(rows: Seq<TotalsView>) -> bool {
    forall|i: int, j: int|
        0 <= i < j < rows.len() ==> !(#[trigger] rows[i].period == #[trigger] rows[j].period
            && rows[i].name == rows[j].name)
}

proof fn lemma_key_index_unique(rows: Seq<TotalsView>, i: int, period: PeriodView, name: Seq<char>)
    requires
        keys_unique(rows),
        0 <= i < rows.len(),
        totals_key_is(rows[i], period, name),
    ensures
        (choose|k: int| 0 <= k < rows.len() && totals_key_is(rows[k], period, name)) == i,
{
    let k = choose|k: int| 0 <= k < rows.len() && totals_key_is(rows[k], period, name);
    if k < i {
        assert(rows[k].period == rows[i].period);
    } else if k > i {
        assert(rows[i].period == rows[k].period);
    }
}

/// Law: what a read gives back of a write — after traffic is added to a
/// (period, name) row, every sum that selects that row has grown by exactly the
/// traffic added (upload, download, and their sum as total), every peak is the
/// larger of the old peak and the new speed, and sums that do not select the
/// row are unchanged.
pub proof fn law_upsert_read_back(
    rows: Seq<TotalsView>,
    period: PeriodView,
    name: Seq<char>,
    up: nat,
    down: nat,
    up_speed: nat,
    down_speed: nat,
    f: RowFilterView,
)
    requires
        totals_table_ok(rows),
    ensures
        ({
            let next = totals_upserted(rows, period, name, up, down, up_speed, down_speed);
            let key = TotalsView {
                period,
                name,
                upload_bytes: 0,
                download_bytes: 0,
                total_bytes: 0,
                peak_upload_speed: 0,
                peak_download_speed: 0,
            };
            if row_selected(f, key) {
                &&& sum_by(next, sel_upload(f)) == sum_by(rows, sel_upload(f)) + up
                &&& sum_by(next, sel_download(f)) == sum_by(rows, sel_download(f)) + down
                &&& sum_by(next, sel_total(f)) == sum_by(rows, sel_total(f)) + up + down
                &&& max_by(next, sel_peak_up(f)) == nat_max(max_by(rows, sel_peak_up(f)), up_speed)
                &&& max_by(next, sel_peak_down(f)) == nat_max(
                    max_by(rows, sel_peak_down(f)),
                    down_speed,
                )
            } else {
                &&& sum_by(next, sel_upload(f)) == sum_by(rows, sel_upload(f))
                &&& sum_by(next, sel_download(f)) == sum_by(rows, sel_download(f))
                &&& sum_by(next, sel_total(f)) == sum_by(rows, sel_total(f))
                &&& max_by(next, sel_peak_up(f)) == max_by(rows, sel_peak_up(f))
                &&& max_by(next, sel_peak_down(f)) == max_by(rows, sel_peak_down(f))
            }
        }),
{
    lemma_upsert_sums(rows, period, name, up, down, up_speed, down_speed, f);
}

/// Law: the day's usage read back after recording adapter traffic for that day
/// has grown by exactly that traffic; the usage of any other day is unchanged.
pub proof fn law_daily_usage_after_upsert(
    rows: Seq<TotalsView>,
    date: Seq<char>,
    adapter: Seq<char>,
    up: nat,
    down: nat,
    up_speed: nat,
    down_speed: nat,
    other: Seq<char>,
)
    requires
        totals_table_ok(rows),
        other != date,
    ensures
        ({
            let next = totals_upserted(rows, PeriodView::Day(date), adapter, up, down, up_speed, down_speed);
            let f = day_filter(date);
            let g = day_filter(other);
            &&& sum_by(next, sel_upload(f)) == sum_by(rows, sel_upload(f)) + up
            &&& sum_by(next, sel_download(f)) == sum_by(rows, sel_download(f)) + down
            &&& sum_by(next, sel_total(f)) == sum_by(rows, sel_total(f)) + up + down
            &&& max_by(next, sel_peak_up(f)) == nat_max(max_by(rows, sel_peak_up(f)), up_speed)
            &&& max_by(next, sel_peak_down(f)) == nat_max(max_by(rows, sel_peak_down(f)), down_speed)
            &&& sum_by(next, sel_total(g)) == sum_by(rows, sel_total(g))
        }),
{
    lemma_upsert_sums(rows, PeriodView::Day(date), adapter, up, down, up_speed, down_speed, day_filter(date));
    lemma_upsert_sums(rows, PeriodView::Day(date), adapter, up, down, up_speed, down_speed, day_filter(other));
}

/// Law: the month's usage read back after recording adapter traffic for that
/// month has grown by exactly that traffic.
pub proof fn law_monthly_usage_after_upsert(
    rows: Seq<TotalsView>,
    year: i32,
    month: u32,
    adapter: Seq<char>,
    up: nat,
    down: nat,
    up_speed: nat,
    down_speed: nat,
)
    requires
        totals_table_ok(rows),
    ensures
        ({
            let next = totals_upserted(
                rows,
                PeriodView::Month(year as int, (month as i32) as int),
                adapter,
                up,
                down,
                up_speed,
                down_speed,
            );
            let f = month_filter(year, month);
            &&& sum_by(next, sel_upload(f)) == sum_by(rows, sel_upload(f)) + up
            &&& sum_by(next, sel_download(f)) == sum_by(rows, sel_download(f)) + down
            &&& sum_by(next, sel_total(f)) == sum_by(rows, sel_total(f)) + up + down
        }),
{
    lemma_upsert_sums(
        rows,
        PeriodView::Month(year as int, (month as i32) as int),
        adapter,
        up,
        down,
        up_speed,
        down_speed,
        month_filter(year, month),
    );
}

/// Law: keys stay unique when traffic is added.
pub proof fn law_upsert_keeps_keys_unique(
    rows: Seq<TotalsView>,
    period: PeriodView,
    name: Seq<char>,
    up: nat,
    down: nat,
    up_speed: nat,
    down_speed: nat,
)
    requires
        keys_unique(rows),
    ensures
        keys_unique(totals_upserted(rows, period, name, up, down, up_speed, down_speed)),
{
    let n = totals_upserted(rows, period, name, up, down, up_speed, down_speed);
    if exists|i: int| 0 <= i < rows.len() && totals_key_is(rows[i], period, name) {
        let i = choose|i: int| 0 <= i < rows.len() && totals_key_is(rows[i], period, name);
        assert forall|a: int, b: int| 0 <= a < b < n.len() implies !(#[trigger] n[a].period
            == #[trigger] n[b].period && n[a].name == n[b].name) by {
            if a != i && b != i {
                assert(n[a] == rows[a] && n[b] == rows[b]);
            } else if a == i {
                assert(n[b] == rows[b]);
                assert(!(rows[i].period == rows[b].period && rows[i].name == rows[b].name));
            } else {
                assert(n[a] == rows[a]);
                assert(!(rows[a].period == rows[i].period && rows[a].name == rows[i].name));
            }
        }
    } else {
        assert forall|a: int, b: int| 0 <= a < b < n.len() implies !(#[trigger] n[a].period
            == #[trigger] n[b].period && n[a].name == n[b].name) by {
            assert(n[a] == rows[a]);
            if b < rows.len() {
                assert(n[b] == rows[b]);
            } else {
                assert(!totals_key_is(rows[a], period, name));
            }
        }
    }
}

/// Law: recording traffic in two steps gives the same table as recording the
/// combined traffic at once (bytes add up, peaks take the larger speed).
pub proof fn law_upsert_twice_is_upsert_of_sum(
    rows: Seq<TotalsView>,
    period: PeriodView,
    name: Seq<char>,
    up1: nat,
    down1: nat,
    us1: nat,
    ds1: nat,
    up2: nat,
    down2: nat,
    us2: nat,
    ds2: nat,
)
    requires
        keys_unique(rows),
    ensures
        totals_upserted(
            totals_upserted(rows, period, name, up1, down1, us1, ds1),
            period,
            name,
            up2,
            down2,
            us2,
            ds2,
        ) == totals_upserted(rows, period, name, up1 + up2, down1 + down2, nat_max(us1, us2), nat_max(ds1, ds2)),
{
    let mid = totals_upserted(rows, period, name, up1, down1, us1, ds1);
    law_upsert_keeps_keys_unique(rows, period, name, up1, down1, us1, ds1);
    if exists|i: int| 0 <= i < rows.len() && totals_key_is(rows[i], period, name) {
        let i = choose|i: int| 0 <= i < rows.len() && totals_key_is(rows[i], period, name);
        let m1 = totals_merged(rows[i], up1, down1, us1, ds1);
        assert(mid == rows.update(i, m1));
        assert(totals_key_is(mid[i], period, name));
        lemma_key_index_unique(mid, i, period, name);
        let m2 = totals_merged(m1, up2, down2, us2, ds2);
        let m = totals_merged(rows[i], up1 + up2, down1 + down2, nat_max(us1, us2), nat_max(ds1, ds2));
        assert(m2 == m);
        assert(rows.update(i, m1).update(i, m2) =~= rows.update(i, m));
    } else {
        let x = TotalsView {
            period,
            name,
            upload_bytes: up1,
            download_bytes: down1,
            total_bytes: up1 + down1,
            peak_upload_speed: us1,
            peak_download_speed: ds1,
        };
        let last = rows.len() as int;
        assert(mid == rows.push(x));
        assert(totals_key_is(mid[last], period, name));
        lemma_key_index_unique(mid, last, period, name);
        assert(rows.push(x).update(last, totals_merged(x, up2, down2, us2, ds2)) =~= rows.push(
            TotalsView {
                period,
                name,
                upload_bytes: up1 + up2,
                download_bytes: down1 + down2,
                total_bytes: (up1 + up2) + (down1 + down2),
                peak_upload_speed: nat_max(us1, us2),
                peak_download_speed: nat_max(ds1, ds2),
            },
        ));
    }
}

// ---------------------------------------------------------------------------
// Loading and reading the tables
// ---------------------------------------------------------------------------

fn totals_table_check(t: &Vec<TotalsRecord>) -> (r: bool)
    ensures
        r == totals_table_ok(totals_view(t@)),
{
    let ghost v = totals_view(t@);
    let mut i: usize = 0;
    while i < t.len()
        invariant
            i <= t@.len(),
            v == totals_view(t@),
            forall|a: int| 0 <= a < i ==> totals_fits(#[trigger] v[a]),
            forall|a: int, b: int|
                0 <= a < b < t@.len() && a < i ==> !(#[trigger] v[a].period == #[trigger] v[b].period
                    && v[a].name == v[b].name),
        decreases t@.len() - i,
    {
        let r = &t[i];
        proof {
            assert(v[i as int] == r@);
        }
        if !(r.upload_bytes <= SQL_INT_MAX && r.download_bytes <= SQL_INT_MAX && r.total_bytes
            <= SQL_INT_MAX && r.peak_upload_speed <= SQL_INT_MAX && r.peak_download_speed
            <= SQL_INT_MAX) {
            proof {
                assert(!totals_fits(v[i as int]));
            }
            return false;
        }
        let mut j: usize = i + 1;
        while j < t.len()
            invariant
                i < j <= t@.len(),
                v == totals_view(t@),
                v[i as int] == t@[i as int]@,
                forall|b: int| i < b < j ==> !(v[i as int].period == #[trigger] v[b].period && v[i as int].name == v[b].name),
            decreases t@.len() - j,
        {
            proof {
                assert(v[j as int] == t@[j as int]@);
            }
            if same_period(&t[i].period, &t[j].period) && t[i].name == t[j].name {
                proof {
                    assert(v[i as int].period == v[j as int].period && v[i as int].name == v[j as int].name);
                    assert(!totals_table_ok(v));
                }
                return false;
            }
            j = j + 1;
        }
        i = i + 1;
    }
    true
}

fn snapshots_check(t: &Vec<SnapshotRecord>) -> (r: bool)
    ensures
        r == forall|i: int| 0 <= i < t@.len() ==> snapshot_fits(#[trigger] t@[i]@),
{
    let mut i: usize = 0;
    while i < t.len()
        invariant
            i <= t@.len(),
            forall|a: int| 0 <= a < i ==> snapshot_fits(#[trigger] t@[a]@),
        decreases t@.len() - i,
    {
        let r = &t[i];
        if !(r.upload_bytes <= SQL_INT_MAX && r.download_bytes <= SQL_INT_MAX && r.total_bytes
            <= SQL_INT_MAX && r.upload_speed_bps <= SQL_INT_MAX && r.download_speed_bps
            <= SQL_INT_MAX) {
            proof {
                assert(!snapshot_fits(t@[i as int]@));
            }
            return false;
        }
        i = i + 1;
    }
    true
}

fn app_records_check(t: &Vec<AppUsageRecord>) -> (r: bool)
    ensures
        r == forall|i: int| 0 <= i < t@.len() ==> app_record_fits(#[trigger] t@[i]@),
{
    let mut i: usize = 0;
    while i < t.len()
        invariant
            i <= t@.len(),
            forall|a: int| 0 <= a < i ==> app_record_fits(#[trigger] t@[a]@),
        decreases t@.len() - i,
    {
        let r = &t[i];
        if !(r.upload_bytes <= SQL_INT_MAX && r.download_bytes <= SQL_INT_MAX && r.total_bytes
            <= SQL_INT_MAX) {
            proof {
                assert(!app_record_fits(t@[i as int]@));
            }
            return false;
        }
        i = i + 1;
    }
    true
}

impl UsageStore {
    /// A store holding the given settings and rows, when every value fits an
    /// integer column and no two totals rows of a table share a key; `None`
    /// otherwise.
    pub fn from_tables(
        settings: UserSettings,
        snapshots: Vec<SnapshotRecord>,
        app_records: Vec<AppUsageRecord>,
        daily: Vec<TotalsRecord>,
        daily_app: Vec<TotalsRecord>,
        monthly: Vec<TotalsRecord>,
        monthly_app: Vec<TotalsRecord>,
    ) -> (r: Option<Self>)
        ensures
            r is Some <==> {
                &&& forall|i: int| 0 <= i < snapshots@.len() ==> snapshot_fits(#[trigger] snapshots@[i]@)
                &&& forall|i: int| 0 <= i < app_records@.len() ==> app_record_fits(#[trigger] app_records@[i]@)
                &&& totals_table_ok(totals_view(daily@))
                &&& totals_table_ok(totals_view(daily_app@))
                &&& totals_table_ok(totals_view(monthly@))
                &&& totals_table_ok(totals_view(monthly_app@))
            },
            r matches Some(s) ==> {
                &&& s.settings_value() == settings
                &&& s.snapshot_rows() == snapshots@.map_values(|x: SnapshotRecord| x@)
                &&& s.app_rows() == app_records@.map_values(|x: AppUsageRecord| x@)
                &&& s.daily_rows() == totals_view(daily@)
                &&& s.daily_app_rows() == totals_view(daily_app@)
                &&& s.monthly_rows() == totals_view(monthly@)
                &&& s.monthly_app_rows() == totals_view(monthly_app@)
            },
    {
        if snapshots_check(&snapshots) && app_records_check(&app_records) && totals_table_check(
            &daily,
        ) && totals_table_check(&daily_app) && totals_table_check(&monthly) && totals_table_check(
            &monthly_app,
        ) {
            Some(UsageStore { settings, snapshots, app_records, daily, daily_app, monthly, monthly_app })
        } else {
            None
        }
    }

    /// The snapshot records, oldest first.
    pub fn snapshot_records(&self) -> (r: &Vec<SnapshotRecord>)
        ensures
            r@.map_values(|x: SnapshotRecord| x@) == self.snapshot_rows(),
    {
        &self.snapshots
    }

    /// The per-application records, oldest first.
    pub fn app_usage_records(&self) -> (r: &Vec<AppUsageRecord>)
        ensures
            r@.map_values(|x: AppUsageRecord| x@) == self.app_rows(),
    {
        &self.app_records
    }

    /// The per-adapter daily totals.
    pub fn daily_records(&self) -> (r: &Vec<TotalsRecord>)
        ensures
            totals_view(r@) == self.daily_rows(),
    {
        &self.daily
    }

    /// The per-application daily totals.
    pub fn daily_app_records(&self) -> (r: &Vec<TotalsRecord>)
        ensures
            totals_view(r@) == self.daily_app_rows(),
    {
        &self.daily_app
    }

    /// The per-adapter monthly totals.
    pub fn monthly_records(&self) -> (r: &Vec<TotalsRecord>)
        ensures
            totals_view(r@) == self.monthly_rows(),
    {
        &self.monthly
    }

    /// The per-application monthly totals.
    pub fn monthly_app_records(&self) -> (r: &Vec<TotalsRecord>)
        ensures
            totals_view(r@) == self.monthly_app_rows(),
    {
        &self.monthly_app
    }
}


proof fn lemma_sum_by_remove<T>(s: Seq<T>, g: spec_fn(T) -> nat, j: int)
    requires
        0 <= j < s.len(),
    ensures
        sum_by(s, g) == sum_by(s.remove(j), g) + g(s[j]),
    decreases s.len(),
{
    if j == s.len() - 1 {
        assert(s.remove(j) =~= s.drop_last());
    } else {
        lemma_sum_by_remove(s.drop_last(), g, j);
        assert(s.remove(j).drop_last() =~= s.drop_last().remove(j));
        assert(s.remove(j).last() == s.last());
    }
}

/// Sums do not depend on the order of the elements.
proof fn lemma_sum_by_multiset<T>(s1: Seq<T>, s2: Seq<T>, g: spec_fn(T) -> nat)
    requires
        s1.to_multiset() == s2.to_multiset(),
    ensures
        sum_by(s1, g) == sum_by(s2, g),
    decreases s1.len(),
{
    s1.to_multiset_ensures();
    s2.to_multiset_ensures();
    if s1.len() == 0 {
        assert(s2.to_multiset().len() == 0);
    } else {
        let x = s1.last();
        let a = s1.drop_last();
        a.to_multiset_ensures();
        assert(s1 =~= a.push(x));
        assert(s1.to_multiset() == a.to_multiset().insert(x));
        assert(s2.to_multiset().count(x) > 0);
        assert(s2.contains(x));
        let j = choose|j: int| 0 <= j < s2.len() && s2[j] == x;
        let b = s2.remove(j);
        assert(b.to_multiset() == s2.to_multiset().remove(x));
        assert(a.to_multiset() =~= a.to_multiset().insert(x).remove(x));
        lemma_sum_by_multiset(a, b, g);
        lemma_sum_by_remove(s2, g, j);
    }
}

pub open spec fn summary_total() -> spec_fn((Seq<char>, nat, nat, nat)) -> nat {
    |e: (Seq<char>, nat, nat, nat)| e.3
}

/// Total bytes of the rows of a breakdown.
pub open spec fn breakdown_total(out: Seq<AppUsageSummaryRow>) -> nat {
    sum_by(summaries_view(out), summary_total())
}

proof fn lemma_selected_total(rows: Seq<TotalsView>, f: RowFilterView, i: int)
    requires
        0 <= i <= rows.len(),
    ensures
        sum_by(selected_summaries(rows.take(i), f), summary_total()) == sum_by(rows.take(i), sel_total(f)),
    decreases i,
{
    if i > 0 {
        lemma_selected_total(rows, f, i - 1);
        lemma_selected_step(rows, f, i - 1);
        assert(rows.take(i).drop_last() =~= rows.take(i - 1));
        assert(rows.take(i).last() == rows[i - 1]);
        if row_selected(f, rows[i - 1]) {
            let a = selected_summaries(rows.take(i - 1), f);
            assert(a.push(totals_summary(rows[i - 1])).drop_last() =~= a);
        }
    } else {
        assert(rows.take(0).len() == 0);
        assert(selected_summaries(rows.take(0), f).len() == 0);
    }
}

/// Law: a period's application breakdown adds up to the period — the totals of
/// its rows add up to the period total that each row reports (so the shares
/// of the applications add up to the whole).
pub proof fn law_app_breakdown_adds_up(rows: Seq<TotalsView>, f: RowFilterView, out: Seq<AppUsageSummaryRow>)
    requires
        app_breakdown_matches(rows, f, out),
        fits(sum_by(rows, sel_total(f))),
    ensures
        breakdown_total(out) == sum_by(rows, sel_total(f)),
        forall|i: int| 0 <= i < out.len() ==> (#[trigger] out[i]).period_total_bytes == breakdown_total(out),
{
    lemma_sum_by_multiset(summaries_view(out), selected_summaries(rows, f), summary_total());
    lemma_selected_total(rows, f, rows.len() as int);
    assert(rows.take(rows.len() as int) =~= rows);
}


/// The row of a (period, name) key; a row of zeros when there is none.
pub open spec fn key_row(rows: Seq<TotalsView>, period: PeriodView, name: Seq<char>) -> TotalsView {
    if exists|i: int| 0 <= i < rows.len() && totals_key_is(rows[i], period, name) {
        rows[choose|i: int| 0 <= i < rows.len() && totals_key_is(rows[i], period, name)]
    } else {
        TotalsView {
            period,
            name,
            upload_bytes: 0,
            download_bytes: 0,
            total_bytes: 0,
            peak_upload_speed: 0,
            peak_download_speed: 0,
        }
    }
}

/// Law: adding traffic to a (period, name) key changes that key's row alone —
/// its bytes grow by the traffic, its total by both directions, its peaks
/// become the larger of the old peak and the new speed (a missing row counts
/// as zeros) — and every other row stays as it was.
pub proof fn law_upsert_changes_one_row(
    rows: Seq<TotalsView>,
    period: PeriodView,
    name: Seq<char>,
    up: nat,
    down: nat,
    up_speed: nat,
    down_speed: nat,
)
    requires
        keys_unique(rows),
    ensures
        ({
            let n = totals_upserted(rows, period, name, up, down, up_speed, down_speed);
            let old = key_row(rows, period, name);
            &&& key_row(n, period, name) == TotalsView {
                period,
                name,
                upload_bytes: old.upload_bytes + up,
                download_bytes: old.download_bytes + down,
                total_bytes: old.total_bytes + (up + down),
                peak_upload_speed: nat_max(old.peak_upload_speed, up_speed),
                peak_download_speed: nat_max(old.peak_download_speed, down_speed),
            }
            &&& forall|j: int|
                0 <= j < n.len() && !totals_key_is(#[trigger] n[j], period, name) ==> j < rows.len()
                    && n[j] == rows[j]
        }),
{
    let n = totals_upserted(rows, period, name, up, down, up_speed, down_speed);
    law_upsert_keeps_keys_unique(rows, period, name, up, down, up_speed, down_speed);
    if exists|i: int| 0 <= i < rows.len() && totals_key_is(rows[i], period, name) {
        let i = choose|i: int| 0 <= i < rows.len() && totals_key_is(rows[i], period, name);
        assert(totals_key_is(n[i], period, name));
        lemma_key_index_unique(n, i, period, name);
        assert forall|j: int| 0 <= j < n.len() && !totals_key_is(#[trigger] n[j], period, name) implies j
            < rows.len() && n[j] == rows[j] by {
            assert(j != i);
        }
    } else {
        let last = rows.len() as int;
        assert(totals_key_is(n[last], period, name));
        lemma_key_index_unique(n, last, period, name);
        assert forall|j: int| 0 <= j < n.len() && !totals_key_is(#[trigger] n[j], period, name) implies j
            < rows.len() && n[j] == rows[j] by {
            assert(j != last);
        }
    }
}

} // verus!
