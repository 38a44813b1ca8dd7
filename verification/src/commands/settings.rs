//! The settings as the interface reads and writes them.
use crate::db::queries::{get_settings as stored_settings, update_settings as store_settings, UsageStore};
use crate::db::UserSettings;
use vstd::prelude::*;

verus! {

/// The user-facing settings.
pub struct SettingsResponse {
    pub daily_limit_bytes: i64,
    pub monthly_limit_bytes: i64,
    pub warning_threshold_pct: i32,
    pub danger_threshold_pct: i32,
    pub notifications_enabled: bool,
    pub sound_alerts_enabled: bool,
    pub auto_start_enabled: bool,
    pub minimize_to_tray: bool,
    pub theme: String,
    pub data_retention_days: i32,
    pub selected_adapter: String,
    pub daily_summary_enabled: bool,
    pub daily_summary_time: String,
}

/// The response shows exactly these settings.
pub open spec fn shows(r: SettingsResponse, s: UserSettings) -> bool {
    &&& r.daily_limit_bytes == s.daily_limit_bytes
    &&& r.monthly_limit_bytes == s.monthly_limit_bytes
    &&& r.warning_threshold_pct == s.warning_threshold_pct
    &&& r.danger_threshold_pct == s.danger_threshold_pct
    &&& r.notifications_enabled == s.notifications_enabled
    &&& r.sound_alerts_enabled == s.sound_alerts_enabled
    &&& r.auto_start_enabled == s.auto_start_enabled
    &&& r.minimize_to_tray == s.minimize_to_tray
    &&& r.theme@ == s.theme@
    &&& r.data_retention_days == s.data_retention_days
    &&& r.selected_adapter@ == s.selected_adapter@
    &&& r.daily_summary_enabled == s.daily_summary_enabled
    &&& r.daily_summary_time@ == s.daily_summary_time@
}

fn response_of(s: UserSettings) -> (r: SettingsResponse)
    ensures
        shows(r, s),
{
    SettingsResponse {
        daily_limit_bytes: s.daily_limit_bytes,
        monthly_limit_bytes: s.monthly_limit_bytes,
        warning_threshold_pct: s.warning_threshold_pct,
        danger_threshold_pct: s.danger_threshold_pct,
        notifications_enabled: s.notifications_enabled,
        sound_alerts_enabled: s.sound_alerts_enabled,
        auto_start_enabled: s.auto_start_enabled,
        minimize_to_tray: s.minimize_to_tray,
        theme: s.theme,
        data_retention_days: s.data_retention_days,
        selected_adapter: s.selected_adapter,
        daily_summary_enabled: s.daily_summary_enabled,
        daily_summary_time: s.daily_summary_time,
    }
}

/// The stored settings.
pub fn get_settings(store: &UsageStore) -> (r: Result<SettingsResponse, String>)
    ensures
        r matches Ok(resp) && shows(resp, store.settings_value()),
{
    match stored_settings(store) {
        Ok(s) => Ok(response_of(s)),
        Err(e) => Err(e.message()),
    }
}

/// Replaces the given settings, keeps the others, and returns the settings
/// that result.
pub fn update_settings(
    store: &mut UsageStore,
    daily_limit_bytes: Option<i64>,
    monthly_limit_bytes: Option<i64>,
    warning_threshold_pct: Option<i32>,
    danger_threshold_pct: Option<i32>,
    notifications_enabled: Option<bool>,
    sound_alerts_enabled: Option<bool>,
    auto_start_enabled: Option<bool>,
    minimize_to_tray: Option<bool>,
    theme: Option<String>,
    data_retention_days: Option<i32>,
    selected_adapter: Option<String>,
    daily_summary_enabled: Option<bool>,
    daily_summary_time: Option<String>,
) -> (r: Result<SettingsResponse, String>)
    ensures
        crate::db::queries::settings_updated(
            final(store).settings_value(),
            old(store).settings_value(),
            daily_limit_bytes,
            monthly_limit_bytes,
            warning_threshold_pct,
            danger_threshold_pct,
            notifications_enabled,
            sound_alerts_enabled,
            auto_start_enabled,
            minimize_to_tray,
            theme,
            data_retention_days,
            selected_adapter,
            daily_summary_enabled,
            daily_summary_time,
        ),
        r matches Ok(resp) && shows(resp, final(store).settings_value()),
        final(store).snapshot_rows() == old(store).snapshot_rows(),
        final(store).app_rows() == old(store).app_rows(),
        final(store).daily_rows() == old(store).daily_rows(),
        final(store).daily_app_rows() == old(store).daily_app_rows(),
        final(store).monthly_rows() == old(store).monthly_rows(),
        final(store).monthly_app_rows() == old(store).monthly_app_rows(),
{
    match store_settings(
        store,
        daily_limit_bytes,
        monthly_limit_bytes,
        warning_threshold_pct,
        danger_threshold_pct,
        notifications_enabled,
        sound_alerts_enabled,
        auto_start_enabled,
        minimize_to_tray,
        theme,
        data_retention_days,
        selected_adapter,
        daily_summary_enabled,
        daily_summary_time,
    ) {
        Ok(s) => Ok(response_of(s)),
        Err(e) => Err(e.message()),
    }
}

} // verus!
