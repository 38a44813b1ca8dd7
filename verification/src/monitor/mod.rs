//! Network monitoring: adapter selection, per-application accounting, limit
//! alerts, formatting, and the bookkeeping of the sampling loop.
pub mod adapter;
pub mod aggregator;
pub mod alerts;
pub mod app_usage;

use crate::clock::LocalPeriod;
use crate::commands::network::NetworkSpeed;
use crate::db::queries::{
    fits, insert_app_usage, insert_snapshot, lemma_upsert_applied, upsert_app_daily_usage,
    upsert_app_monthly_usage, upsert_applied, upsert_daily_usage, upsert_monthly_usage,
    AppUsageView, PeriodView, SnapshotView, TotalsView, UsageStore,
};
use crate::monitor::adapter::AdapterStats;
use crate::monitor::app_usage::{sample_view, AppUsageSample};
use vstd::prelude::*;

verus! {

/// What the sampling loop remembers between ticks: the adapter counters of the
/// previous tick, the totals since start, the traffic not yet saved, and the
/// last adapter and speeds seen.
pub struct MonitorState {
    pub prev_in: Option<u64>,
    pub prev_out: Option<u64>,
    pub total_in: u64,
    pub total_out: u64,
    pub session_in: u64,
    pub session_out: u64,
    pub last_adapter_name: String,
    pub last_download_speed: u64,
    pub last_upload_speed: u64,
}

/// Growth of a counter since the previous tick (nothing on the first tick, or
/// when the counter went back).
pub open spec fn speed_since(prev: Option<u64>, cur: u64) -> u64 {
    match prev {
        Some(p) => if cur >= p {
            (cur - p) as u64
        } else {
            0
        },
        None => 0,
    }
}

/// The totals of a tick stay within a `u64`.
pub open spec fn tick_fits(s: MonitorState, received: u64, sent: u64) -> bool {
    s.prev_in is Some ==> {
        let d = speed_since(s.prev_in, received);
        let u = speed_since(s.prev_out, sent);
        &&& s.total_in + d <= u64::MAX
        &&& s.total_out + u <= u64::MAX
        &&& s.session_in + d <= u64::MAX
        &&& s.session_out + u <= u64::MAX
    }
}

/// Whether a tick with these counters keeps the totals within a `u64`.
pub fn tick_would_fit(s: &MonitorState, received: u64, sent: u64) -> (r: bool)
    ensures
        r == tick_fits(*s, received, sent),
{
    if s.prev_in.is_none() {
        return true;
    }
    let d = counter_growth(s.prev_in, received);
    let u = counter_growth(s.prev_out, sent);
    d <= u64::MAX - s.total_in && u <= u64::MAX - s.total_out && d <= u64::MAX - s.session_in && u
        <= u64::MAX - s.session_out
}

/// The counting part of the loop state: the previous readings, the totals
/// since start and the traffic not yet saved.
pub struct Counters {
    pub prev_in: Option<u64>,
    pub prev_out: Option<u64>,
    pub total_in: nat,
    pub total_out: nat,
    pub session_in: nat,
    pub session_out: nat,
}

pub open spec fn counters(s: MonitorState) -> Counters {
    Counters {
        prev_in: s.prev_in,
        prev_out: s.prev_out,
        total_in: s.total_in as nat,
        total_out: s.total_out as nat,
        session_in: s.session_in as nat,
        session_out: s.session_out as nat,
    }
}

/// The counters of a new loop state.
pub open spec fn start_counters() -> Counters {
    Counters { prev_in: None, prev_out: None, total_in: 0, total_out: 0, session_in: 0, session_out: 0 }
}

/// The counters after a tick with these adapter counters: from the second tick
/// on, the growth is added to the totals and to the unsaved traffic.
pub open spec fn ticked(c: Counters, received: u64, sent: u64) -> Counters {
    let d = speed_since(c.prev_in, received) as nat;
    let u = speed_since(c.prev_out, sent) as nat;
    if c.prev_in is Some {
        Counters {
            prev_in: Some(received),
            prev_out: Some(sent),
            total_in: c.total_in + d,
            total_out: c.total_out + u,
            session_in: c.session_in + d,
            session_out: c.session_out + u,
        }
    } else {
        Counters { prev_in: Some(received), prev_out: Some(sent), ..c }
    }
}

/// The counters after a save took the unsaved traffic.
pub open spec fn cleared(c: Counters) -> Counters {
    Counters { session_in: 0, session_out: 0, ..c }
}

/// What happens to the loop: a tick with the tracked adapter's counters
/// (received, sent), or a save.
pub enum LoopEvent {
    Tick(u64, u64),
    Save,
}

/// The counters after a run of events.
pub open spec fn run_loop(c: Counters, events: Seq<LoopEvent>) -> Counters
    decreases events.len(),
{
    if events.len() == 0 {
        c
    } else {
        let before = run_loop(c, events.drop_last());
        match events.last() {
            LoopEvent::Tick(r, t) => ticked(before, r, t),
            LoopEvent::Save => cleared(before),
        }
    }
}

/// The traffic (received, sent) that the saves of a run take.
pub open spec fn saved_in_run(c: Counters, events: Seq<LoopEvent>) -> (nat, nat)
    decreases events.len(),
{
    if events.len() == 0 {
        (0, 0)
    } else {
        let s = saved_in_run(c, events.drop_last());
        match events.last() {
            LoopEvent::Tick(_, _) => s,
            LoopEvent::Save => {
                let before = run_loop(c, events.drop_last());
                (s.0 + before.session_in, s.1 + before.session_out)
            },
        }
    }
}

/// The adapter counters read at the ticks of a run, in order.
pub open spec fn tick_readings(events: Seq<LoopEvent>) -> Seq<(u64, u64)>
    decreases events.len(),
{
    if events.len() == 0 {
        Seq::empty()
    } else {
        let r = tick_readings(events.drop_last());
        match events.last() {
            LoopEvent::Tick(a, b) => r.push((a, b)),
            LoopEvent::Save => r,
        }
    }
}

pub open spec fn received_of(v: Seq<(u64, u64)>) -> Seq<u64> {
    v.map_values(|p: (u64, u64)| p.0)
}

pub open spec fn sent_of(v: Seq<(u64, u64)>) -> Seq<u64> {
    v.map_values(|p: (u64, u64)| p.1)
}

proof fn lemma_counted_growth_push(v: Seq<u64>, x: u64)
    ensures
        counted_growth(v.push(x)) == if v.len() == 0 {
            0
        } else {
            counted_growth(v) + speed_since(Some(v.last()), x) as nat
        },
{
    assert(v.push(x).drop_last() =~= v);
}

/// Law: over any run of ticks and saves from the start, the totals are the
/// growth that the ticks count from reading to reading (nothing at the first
/// tick, a counter that goes back counting as no growth), and the previous
/// readings are those of the last tick.
pub proof fn law_run_totals(events: Seq<LoopEvent>)
    ensures
        ({
            let c = run_loop(start_counters(), events);
            let rs = tick_readings(events);
            &&& c.total_in == counted_growth(received_of(rs))
            &&& c.total_out == counted_growth(sent_of(rs))
            &&& c.prev_in == if rs.len() == 0 {
                None
            } else {
                Some(rs.last().0)
            }
            &&& c.prev_out == if rs.len() == 0 {
                None
            } else {
                Some(rs.last().1)
            }
        }),
    decreases events.len(),
{
    if events.len() > 0 {
        law_run_totals(events.drop_last());
        let rs = tick_readings(events.drop_last());
        match events.last() {
            LoopEvent::Tick(a, b) => {
                assert(received_of(rs.push((a, b))) =~= received_of(rs).push(a));
                assert(sent_of(rs.push((a, b))) =~= sent_of(rs).push(b));
                lemma_counted_growth_push(received_of(rs), a);
                lemma_counted_growth_push(sent_of(rs), b);
                if rs.len() > 0 {
                    assert(received_of(rs).last() == rs.last().0);
                    assert(sent_of(rs).last() == rs.last().1);
                }
            },
            LoopEvent::Save => {},
        }
    }
}

/// Law: every tick's traffic is saved exactly once — over any run from the
/// start, the traffic taken by the saves plus the traffic not yet saved is the
/// total counted.
pub proof fn law_each_tick_saved_once(events: Seq<LoopEvent>)
    ensures
        ({
            let c = run_loop(start_counters(), events);
            let saved = saved_in_run(start_counters(), events);
            &&& c.total_in == saved.0 + c.session_in
            &&& c.total_out == saved.1 + c.session_out
        }),
    decreases events.len(),
{
    if events.len() > 0 {
        law_each_tick_saved_once(events.drop_last());
    }
}

/// The traffic that ticks count over successive readings of a counter: the
/// growth between each reading and the next (the first reading counts none).
pub open spec fn counted_growth(readings: Seq<u64>) -> nat
    decreases readings.len(),
{
    if readings.len() <= 1 {
        0
    } else {
        counted_growth(readings.drop_last()) + speed_since(
            Some(readings[readings.len() - 2]),
            readings.last(),
        ) as nat
    }
}

/// Law: while the counter never goes back, the traffic counted over a run of
/// ticks is exactly the counter's growth from the first reading to the last.
pub proof fn law_counted_growth_telescopes(readings: Seq<u64>)
    requires
        readings.len() >= 1,
        forall|i: int, j: int| 0 <= i <= j < readings.len() ==> readings[i] <= readings[j],
    ensures
        counted_growth(readings) == readings.last() - readings[0],
    decreases readings.len(),
{
    if readings.len() > 1 {
        let a = readings.drop_last();
        assert forall|i: int, j: int| 0 <= i <= j < a.len() implies a[i] <= a[j] by {
            assert(a[i] == readings[i] && a[j] == readings[j]);
        }
        law_counted_growth_telescopes(a);
        assert(readings[readings.len() - 2] <= readings.last());
    }
}

/// The traffic of the period being saved.
pub struct SessionTotals {
    pub adapter_name: String,
    /// Bytes sent.
    pub upload_bytes: u64,
    /// Bytes received.
    pub download_bytes: u64,
    /// Upload speed of the last tick.
    pub peak_upload_speed: u64,
    /// Download speed of the last tick.
    pub peak_download_speed: u64,
    /// Bytes received and sent together.
    pub adapter_total: u64,
}

fn counter_growth(prev: Option<u64>, cur: u64) -> (r: u64)
    ensures
        r == speed_since(prev, cur),
{
    match prev {
        Some(p) => if cur >= p {
            cur - p
        } else {
            0
        },
        None => 0,
    }
}

impl MonitorState {
    /// Nothing seen yet.
    pub fn new() -> (s: Self)
        ensures
            s.prev_in is None,
            s.prev_out is None,
            s.total_in == 0,
            s.total_out == 0,
            s.session_in == 0,
            s.session_out == 0,
            s.last_adapter_name@ == Seq::<char>::empty(),
            s.last_download_speed == 0,
            s.last_upload_speed == 0,
            counters(s) == start_counters(),
    {
        MonitorState {
            prev_in: None,
            prev_out: None,
            total_in: 0,
            total_out: 0,
            session_in: 0,
            session_out: 0,
            last_adapter_name: String::new(),
            last_download_speed: 0,
            last_upload_speed: 0,
        }
    }

    /// One tick with the tracked adapter's counters: the speeds are the growth
    /// of the counters since the previous tick; from the second tick on they are
    /// added to the totals and to the traffic not yet saved. Returns the live
    /// speed the interface shows.
    pub fn tick(&mut self, stats: &AdapterStats) -> (speed: NetworkSpeed)
        requires
            tick_fits(*old(self), stats.bytes_received, stats.bytes_sent),
        ensures
            ({
                let d = speed_since(old(self).prev_in, stats.bytes_received);
                let u = speed_since(old(self).prev_out, stats.bytes_sent);
                let counted = old(self).prev_in is Some;
                &&& final(self).prev_in == Some(stats.bytes_received)
                &&& final(self).prev_out == Some(stats.bytes_sent)
                &&& final(self).total_in == if counted {
                    old(self).total_in + d
                } else {
                    old(self).total_in as int
                }
                &&& final(self).total_out == if counted {
                    old(self).total_out + u
                } else {
                    old(self).total_out as int
                }
                &&& final(self).session_in == if counted {
                    old(self).session_in + d
                } else {
                    old(self).session_in as int
                }
                &&& final(self).session_out == if counted {
                    old(self).session_out + u
                } else {
                    old(self).session_out as int
                }
                &&& final(self).last_download_speed == d
                &&& final(self).last_upload_speed == u
                &&& final(self).last_adapter_name@ == stats.name@
                &&& speed.download_speed == d
                &&& speed.upload_speed == u
                &&& speed.total_download == final(self).total_in
                &&& speed.total_upload == final(self).total_out
                &&& speed.adapter_name@ == stats.name@
            }),
        counters(*final(self)) == ticked(counters(*old(self)), stats.bytes_received, stats.bytes_sent),
    {
        let current_in = stats.bytes_received;
        let current_out = stats.bytes_sent;
        let download_speed = counter_growth(self.prev_in, current_in);
        let upload_speed = counter_growth(self.prev_out, current_out);
        if self.prev_in.is_some() {
            self.total_in = self.total_in + download_speed;
            self.total_out = self.total_out + upload_speed;
            self.session_in = self.session_in + download_speed;
            self.session_out = self.session_out + upload_speed;
        }
        self.prev_in = Some(current_in);
        self.prev_out = Some(current_out);
        self.last_download_speed = download_speed;
        self.last_upload_speed = upload_speed;
        self.last_adapter_name = stats.name.clone();
        NetworkSpeed {
            download_speed,
            upload_speed,
            total_download: self.total_in,
            total_upload: self.total_out,
            adapter_name: stats.name.clone(),
        }
    }

    /// The traffic not yet saved, which is then forgotten; `None`, with nothing
    /// changed, when there is none.
    pub fn take_session(&mut self) -> (r: Option<SessionTotals>)
        requires
            old(self).session_in + old(self).session_out <= u64::MAX,
        ensures
            final(self).prev_in == old(self).prev_in,
            final(self).prev_out == old(self).prev_out,
            final(self).total_in == old(self).total_in,
            final(self).total_out == old(self).total_out,
            final(self).last_adapter_name@ == old(self).last_adapter_name@,
            final(self).last_download_speed == old(self).last_download_speed,
            final(self).last_upload_speed == old(self).last_upload_speed,
            match r {
                None => old(self).session_in == 0 && old(self).session_out == 0
                    && final(self).session_in == 0 && final(self).session_out == 0,
                Some(t) => {
                    &&& !(old(self).session_in == 0 && old(self).session_out == 0)
                    &&& final(self).session_in == 0
                    &&& final(self).session_out == 0
                    &&& t.adapter_name@ == old(self).last_adapter_name@
                    &&& t.upload_bytes == old(self).session_out
                    &&& t.download_bytes == old(self).session_in
                    &&& t.peak_upload_speed == old(self).last_upload_speed
                    &&& t.peak_download_speed == old(self).last_download_speed
                    &&& t.adapter_total == old(self).session_in + old(self).session_out
                },
            },
            counters(*final(self)) == cleared(counters(*old(self))),
    {
        if self.session_in == 0 && self.session_out == 0 {
            return None;
        }
        let t = SessionTotals {
            adapter_name: self.last_adapter_name.clone(),
            upload_bytes: self.session_out,
            download_bytes: self.session_in,
            peak_upload_speed: self.last_upload_speed,
            peak_download_speed: self.last_download_speed,
            adapter_total: self.session_in + self.session_out,
        };
        self.session_in = 0;
        self.session_out = 0;
        Some(t)
    }
}

/// The per-application bytes of the samples added up; `None` when the sum
/// exceeds a `u64`.
pub fn app_samples_total(samples: &Vec<AppUsageSample>) -> (r: Option<u64>)
    ensures
        match r {
            Some(t) => t == samples_sum(samples@.map_values(|s: AppUsageSample| sample_view(s))),
            None => samples_sum(samples@.map_values(|s: AppUsageSample| sample_view(s)))
                > u64::MAX,
        },
{
    let ghost v = samples@.map_values(|s: AppUsageSample| sample_view(s));
    let mut total: u64 = 0;
    let mut i: usize = 0;
    while i < samples.len()
        invariant
            i <= samples@.len(),
            v == samples@.map_values(|s: AppUsageSample| sample_view(s)),
            total == samples_sum(v.take(i as int)),
        decreases samples@.len() - i,
    {
        proof {
            assert(v.take(i + 1).drop_last() =~= v.take(i as int));
            assert(v.take(i + 1).last() == v[i as int]);
        }
        let s = &samples[i];
        if s.upload_bytes > u64::MAX - s.download_bytes || total > u64::MAX - (s.upload_bytes
            + s.download_bytes) {
            proof {
                lemma_samples_sum_prefix_le(v, i + 1);
            }
            return None;
        }
        total = total + s.upload_bytes + s.download_bytes;
        i = i + 1;
    }
    proof {
        assert(v.take(v.len() as int) =~= v);
    }
    Some(total)
}

/// Upload and download bytes of the samples together.
pub open spec fn samples_sum(v: Seq<(Seq<char>, u64, u64)>) -> nat
    decreases v.len(),
{
    if v.len() == 0 {
        0
    } else {
        samples_sum(v.drop_last()) + v.last().1 as nat + v.last().2 as nat
    }
}

proof fn lemma_samples_sum_prefix_le(v: Seq<(Seq<char>, u64, u64)>, k: int)
    requires
        0 <= k <= v.len(),
    ensures
        samples_sum(v.take(k)) <= samples_sum(v),
    decreases v.len() - k,
{
    if k < v.len() {
        assert(v.drop_last() =~= v.take(v.len() - 1));
        lemma_samples_sum_prefix_le(v.drop_last(), k);
        assert(v.drop_last().take(k) =~= v.take(k));
    } else {
        assert(v.take(k) =~= v);
    }
}

/// The snapshot row that saving a period appends when its values fit.
pub open spec fn snapshot_row(
    timestamp: Seq<char>,
    adapter: Seq<char>,
    up: u64,
    down: u64,
    up_speed: u64,
    down_speed: u64,
) -> SnapshotView {
    SnapshotView {
        timestamp,
        adapter_name: adapter,
        upload_bytes: up as nat,
        download_bytes: down as nat,
        total_bytes: (up + down) as nat,
        upload_speed_bps: up_speed as nat,
        download_speed_bps: down_speed as nat,
    }
}

/// The snapshot table after appending a period: unchanged when a value does
/// not fit an integer column.
pub open spec fn snapshot_appended(
    rows: Seq<SnapshotView>,
    timestamp: Seq<char>,
    adapter: Seq<char>,
    up: u64,
    down: u64,
    up_speed: u64,
    down_speed: u64,
) -> Seq<SnapshotView> {
    if fits(up as nat) && fits(down as nat) && fits((up + down) as nat) && fits(up_speed as nat)
        && fits(down_speed as nat) {
        rows.push(snapshot_row(timestamp, adapter, up, down, up_speed, down_speed))
    } else {
        rows
    }
}

/// The per-application record table after appending one sample (no path):
/// unchanged when a value does not fit an integer column.
pub open spec fn app_record_appended(
    rows: Seq<AppUsageView>,
    timestamp: Seq<char>,
    app: Seq<char>,
    up: u64,
    down: u64,
) -> Seq<AppUsageView> {
    if fits(up as nat) && fits(down as nat) && fits((up + down) as nat) {
        rows.push(
            AppUsageView {
                timestamp,
                app_name: app,
                app_path: Seq::empty(),
                upload_bytes: up as nat,
                download_bytes: down as nat,
                total_bytes: (up + down) as nat,
            },
        )
    } else {
        rows
    }
}

/// The three per-application tables (records, daily totals, monthly totals).
pub type AppTables = (Seq<AppUsageView>, Seq<TotalsView>, Seq<TotalsView>);

/// The per-application tables after saving the samples, in order.
pub open spec fn app_tables_after(
    t: AppTables,
    samples: Seq<(Seq<char>, u64, u64)>,
    timestamp: Seq<char>,
    date: Seq<char>,
    year: i32,
    month: u32,
) -> AppTables
    decreases samples.len(),
{
    if samples.len() == 0 {
        t
    } else {
        let u = app_tables_after(t, samples.drop_last(), timestamp, date, year, month);
        let s = samples.last();
        (
            app_record_appended(u.0, timestamp, s.0, s.1, s.2),
            upsert_applied(u.1, PeriodView::Day(date), s.0, s.1, s.2, 0, 0),
            upsert_applied(
                u.2,
                PeriodView::Month(year as int, (month as i32) as int),
                s.0,
                s.1,
                s.2,
                0,
                0,
            ),
        )
    }
}

/// Each sample's upload and download add up within a `u64`.
pub open spec fn samples_fit(v: Seq<AppUsageSample>) -> bool {
    forall|i: int| 0 <= i < v.len() ==> #[trigger] v[i].upload_bytes + v[i].download_bytes <= u64::MAX
}

/// Saves a period at the local time `now`: a snapshot of the adapter's traffic,
/// the traffic added to the adapter's daily and monthly totals, and for each
/// sample a per-application record and its daily and monthly totals. Each
/// write that is refused leaves its table unchanged and the others go on.
pub fn save_session(
    store: &mut UsageStore,
    now: &LocalPeriod,
    t: &SessionTotals,
    samples: &Vec<AppUsageSample>,
)
    requires
        t.upload_bytes + t.download_bytes <= u64::MAX,
        samples_fit(samples@),
    ensures
        final(store).settings_value() == old(store).settings_value(),
        final(store).snapshot_rows() == snapshot_appended(
            old(store).snapshot_rows(),
            now.timestamp@,
            t.adapter_name@,
            t.upload_bytes,
            t.download_bytes,
            t.peak_upload_speed,
            t.peak_download_speed,
        ),
        final(store).daily_rows() == upsert_applied(
            old(store).daily_rows(),
            PeriodView::Day(now.date@),
            t.adapter_name@,
            t.upload_bytes,
            t.download_bytes,
            t.peak_upload_speed,
            t.peak_download_speed,
        ),
        final(store).monthly_rows() == upsert_applied(
            old(store).monthly_rows(),
            PeriodView::Month(now.year as int, (now.month as i32) as int),
            t.adapter_name@,
            t.upload_bytes,
            t.download_bytes,
            t.peak_upload_speed,
            t.peak_download_speed,
        ),
        (final(store).app_rows(), final(store).daily_app_rows(), final(store).monthly_app_rows())
            == app_tables_after(
            (old(store).app_rows(), old(store).daily_app_rows(), old(store).monthly_app_rows()),
            samples@.map_values(|s: AppUsageSample| sample_view(s)),
            now.timestamp@,
            now.date@,
            now.year,
            now.month,
        ),
{
    let adapter = t.adapter_name.as_str();
    let _ = insert_snapshot(
        store,
        now.timestamp.as_str(),
        adapter,
        t.upload_bytes,
        t.download_bytes,
        t.peak_upload_speed,
        t.peak_download_speed,
    );
    let r = upsert_daily_usage(
        store,
        now.date.as_str(),
        adapter,
        t.upload_bytes,
        t.download_bytes,
        t.peak_upload_speed,
        t.peak_download_speed,
    );
    proof {
        lemma_upsert_applied(
            r,
            old(store).daily_rows(),
            store.daily_rows(),
            PeriodView::Day(now.date@),
            t.adapter_name@,
            t.upload_bytes,
            t.download_bytes,
            t.peak_upload_speed,
            t.peak_download_speed,
        );
    }
    let ghost monthly0 = store.monthly_rows();
    let r = upsert_monthly_usage(
        store,
        now.year,
        now.month,
        adapter,
        t.upload_bytes,
        t.download_bytes,
        t.peak_upload_speed,
        t.peak_download_speed,
    );
    proof {
        lemma_upsert_applied(
            r,
            monthly0,
            store.monthly_rows(),
            PeriodView::Month(now.year as int, (now.month as i32) as int),
            t.adapter_name@,
            t.upload_bytes,
            t.download_bytes,
            t.peak_upload_speed,
            t.peak_download_speed,
        );
    }
    let ghost t0: AppTables = (store.app_rows(), store.daily_app_rows(), store.monthly_app_rows());
    let ghost v = samples@.map_values(|s: AppUsageSample| sample_view(s));
    let mut i: usize = 0;
    while i < samples.len()
        invariant
            i <= samples@.len(),
            samples_fit(samples@),
            v == samples@.map_values(|s: AppUsageSample| sample_view(s)),
            (store.app_rows(), store.daily_app_rows(), store.monthly_app_rows()) == app_tables_after(
                t0,
                v.take(i as int),
                now.timestamp@,
                now.date@,
                now.year,
                now.month,
            ),
            store.settings_value() == old(store).settings_value(),
            store.snapshot_rows() == snapshot_appended(
                old(store).snapshot_rows(),
                now.timestamp@,
                t.adapter_name@,
                t.upload_bytes,
                t.download_bytes,
                t.peak_upload_speed,
                t.peak_download_speed,
            ),
            store.daily_rows() == upsert_applied(
                old(store).daily_rows(),
                PeriodView::Day(now.date@),
                t.adapter_name@,
                t.upload_bytes,
                t.download_bytes,
                t.peak_upload_speed,
                t.peak_download_speed,
            ),
            store.monthly_rows() == upsert_applied(
                old(store).monthly_rows(),
                PeriodView::Month(now.year as int, (now.month as i32) as int),
                t.adapter_name@,
                t.upload_bytes,
                t.download_bytes,
                t.peak_upload_speed,
                t.peak_download_speed,
            ),
        decreases samples@.len() - i,
    {
        proof {
            assert(v.take(i + 1).drop_last() =~= v.take(i as int));
            assert(v.take(i + 1).last() == v[i as int]);
        }
        let s = &samples[i];
        assert(s.upload_bytes + s.download_bytes <= u64::MAX);
        proof {
            reveal_strlit("");
            assert(""@ =~= Seq::<char>::empty());
            assert(v[i as int] == (s.app_name@, s.upload_bytes, s.download_bytes));
        }
        let name = s.app_name.as_str();
        let _ = insert_app_usage(store, now.timestamp.as_str(), name, "", s.upload_bytes, s.download_bytes);
        let ghost d0 = store.daily_app_rows();
        let r = upsert_app_daily_usage(store, now.date.as_str(), name, s.upload_bytes, s.download_bytes);
        proof {
            lemma_upsert_applied(
                r,
                d0,
                store.daily_app_rows(),
                PeriodView::Day(now.date@),
                s.app_name@,
                s.upload_bytes,
                s.download_bytes,
                0,
                0,
            );
        }
        let ghost m0 = store.monthly_app_rows();
        let r = upsert_app_monthly_usage(store, now.year, now.month, name, s.upload_bytes, s.download_bytes);
        proof {
            lemma_upsert_applied(
                r,
                m0,
                store.monthly_app_rows(),
                PeriodView::Month(now.year as int, (now.month as i32) as int),
                s.app_name@,
                s.upload_bytes,
                s.download_bytes,
                0,
                0,
            );
        }
        i = i + 1;
    }
    proof {
        assert(v.take(v.len() as int) =~= v);
    }
}

} // verus!
