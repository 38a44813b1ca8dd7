# data_tracker

A network usage tracker for the desktop: it follows the traffic of the busiest
network adapter and of each application, stores daily and monthly totals,
warns when usage approaches the user's limits, and answers the queries of the
interface (daily, monthly, hourly and per-application breakdowns, history, a
weekly heat map).

The library under `src/` is verified with Verus:

- `db/` — the usage store (settings, snapshots, per-application records,
  daily and monthly totals per adapter and per application) with its queries,
  and the reading of time values as the store's date functions read them
  (`date()`, `strftime`: other separators, fractions of a second, offsets,
  days past the end of a month).
- `monitor/` — choosing the tracked adapter, the per-tick and per-save
  bookkeeping of the sampling loop, per-application crediting of TCP
  connection counters, limit alerts and the daily summary, byte formatting.
- `commands/` — the operations the interface invokes (settings, usage views,
  adapters, theme, update checks).
- `clock.rs`, `text.rs` — clock readings and their keys, and the character
  helpers shared by formatting and parsing.

`app/` is the desktop shell around the library: the window and tray, the
commands' registration, SQLite persistence, the system calls that read the
interface and TCP tables, the speed test, and the loops that drive the
library.
