# usage_core

The native core of a TrafficMonitor taskbar plug-in that draws usage
burn-down graphs for three AI coding services: the Anthropic desktop app,
Codex, and ZCode (the z.ai coding plan).

The crate is written in Verus. Everything that decides what the widget shows
is in `src/` and is verified against its contracts:

- `samples` – usage samples: ordering one per second, the time window, even
  thinning that keeps the whole span, merging stored and fresh samples.
- `metric` – the metrics the widget draws and when they count as fresh.
- `json` – JSON trees as the library reads and writes them.
- `persist` – the widget's own Codex and ZCode sample stores (read back what
  was written: proved).
- `codex` – weekly rate-limit readings in session events and live answers.
- `zcode` – the quota endpoint's answer, the API key, and the ZCode display.
- the desktop app's module – its usage history and its local-storage records.
- `files` – which files are read, newest first, and how much of each.
- `text`, `float_bits`, `clock` – white space and ASCII case, doubles held
  as bit patterns, and the wall clock.

Calls into chrono (RFC 3339 dates), leveldb-core (LevelDB tables and logs)
and std's clock sit behind small trusted wrappers whose contracts are stated
next to them.

`app/` is the plug-in's ordinary Rust around the library: the C entry point
`usage_core_refresh` and its fixed-layout snapshot, file and network I/O
(ureq), the Codex app-server process, and JSON text through serde_json.
`tests/` runs the library on concrete values.
