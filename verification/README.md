# devflow_recorder

The verified core of DevFlow Recorder, a local-first recorder of the focused
window on Linux desktops. The library is written in Verus: every function
carries a contract over mathematical models (sequences of characters, views of
activities and windows), and the properties the recorder promises are stated
and proved as laws.

## Layout

- `src/text.rs` – character-level string operations (`trim`, `find`, `split_once`,
  number parsing and printing) with their specifications.
- `src/window.rs` – window titles: sanitizing, terminal title tails, working-directory
  hints, display titles and activity keys.
- `src/timeline.rs` – activities and focus segments: resuming, closing, pruning,
  durations and timeline events.
- `src/recorder.rs` – the recorder state and its focus-switch rules, with the laws
  that every report keeps (one open activity, at most 100 activities, merging,
  the 15 s confirmation, pausing).
- `src/ingest.rs` – GNOME Shell and browser reports.
- `src/json.rs`, `src/provider.rs` – compositor reports (`hyprctl`, `swaymsg`) and
  provider status.
- `src/process.rs` – the walk over a terminal's processes and the tool hints it yields.
- `src/http.rs`, `src/bridge.rs` – framing, routing and replies of the local HTTP bridge.
- `src/storage.rs` – database and token paths, table rows and their round trip.
- `src/clock.rs` – clock readings, local day start and time labels.
- `app/` – the desktop backend around the library: environment probes, `/proc`
  reads, commands, SQLite, the TCP bridge and the Tauri commands.
- `tests/` – tests of the library on concrete values.
