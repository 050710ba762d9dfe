# Live Downloader

A Windows tray recorder of live streams: it keeps a watch list of stream URLs, checks them with
yt-dlp, records those that go live and keeps the history of the recordings.

The decisions of the program are a library verified with Verus:

- `src/database.rs`: the watch list, the recording history and the settings, answering every
  query as the application's SQL statements do (ordering, unique URLs and identifiers, the
  history of a stream removed with it).
- `src/runtime.rs`, `src/engine.rs`, `src/recorder.rs`: whether monitoring runs, which
  recordings are active, what a check of a stream leads to, the arguments handed to yt-dlp and
  how the end of a recording is stored.
- `src/matching.rs`: finding the file of a completed recording whose path was never stored.
- `src/legacy.rs`: importing the earlier command-line recorder's configuration.
- `src/commands.rs`: the checks of the user interface's input and the tray menu.
- `src/paths.rs`, `src/urls.rs`, `src/text.rs`, `src/sorting.rs`, `src/models.rs`,
  `src/clock.rs`: Windows paths, URLs, strings, ordering, the data types, the clock.

`app/` holds what runs around the library: the SQLite file, the yt-dlp processes, the download
folder, the configuration file and the commands. `tests/` runs the library on concrete values.
