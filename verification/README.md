# playlist_audio

The core of a personal playlist audio downloader (a Tauri desktop app that
drives yt-dlp and ffmpeg), written in Verus with its behaviour stated in
contracts and proved.

- `src/` is the verified library:
  - `sanitize`: the Windows-safe folder name for a playlist title.
  - `playlist`: reading `yt-dlp --flat-playlist --dump-json` output into a
    playlist (JSON parsing itself is serde_json's).
  - `status`: the status vocabulary and the retry policy (three attempts,
    exponential backoff).
  - `repository`: which items get queued, what a queued download carries,
    and the status-update statements.
  - `worker`: per-job pause/resume/cancel controls, the dispatch decision,
    the per-item attempt state machine, and reading yt-dlp's output.
  - `downloader`: the reports of the one-at-a-time download flow.
  - `dependencies`: finding release assets, SHA-256 verification of the
    downloaded yt-dlp (hashing itself is sha2's), picking ffmpeg/ffprobe out
    of their archive.
  - `text`: character classes, trimming, line splitting and number
    formatting over `Seq<char>`.
- `app/` is the unverified shell: Tauri commands, processes, SQLite, HTTP,
  files and the floating-point progress percentages. It performs the actions
  the library decides.
- `tests/` runs the library on concrete inputs.
