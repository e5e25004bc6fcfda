# darkdm

A download manager for Linux: segmented HTTP downloads with crash-safe resume,
site extractors (MediaFire, YouTube through `yt-dlp`, Netflix), a page analyzer
that finds media in HTML, HLS and DASH manifest handling, a local HTTP host for
the browser extension and a capturing proxy.

## Layout

- `src/` — the library, written in Verus. Its functions carry contracts that
  Verus proves (the few that only ask the disk whether a file exists state
  nothing of the answer): piece splitting and scheduling (`piece`, `piece_manager`),
  the three-file state rotation (`transacted_io`), header probing (`probe`),
  content-type and stream detection (`content_type`, `stream`, `dash`),
  progress display (`progress`), file renaming (`auto_rename`), the
  extractors and their registry (`plugins`), the page analyzer
  (`page_analyzer`), the host and proxy request logic (`host_server`,
  `proxy`), and the decisions of the command-line flows (`engine`,
  `cli_flow`, `stream_download`, `native_cli`, `library`, `host_log`).
  Calls into `url`, `urlencoding`, `scraper` and parts of `std` stand behind
  small trusted wrappers whose contracts are documented where they are
  declared.
- `app/` — the program around the library: argument parsing, network and
  file I/O, processes (`ffmpeg`, `curl`, `yt-dlp`), threads and async tasks.
- `tests/` — tests of the library on concrete values.
