# any_video

The verified core of a desktop video downloader (a Tauri app driving the
`yt-dlp` and `ffmpeg` command-line tools), written in Verus.

`src/` is the library. Its functions are checked by Verus against their
contracts, except the small wrappers marked `#[verifier::external_body]`
around std, serde_json, base64, url and tokio calls, whose contracts are
trusted and say in their doc comments what they claim of the call:

- `scraper` — decoding the links a hidden browser window reports through
  its page title, deciding when to reveal the window and when to stop
  waiting, removing repeated links and ranking the rest (a stable sort).
- `ytdlp` — the `yt-dlp` command lines, and reading its JSON metadata.
- `commands` — probing a page: yt-dlp first, then the scraped links in
  rank order, then an entry synthesized from a raw link; interpreting a
  download's output lines and exit.
- `jobs` — the table of download jobs and their stop channels.
- `policy` — the force-update policy and its offline fallback.
- `sidecar` — where the bundled binaries may lie.
- `json`, `text` — a plain JSON value type and character-level helpers.

`app/` is the Tauri shell: the commands the front end invokes, the child
processes, the scraper webview and the network request, all calling into
the library for their decisions. `tests/` runs the library on concrete
values.
