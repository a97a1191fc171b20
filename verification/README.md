# clipfarmer

ClipFarmer watches a Twitch stream or VOD, asks a chain of editorial models
(observer, director, editor, critic) which moments make standalone short clips,
renders the accepted ones as vertical videos with captions, stages them and
publishes them.

## Layout

- `src/` — the library, verified with Verus. It holds the pipeline's decisions
  and formats, each with a contract: the clip lifecycle and candidate merging
  (`domain`), stream clocks, media rings, transcript deduplication and
  candidate maturation (`timeline`), the editorial review and its decision
  checks (`editorial`), render manifests, caption cues, SRT and ASS
  (`manifest`), scan planning and evidence slices (`pipeline`), the production
  path from acceptance to publishing, publish jobs and retries (`production`), the session
  vocabulary (`vocabulary`), configuration defaults and validation (`config`,
  `cli_config`), the VOD command line (`cli`), chat sidecars (`chat`), adapters' filter graphs, URLs
  and VOD identifiers (`adapters`), reading model and platform responses
  (`json`, `models`, `publishers`), progress formatting (`progress`), the
  desktop host's jobs and accounts (`jobs`, `accounts`) and the bounded
  evidence ring (`evidence`). SHA-256, UUIDs and JSON parsing come from `sha2`, `uuid` and `serde_json`
  behind small trusted wrappers.
- `tests/` — tests of the library, run against the compiled crate.
- `app/` — the `clipfarmer` command line: configuration files, secrets, the
  SQLite store, ffmpeg/streamlink/curl processes, hosted model requests, the
  analysis service loop and everything measured in floating point.
