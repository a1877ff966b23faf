# bullrs

A Redis-backed job queue whose decision logic is verified with Verus.

## Layout

- `src/` — the verified library. Each public function states what it
  returns or changes in `requires` / `ensures` over spec functions and
  views, and Verus proves it.
  - `backoff.rs`, `repeatable.rs` — retry delays and repeat schedules.
  - `cron.rs` — the five-field cron grammar and the next matching minute
    on the Gregorian calendar (UTC).
  - `job.rs` — job records and their state changes (waiting, active,
    completed, failed, retryable).
  - `commands/` — the Lua script loader: path mappings, the include
    directive grammar, dependency resolution as a step function
    (`resolver.rs`), include planning and interpolation, and the command
    cache.
  - `queue.rs`, `worker.rs` — Redis key layout, script arguments, and the
    decisions a worker takes after processing a job.
  - `process.rs` — the per-file pool of worker processes.
  - `mock/redis.rs` — an in-memory stand-in for `SCRIPT LOAD`.
  - `utils.rs`, `text.rs` — text helpers with exact specifications.
  - Public `law_*` proof functions state properties that span several
    calls (for example, that a released process is the next one handed
    out, or that removing leading blank lines twice changes nothing).
- `tests/` — executable tests of the library.
- `app/` — the asynchronous Redis, file and process plumbing around the
  library, and the command-line entry point.
