# actiontui

A terminal dashboard for GitHub Actions workflow runs, written as a Verus
project: the logic is a verified library, the program around it is plain Rust.

- `src/` — the verified library.
  - `github.rs`: rows derived from one page of runs (latest run per workflow,
    recent history, fail-since commit, ETA), exclusion and ordering, API routes,
    tokens, re-run errors.
  - `config.rs`, `cli.rs`: config paths, `repos.conf`, git remotes, repo resolution.
  - `settings.rs`: reading `config.toml` and merging its defaults with the flags.
  - `state.rs`, `notify.rs`: remembered outcomes, transitions, notification texts.
  - `ui.rs`: the tables and header as styled lines, and their ANSI rendering.
  - `watch.rs`: watch mode's decisions for keys, ticks, fetches and re-runs.
  - `text.rs`, `seqs.rs`, `model.rs`: text helpers, sequence lemmas, the row model.
- `app/` — the binary: arguments, files, the GitHub client, `gh` and `git`,
  notifications, and the terminal loop.
- `tests/` — tests of the library on concrete values.
