# abyss

The logic of a dual-pane file manager for local, cloud and Kubernetes
storage, written in Verus: Verus checks every function of the library
(no panics, no overflow) and proves the contracts its functions state.

## Layout

- `src/` — the verified library.
  - `text`, `paths`: string and path helpers over character sequences.
  - `hash`: hash algorithms and digests, the hash database formats
    (standard and hashdeep), comparing databases and finding duplicates,
    the scan tally.
  - `sync`: the sync planner (one-way, mirror, bidirectional), conflicts,
    exclusion patterns, compression, rolling checksums, bandwidth limits
    and event debouncing.
  - `fs`: storage backends, listings, cloud object keys, remote shell
    commands and their parsing, copy plans, storage menus and cloud
    connection settings.
  - `app`, `events`, `cleaner`: the text input and line editor, what each
    key does in each mode, the messages shown, and the disk analyzer's
    browser.
  - `ui`: column fitting, panes, layout hit tests, job and status lines.
  - `k8s`: claims, volumes and helper pods as the storage menu shows them.
- `tests/` — tests of the library on concrete values.
- `app/` — the command-line program around the library: reading and
  writing files, walking directories, threads, the file watcher, the
  bandwidth limiter and the displays that format floating-point rates.

Calls into outside crates (the digests, glob matching, compression, width
and grapheme tables) go through small trusted wrappers whose contracts
name what the crate computes.
