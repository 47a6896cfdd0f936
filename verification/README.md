# rke2_image_manager

Keeps track of custom container images across RKE2 cluster nodes: finds the
images defined by Dockerfiles, reconciles them with the tarballs each node
holds, builds and saves tarballs with Podman, copies them to nodes and
removes stale or unknown ones. It offers an interactive terminal session and
scriptable commands.

## Layout

- `src/` — the library, verified with Verus. The decisions live here:
  Dockerfile discovery and version comments (`dockerfile`), matching remote
  listings to image families and the `ssh`/`scp` command lines and outcomes
  (`remote`), build log cleaning and event ordering (`image_build`), selector
  resolution (`select`), tables, exit statuses and the steps of `deploy` (`output`,
  `commands`), the inventory (`inventory`), the interactive session's
  state machine (`app_state`,
  `popup`, `log_viewer`, `search`, `view`, `clipboard`) and configuration
  lookup (`config`). `names` holds the sorted name sets and maps the rest is
  built on; `strings` the text helpers.
- `app/` — the program around it: argument parsing, reading `config.toml`,
  walking directories, running `ssh`, `scp` and `podman`, JSON output and the
  terminal front end.
- `tests/` — tests of the library's public functions.

Laws of the library are public proof functions whose names start with
`lemma_` (for example `output::lemma_table_lines_trimmed`,
`remote::lemma_saved_tarball_recognised`, `remote::lemma_scan_only_adds`,
`remote::lemma_rescan_changes_nothing`, `app_state::lemma_capped_keeps_newest`).
