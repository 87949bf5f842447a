# pactience

*Teach your pacman patience.* A command-line tool for Arch Linux that holds
back package upgrades until each candidate version has been published for a
minimum number of days, while keeping dependency consistency: an upgrade
whose requirements cannot be met by the installed system plus the allowed
set is blocked (or, under `dependency-respecting`, its younger dependencies
are promoted), and a dependent and its dependency are upgraded together or
not at all. Dry-run by default; `--apply` runs `pacman -S` / the AUR
helper with the allowed set.

## Layout

- `src/` — the library, verified with Verus: version comparison, pacman
  database and dependency parsing, requirement analysis, the age and
  dependency policy, the publication sources (Arch Archive index pages, AUR
  RPC metadata, AUR git history), the publication cache, configuration
  merging, discovery output parsing, report rendering and the apply plan.
  Each public function states its result in `ensures`. The command
  runner, executor and HTTP client are traits the caller implements; their
  contracts let an implementation describe its calls (`replied`, `ran`,
  `answered`), so `discover`, `execute`, the Archive source and the AUR git
  source state which calls they make and build their result from those
  calls' replies through public functions with exact contracts
  (`discovery_outcome`, `next_command`, `publication_from_page`,
  `git_publication`). The order of a
  run's stages and what each leads to (`run_step`) is a verified state
  machine; `app/` performs its actions. The laws of the policy, the cache,
  the local database, discovery, version comparison, the run and
  `--set-min-age` are public proof functions.
- `tests/` — tests of the library on concrete values.
- `app/` — the binary: command-line parsing, files, processes, the network,
  the terminal and JSON/TOML (de)serialisation, handing plain values to the
  library and printing what it returns.
