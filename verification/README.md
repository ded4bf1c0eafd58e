# oflh — which process is using a file

`oflh` finds the processes that use a file, a directory or a local port, shows how they
use it (open descriptors, locks, mappings, working directory, executable) and lets the
user request their termination after a review.

The library under `src/` is verified with Verus; `app/` is the program around it.

## Library (`src/`)

- `text`, `model` — character and byte helpers, the observed data (identities, usages,
  processes, snapshots, errors).
- `path` — lexical cleaning and component-wise containment of byte paths; the scan target.
- `search`, `ports`, `ranking` — query terms (fragments, CamelCase initials, wildcards,
  exact ports), per-process search fields, and the rows of the process table.
- `state`, `tui` — the interface state as a mathematical model with one transition per
  key, paste, scan, sample and termination report, and the executable state that
  implements it.
- `layout` — what the screens show: footer phrases and their wrapping, the division of the
  screen, visible windows of long lists, review and help text.
- `linux`, `sockets`, `metrics` — readers of `/proc` records, the decisions of a scan,
  attribution of port bindings, and CPU shares between samples.
- `cli`, `release` — command-line arguments, release tags, artifact names, checksums and
  the Homebrew formula.
- `laws` — properties that span several functions.

## Program (`app/`)

Resolves the target on the file system, reads `/proc` and socket tables, signals processes
through pidfds, runs the scanner thread and draws the screens with ratatui.
