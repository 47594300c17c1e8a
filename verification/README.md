# herdr-scratch

Persistent per-pane scratch popups for Herdr: a native Herdr popup outside,
a private tmux session inside that keeps each scratch alive while hidden.

The library (`src/`) is verified with Verus:

- `config` — the scratch configuration, its validation rules, scratch and
  popup resolution (responsive profiles by client width).
- `name_map` — the sorted, duplicate-free map from scratch names to values.
- `prefix` — Herdr key names to tmux key names, and the Herdr prefix read
  from Herdr's TOML configuration (through `toml_edit`).
- `context` — the source pane of a toggle.
- `herdr` — the Herdr command line that opens the popup.
- `tmux` — session identity (through `sha2`), server configuration, session
  environment, and the tmux protocol as a state machine: each step names the
  next `tmux` command; the caller runs it and hands back its outcome.
- `text` — string primitives proved against short specifications.

The command (`app/`) reads the environment and files, parses the YAML
configuration, runs Herdr and tmux, and prints.
