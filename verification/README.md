# zsh-history-backup

Backs up a Zsh history file as a gzip snapshot, or exports the entries of one
local calendar date, reading `EXTENDED_HISTORY` headers
(`: <timestamp>:<duration>;<command>`). The source is only read; archives are
published under names that never replace an existing file.

- `src/` — the verified library:
  - `history.rs`: reading header timestamps, and the export scan that decides
    line by line what an export keeps, with its laws;
  - `name.rs`: checking `--name` labels, one-line log values;
  - `archive.rs`: reports, archive names, publishing decisions, error texts;
  - `paths.rs`, `config.rs`: paths from `HOME`, XDG variables and the config;
  - `date.rs`: calendar dates, their text, date arguments (through chrono);
  - `logging.rs`: log lines;
  - `text.rs`: string building and decimal text.
- `app/main.rs` — the command-line program: arguments, environment, files,
  gzip, temporary files, the clock.
- `tests/` — tests of the library.
