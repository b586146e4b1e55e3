# solar_sonar

An intel watcher for EVE Online chat and game logs: it reads the client's log
files, picks out the star systems and callouts that players report, measures
how far they are from the systems being watched, and raises alerts on the
terminal (and, where it is built in, by voice or over a TLS link).

The library under `src/` is written in Verus and verified. Public functions
state in their `ensures` what they return; where a result rests on the platform
or the environment (how std splits an unusual path, what shell expansion gives),
the contract states what holds whatever comes back, and is exact on the paths
that need neither. The properties that span several functions stand as public
proof functions (`lemma_*`).

- `text`, `time`, `error`, `paths`: words, numbers and timestamps, the error
  type and its faults, shell expansion of configured paths.
- `config`, `mode`, `indices`: the configuration as written, and what it is
  built into (characters, modes, channel names, TLS profiles), with its checks.
- `logs`, `log_kind`, `store`: log file names, log lines, and the store of
  watched logs with their read cursors.
- `analysis`, `star_map`: what a line reports (systems, intel keywords,
  callouts) and the star systems within a number of jumps.
- `run`: command-line arguments, run parameters, and the decisions of the
  watch loop (which logs to read, which entries are fresh, which raise alerts).
- `ansi`, `voice`, `assets`, `replay`, `tls`: terminal rendering, spoken
  phrases, asset lists, replay sources, and the TLS link's state machines.
- `event_log`: which file recorded events of a session day go to.

`app/` is the program around the library: argument parsing, reading the
configuration and log files from disk, and the loop that sleeps between polls.
`tests/` holds the tests, which run with the outside crates linked.
