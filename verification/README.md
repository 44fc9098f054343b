# ssmux

A terminal manager for AWS Systems Manager sessions: a TUI, a background
daemon that keeps sessions alive, and a command line that edits the
connection definitions.

The decisions live in a library verified with Verus (`src/`); the program
around it (`app/`) reads keys and files, talks over the Unix socket and runs
the `aws` processes, and hands the library plain values.

- `src/config.rs`, `src/params.rs`, `src/keyed.rs`: connection definitions,
  their validation, `KEY=VALUE` parameters kept in key order.
- `src/ssm.rs`: the `aws ssm start-session` command line of a connection.
- `src/ipc.rs`, `src/daemon.rs`: the daemon's requests and answers, and the
  connection manager that decides them (start, stop, bulk stops, process
  exits, reloads).
- `src/session.rs`: the TUI's own session manager.
- `src/cli.rs`: `ssmux config` edits and the status and configuration tables.
- `src/tui/`: text inputs, the connection form, what each key does, and the
  screen geometry.
- `src/text.rs`: text primitives (trimming, ordering, decimal digits, UTF-8
  byte offsets).

Laws that the library proves include: connections marked `keep_on_exit`
survive the TUI's exit while temporary ones are stopped; a reload never
changes or drops an active connection; a parameter map does not depend on
the order of insertion; opening a connection in the form and saving it
gives it back.
