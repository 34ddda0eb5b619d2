# sshr

Resilient SSH sessions: persistent remote shells through shpool, automatic
reconnection, a shared SSH master per host, and a write-ahead log of sessions to
close. The logic is a Verus library whose functions carry contracts and are proved;
the program around it does the I/O.

## Layout

- `src/` — the verified library.
  - `text.rs`: string helpers (trim, words, lines, replace, join, parse) with
    specifications over `Seq<char>`.
  - `glob.rs`: the `*`/`?` matcher used for host patterns and copy exclusions.
  - `config.rs`: the configuration model, host matching and section merging
    (environment values are kept as written, for the remote shell to expand), and
    helpers that expand `$NAME` references against a local environment.
  - `session.rs`: reading `shpool list`, naming new sessions, choosing sessions.
  - `wal.rs`: the log of sessions to close, and its replay.
  - `reconnect.rs`: the reconnection rules as a state machine.
  - `upload.rs`: installing shpool on a remote, as a state machine, and the init
    script.
  - `copy.rs`: copying configured files, as a state machine.
  - `ssh.rs`, `cmd.rs`, `kitty.rs`, `probe.rs`, `cli.rs`: ssh/scp arguments, the
    remote attach command, terminal escapes, probe output, command-line words.
- `app/` — the command-line program: argument parsing, processes, files, signals,
  and the loops that carry out the steps the state machines decide.
- `tests/` — tests of the library on concrete values.
