# respkit_tui

A keyboard-driven terminal console for reviewing a `respkit` adjudication
ledger through its stdio JSON-RPC service.

## Layout

- `src/` is the verified core, checked by Verus. It holds no I/O: every step
  of the console is a function from its state and an input (a key press, a
  reply, a log line, the backend's exit) to its next state and the work to
  carry out (`Effect`s: launch the backend, send a request).
  - `app.rs`: screens, modals, key handling, the pending-request table, and
    how replies change the state.
  - `command.rs`: the backend command template and how it is rendered into a
    shell command line.
  - `config.rs`: the persistent settings and the recent-ledger list.
  - `grouping.rs`: grouping rows by status, risk flag, source or category,
    and drilling into a group.
  - `queue.rs`: queue presets, the text filter, the queue window and export
    formats.
  - `protocol.rs`: JSON-RPC envelopes, calls and reply payloads.
  - `hints.rs`: screen names, check icons and key hints.
  - `text.rs`: the string operations the rest is built on, with their
    specifications.
- `app/` is the program around it: the terminal (crossterm, ratatui), the
  backend process and its JSON encoding (serde_json), and the config file
  (toml, dirs).
- `tests/` runs the library on concrete inputs.
