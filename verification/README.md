# dap-mux

A DAP multiplexer: one upstream debug adapter, many downstream clients. It
rewrites sequence numbers, routes responses back to the client that asked,
broadcasts events, and brings late joiners up to date.

Every decision that it makes is written in Verus and proved against a contract.
Sockets, processes, the terminal and the clock stay outside: they hand plain
values in and perform the actions that come out.

## Layout

- `src/` — the verified library.
  - `model.rs` says what a session is and what each input does to it; `mux.rs`
    is the multiplexer that does it; `laws.rs` states what holds of every
    session, `owned.rs` and `owners.rs` whose things are under way, and
    `runs.rs` what holds over any run of inputs.
  - `seq.rs` maps sequence numbers, `compat.rs` handles adapter quirks,
    `protocol.rs` frames messages, `json.rs` and `text.rs` read and write what
    is in them.
  - `cli.rs` says what an invocation means, `upstream.rs` how the adapter is
    reached, `level.rs` what is logged.
  - `tui/` is the operator interface: its state, its log buffer, and what it
    shows.
- `tests/` — tests of the library.
- `app/` — the program: arguments, connections, logging and drawing.

## What is trusted

The library rests on contracts for a few functions that it does not prove:
`serde_json`'s parser, printer and values, `shlex::split`, and parts of the
standard library's strings and paths. Each is wrapped or declared where it is
used, with a comment that says what is claimed of it.
