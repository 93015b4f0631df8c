# quickinit

The policy core of a first userspace process and service supervisor, written
in Verus: every function of the library carries a contract that Verus proves.

- `src/parse.rs` reads the strict configuration format (a TOML subset) and
  checks it as a whole; its result is specified exactly by
  `spec_parse_config`. `values.rs`, `service_keys.rs`, `cycles.rs`,
  `names.rs` and `text.rs` hold the pieces it is built from.
- `src/supervisor.rs` is the service life cycle: starts in order, exits,
  restarts with backoff, timeouts, shutdown, boot gates and bounded,
  sequence-numbered logs. Each operation is specified over the abstract
  `SupervisorState`. The `ProcessBackend` trait keeps a log of the spawn
  and signal requests made to it, their answers and the exits each poll
  reported; each operation states exactly which requests it makes and what
  it does with the logged answers.
- `src/control.rs` is the control command grammar and its dispatch.
- `src/lifecycle.rs` states properties that span several operations.
- `src/bootstrap.rs` is the PID 1 hand-off as a state machine.
- `app/` holds what Verus does not see: the system calls of the hand-off
  and error types that implement `Display`.
- `tests/` exercises the library.
