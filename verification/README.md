# Clarity

Clarity coordinates the agents that work on one repository. Participants join a scope on a lease,
claim the resources that they work on, publish signals and ask for human attention; humans answer
with directions that reach the participants they concern. Everything that happens is an event in a
log, and the state is what the log builds up.

The library in `src/` is written in Rust and verified with Verus: functions state what they return
or change, and the laws of the whole stand in `src/laws/` and beside the functions they relate. What
only the machine can answer is left open and handed on as a value: which identity is new, and how
paths are written (`PathStyle::of_this_machine`, and with it the `paths` of `DecisionContext::at`).

- `model.rs` is the state as a mathematical object: what each event makes of it, what each command
  leads to and what can be read from it.
- `coordination.rs` and its modules hold the executable state and prove it equal to the model.
- `runtime.rs` is the single writer of the log, `bootstrap.rs` finds the repository and its daemon,
  and `cli.rs` with its modules is what the command line decides.
- `protocol.rs`, `identity.rs`, `time.rs`, `paths.rs`, `resources.rs` and `signals.rs` are the
  vocabulary; `ordered.rs`, `sequences.rs` and `text.rs` are the ground that all of it stands on.

`app/` is the program around the library: the command line, the HTTP interface, the SQLite store
and the processes that it starts.
