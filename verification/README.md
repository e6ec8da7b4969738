# teiki

Cross-platform scheduled task management. Tasks are declared in a YAML
configuration (command, arguments, environment, schedule, platforms, tags);
`teiki` lists them, validates the configuration, and runs one task or every
task enabled for the current platform.

## Layout

- `src/` — the library, verified with Verus:
  - `config.rs` — configuration model, the global defaults filling what a
    task leaves unset, schedule descriptions, per-platform task selection,
    validation;
  - `name_map.rs` — the name-ordered map holding tasks and environments;
  - `executor.rs` — execution specs, the command plan handed to the OS,
    the outcome of a finished process, test doubles;
  - `app.rs` — the decisions of `run`, `run-all` (a step-by-step state
    machine), `validate`, `list`, and which failures are notified where;
  - `seconds.rs` — elapsed seconds to one decimal, rounded as a 64-bit
    float of the span rounds them, on integers;
  - `outcome.rs`, `error.rs`, `notifier.rs`, `platform.rs` — outcomes,
    errors, notification text, platforms;
  - `text.rs` — decimal rendering, padding, joining, name order, debug
    quoting.
- `app/` — the command-line program: argument parsing, loading the file
  through shikumi and serde, running processes with tokio, webhooks with
  reqwest, logging with tracing.
- `tests/` — tests of the library.
