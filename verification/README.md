# pulci-core

The engine of pulci, a daemon that runs quality-gate tools (`ruff`, `ty`,
`pytest`, `cargo clippy`) while a project is being edited and publishes what they
say as one state for the whole project.

The library in `src/` holds every decision of the daemon. It is written in Verus:
each function has a contract, and the promises that span several functions are
public proof functions whose names begin with `law_`. It does no input or output.
Where a decision depends on the outside world, the library says what to do next
and takes the outcome back as a value.

| Module | Subject |
|---|---|
| `daemon` | batches of events, what to check, what to publish, when to give up |
| `state`, `accumulator` | the published state and the diagnostics behind it |
| `hooks` | the tools: how each is run, what its output means, when it has run too long |
| `resolver` | which binary of a tool is used |
| `watcher`, `scan`, `tree`, `cache` | which files concern the daemon, and which have changed |
| `store` | replacing a file so that no reader sees half of it |
| `event_trace` | the trace for debugging |
| `report` | what is printed, and the startup error |
| `config`, `orchestrator`, `clock` | configuration, results of tools, timestamps |
| `paths`, `pathmap`, `sorting`, `text`, `numbers`, `calendar` | foundations |

`app/` is ordinary Rust around the library: the Python module, file access,
processes, threads, the file watcher and the JSON forms of the library's types.

What is taken on trust is little: the system clock (`clock`), lossy decoding of
UTF-8 and appending to a `String` (`text`), SHA-256 (`event_trace`) and the JSON
form of a string (`report`). Each such item says in its comment what it claims.
