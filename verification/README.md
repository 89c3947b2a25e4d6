# aios

A verified control plane for an agent runtime. The library under `src/` holds the rules: what a
Task may ask for, which state it is in, what has to be approved, what is audited, and which
process, file and network operations follow. Contracts state what the functions return and
change, and Verus proves them.

## Layout

- `task`, `policy`, `state`, `error`: Task requests, capability decisions, the Task state machine
- `event`, `recovery`, `storage`: the append-only audit log, its replay, and its stored rows
- `approval`, `supervision`, `supervisor`, `room`: approvals, the supervisor that owns every Task,
  and the room that the audit log must have for what it is asked to do
- `execution`, `tool`, `network`, `filesystem`: gated operations and their adapters
- `agent`: the bounded loop between a model and its operations
- `process`: sandboxed child processes, root filesystem digests, cgroups, the syscall filter
- `api`: the local API, its frames, and the command lines of its programs
- `text`, `path`, `scan`, `ip`, `ids`, `idmap`, `time`: what the others are made of

`app/` holds the programs: SQLite, sockets, JSON, child processes and files. It performs the
actions that the library decides on and hands back what came of them. `tests/` runs the library.

## Contracts

Contracts speak of mathematical models: a Task is a `TaskModel`, the supervisor a
`SupervisorModel`, the log a map from Task numbers to sequences of events. Laws that relate
several functions stand beside them as public proof functions named `law_...`.

Outside calls stand behind small functions whose doc comments say what is claimed of them:
identifiers from `uuid`, SHA-256 from `sha2`, and the clocks of the standard library.
