# scopesafe

A guardrail for AI coding agents: define the scope of a task (file patterns to work
on, patterns to stay out of), record every file the agent touches, refuse secrets
files outright, and audit, approve, reject or revert what went out of scope. It runs
as a command-line tool and as an MCP server.

The library under `src/` is written in Verus: each public function states what it
does in its `requires`/`ensures`, and Verus proves it.

- `scope` — scopes, the scope rule (`path_in_scope`) and the blocking rule for
  secrets (`path_blocked`), with their laws (exclusion wins, secrets are blocked
  wherever they lie, `./` and backslashes change nothing).
- `globs` — shell patterns through the `glob` crate, and the meaning of simple ones.
- `db`, `tracker` — the store of scopes and file events and the operations on it,
  with its laws (a read gives back what was written, decisions keep the history,
  the newest active scope is the active one).
- `auditor`, `patterns`, `report` — counts, revert lists, drift patterns, scores and
  the weekly tally.
- `cli`, `mcp` — what each command and each MCP request does to the store and what
  it answers.
- `text`, `order`, `clock`, `error` — text and ordering helpers, the clock and the
  calendar, and the errors.

`app/` is the program around it: argument parsing with `clap`, the SQLite file with
`rusqlite`, terminal output with `colored`, and the JSON-RPC framing of the MCP
server with `serde_json`. Scores as percentages are floating-point values and are
computed there, from the credit the library counts.
