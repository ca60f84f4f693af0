# mcp-student-records

A student information system (students, courses and sections, enrollment,
grades with rubrics, attendance, support cases, guardians and consent-gated
communications, transcripts and analytics inputs) with FERPA access logging
on every student-scoped operation, served as an MCP tool server.

Layout:

- `src/` — the store and its records, verified with Verus. Every operation
  states in its contract what it returns, how the store changes, and which
  access-log entry it appends. `src/laws.rs` states properties that relate
  operations (log accounting, consent gating, ids unique within and across
  kinds of record, one grade per assignment, read-after-write). `src/external.rs` holds the few trusted
  declarations of calls into chrono, uuid, serde_json and std.
- `app/` — the MCP server (rmcp over stdio), the serde forms of the records,
  and the floating-point figures derived from the store's data (rubric sums,
  weighted course grades, attendance rate, GPA, risk level).
- `tests/` — tests of the library.

The records and requests of the competency, degree-audit, holds,
early-warning and intervention tools (`src/types.rs`, `src/server.rs`) are
defined, but the store has no operations on them yet, and the server does
not offer those tools.
