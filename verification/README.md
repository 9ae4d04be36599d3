# core-utilities-mcp

An AI-oriented toolkit of file, search, text and system tools, served over
the Model Context Protocol (JSON-RPC 2.0 on stdin/stdout).

- `src/` is the library, verified with Verus: path guardrails (including
  optional confinement to `AI_WORKSPACE_ROOT`), output truncation,
  content-addressed and line-range file editing, line-windowed reading,
  CSV/TSV filtering and sorting, reading JSON, TOML and YAML text and
  querying it by dot path, the advertised tool catalogue,
  search result collection, command timeouts and output budgets, and the
  server's routing and error answers. Each public function states what it
  returns in its contract; the `law_*` proof functions state properties
  that span calls (paging loses no line, chunk order does not matter,
  sorting keeps every row, confinement keeps accepted paths under the
  root, and more).
- `app/` is the server program: stdin/stdout, the filesystem, processes,
  and environment variables, calling the library for every decision.
- `tests/` exercises the library on concrete inputs.
