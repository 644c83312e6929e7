# agent_kit

Verified core of two MCP servers for coding agents:

- **workslate** — mid-turn team messaging (role inboxes, a PreToolUse
  doorbell, a SendMessage bridge, settings.json hook installation), plus the
  buffer-editing, file and task-footer helpers;
- **dispatch** — delegation of plan steps to a write-capable codex run
  (argv construction, capped capture, the working-directory and sandbox
  guards, cancel / wait / steer decisions, SQLite timestamp reading).

Layout:

- `src/` — the library, verified with Verus. Each module states its
  behaviour over character sequences (`Seq<char>`) and proves it; laws that
  relate several functions are public `law_*` proof functions.
- `tests/` — executable tests of the library.
- `app/` — the workslate program: stdio MCP transport, SQLite, environment
  and settings.json I/O, and the I/O helpers of the dispatch server. It
  takes its decisions from the library.
