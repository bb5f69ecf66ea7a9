# cucina

Cucina keeps local dev servers on the heat: it starts them, reads the port
they announce, restarts them when they crash (within a crash-loop guard),
stops them together with everything they spawned, and lets a person, the
command line or a coding agent (over MCP) drive the same set of servers.

## Layout

- `src/` — the library, verified with Verus. Every decision lives here, with
  a contract:
  - `text` — characters, trimming, splitting and numbers, as `str` does them;
  - `model` — servers, runs, tasks, statuses and ids (`slugify`, id settling);
  - `logs` — the bounded log ring each server writes to;
  - `ports` — ports read from output lines and from `ps` / `lsof`;
  - `git` — `git worktree list --porcelain` and natural branch order;
  - `strays` — listening processes Cucina does not own;
  - `manifest` — commands a project offers, read from its manifests;
  - `supervisor` — what a run's state becomes on each event, and the
    server registry (add, change, remove, group, look up);
  - `store` — what is written back to `servers.json`;
  - `paths`, `ui`, `cli`, `mcp`, `tray`, `desktop` — paths, the terminal
    table, the command line, the MCP tools, the menu bar and the app's own
    rules;
  - `laws` — properties across calls and states, proved.
- `app/` — the program around it: argument and environment reading, the
  socket client and server, the threads that run processes, serde shapes for
  JSON, and the MCP stdio loop.
- `tests/` — tests of the library on concrete values.
