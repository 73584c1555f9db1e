# codex_workbench

The decisions behind a terminal coding workbench, as a library verified with Verus.

- `src/` holds the verified library: sandbox launches and mount targets, session pickers and their
  rows, streamed transcripts, Markdown tables, mentions, slash commands, goals, session state files,
  journals and thread stores, span telemetry, terminal probes, the web terminal's frames and assets,
  PowerShell and Windows path rules, and the patch tool.
- `tests/` runs the library on concrete values.
- `app/` performs what the library decides: files, processes, sockets, the terminal.
- `extras/iterm_fork_tab.py` is the helper that opens a tab in iTerm2.

Contracts speak of texts as sequences of characters (`src/text.rs`) and of states as plain values.
Calls into outside crates stand behind small wrappers whose doc comments say what is claimed of
them; results that take pages to state are named and not described.
