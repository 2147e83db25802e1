# vikunja-cli

A command-line client for the Vikunja task manager, with its logic written in
Verus and proved against its contracts.

## Layout

- `src/` — the verified library:
  - `text.rs`: character-level helpers (number formatting, trimming, id lists).
  - `types.rs`: the data model (tasks, labels, assignees, projects, tree nodes).
  - `hierarchy.rs`: the mathematical model of the project hierarchy and the
    breadth-first walk that collects descendants.
  - `filter.rs`: the meaning of a task filter and of its `project_id` clauses.
  - `util.rs`: truncation, query parameters, the children map, descendant
    collection, filter expansion and the project tree.
  - `commands.rs`: how each command becomes an HTTP request, and the messages
    it reports.
  - `output.rs`: table rows, detail views, tree lines and comment blocks.
  - `config.rs`: configuration checks.
  - `json.rs`: request bodies, built on `serde_json` maps.
  - `laws.rs`: properties that span several functions.
- `tests/` — tests on concrete values.
- `app/` — the program: argument parsing, HTTP, and printing.
