# substrate

The logic of Substrate, a node-based video editor and its project launcher,
as a library verified with Verus.

`src/` holds the verified library:

- `schema`, `values`, `library`, `catalog`, `colors`: node definitions, input
  values, the node library (unique names, search, categories, merging prebuilt
  and user nodes), the node list the frontend receives, and pin colours.
- `graph`, `sync`, `midi`, `editor`, `session`: the editor's node graph (the
  connection rules, which keep it free of cycles with one wire per input),
  carrying it over into the engine graph, MIDI port checks, the title bar and
  widgets, unsaved-change tracking and the close flow.
- `execution`, `effects`, `streams`, `reach`: planning an execution of the
  engine graph, effect stages, and the source streams' bookkeeping.
- `bridge`, `frames`, `readback`, `output_view`: the editor backend's link to
  the engine, frames on their way to the frontend (with the pipelined read-back
  that keeps one copy in flight), and the output panel.
- `ipc`, `projects`, `launcher_ui`: messages between launcher instances, the
  launcher's project list and project file rules, and the launcher window's
  decisions.
- `text`, `sorted`: text helpers with their specifications.

`app/` is the launcher program and the file, clock and floating-point work
around the library. `tests/` runs the library on concrete values.
