# basalt

The BasaltOS control plane's configuration, planning and state logic, verified with Verus.

- `src/` is the verified library: configuration domains and validation (`config`), the
  plan of actions and its reports (`planning`), the apply decisions and the file-write
  plan (`apply`), package and service executors that record their operations
  (`backends`, `system`), backup manifests and restore steps (`recovery`), run records
  and history rendering (`state`), workspace artifacts and the workspace state manifest
  (`workspaces`, `workspace_manifest`), and the text and sorted-map helpers they share
  (`text`, `strmap`, `paths`). Each public function's contract states its result over a
  spec model; the laws that join several functions are public proof functions named
  `law_*`.
- `app/` is the command-line program around it: Lua evaluation with mlua, the SQLite run
  history with rusqlite, and every file, process and clock access.
- `tests/` runs the library on concrete values.

Verify with `verus` on `src/lib.rs`; the tests and the program build with cargo.
