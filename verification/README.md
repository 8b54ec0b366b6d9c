# godot-lsp-bridge

A proxy between Godot's TCP Language Server and an editor speaking LSP over stdio,
with the routing, framing and synthesis logic verified with Verus.

- `src/` — the verified library: `Content-Length` framing (`framing`), the JSON
  model (`json`) and JSON-RPC builders (`lsp`), the routing of client and Godot
  messages (`bridge`), the synthesis of `workspace/symbol` and call hierarchies
  (`synthesizer`), port discovery and the retry schedule (`discovery`), shader
  diagnostics from Godot's stderr (`shader`, `uri`), and the decisions behind the
  persistent settings (`config`), the environment check (`doctor`) and self-update
  (`update`).
- `app/` — the binary: sockets, stdio, processes, files and HTTP around the library.
- `tests/` — tests of the library on concrete values.
