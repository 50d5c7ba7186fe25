# mbit

`mbit` builds MoonBit projects into WebAssembly components, runs them, and
serves MoonBit modules as MCP servers (over stdio or a minimal HTTP
transport) on wasmtime.

The library in `src/` holds the logic, proved with Verus:

- `cli` — the command line (`build`, `run`, `mcp`, `test`, `bench`, `help`).
- `config` — MCP server settings and the build configuration builder.
- `project` — build decisions: which interface directory an implementation
  file belongs to, package settings, tool arguments, executable names.
- `handles` — the table behind the opaque string handles that a module passes
  to its host, and character-by-character UTF-8 reading and building.
- `host` — the other host imports: buffered input chunks, the bridge
  command's arguments and output, its path, the clock, the entry point.
- `http` — reading a request from the bytes a connection delivers, routing,
  and writing response heads.
- `text` — white space, trimming, decimal numbers, string comparison.
- `stdlib` — the few standard-library calls without a vstd specification.

`app/` is the program around it: process and file I/O, sockets and threads,
and the wasmtime embedding. `tests/` exercises the library.
