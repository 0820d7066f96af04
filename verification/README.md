# lsproxy

An HTTP service that answers code-navigation questions (definitions, references,
identifiers, the symbols of a file, the files of a workspace) by driving language servers
and `ast-grep` over a mounted workspace.

- `src/` is the library, verified with Verus: the request and response types, the
  decisions of the handlers, the language-server message framing and routing, the
  document cache, the tag database, the compile-command generation, and the path and text
  logic they rest on. Calls into `glob`, `regex`, `url`, `serde_json`, `json5`,
  `jsonwebtoken` and `polars` go through small trusted wrappers whose contracts are
  stated next to them.
- `app/` is the program around it: command line, HTTP routes, child processes, file
  system access and JSON encoding.
- `tests/` exercises the library on concrete values.
