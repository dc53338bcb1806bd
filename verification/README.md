# gws

The logic of a command-line client for Google Workspace APIs, verified with
Verus: error reporting, the Gmail (`+send`, `+forward`) and Sheets
(`+append`, `+read`) helper commands, and a Model Context Protocol server
that offers API methods as tools.

- `src/` is the verified library. Every public function states its result
  in `ensures`; public `proof fn`s state properties that span functions
  (for example, that every full-mode tool the server lists is found again
  when called by its name).
- `app/` is the unverified side: clap argument definitions, the stdio loop
  of the MCP server, terminal output, and the `Backend` trait through which
  the host program supplies credentials, Discovery Documents and the API
  executor.
- `tests/` runs the library on concrete values.

Calls into `base64`, `serde_json` and std that the library relies on go
through small trusted wrappers whose contracts are stated next to them.
