# adonword

A local security-posture sentinel for AI agents: file-integrity baselines,
suspicious-process monitoring and listening-port alerts. It observes and alerts; it
never kills processes and never modifies watched files.

The rules of the sentinel are a Verus library whose contracts are proved; the
program around it reads files, processes and sockets, serves HTTP and sends alerts.

- `src/` — the library:
  - `text`, `textmap`, `paths`, `json`, `stored`, `codec`, `failure`: texts, ordered
    maps, paths, JSON documents, stored ones read level by level, records in them,
    errors.
  - `matching`, `ports`, `config`: globs, port allowlists, the configuration and the
    overrides that are piped in.
  - `walk`, `hashing`, `baseline`: the watched files, their hashes, the baseline and
    checks against it.
  - `processes`, `sockets`, `clock`, `engine`: what is found on the machine, and the
    inspection that puts it together.
  - `state`, `watch`: the stored result, scan rounds and which findings alert.
  - `serve`, `mcp`, `cli`: what the HTTP API, the MCP endpoints and the commands
    answer.
- `tests/` — tests of the library on concrete values.
- `app/` — the program: arguments, files, processes, sockets, HTTP.

What the library takes on trust of `serde_json`, `toml`, `sha2`, `hex`, `chrono` and
the standard library is stated in `json`, `stored`, `hashing`, `clock` and `text`,
each item with what it claims.
