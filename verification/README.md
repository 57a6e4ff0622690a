# host-bridge-mcp

An MCP server that runs one command at a time on the local host or on a
configured SSH host, after applying a command policy and, where the policy asks
for it, an operator's approval in the terminal console or the web console.

## Layout

- `src/` is the verified library, checked by Verus: command-line parsing and
  quoting, the command policy (exact and `*` patterns, per-target scoping,
  approval for shell operators), configuration rules and the configuration
  editor's YAML edits, path mapping, the planning of local and SSH commands and
  their outcome events, execution history retention, the operator console's
  log format, log rotation and approvals, web sessions and bearer-token
  authentication, the HTTP API's request checks and error replies, the
  terminal console's state machine, and the bookkeeping of reused SSH
  connections. Each public function states its result in `ensures`; the laws
  that relate several functions are public proof functions.
- `app/` is the program around it: command-line options (clap), the YAML file
  (serde), the HTTP and MCP endpoints (axum, rmcp), process spawning and SSH
  I/O (tokio, russh), the terminal UI (crossterm, ratatui), file watching
  (notify), logging (tracing), and everything that reads the clock, the
  environment, random numbers or the disk.
- `tests/` holds the tests of the library.

## Running

```text
host-bridge-mcp --config host-bridge.yaml [--host 127.0.0.1] [--port 8810] [--tui false] [--web true]
```

The configuration path is taken from `--config`, then `HOST_BRIDGE_CONFIG`,
then `host-bridge.yaml`. The MCP endpoint is `/mcp`; the web console's JSON API
is under `/api/v1/`.
