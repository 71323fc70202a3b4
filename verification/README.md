# agent-graph-mcp

The decision-making core of an MCP server for graph-orchestrated LLM
workflows, written in Verus: every function in `src/` carries a contract
that the verifier proves.

## Layout

- `src/` — the verified library.
  - `json`, `text`, `crypto`: the JSON tree and its compact serialization,
    string helpers, SHA-256/HMAC digests.
  - `tool_runtime`: tool leases, call intents and receipts, budgets and
    their signatures.
  - `gc`, `migrations`, `bridge_config`, `checkpoint_binding`: retention
    policy, schema migration planning, configuration defaults, retry
    binding.
  - `promotion`: template candidate states and operator-authorized
    promotion.
  - `compiler`, `nodes`, `tool_exec`: the graph plan (one plan per node,
    edges, reducers), node configuration, join strategies, transforms,
    routing, approval and tool-node decisions, tool descriptors.
  - `codex_app_server`, `provider_health`, `model_executor`: the meaning of
    Codex app-server traffic, WebSocket framing, process admission,
    provider health.
  - `transport`, `operator`, `operator_client`: length-prefixed frames and the
    protocol handshake, the operator service's checks, retention requests
    and answers, the operator client's requests.
- `tests/` — tests of the library.
- `app/` — the I/O around it: processes, sockets, SQLite, configuration
  files, the graph engine's node implementations and graph assembly from a
  plan, and the floating-point
  parts (numeric routing rules, increments, overlap thresholds).
