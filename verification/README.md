# deepseek_mcp

A manager for MCP (Model Context Protocol) servers, the stdio JSON-RPC front end that
drives it, and the hook sinks that receive its events. The logic is written in Verus and
proved against its contracts; the input/output around it is ordinary Rust.

## Layout

- `src/` — the verified library.
  - `text.rs`: character helpers (blank text, hexadecimal rendering, code-point order).
  - `model.rs`: server configurations, tool filters, startup events, descriptors.
  - `naming.rs`: sanitizing names, qualified tool names (`mcp__<server>__<tool>`, shortened
    with a hash suffix past 64 chars), splitting them back, server names in `mcp://` URIs,
    tool filters.
  - `strmap.rs`: a map keyed by text that keeps its keys in arrival order.
  - `json.rs`: the JSON values the library builds, over `serde_json::Value`.
  - `client.rs`: the client interface the manager drives, and the in-memory client.
  - `manager.rs`: registering, starting, stopping and forgetting servers; listing and
    calling their tools and resources; startup reports and sandbox notices.
  - `rpc.rs`: JSON-RPC errors, envelopes and method names.
  - `sorting.rs`: ordering keyed items by their text keys.
  - `stdio.rs`: the state of the stdio server and how each request changes it.
  - `render.rs`: the JSON form of the stdio server's replies.
  - `hooks.rs`: hook sinks, the dispatcher, and the retry policy of webhook delivery.
- `app/` — the parts that do I/O: the stdin/stdout server loop, the serde forms of the
  records, and the sinks that print, append to a file or post to a webhook.
- `tests/` — tests of the library.
