# mcp_boundary

A capability boundary that publishes a fixed catalog of MCP tools and turns
each validated call into exactly one configured command-line or upstream MCP
invocation.

- `src/` is the verified library: configuration adoption, input schemas and
  their validation, argument bindings, resolution of calls into invocations,
  the public catalog, the JSON-RPC protocol decisions, framing of requests
  and of upstream replies, adaptation of target results, the order among
  simultaneous reasons to end a run, and the laws that tie them together
  (`src/laws.rs` and beside the functions they speak of).
- `app/` is the `mcp-boundary` program: command-line handling, reading the
  YAML configuration, the STDIO server loop, and the processes of targets.
  Its rules come from the library; what it keeps is plumbing: reading and
  writing, spawning and signalling processes, waiting on whichever event
  comes first.
- `tests/` exercises the library on concrete values.
