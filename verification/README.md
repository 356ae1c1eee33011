# xiaolin_agent

The runtime logic of an LLM agent, written in Verus: the functions in
`src/` carry contracts that Verus proves, except the small trusted wrappers
around serde_json, shell-words and std, whose contracts are assumed.

## Layout

- `src/` — the verified library, one module per concern:
  - text, JSON and glob helpers: `text`, `json_args`, `glob`
  - conversation: `message_queue`, `message_injection`, `context_budget`,
    `context_projection`, `context_assembly`, `mode_attachments`,
    `goal_prompts`, `magic_docs`, `skill_injection`
  - tool calls: `accumulator` (streamed calls), `dispatcher` (batches),
    `orchestrator` and `approval_cache` (authorization), `permissions`,
    `hook_config`, `hook_executor`, `plan_arg_interceptor`, `tool_recovery`,
    `file_persistence`, `lsp_actions`
  - model calls: `api_errors`, `cache_break_detection`, `cost_tracker`,
    `iteration_check`, `model_critic`, `llm_plugin`, `anthropic_stream`
    (the streamed event reader), `llm_call` and `end_turn` (the decisions
    of a model call and of the end of a turn, as step functions), `agent_step`
- `tests/` — tests of the library, run against the compiled crate.
- `app/` — ordinary Rust around the library: configuration files and their
  serde forms, file-system probes, the clock, and the floating-point cost and
  context-usage figures.

Calls into serde_json, shell-words and std that the library makes go through
small trusted wrappers, each documented with what its contract claims.
