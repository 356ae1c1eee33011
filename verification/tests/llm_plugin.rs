use xiaolin_agent::dispatcher::ToolCall;
use xiaolin_agent::llm_plugin::{
    anthropic_value_to_chat_response, chat_response_from_reply, done_chunk, first_stream_line,
    keeps_lenient_chunk, stream_line_action, FirstLine, StreamLine, extract_hook_token, HookExtractError, chat_response_to_stream_deltas, read_reply,
    ChatChoice, ChatResponse, ReplyBlock, ReplyFields, Usage,
    bearer_header_value, hook_method, hook_token_value, map_model, oauth_token_ttl_secs,
    prefixed_token, split_extract_path, HookMethod, LlmPluginConfig, LlmPluginModelEntry, LlmPluginRegistry, LlmPluginType,
    LlmProtocol, MiddlewareConfig, PluginError, ProcessPluginConfig, ProviderChoice,
};

fn middleware_plugin_config() -> LlmPluginConfig {
    LlmPluginConfig {
        id: "test-mw".to_string(),
        name: "Test Middleware".to_string(),
        version: "1.0".to_string(),
        description: "test".to_string(),
        plugin_type: LlmPluginType::Middleware,
        enabled: true,
        middleware: Some(MiddlewareConfig {
            base_url: "https://api.example.com/v1".to_string(),
            protocol: LlmProtocol::Openai,
            model_mapping: vec![("gpt-4o".to_string(), "custom-gpt4".to_string())],
            max_retries: Some(2),
            timeout_secs: Some(60),
        }),
        process: None,
        models: vec![LlmPluginModelEntry {
            id: "custom-gpt4".to_string(),
            name: "Custom GPT-4".to_string(),
            description: "".to_string(),
            context_window: 128000,
        }],
    }
}

fn process_plugin_config() -> LlmPluginConfig {
    LlmPluginConfig {
        id: "test-proc".to_string(),
        name: "Test Process".to_string(),
        version: "1.0".to_string(),
        description: "test".to_string(),
        plugin_type: LlmPluginType::Process,
        enabled: true,
        middleware: None,
        process: Some(ProcessPluginConfig { command: "echo".to_string(), args: vec!["hello".to_string()] }),
        models: vec![],
    }
}

#[test]
fn registry_register_and_lookup() {
    let mut reg = LlmPluginRegistry::new();
    assert!(reg.is_empty());
    reg.register(middleware_plugin_config());
    assert!(!reg.is_empty());
    assert!(reg.get("test-mw").is_some());
    assert!(reg.get("nonexistent").is_none());
    assert_eq!(reg.list().len(), 1);
}

#[test]
fn registry_from_configs_filters_disabled() {
    let mut disabled = middleware_plugin_config();
    disabled.enabled = false;
    disabled.id = "disabled-one".to_string();
    let reg = LlmPluginRegistry::from_configs(vec![middleware_plugin_config(), disabled]);
    assert_eq!(reg.list().len(), 1);
    assert!(reg.get("test-mw").is_some());
    assert!(reg.get("disabled-one").is_none());
}

#[test]
fn registry_unregister() {
    let mut reg = LlmPluginRegistry::new();
    reg.register(middleware_plugin_config());
    assert_eq!(reg.list().len(), 1);
    let removed = reg.unregister("test-mw");
    assert!(removed.is_some());
    assert!(reg.is_empty());
    let removed_again = reg.unregister("test-mw");
    assert!(removed_again.is_none());
}

#[test]
fn registry_create_middleware_provider() {
    let mut reg = LlmPluginRegistry::new();
    reg.register(middleware_plugin_config());
    let provider = reg.resolve_provider("test-mw");
    assert!(provider.is_ok());
    match provider.unwrap() {
        ProviderChoice::Middleware(mw) => assert_eq!(mw.base_url, "https://api.example.com/v1"),
        other => panic!("unexpected {other:?}"),
    }
}

#[test]
fn registry_create_process_provider() {
    let mut reg = LlmPluginRegistry::new();
    reg.register(process_plugin_config());
    let provider = reg.resolve_provider("test-proc");
    assert!(provider.is_ok());
    match provider.unwrap() {
        ProviderChoice::Process(p) => assert_eq!(p.command, "echo"),
        other => panic!("unexpected {other:?}"),
    }
}

#[test]
fn registry_create_provider_not_found() {
    let reg = LlmPluginRegistry::new();
    let result = reg.resolve_provider("nonexistent");
    assert!(result.is_err());
    assert_eq!(result.unwrap_err().message(), "LLM plugin 'nonexistent' not found");
}

#[test]
fn registry_create_disabled_plugin_fails() {
    let mut reg = LlmPluginRegistry::new();
    let mut cfg = middleware_plugin_config();
    cfg.enabled = true;
    reg.register(cfg);
    let mut cfg2 = middleware_plugin_config();
    cfg2.enabled = false;
    reg.register(cfg2);
    let result = reg.resolve_provider("test-mw");
    assert!(result.is_err());
    assert_eq!(result.unwrap_err().message(), "LLM plugin 'test-mw' is disabled");
}

#[test]
fn middleware_provider_model_mapping() {
    let mw = middleware_plugin_config().middleware.unwrap();
    assert_eq!(map_model(&mw, "gpt-4o"), "custom-gpt4");
    assert_eq!(map_model(&mw, "gpt-3.5-turbo"), "gpt-3.5-turbo");
}

#[test]
fn find_model_context_window_found() {
    let mut reg = LlmPluginRegistry::new();
    reg.register(middleware_plugin_config());
    assert_eq!(reg.find_model_context_window("test-mw", "custom-gpt4"), Some(128000));
}

#[test]
fn find_model_context_window_unknown_model() {
    let mut reg = LlmPluginRegistry::new();
    reg.register(middleware_plugin_config());
    assert_eq!(reg.find_model_context_window("test-mw", "nonexistent-model"), None);
}

#[test]
fn find_model_context_window_unknown_plugin() {
    let reg = LlmPluginRegistry::new();
    assert_eq!(reg.find_model_context_window("nonexistent", "any"), None);
}

#[test]
fn find_model_context_window_zero_is_none() {
    let reg = LlmPluginRegistry::new();
    assert_eq!(reg.find_model_context_window("nonexistent", "anything"), None);
}

#[test]
fn zero_context_window_counts_as_unknown() {
    let mut cfg = middleware_plugin_config();
    cfg.models[0].context_window = 0;
    let mut reg = LlmPluginRegistry::default();
    reg.register(cfg);
    assert_eq!(reg.find_model_context_window("test-mw", "custom-gpt4"), None);
}

#[test]
fn missing_settings_are_reported() {
    let mut cfg = middleware_plugin_config();
    cfg.middleware = None;
    let mut proc_cfg = process_plugin_config();
    proc_cfg.process = None;
    let reg = LlmPluginRegistry::from_configs(vec![cfg, proc_cfg]);
    let e = reg.resolve_provider("test-mw").unwrap_err();
    assert!(matches!(e, PluginError::MissingMiddleware { .. }));
    assert_eq!(e.message(), "LLM plugin 'test-mw' is type=middleware but missing middleware config");
    assert_eq!(
        reg.resolve_provider("test-proc").unwrap_err().message(),
        "LLM plugin 'test-proc' is type=process but missing process config"
    );
}

#[test]
fn later_config_with_same_id_replaces_earlier() {
    let mut second = middleware_plugin_config();
    second.name = "Second".to_string();
    let reg = LlmPluginRegistry::from_configs(vec![middleware_plugin_config(), second]);
    assert_eq!(reg.list().len(), 1);
    assert_eq!(reg.get("test-mw").unwrap().name, "Second");
}

#[test]
fn oauth_tokens_are_cached_with_a_margin() {
    assert_eq!(oauth_token_ttl_secs(None), 3600 - 300);
    assert_eq!(oauth_token_ttl_secs(Some(100)), 70);
    assert_eq!(oauth_token_ttl_secs(Some(1000)), 900);
    assert_eq!(oauth_token_ttl_secs(Some(20)), 0);
}

#[test]
fn token_header_values() {
    assert_eq!(bearer_header_value("test-token"), "Bearer test-token");
    assert_eq!(prefixed_token("Token", "abc"), "Token abc");
    assert_eq!(hook_token_value("", "abc"), "abc");
    assert_eq!(hook_token_value("Bearer", "abc"), "Bearer abc");
}

#[test]
fn hook_methods_and_paths() {
    assert_eq!(hook_method("get"), HookMethod::Get);
    assert_eq!(hook_method("Put"), HookMethod::Put);
    assert_eq!(hook_method("delete"), HookMethod::Post);
    assert_eq!(split_extract_path("data.token"), vec!["data".to_string(), "token".to_string()]);
    assert_eq!(split_extract_path("a..b"), vec!["a".to_string(), "".to_string(), "b".to_string()]);
    assert_eq!(split_extract_path(""), vec!["".to_string()]);
}

#[test]
fn chat_response_to_stream_deltas_produces_correct_chunks() {
    let resp = ChatResponse {
        id: "test-id".to_string(),
        object: "chat.completion".to_string(),
        created: 1234567890,
        model: "test-model".to_string(),
        choices: vec![ChatChoice {
            index: 0,
            content: Some("Hello!".to_string()),
            tool_calls: None,
            finish_reason: Some("stop".to_string()),
        }],
        usage: Some(Usage { prompt_tokens: 10, completion_tokens: 5, total_tokens: 15 }),
    };
    let deltas = chat_response_to_stream_deltas(&resp);
    assert_eq!(deltas.len(), 2);
    assert!(deltas[0].choices[0].delta.content.is_some());
    assert_eq!(deltas[0].choices[0].delta.content.as_deref().unwrap(), "Hello!");
    assert!(deltas[0].choices[0].finish_reason.is_none());
    assert!(deltas[1].choices[0].delta.content.is_none());
    assert_eq!(deltas[1].choices[0].finish_reason.as_deref().unwrap(), "stop");
    assert!(deltas[1].usage.is_some());
    assert_eq!(deltas[0].object, "chat.completion.chunk");
    assert_eq!(deltas[1].created, 1234567890);
}

#[test]
fn chat_response_with_tool_calls_to_stream_deltas() {
    let resp = ChatResponse {
        id: "tc-id".to_string(),
        object: "chat.completion".to_string(),
        created: 1234567890,
        model: "test-model".to_string(),
        choices: vec![ChatChoice {
            index: 0,
            content: None,
            tool_calls: Some(vec![ToolCall {
                id: "call_123".to_string(),
                name: "search".to_string(),
                arguments: r#"{"q":"test"}"#.to_string(),
            }]),
            finish_reason: Some("tool_calls".to_string()),
        }],
        usage: None,
    };
    let deltas = chat_response_to_stream_deltas(&resp);
    assert_eq!(deltas.len(), 2);
    let tc_delta = &deltas[0].choices[0].delta.tool_calls.as_ref().unwrap()[0];
    assert_eq!(tc_delta.id.as_deref().unwrap(), "call_123");
    assert_eq!(tc_delta.function.as_ref().unwrap().name.as_deref().unwrap(), "search");
}

#[test]
fn anthropic_value_to_chat_response_basic() {
    let v = r#"{"id":"msg_001","model":"msg-model-3-opus","type":"message","role":"assistant","stop_reason":"end_turn","content":[{"type":"text","text":"Hello there!"}],"usage":{"input_tokens":10,"output_tokens":3}}"#;

    let resp = anthropic_value_to_chat_response(v, 1_700_000_000).unwrap();
    assert_eq!(resp.id, "msg_001");
    assert_eq!(resp.model, "msg-model-3-opus");
    assert_eq!(resp.choices.len(), 1);
    let msg = &resp.choices[0];
    assert_eq!(msg.content.as_deref().unwrap(), "Hello there!");
    assert_eq!(resp.usage.as_ref().unwrap().prompt_tokens, 10);
    assert_eq!(resp.usage.as_ref().unwrap().completion_tokens, 3);
}

#[test]
fn anthropic_value_to_chat_response_with_tool_use() {
    let v = r#"{"id":"msg_002","model":"msg-model-3","stop_reason":"tool_use","content":[{"type":"text","text":"Let me search."},{"type":"tool_use","id":"toolu_01","name":"web_search","input":{"query":"test"}}],"usage":{"input_tokens":20,"output_tokens":10}}"#;

    let resp = anthropic_value_to_chat_response(v, 1_700_000_000).unwrap();
    assert_eq!(resp.choices[0].finish_reason.as_deref().unwrap(), "tool_calls");
    let msg = &resp.choices[0];
    assert!(msg.tool_calls.is_some());
    let tcs = msg.tool_calls.as_ref().unwrap();
    assert_eq!(tcs.len(), 1);
    assert_eq!(tcs[0].id, "toolu_01");
    assert_eq!(tcs[0].name, "web_search");
}

#[test]
fn reply_conversion_fills_every_field() {
    let v = r#"{"id":"m","model":"x","stop_reason":"tool_use","content":[{"type":"text","text":"a"},{"type":"tool_use","id":"t1","name":"grep","input":{"q":"z"}},{"type":"image"},{"type":"text","text":"b"},{"type":"tool_use"}],"usage":{"input_tokens":7,"output_tokens":5}}"#;
    let resp = anthropic_value_to_chat_response(v, 42).unwrap();
    assert_eq!(resp.object, "chat.completion");
    assert_eq!(resp.created, 42);
    let c = &resp.choices[0];
    assert_eq!(c.index, 0);
    assert_eq!(c.content.as_deref(), Some("ab"));
    let tcs = c.tool_calls.as_ref().unwrap();
    assert_eq!(tcs.len(), 2);
    assert_eq!(tcs[0].arguments, r#"{"q":"z"}"#);
    assert_eq!((tcs[1].id.as_str(), tcs[1].name.as_str(), tcs[1].arguments.as_str()), ("", "", "{}"));
    assert_eq!(c.finish_reason.as_deref(), Some("tool_calls"));
    let u = resp.usage.unwrap();
    assert_eq!((u.prompt_tokens, u.completion_tokens, u.total_tokens), (7, 5, 12));
}

#[test]
fn reply_conversion_defaults_for_missing_members() {
    let resp = anthropic_value_to_chat_response("{}", 0).unwrap();
    assert_eq!(resp.id, "");
    assert_eq!(resp.model, "");
    assert!(resp.choices[0].content.is_none());
    assert!(resp.choices[0].tool_calls.is_none());
    assert_eq!(resp.choices[0].finish_reason.as_deref(), Some("stop"));
    let u = resp.usage.unwrap();
    assert_eq!((u.prompt_tokens, u.completion_tokens, u.total_tokens), (0, 0, 0));
}

#[test]
fn reply_conversion_keeps_an_empty_text_block() {
    let v = r#"{"stop_reason":"end_turn","content":[{"type":"text","text":""}]}"#;
    let resp = anthropic_value_to_chat_response(v, 0).unwrap();
    assert_eq!(resp.choices[0].content.as_deref(), Some(""));
    assert_eq!(resp.choices[0].finish_reason.as_deref(), Some("end_turn"));
}

#[test]
fn reply_conversion_refuses_token_counts_past_u32() {
    let v = r#"{"usage":{"input_tokens":4294967295,"output_tokens":1}}"#;
    assert!(anthropic_value_to_chat_response(v, 0).is_none());
    let v = r#"{"usage":{"input_tokens":4294967296,"output_tokens":1}}"#;
    let u = anthropic_value_to_chat_response(v, 0).unwrap().usage.unwrap();
    assert_eq!((u.prompt_tokens, u.completion_tokens, u.total_tokens), (0, 1, 1));
}

#[test]
fn read_reply_reads_each_block() {
    let f = read_reply(r#"{"id":"r","content":[{"type":"tool_use","id":"a","name":"n","input":[1,2]},3],"usage":{"output_tokens":9}}"#);
    assert_eq!(f.id.as_deref(), Some("r"));
    assert_eq!(f.model, None);
    assert_eq!(f.blocks.len(), 2);
    assert_eq!(f.blocks[0].kind.as_deref(), Some("tool_use"));
    assert_eq!(f.blocks[0].input.as_deref(), Some("[1,2]"));
    assert_eq!(f.blocks[1].kind, None);
    assert_eq!(f.input_tokens, None);
    assert_eq!(f.output_tokens, Some(9));
}

#[test]
fn chat_response_from_reply_fields() {
    let f = ReplyFields {
        id: Some("id9".to_string()),
        model: None,
        stop_reason: None,
        blocks: vec![ReplyBlock {
            kind: Some("tool_use".to_string()),
            text: Some("ignored".to_string()),
            id: Some("c".to_string()),
            name: Some("ls".to_string()),
            input: None,
        }],
        input_tokens: Some(1),
        output_tokens: None,
    };
    let r = chat_response_from_reply(&f, 5);
    assert_eq!(r.id, "id9");
    assert!(r.choices[0].content.is_none());
    let tcs = r.choices[0].tool_calls.as_ref().unwrap();
    assert_eq!((tcs[0].id.as_str(), tcs[0].name.as_str(), tcs[0].arguments.as_str()), ("c", "ls", "{}"));
    assert_eq!(r.choices[0].finish_reason.as_deref(), Some("stop"));
    assert_eq!(r.usage.unwrap().total_tokens, 1);
}

#[test]
fn first_line_falls_back_fails_or_streams() {
    assert!(matches!(
        first_stream_line("  {\"error\":{\"code\":\"unknown_method\",\"message\":\"no\"}}\n"),
        FirstLine::FallBack
    ));
    assert!(matches!(first_stream_line(r#"{"error":{"code":"unsupported_method"}}"#), FirstLine::FallBack));
    match first_stream_line(r#"{"error":{"code":"bad","message":"boom"}}"#) {
        FirstLine::Fail(m) => assert_eq!(m, "plugin process error: boom"),
        other => panic!("unexpected {other:?}"),
    }
    assert!(matches!(first_stream_line(r#"{"choices":[]}"#), FirstLine::Stream));
    assert!(matches!(first_stream_line("not json"), FirstLine::Stream));
}

#[test]
fn stream_lines_are_classified() {
    assert!(matches!(stream_line_action("garbage"), StreamLine::Skip));
    match stream_line_action(r#"{"done":true,"model":"m1","usage":{"prompt_tokens":3}}"#) {
        StreamLine::Done { model, usage } => {
            assert_eq!(model, "m1");
            assert_eq!(usage.as_deref(), Some(r#"{"prompt_tokens":3}"#));
        }
        other => panic!("unexpected {other:?}"),
    }
    match stream_line_action(r#"{"done":true}"#) {
        StreamLine::Done { model, usage } => {
            assert_eq!(model, "");
            assert!(usage.is_none());
        }
        other => panic!("unexpected {other:?}"),
    }
    match stream_line_action(r#"{"error":{}}"#) {
        StreamLine::Fail(m) => assert_eq!(m, "plugin process error: unknown error"),
        other => panic!("unexpected {other:?}"),
    }
    assert!(matches!(stream_line_action(r#"{"done":false,"choices":[]}"#), StreamLine::Chunk));
}

#[test]
fn closing_chunk_carries_usage() {
    let u = Usage { prompt_tokens: 1, completion_tokens: 2, total_tokens: 3 };
    let d = done_chunk("m", u, 9);
    assert_eq!(d.id, "");
    assert_eq!(d.object, "chat.completion.chunk");
    assert_eq!(d.created, 9);
    assert_eq!(d.choices.len(), 1);
    assert_eq!(d.choices[0].finish_reason.as_deref(), Some("stop"));
    assert_eq!(d.usage.unwrap().total_tokens, 3);
    assert!(keeps_lenient_chunk(&d));
}

#[test]
fn hook_token_is_read_along_the_path() {
    let body = r#"{"data":{"auth":{"token":"abc"}},"n":1}"#;
    let path = vec!["data".to_string(), "auth".to_string(), "token".to_string()];
    assert_eq!(extract_hook_token(body, &path).unwrap(), "abc");
    match extract_hook_token(body, &vec!["data".to_string(), "missing".to_string()]) {
        Err(e @ HookExtractError::KeyNotFound(_)) => {
            assert_eq!(e.message(), "pre-request hook: key 'missing' not found in response")
        }
        other => panic!("unexpected {other:?}"),
    }
    match extract_hook_token(body, &vec!["n".to_string()]) {
        Err(e @ HookExtractError::NotAString) => {
            assert_eq!(e.message(), "pre-request hook: extracted value is not a string")
        }
        other => panic!("unexpected {other:?}"),
    }
    assert!(matches!(extract_hook_token("<html>", &path), Err(HookExtractError::InvalidJson)));
    assert_eq!(extract_hook_token(r#""bare""#, &vec![]).unwrap(), "bare");
}
