use xiaolin_agent::anthropic_stream::{anthropic_sse_data, anthropic_sse_feed, read_sse_fields, SseState};
use xiaolin_agent::llm_plugin::StreamDelta;

const STREAM: &str = "event: message_start\n\
data: {\"type\":\"message_start\",\"message\":{\"id\":\"msg_1\",\"model\":\"m-3\",\"usage\":{\"input_tokens\":12}}}\n\
\n\
event: content_block_delta\n\
data: {\"index\":0,\"delta\":{\"type\":\"text_delta\",\"text\":\"Hi \u{4f60}\"}}\n\
\n\
event: content_block_start\n\
data: {\"index\":1,\"content_block\":{\"type\":\"tool_use\",\"id\":\"toolu_9\",\"name\":\"grep\"}}\n\
event: content_block_delta\n\
data: {\"index\":1,\"delta\":{\"type\":\"input_json_delta\",\"partial_json\":\"{\\\"q\\\":\"}}\n\
event: content_block_delta\n\
data: {\"index\":1,\"delta\":{\"type\":\"input_json_delta\",\"partial_json\":\"\\\"x\\\"}\"}}\n\
event: content_block_stop\n\
data: {\"index\":1}\n\
event: message_delta\n\
data: {\"delta\":{\"stop_reason\":\"tool_use\"},\"usage\":{\"output_tokens\":7}}\n\
event: message_stop\n\
data: {\"type\":\"message_stop\"}\n";

fn summary(ds: &[StreamDelta]) -> Vec<String> {
    ds.iter()
        .map(|d| {
            let c = &d.choices[0];
            let tc = c.delta.tool_calls.as_ref().map(|v| {
                let f = v[0].function.as_ref().unwrap();
                format!("{}:{}:{}:{}", v[0].index, v[0].id.as_deref().unwrap(), f.name.as_deref().unwrap(), f.arguments.as_deref().unwrap())
            });
            format!(
                "{}|{}|{}|{:?}|{:?}|{:?}|{:?}",
                d.id,
                d.model,
                d.created,
                c.delta.content,
                tc,
                c.finish_reason,
                d.usage.map(|u| (u.prompt_tokens, u.completion_tokens, u.total_tokens))
            )
        })
        .collect()
}

#[test]
fn whole_stream_becomes_text_tool_and_finish_chunks() {
    let mut st = SseState::new();
    let ds = anthropic_sse_feed(&mut st, STREAM, 5);
    assert_eq!(
        summary(&ds),
        vec![
            "msg_1|m-3|5|Some(\"Hi \u{4f60}\")|None|None|None".to_string(),
            "msg_1|m-3|5|None|Some(\"1:toolu_9:grep:{\\\"q\\\":\\\"x\\\"}\")|None|None".to_string(),
            "msg_1|m-3|5|None|None|Some(\"tool_calls\")|Some((12, 7, 19))".to_string(),
        ]
    );
    assert!(st.core.tool_streams.is_empty());
    assert!(st.line_buf.is_empty());
    assert!(st.core.stop_reason.is_none());
}

#[test]
fn splitting_the_stream_anywhere_gives_the_same_chunks() {
    let mut whole = SseState::new();
    let expected = summary(&anthropic_sse_feed(&mut whole, STREAM, 5));
    let chars: Vec<char> = STREAM.chars().collect();
    for step in [1usize, 2, 3, 7, 13, 64] {
        let mut st = SseState::new();
        let mut got = Vec::new();
        for piece in chars.chunks(step) {
            let s: String = piece.iter().collect();
            got.extend(anthropic_sse_feed(&mut st, &s, 5));
        }
        assert_eq!(summary(&got), expected, "step {step}");
    }
}

#[test]
fn a_partial_line_waits_and_empty_stop_reason_means_stop() {
    let mut st = SseState::new();
    assert!(anthropic_sse_feed(&mut st, "event: message_st", 1).is_empty());
    assert_eq!(st.line_buf, "event: message_st");
    let ds = anthropic_sse_feed(&mut st, "op\ndata: {}\n", 1);
    assert_eq!(ds.len(), 1);
    assert_eq!(ds[0].choices[0].finish_reason.as_deref(), Some("stop"));
    assert!(ds[0].usage.is_none());
    assert_eq!(st.core.current_event, "");
}

#[test]
fn event_data_is_read_then_applied() {
    let f = read_sse_fields(r#"{"index":2,"delta":{"type":"text_delta","text":"yo"},"usage":{"output_tokens":4}}"#);
    assert!(f.valid);
    assert_eq!(f.index, Some(2));
    assert_eq!(f.output_tokens, Some(Some(4)));
    let d = f.delta.as_ref().unwrap();
    assert_eq!(d.kind.as_deref(), Some("text_delta"));
    assert_eq!(d.text.as_deref(), Some("yo"));
    assert!(f.message.is_none() && f.block.is_none());
    let mut st = SseState::new();
    st.core.current_event = "content_block_delta".to_string();
    let out = anthropic_sse_data(&mut st.core, &f, 3);
    assert_eq!(out.len(), 1);
    assert_eq!(out[0].choices[0].delta.content.as_deref(), Some("yo"));
    assert!(!read_sse_fields("nope").valid);
}
