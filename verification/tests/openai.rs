use kamui::openai::{
    assemble_tool_calls, base_of, chat_url, find_event_end, not_text, read_event, response_into_chat,
    take_event, wire_messages, wire_tools, CallDelta, Choice, OpenAIResponse, Payload,
    StreamChoice, StreamChunk, StreamState, WireContent, WirePart,
};
use kamui::provider::{ImageAttachment, Message, ToolCall, ToolDefinition, Usage};
use serde_json::Value;

fn parsed(text: &str) -> Option<Value> {
    text.parse().ok()
}

fn text_at(value: &Value, key: &str) -> Option<String> {
    value.get(key).and_then(Value::as_str).map(str::to_string)
}

fn list_at(value: &Value, key: &str) -> Vec<Value> {
    value.get(key).and_then(Value::as_array).cloned().unwrap_or_default()
}

fn usage_of(value: &Value) -> Usage {
    let count = |key: &str| value.get(key).and_then(Value::as_u64).unwrap_or(0);
    Usage {
        prompt_tokens: count("prompt_tokens"),
        completion_tokens: count("completion_tokens"),
        total_tokens: count("total_tokens"),
        cached_tokens: 0,
    }
}

fn delta_of(value: &Value) -> CallDelta {
    let function = value.get("function").cloned().unwrap_or(Value::Null);
    CallDelta {
        index: value.get("index").and_then(Value::as_u64).unwrap_or(0) as usize,
        id: text_at(value, "id"),
        name: text_at(&function, "name"),
        arguments: text_at(&function, "arguments"),
    }
}

fn chunk_of(value: &Value) -> StreamChunk {
    let choice_of = |value: &Value| {
        let delta = value.get("delta").cloned().unwrap_or(Value::Null);
        StreamChoice {
            content: text_at(&delta, "content"),
            finish_reason: text_at(value, "finish_reason"),
            tool_calls: list_at(&delta, "tool_calls").iter().map(delta_of).collect(),
        }
    };
    StreamChunk {
        choices: list_at(value, "choices").iter().map(choice_of).collect(),
        usage: value.get("usage").map(usage_of),
    }
}

fn response_of(value: &Value) -> OpenAIResponse {
    let call_of = |value: &Value| {
        let function = value.get("function").cloned().unwrap_or(Value::Null);
        ToolCall {
            id: text_at(value, "id").unwrap_or_default(),
            name: text_at(&function, "name").unwrap_or_default(),
            arguments: text_at(&function, "arguments").unwrap_or_default(),
        }
    };
    let choice_of = |value: &Value| {
        let message = value.get("message").cloned().unwrap_or(Value::Null);
        Choice {
            content: text_at(&message, "content"),
            tool_calls: list_at(&message, "tool_calls").iter().map(call_of).collect(),
            finish_reason: text_at(value, "finish_reason").unwrap_or_default(),
        }
    };
    OpenAIResponse {
        choices: list_at(value, "choices").iter().map(choice_of).collect(),
        usage: value.get("usage").map(usage_of).unwrap_or_default(),
    }
}

/// Take one event in: what it adds to the reply and whether it ends the stream, unless it cannot
/// be read.
fn parse_event(event: &[u8], state: &mut StreamState) -> Option<(Vec<String>, bool)> {
    let mut deltas = Vec::new();
    for payload in read_event(event).ok()? {
        match payload {
            Payload::Done => return Some((deltas, true)),
            Payload::Json(text) => deltas.extend(state.apply(chunk_of(&parsed(&text)?))),
        }
    }
    Some((deltas, false))
}

#[test]
fn parses_delta_finish_and_usage_events() {
    let mut state = StreamState::new();

    let first = parse_event(
        br#"data: {"choices":[{"delta":{"content":"Hello"},"finish_reason":null}]}"#,
        &mut state,
    );
    assert_eq!(first, Some((vec!["Hello".to_string()], false)));
    let second = parse_event(
        br#"data: {"choices":[],"usage":{"prompt_tokens":3,"completion_tokens":2,"total_tokens":5}}"#,
        &mut state,
    );
    assert_eq!(second, Some((Vec::new(), false)));
    let third = parse_event(
        br#"data: {"choices":[{"delta":{},"finish_reason":"stop"}]}"#,
        &mut state,
    );
    assert_eq!(third, Some((Vec::new(), false)));
    assert_eq!(parse_event(b"data: [DONE]", &mut state), Some((Vec::new(), true)));

    assert_eq!(state.usage.total_tokens, 5);
    assert_eq!(state.finish_reason, "stop");
}

#[test]
fn assembles_tool_calls_streamed_across_deltas() {
    let mut state = StreamState::new();

    parse_event(
        br#"data: {"choices":[{"delta":{"tool_calls":[{"index":0,"id":"call_1","function":{"name":"read_file","arguments":"{\"path\":\""}}]},"finish_reason":null}]}"#,
        &mut state,
    )
    .unwrap();
    parse_event(
        br#"data: {"choices":[{"delta":{"tool_calls":[{"index":0,"function":{"arguments":"src/main.rs\"}"}}]},"finish_reason":"tool_calls"}]}"#,
        &mut state,
    )
    .unwrap();

    let calls = assemble_tool_calls(state.tool_calls);
    assert_eq!(calls.len(), 1);
    assert_eq!(calls[0].id, "call_1");
    assert_eq!(calls[0].name, "read_file");
    assert_eq!(calls[0].arguments, r#"{"path":"src/main.rs"}"#);
}

#[test]
fn drops_incomplete_tool_calls() {
    // A fragment that never received an id or name must not become a tool call.
    let partials = vec![ToolCall {
        id: String::new(),
        name: String::new(),
        arguments: "{}".to_string(),
    }];
    assert!(assemble_tool_calls(partials).is_empty());
}

#[test]
fn calls_fill_in_by_index() {
    let mut state = StreamState::new();
    let delta = |index: usize, id: Option<&str>, name: &str| CallDelta {
        index,
        id: id.map(str::to_string),
        name: Some(name.to_string()),
        arguments: None,
    };
    let choice = StreamChoice {
        content: Some(String::new()),
        finish_reason: None,
        tool_calls: vec![delta(2, Some("c"), "grep"), delta(0, Some("a"), "re"), delta(0, None, "ad")],
    };
    let added = state.apply(StreamChunk { choices: vec![choice], usage: None });
    assert!(added.is_empty(), "an empty piece of text is not passed on");
    assert_eq!(state.tool_calls.len(), 3);
    let calls = assemble_tool_calls(state.tool_calls);
    assert_eq!(calls.len(), 2);
    assert_eq!(calls[0].name, "read");
    assert_eq!(calls[1].name, "grep");
}

#[test]
fn serializes_tools_and_tool_messages() {
    let messages = vec![
        Message::user("read the file"),
        Message::tool_request(
            "",
            vec![ToolCall {
                id: "call_1".to_string(),
                name: "read_file".to_string(),
                arguments: r#"{"path":"src/main.rs"}"#.to_string(),
            }],
        ),
        Message::tool_result("call_1", "fn main() {}"),
    ];
    let tools = wire_tools(&[ToolDefinition {
        name: "read_file".to_string(),
        description: "Read a project file".to_string(),
        parameters: r#"{"type":"object","properties":{"path":{"type":"string"}}}"#.to_string(),
    }]);
    let wire = wire_messages(&messages);

    assert_eq!(tools[0].kind, "function");
    assert_eq!(tools[0].name, "read_file");
    // The assistant tool-call turn carries no content but one function call.
    assert!(wire[1].content.is_none());
    assert_eq!(wire[1].tool_calls[0].id, "call_1");
    assert_eq!(wire[1].tool_calls[0].name, "read_file");
    // The tool result is tagged with the id of the call it answers.
    assert_eq!(wire[2].role, "tool");
    assert_eq!(wire[2].tool_call_id.as_deref(), Some("call_1"));
    assert!(matches!(&wire[2].content, Some(WireContent::Text(text)) if text == "fn main() {}"));
}

#[test]
fn serializes_images_as_content_parts() {
    let messages = vec![Message::user_with_images(
        "what is this?",
        vec![ImageAttachment { media_type: "image/png".to_string(), data: "QUJD".to_string() }],
    )];
    let wire = wire_messages(&messages);

    match &wire[0].content {
        Some(WireContent::Parts(parts)) => {
            assert_eq!(parts.len(), 2);
            assert!(matches!(&parts[0], WirePart::Text { text } if text == "what is this?"));
            assert!(matches!(
                &parts[1],
                WirePart::ImageUrl { url } if url == "data:image/png;base64,QUJD"
            ));
        }
        _ => panic!("content parts"),
    }
}

#[test]
fn serializes_text_only_messages_as_a_plain_string() {
    let wire = wire_messages(&[Message::user("hello")]);
    assert!(matches!(&wire[0].content, Some(WireContent::Text(text)) if text == "hello"));
}

#[test]
fn parses_plain_text_response() {
    let json = r#"{
        "choices": [{ "message": { "content": "Hi there" }, "finish_reason": "stop" }],
        "usage": { "prompt_tokens": 2, "completion_tokens": 2, "total_tokens": 4 }
    }"#;
    let chat = response_into_chat(response_of(&parsed(json).unwrap())).unwrap();

    assert_eq!(chat.content, "Hi there");
    assert!(chat.tool_calls.is_empty());
    assert_eq!(chat.finish_reason, "stop");
}

#[test]
fn response_without_choices_is_an_error() {
    let response = response_of(&parsed(r#"{"choices":[]}"#).unwrap());
    let error = response_into_chat(response).unwrap_err();
    assert_eq!(error.message(), "provider returned no choices");
}

#[test]
fn omits_tools_and_serializes_plain_messages() {
    let wire = wire_messages(&[Message::system("be brief"), Message::user("hi")]);

    assert!(wire_tools(&[]).is_empty());
    assert_eq!(wire[0].role, "system");
    assert!(matches!(&wire[0].content, Some(WireContent::Text(text)) if text == "be brief"));
    assert!(matches!(&wire[1].content, Some(WireContent::Text(text)) if text == "hi"));
}

#[test]
fn invalid_stream_json_is_an_error() {
    let mut state = StreamState::new();

    assert!(parse_event(b"data: {not json}", &mut state).is_none());
    assert!(parse_event(b"data: \xff", &mut state).is_none(), "nor is what is no text");
}

#[test]
fn parses_tool_calls_from_response() {
    let json = r#"{
        "choices": [{
            "message": {
                "content": null,
                "tool_calls": [{
                    "id": "call_9",
                    "type": "function",
                    "function": { "name": "read_file", "arguments": "{\"path\":\"a.rs\"}" }
                }]
            },
            "finish_reason": "tool_calls"
        }],
        "usage": { "prompt_tokens": 7, "completion_tokens": 3, "total_tokens": 10 }
    }"#;
    let chat = response_into_chat(response_of(&parsed(json).unwrap())).unwrap();

    assert_eq!(chat.finish_reason, "tool_calls");
    assert_eq!(chat.content, "");
    assert_eq!(chat.tool_calls.len(), 1);
    assert_eq!(chat.tool_calls[0].id, "call_9");
    assert_eq!(chat.tool_calls[0].name, "read_file");
    assert_eq!(chat.tool_calls[0].arguments, r#"{"path":"a.rs"}"#);
    assert_eq!(chat.usage.total_tokens, 10);
}

#[test]
fn events_come_out_of_the_stream_one_by_one() {
    let mut buffer = b"data: 1\r\n\r\ndata: 2\n\ndata: 3".to_vec();
    assert_eq!(find_event_end(&buffer), Some(7));
    assert_eq!(take_event(&mut buffer).unwrap(), b"data: 1");
    assert_eq!(take_event(&mut buffer).unwrap(), b"data: 2");
    assert!(take_event(&mut buffer).is_none());
    assert_eq!(buffer, b"data: 3");
}

#[test]
fn events_must_be_text() {
    let cause = std::str::from_utf8(b"data: \xff").unwrap_err().to_string();
    assert_eq!(
        read_event(b"data: \xff").unwrap_err(),
        format!("provider returned invalid UTF-8: {cause}")
    );
    assert_eq!(not_text("why"), "provider returned invalid UTF-8: why");
}

#[test]
fn addresses_have_no_slash_at_their_end() {
    assert_eq!(base_of("https://host/v1//"), "https://host/v1");
    assert_eq!(chat_url("https://host/v1/", None), "https://host/v1/chat/completions");
    assert_eq!(
        chat_url("https://host/v1/", Some("/coding/completions")),
        "https://host/v1/coding/completions"
    );
    assert_eq!(
        chat_url("https://host/v1", Some("https://other/chat")),
        "https://other/chat"
    );
}
