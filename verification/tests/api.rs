use llama_proxy::api::openai::{
    default_chat_completion_object, default_empty_args, normalize_arguments, tool_use_id, AnthropicContentBlock,
    AnthropicMessage, AnthropicUsage, ChatCompletionResponse, Choice, Delta, FunctionCall, MessageContent,
    ResponseMessage, ToolCall, Usage,
};
use llama_proxy::json::Json;

fn json(text: &str) -> Json {
    Json::parse(text).unwrap()
}

trait Key {
    fn find<'a>(&self, v: &'a Json) -> Option<&'a Json>;
}

impl Key for &str {
    fn find<'a>(&self, v: &'a Json) -> Option<&'a Json> {
        v.get(self)
    }
}

impl Key for usize {
    fn find<'a>(&self, v: &'a Json) -> Option<&'a Json> {
        v.at(*self)
    }
}

trait Look {
    fn ix(&self, key: impl Key) -> &Json;
}

impl Look for Json {
    fn ix(&self, key: impl Key) -> &Json {
        key.find(self).expect("the value must be there")
    }
}

fn text(v: &Json) -> &str {
    v.as_str().expect("the value must be a text")
}

fn text_at(v: &Json, key: &str) -> String {
    v.get(key).and_then(Json::as_str).unwrap_or("").to_string()
}

fn opt_text_at(v: &Json, key: &str) -> Option<String> {
    v.get(key).and_then(Json::as_str).map(str::to_string)
}

fn count_at(v: &Json, outer: &str, key: &str) -> u64 {
    v.get(outer).and_then(|u| u.get(key)).and_then(Json::as_u64).unwrap_or(0)
}

fn read_message(raw: Json) -> AnthropicMessage {
    let blocks = raw.get("content").and_then(Json::as_array);
    AnthropicMessage {
        id: text_at(&raw, "id"),
        message_type: text_at(&raw, "type"),
        role: text_at(&raw, "role"),
        content: blocks
            .map(|all| all.iter().map(|b| AnthropicContentBlock::from_json(b.clone())).collect())
            .unwrap_or_default(),
        model: text_at(&raw, "model"),
        stop_reason: opt_text_at(&raw, "stop_reason"),
        stop_sequence: opt_text_at(&raw, "stop_sequence"),
        usage: AnthropicUsage {
            input_tokens: count_at(&raw, "usage", "input_tokens"),
            output_tokens: count_at(&raw, "usage", "output_tokens"),
        },
    }
}

fn response(raw: Json) -> ChatCompletionResponse {
    let first = raw.ix("choices").ix(0);
    ChatCompletionResponse {
        id: text_at(&raw, "id"),
        object: text_at(&raw, "object"),
        created: raw.ix("created").as_u64().unwrap() as i64,
        model: text_at(&raw, "model"),
        choices: vec![Choice {
            index: 0,
            message: Some(ResponseMessage {
                role: text_at(first.ix("message"), "role"),
                content: opt_text_at(first.ix("message"), "content"),
                tool_calls: None,
                reasoning_text: None,
                reasoning_opaque: None,
            }),
            delta: None,
            finish_reason: opt_text_at(first, "finish_reason"),
        }],
        usage: Some(Usage {
            prompt_tokens: count_at(&raw, "usage", "prompt_tokens"),
            completion_tokens: count_at(&raw, "usage", "completion_tokens"),
            total_tokens: count_at(&raw, "usage", "total_tokens"),
            completion_tokens_details: None,
        }),
        timings: None,
    }
}

#[test]
fn test_message_content_default() {
    let content = MessageContent::default();
    assert!(matches!(content, MessageContent::Text(ref s) if s.is_empty()));
}

#[test]
fn test_parse_anthropic_message_with_thinking() {
    let raw = json(r#"{"id": "msg-456", "type": "message", "role": "assistant", "content": [{"type": "thinking", "thinking": "Let me think..."}, {"type": "text", "text": "Answer"}], "model": "test-model", "stop_reason": "end_turn", "usage": {"input_tokens": 20, "output_tokens": 10}}"#);

    let msg = read_message(raw);
    assert_eq!(msg.content.len(), 2);
    match &msg.content[0] {
        AnthropicContentBlock::Thinking { thinking, .. } => {
            assert_eq!(thinking, "Let me think...");
        }
        _ => panic!("Expected thinking block"),
    }
    match &msg.content[1] {
        AnthropicContentBlock::Text { text } => {
            assert_eq!(text, "Answer");
        }
        _ => panic!("Expected text block"),
    }
}

#[test]
fn test_anthropic_to_openai_conversion() {
    let anthropic_msg = AnthropicMessage {
        id: "msg-123".to_string(),
        message_type: "message".to_string(),
        role: "assistant".to_string(),
        content: vec![AnthropicContentBlock::Text {
            text: "Hello!".to_string(),
        }],
        model: "test-model".to_string(),
        stop_reason: Some("end_turn".to_string()),
        stop_sequence: None,
        usage: AnthropicUsage {
            input_tokens: 10,
            output_tokens: 5,
        },
    };

    let openai_response = ChatCompletionResponse::from(anthropic_msg);
    assert_eq!(openai_response.id, "msg-123");
    assert_eq!(openai_response.model, "test-model");
    assert_eq!(openai_response.object, "chat.completion");
    assert_eq!(openai_response.choices.len(), 1);
    assert_eq!(
        openai_response.choices[0].message.as_ref().unwrap().content,
        Some("Hello!".to_string())
    );
    assert_eq!(openai_response.choices[0].finish_reason, Some("stop".to_string()));

    let usage = openai_response.usage.as_ref().unwrap();
    assert_eq!(usage.prompt_tokens, 10);
    assert_eq!(usage.completion_tokens, 5);
    assert_eq!(usage.total_tokens, 15);
}

#[test]
fn test_anthropic_to_openai_thinking_converts_to_reasoning_text() {
    let anthropic_msg = AnthropicMessage {
        id: "msg-456".to_string(),
        message_type: "message".to_string(),
        role: "assistant".to_string(),
        content: vec![
            AnthropicContentBlock::Thinking {
                thinking: "Let me think...".to_string(),
                signature: None,
            },
            AnthropicContentBlock::Text {
                text: "Answer".to_string(),
            },
        ],
        model: "test-model".to_string(),
        stop_reason: Some("end_turn".to_string()),
        stop_sequence: None,
        usage: AnthropicUsage {
            input_tokens: 20,
            output_tokens: 10,
        },
    };

    let openai_response = ChatCompletionResponse::from(anthropic_msg);
    let message = openai_response.choices[0].message.as_ref().unwrap();
    assert_eq!(message.content, Some("Answer".to_string()));
    assert_eq!(message.reasoning_text, Some("Let me think...".to_string()));
    assert_eq!(message.reasoning_opaque, None);
}

#[test]
fn test_anthropic_stop_reason_mapping() {
    let test_cases = vec![("end_turn", "stop"), ("max_tokens", "length"), ("stop_sequence", "stop")];

    for (anthropic_reason, expected_openai) in test_cases {
        let anthropic_msg = AnthropicMessage {
            id: "msg-test".to_string(),
            message_type: "message".to_string(),
            role: "assistant".to_string(),
            content: vec![AnthropicContentBlock::Text {
                text: "Test".to_string(),
            }],
            model: "test-model".to_string(),
            stop_reason: Some(anthropic_reason.to_string()),
            stop_sequence: None,
            usage: AnthropicUsage {
                input_tokens: 5,
                output_tokens: 5,
            },
        };

        let openai_response = ChatCompletionResponse::from(anthropic_msg);
        assert_eq!(
            openai_response.choices[0].finish_reason,
            Some(expected_openai.to_string()),
            "Failed for anthropic reason: {}",
            anthropic_reason
        );
    }
}

#[test]
fn test_real_anthropic_response_from_llama_server() {
    let raw = json(r#"{"id": "chatcmpl-5678", "type": "message", "role": "assistant", "content": [{"type": "text", "text": "Hello! How can I help you today?"}], "model": "ERNIE-4.5", "stop_reason": "end_turn", "usage": {"input_tokens": 158, "output_tokens": 265}}"#);

    let anthropic_msg = read_message(raw);
    assert_eq!(anthropic_msg.usage.input_tokens, 158);
    assert_eq!(anthropic_msg.usage.output_tokens, 265);

    let openai_response = ChatCompletionResponse::from(anthropic_msg);

    assert_eq!(openai_response.usage.as_ref().unwrap().prompt_tokens, 158);
    assert_eq!(openai_response.usage.as_ref().unwrap().completion_tokens, 265);
    assert_eq!(openai_response.usage.as_ref().unwrap().total_tokens, 423);
    assert_eq!(openai_response.choices[0].finish_reason, Some("stop".to_string()));
    assert_eq!(
        openai_response.choices[0].message.as_ref().unwrap().content,
        Some("Hello! How can I help you today?".to_string())
    );
}

#[test]
fn test_openai_to_anthropic_conversion() {
    let openai_response = ChatCompletionResponse {
        id: "chatcmpl-123".to_string(),
        object: "chat.completion".to_string(),
        created: 1234567890,
        model: "test-model".to_string(),
        choices: vec![Choice {
            index: 0,
            message: Some(ResponseMessage {
                role: "assistant".to_string(),
                content: Some("Hello from OpenAI!".to_string()),
                tool_calls: None,
                reasoning_text: None,
                reasoning_opaque: None,
            }),
            delta: None,
            finish_reason: Some("stop".to_string()),
        }],
        usage: Some(Usage {
            prompt_tokens: 10,
            completion_tokens: 5,
            total_tokens: 15,
            completion_tokens_details: None,
        }),
        timings: None,
    };

    let anthropic = AnthropicMessage::from(openai_response);
    assert_eq!(anthropic.id, "chatcmpl-123");
    assert_eq!(anthropic.message_type, "message");
    assert_eq!(anthropic.role, "assistant");
    assert_eq!(anthropic.model, "test-model");
    assert_eq!(anthropic.stop_reason, Some("end_turn".to_string()));
    assert_eq!(anthropic.usage.input_tokens, 10);
    assert_eq!(anthropic.usage.output_tokens, 5);

    assert_eq!(anthropic.content.len(), 1);
    match &anthropic.content[0] {
        AnthropicContentBlock::Text { text } => {
            assert_eq!(text, "Hello from OpenAI!");
        }
        _ => panic!("Expected text block"),
    }
}

#[test]
fn test_openai_to_anthropic_with_reasoning() {
    let openai_response = ChatCompletionResponse {
        id: "chatcmpl-456".to_string(),
        object: "chat.completion".to_string(),
        created: 1234567890,
        model: "test-model".to_string(),
        choices: vec![Choice {
            index: 0,
            message: Some(ResponseMessage {
                role: "assistant".to_string(),
                content: Some("The answer is 42.".to_string()),
                tool_calls: None,
                reasoning_text: Some("Let me think about this...".to_string()),
                reasoning_opaque: None,
            }),
            delta: None,
            finish_reason: Some("stop".to_string()),
        }],
        usage: Some(Usage {
            prompt_tokens: 20,
            completion_tokens: 10,
            total_tokens: 30,
            completion_tokens_details: None,
        }),
        timings: None,
    };

    let anthropic = AnthropicMessage::from(openai_response);

    assert_eq!(anthropic.content.len(), 2);

    match &anthropic.content[0] {
        AnthropicContentBlock::Thinking { thinking, .. } => {
            assert_eq!(thinking, "Let me think about this...");
        }
        _ => panic!("Expected thinking block first"),
    }

    match &anthropic.content[1] {
        AnthropicContentBlock::Text { text } => {
            assert_eq!(text, "The answer is 42.");
        }
        _ => panic!("Expected text block second"),
    }
}

#[test]
fn test_openai_to_anthropic_finish_reason_mapping() {
    let test_cases = vec![("stop", "end_turn"), ("length", "max_tokens"), ("tool_calls", "tool_use")];

    for (openai_reason, expected_anthropic) in test_cases {
        let openai_response = ChatCompletionResponse {
            id: "chatcmpl-test".to_string(),
            object: "chat.completion".to_string(),
            created: 0,
            model: "test".to_string(),
            choices: vec![Choice {
                index: 0,
                message: Some(ResponseMessage {
                    role: "assistant".to_string(),
                    content: Some("Test".to_string()),
                    tool_calls: None,
                    reasoning_text: None,
                    reasoning_opaque: None,
                }),
                delta: None,
                finish_reason: Some(openai_reason.to_string()),
            }],
            usage: None,
            timings: None,
        };

        let anthropic = AnthropicMessage::from(openai_response);
        assert_eq!(
            anthropic.stop_reason,
            Some(expected_anthropic.to_string()),
            "Failed for OpenAI reason: {}",
            openai_reason
        );
    }
}

#[test]
fn test_openai_to_anthropic_from_llama_cpp() {
    let raw = json(r#"{"id": "chatcmpl-abc123", "object": "chat.completion", "created": 1234567890, "model": "qwen3-coder", "choices": [{"index": 0, "message": {"role": "assistant", "content": "Here's the code you requested."}, "finish_reason": "stop"}], "usage": {"prompt_tokens": 150, "completion_tokens": 75, "total_tokens": 225}}"#);

    let openai_response = response(raw);

    let anthropic = AnthropicMessage::from(openai_response);

    assert_eq!(anthropic.id, "chatcmpl-abc123");
    assert_eq!(anthropic.message_type, "message");
    assert_eq!(anthropic.model, "qwen3-coder");
    assert_eq!(anthropic.stop_reason, Some("end_turn".to_string()));
    assert_eq!(anthropic.usage.input_tokens, 150);
    assert_eq!(anthropic.usage.output_tokens, 75);

    match &anthropic.content[0] {
        AnthropicContentBlock::Text { text } => {
            assert_eq!(text, "Here's the code you requested.");
        }
        _ => panic!("Expected text block"),
    }
}

#[test]
fn test_parse_anthropic_message_with_tool_use() {
    let raw = json(r#"{"id": "msg-tool-123", "type": "message", "role": "assistant", "content": [{"type": "tool_use", "id": "toolu_abc123", "name": "get_weather", "input": {"location": "Paris", "unit": "celsius"}}], "model": "test-model", "stop_reason": "tool_use", "usage": {"input_tokens": 100, "output_tokens": 50}}"#);

    let msg = read_message(raw);
    assert_eq!(msg.id, "msg-tool-123");
    assert_eq!(msg.stop_reason, Some("tool_use".to_string()));
    assert_eq!(msg.content.len(), 1);

    match &msg.content[0] {
        AnthropicContentBlock::ToolUse { id, name, input } => {
            assert_eq!(id, "toolu_abc123");
            assert_eq!(name, "get_weather");
            assert_eq!(text(input.ix("location")), "Paris");
            assert_eq!(text(input.ix("unit")), "celsius");
        }
        _ => panic!("Expected tool_use block"),
    }
}

#[test]
fn test_anthropic_tool_use_to_openai_conversion() {
    let anthropic_msg = AnthropicMessage {
        id: "msg-tool-456".to_string(),
        message_type: "message".to_string(),
        role: "assistant".to_string(),
        content: vec![AnthropicContentBlock::ToolUse {
            id: "toolu_xyz789".to_string(),
            name: "calculate".to_string(),
            input: json(r#"{"x": 5, "y": 3, "operation": "add"}"#),
        }],
        model: "test-model".to_string(),
        stop_reason: Some("tool_use".to_string()),
        stop_sequence: None,
        usage: AnthropicUsage {
            input_tokens: 50,
            output_tokens: 25,
        },
    };

    let openai_response = ChatCompletionResponse::from(anthropic_msg);
    assert_eq!(openai_response.id, "msg-tool-456");
    assert_eq!(openai_response.choices[0].finish_reason, Some("tool_calls".to_string()));

    let tool_calls = openai_response.choices[0]
        .message
        .as_ref()
        .unwrap()
        .tool_calls
        .as_ref()
        .unwrap();

    assert_eq!(tool_calls.len(), 1);
    assert_eq!(tool_calls[0].id, Some("toolu_xyz789".to_string()));
    assert_eq!(tool_calls[0].function.name, "calculate");

    let args = Json::parse(&tool_calls[0].function.arguments).unwrap();
    assert_eq!(args.ix("x").as_u64(), Some(5));
    assert_eq!(args.ix("y").as_u64(), Some(3));
    assert_eq!(text(args.ix("operation")), "add");
}

#[test]
fn test_openai_tool_calls_to_anthropic_conversion() {
    let openai_response = ChatCompletionResponse {
        id: "chatcmpl-tool-789".to_string(),
        object: "chat.completion".to_string(),
        created: 1234567890,
        model: "test-model".to_string(),
        choices: vec![Choice {
            index: 0,
            message: Some(ResponseMessage {
                role: "assistant".to_string(),
                content: None,
                tool_calls: Some(vec![ToolCall {
                    id: Some("call_abc123".to_string()),
                    call_type: Some("function".to_string()),
                    index: Some(0),
                    function: FunctionCall {
                        name: "search".to_string(),
                        arguments: r#"{"query":"weather","limit":5}"#.to_string(),
                    },
                }]),
                reasoning_text: None,
                reasoning_opaque: None,
            }),
            delta: None,
            finish_reason: Some("tool_calls".to_string()),
        }],
        usage: Some(Usage {
            prompt_tokens: 75,
            completion_tokens: 35,
            total_tokens: 110,
            completion_tokens_details: None,
        }),
        timings: None,
    };

    let anthropic = AnthropicMessage::from(openai_response);
    assert_eq!(anthropic.id, "chatcmpl-tool-789");
    assert_eq!(anthropic.stop_reason, Some("tool_use".to_string()));
    assert_eq!(anthropic.content.len(), 1);

    match &anthropic.content[0] {
        AnthropicContentBlock::ToolUse { id, name, input } => {
            assert_eq!(id, "call_abc123");
            assert_eq!(name, "search");
            assert_eq!(text(input.ix("query")), "weather");
            assert_eq!(input.ix("limit").as_u64(), Some(5));
        }
        _ => panic!("Expected tool_use block"),
    }
}

#[test]
fn test_anthropic_mixed_content_with_tool_use() {
    let raw = json(r#"{"id": "msg-mixed-123", "type": "message", "role": "assistant", "content": [{"type": "text", "text": "Let me check the weather for you."}, {"type": "tool_use", "id": "toolu_weather_1", "name": "get_weather", "input": {"location": "London"}}], "model": "test-model", "stop_reason": "tool_use", "usage": {"input_tokens": 80, "output_tokens": 40}}"#);

    let msg = read_message(raw);
    assert_eq!(msg.content.len(), 2);

    match &msg.content[0] {
        AnthropicContentBlock::Text { text } => {
            assert_eq!(text, "Let me check the weather for you.");
        }
        _ => panic!("Expected text block first"),
    }

    match &msg.content[1] {
        AnthropicContentBlock::ToolUse { id, name, .. } => {
            assert_eq!(id, "toolu_weather_1");
            assert_eq!(name, "get_weather");
        }
        _ => panic!("Expected tool_use block second"),
    }

    let openai_response = ChatCompletionResponse::from(msg);
    let message = openai_response.choices[0].message.as_ref().unwrap();

    assert_eq!(message.content, Some("Let me check the weather for you.".to_string()));
    assert!(message.tool_calls.is_some());
    assert_eq!(message.tool_calls.as_ref().unwrap().len(), 1);
}

#[test]
fn test_parse_anthropic_message_with_tool_result() {
    let raw = json(r#"{"id": "msg-result-123", "type": "message", "role": "user", "content": [{"type": "tool_result", "tool_use_id": "toolu_abc123", "content": "The weather in Paris is 22°C and sunny."}], "model": "test-model", "usage": {"input_tokens": 50, "output_tokens": 0}}"#);

    let msg = read_message(raw);
    assert_eq!(msg.content.len(), 1);

    match &msg.content[0] {
        AnthropicContentBlock::ToolResult {
            tool_use_id,
            content,
            is_error,
        } => {
            assert_eq!(tool_use_id, "toolu_abc123");
            assert_eq!(content.as_str(), Some("The weather in Paris is 22°C and sunny."));
            assert_eq!(*is_error, None);
        }
        _ => panic!("Expected tool_result block"),
    }
}

#[test]
fn test_anthropic_message_without_content_parses() {
    let raw = json(r#"{"id": "msg-no-content", "type": "message", "role": "assistant", "model": "test-model", "usage": {"input_tokens": 3, "output_tokens": 1}}"#);
    let msg = read_message(raw);
    assert!(msg.content.is_empty());

    let resp = ChatCompletionResponse::from(msg);
    assert_eq!(
        resp.choices[0].message.as_ref().unwrap().content,
        None,
        "empty content vec must convert to None content, not Some(\"\")"
    );
}

#[test]
fn test_absent_usage_converts_to_zeroed_openai_usage() {
    let raw = json(r#"{"id": "msg-zero", "type": "message", "role": "assistant", "content": [{"type": "text", "text": "hi"}], "model": "m"}"#);
    let msg = read_message(raw);
    let resp = ChatCompletionResponse::from(msg);
    let usage = resp.usage.unwrap();
    assert_eq!((usage.prompt_tokens, usage.completion_tokens, usage.total_tokens), (0, 0, 0));
}

fn assistant_msg(content: Vec<AnthropicContentBlock>) -> AnthropicMessage {
    AnthropicMessage {
        id: "msg-parts".to_string(),
        message_type: "message".to_string(),
        role: "assistant".to_string(),
        content,
        model: "m".to_string(),
        stop_reason: None,
        stop_sequence: None,
        usage: AnthropicUsage::default(),
    }
}

#[test]
fn test_thinking_signature_maps_to_reasoning_opaque_when_present() {
    let msg = assistant_msg(vec![
        AnthropicContentBlock::Thinking {
            thinking: "step one".to_string(),
            signature: Some("SIG_ABC".to_string()),
        },
        AnthropicContentBlock::Thinking {
            thinking: "step two".to_string(),
            signature: None,
        },
    ]);
    let resp = ChatCompletionResponse::from(msg);
    let message = resp.choices[0].message.as_ref().unwrap();
    assert_eq!(message.content, None, "thinking must not leak into content");
    assert_eq!(
        message.reasoning_text,
        Some("step one\nstep two".to_string()),
        "multiple thinking blocks join with newline, matching the content joiner"
    );
    assert_eq!(message.reasoning_opaque, Some("SIG_ABC".to_string()));

    let raw = json(r#"{"id": "msg-nosig", "type": "message", "role": "assistant", "model": "m", "content": [{"type": "thinking", "thinking": "bare"}]}"#);
    let msg = read_message(raw);
    let resp = ChatCompletionResponse::from(msg);
    let message = resp.choices[0].message.as_ref().unwrap();
    assert_eq!(message.reasoning_text, Some("bare".to_string()));
    assert_eq!(message.reasoning_opaque, None);
}

#[test]
fn test_tool_result_array_parts_join_text_fields_non_text_skipped() {
    let array_content = json(r#"[{"type": "text", "text": "a"}, {"type": "image", "x": 1}, {"type": "text", "text": "b"}]"#);
    let msg = assistant_msg(vec![AnthropicContentBlock::ToolResult {
        tool_use_id: "toolu_1".to_string(),
        content: array_content,
        is_error: None,
    }]);
    let resp = ChatCompletionResponse::from(msg);
    assert_eq!(resp.choices[0].message.as_ref().unwrap().content, Some("a\nb".to_string()));

    let msg = assistant_msg(vec![AnthropicContentBlock::ToolResult {
        tool_use_id: "toolu_2".to_string(),
        content: json(r#""plain""#),
        is_error: None,
    }]);
    let resp = ChatCompletionResponse::from(msg);
    assert_eq!(resp.choices[0].message.as_ref().unwrap().content, Some("plain".to_string()));

    let msg = assistant_msg(vec![AnthropicContentBlock::ToolResult {
        tool_use_id: "toolu_3".to_string(),
        content: json(r#"[{"type": "image"}]"#),
        is_error: None,
    }]);
    let resp = ChatCompletionResponse::from(msg);
    assert_eq!(resp.choices[0].message.as_ref().unwrap().content, None);
}

#[test]
fn test_other_block_preserves_nested_arrays_unicode_and_all_keys() {
    let block = json(r#"{"type": "weird_block", "nested": [1, {"中": "文"}, [true, null]], "emoji": "🤖", "z_key": 1, "a_key": 2}"#);
    let b = AnthropicContentBlock::from_json(block.clone());
    assert!(matches!(&b, AnthropicContentBlock::Other(v) if v == &block));
    let out = b.to_json();
    assert_eq!(out, block);
    for key in ["type", "nested", "emoji", "z_key", "a_key"] {
        assert!(out.get(key).is_some(), "original key {key} lost: {out:?}");
    }
}

#[test]
fn test_known_tag_with_shape_mismatch_falls_to_other() {
    let raw = json(r#"{"type": "text", "unexpected": true}"#);
    let b = AnthropicContentBlock::from_json(raw.clone());
    assert!(matches!(&b, AnthropicContentBlock::Other(v) if v == &raw));
}

#[test]
fn test_anthropic_message_with_unknown_block_parses_and_converts_without_panic() {
    let msg = read_message(json(r#"{"id": "msg-unknown", "type": "message", "role": "assistant", "model": "m", "content": [{"type": "text", "text": "hi"}, {"type": "advisor_tool_result", "tool_use_id": "x", "content": "hi"}]}"#));
    assert!(matches!(&msg.content[1], AnthropicContentBlock::Other(_)));

    let resp = ChatCompletionResponse::from(msg);
    assert_eq!(resp.choices[0].message.as_ref().unwrap().content, Some("hi".to_string()));
}

#[test]
fn test_unknown_content_block_parses_as_other_and_round_trips() {
    let block = json(r#"{"type": "advisor_tool_result", "tool_use_id": "x", "content": "hi"}"#);
    let content = [json(r#"{"type": "text", "text": "hi"}"#), block.clone()];
    let blocks: Vec<AnthropicContentBlock> =
        content.iter().map(|b| AnthropicContentBlock::from_json(b.clone())).collect();
    assert_eq!(blocks.len(), 2);
    match &blocks[1] {
        AnthropicContentBlock::Other(v) => assert_eq!(v, &block),
        other => panic!("expected Other, got {other:?}"),
    }

    assert_eq!(blocks[1].to_json(), block);
    assert_eq!(text(blocks[0].to_json().ix("type")), "text");
}

fn members(pairs: Vec<(&str, Json)>) -> Json {
    Json::Object(pairs.into_iter().map(|(k, v)| (k.to_string(), v)).collect())
}

fn str_json(s: &str) -> Json {
    Json::Str(s.to_string())
}

#[test]
fn test_known_blocks_still_serialize_byte_identical_to_derive_form() {
    let t = AnthropicContentBlock::from_json(json(r#"{"type":"text","text":"hi"}"#));
    assert!(matches!(&t, AnthropicContentBlock::Text { text } if text == "hi"));
    assert_eq!(t.to_json(), members(vec![("type", str_json("text")), ("text", str_json("hi"))]));

    let th = AnthropicContentBlock::from_json(json(r#"{"type":"thinking","thinking":"x"}"#));
    assert_eq!(
        th.to_json(),
        members(vec![("type", str_json("thinking")), ("thinking", str_json("x")), ("signature", Json::Null)])
    );

    let tr = AnthropicContentBlock::from_json(json(r#"{"type":"tool_result","tool_use_id":"t","content":"c"}"#));
    assert_eq!(
        tr.to_json(),
        members(vec![
            ("type", str_json("tool_result")),
            ("tool_use_id", str_json("t")),
            ("content", str_json("c")),
            ("is_error", Json::Null)
        ])
    );
}

#[test]
fn every_known_block_is_read_back() {
    let blocks = vec![
        AnthropicContentBlock::Text { text: "日本".to_string() },
        AnthropicContentBlock::Thinking { thinking: "t".to_string(), signature: Some("sig".to_string()) },
        AnthropicContentBlock::Thinking { thinking: "t".to_string(), signature: None },
        AnthropicContentBlock::ToolUse { id: "i".to_string(), name: "n".to_string(), input: json("[1, null]") },
        AnthropicContentBlock::ToolResult {
            tool_use_id: "u".to_string(),
            content: json(r#"{"a": 1}"#),
            is_error: Some(true),
        },
        AnthropicContentBlock::ToolResult { tool_use_id: "u".to_string(), content: Json::Null, is_error: None },
    ];
    for block in blocks {
        assert_eq!(AnthropicContentBlock::from_json(block.to_json()), block);
    }
}

#[test]
fn a_block_of_a_wrong_shape_is_kept_whole() {
    for raw in [
        r#"{"type": "thinking", "thinking": "x", "signature": 3}"#,
        r#"{"type": "tool_use", "id": "i", "name": "n"}"#,
        r#"{"type": "tool_result", "tool_use_id": "t", "content": 1, "is_error": "yes"}"#,
        r#"{"type": 0, "text": "hi"}"#,
        r#"{"text": "hi"}"#,
        r#"["text"]"#,
        r#"["text", "hi", 1]"#,
        "\"text\"",
        "null",
    ] {
        let block = AnthropicContentBlock::from_json(json(raw));
        assert_eq!(block, AnthropicContentBlock::Other(json(raw)), "{raw}");
        assert_eq!(block.to_json(), json(raw));
    }
}

#[test]
fn the_fields_of_a_block_may_be_listed_behind_its_tag() {
    let block = AnthropicContentBlock::from_json(json(r#"["text", "hi"]"#));
    assert_eq!(block, AnthropicContentBlock::Text { text: "hi".to_string() });
    let block = AnthropicContentBlock::from_json(json(r#"["thinking", "hm"]"#));
    assert_eq!(block, AnthropicContentBlock::Thinking { thinking: "hm".to_string(), signature: None });
    let block = AnthropicContentBlock::from_json(json(r#"["tool_use", "i", "n", {}]"#));
    assert_eq!(
        block,
        AnthropicContentBlock::ToolUse { id: "i".to_string(), name: "n".to_string(), input: json("{}") }
    );
}

#[test]
fn test_function_call_null_arguments_deserializes_to_empty_object() {
    let call = FunctionCall { name: "f".to_string(), arguments: normalize_arguments(Json::Null) };
    assert_eq!(call.arguments, "{}");
}

#[test]
fn test_function_call_absent_arguments_defaults_to_empty_object() {
    let call = FunctionCall { name: "f".to_string(), arguments: default_empty_args() };
    assert_eq!(call.arguments, "{}");
}

#[test]
fn test_function_call_arguments_string_variant_round_trips_unchanged() {
    let raw = json(r#"{"name":"f","arguments":"{\"a\":1}"}"#);
    let call =
        FunctionCall { name: "f".to_string(), arguments: normalize_arguments(raw.ix("arguments").clone()) };
    assert_eq!(call.arguments, r#"{"a":1}"#);
}

#[test]
fn test_function_call_arguments_object_variant_normalizes_to_string() {
    let raw = json(r#"{"name":"f","arguments":{}}"#);
    let call =
        FunctionCall { name: "f".to_string(), arguments: normalize_arguments(raw.ix("arguments").clone()) };
    assert_eq!(call.arguments, "{}");
}

#[test]
fn arguments_of_other_types_are_printed() {
    assert_eq!(normalize_arguments(json(r#"{"b": [1, 2.5, true], "a": "ü"}"#)), r#"{"a":"ü","b":[1,2.5,true]}"#);
    assert_eq!(normalize_arguments(json("-7")), "-7");
}

#[test]
fn defaults_of_the_api_types() {
    assert_eq!(default_chat_completion_object(), "chat.completion");
    let delta = Delta::default();
    assert!(delta.role.is_none() && delta.content.is_none() && delta.tool_calls.is_none());
    assert!(delta.reasoning_text.is_none() && delta.reasoning_opaque.is_none());
    let usage = AnthropicUsage::default();
    assert_eq!((usage.input_tokens, usage.output_tokens), (0, 0));
}

fn call(id: Option<&str>, arguments: &str) -> ToolCall {
    ToolCall {
        id: id.map(str::to_string),
        call_type: Some("function".to_string()),
        index: None,
        function: FunctionCall { name: "f".to_string(), arguments: arguments.to_string() },
    }
}

fn reply(content: Option<&str>, calls: Option<Vec<ToolCall>>, reason: Option<&str>) -> ChatCompletionResponse {
    ChatCompletionResponse {
        id: "r".to_string(),
        object: "chat.completion".to_string(),
        created: 0,
        model: "m".to_string(),
        choices: vec![Choice {
            index: 0,
            message: Some(ResponseMessage {
                role: "assistant".to_string(),
                content: content.map(str::to_string),
                tool_calls: calls,
                reasoning_text: None,
                reasoning_opaque: None,
            }),
            delta: None,
            finish_reason: reason.map(str::to_string),
        }],
        usage: None,
        timings: None,
    }
}

#[test]
fn a_call_without_an_id_gets_a_fresh_one() {
    let resp = reply(None, Some(vec![call(None, "{}"), call(None, "{}")]), Some("tool_calls"));
    let msg = AnthropicMessage::from(resp);
    let ids: Vec<String> = msg
        .content
        .iter()
        .map(|b| match b {
            AnthropicContentBlock::ToolUse { id, .. } => id.clone(),
            other => panic!("expected a tool use, got {other:?}"),
        })
        .collect();
    assert_eq!(ids.len(), 2);
    assert!(ids.iter().all(|id| id.starts_with("toolu_") && id.len() > "toolu_".len()));
    assert_ne!(ids[0], ids[1]);
}

#[test]
fn given_ids_stand_where_a_call_has_none() {
    let resp = reply(None, Some(vec![call(None, r#"{"a":1}"#), call(Some("own"), "not json")]), None);
    let msg = AnthropicMessage::from_with_ids(resp, &["toolu_1".to_string(), "toolu_2".to_string()]);
    match &msg.content[0] {
        AnthropicContentBlock::ToolUse { id, input, .. } => {
            assert_eq!(id, "toolu_1");
            assert_eq!(*input, json(r#"{"a":1}"#));
        }
        other => panic!("expected a tool use, got {other:?}"),
    }
    match &msg.content[1] {
        AnthropicContentBlock::ToolUse { id, .. } => assert_eq!(id, "own"),
        other => panic!("expected a tool use, got {other:?}"),
    }
}

#[test]
fn a_response_without_content_still_has_a_block() {
    let msg = AnthropicMessage::from(reply(None, None, Some("stop")));
    assert_eq!(msg.content, vec![AnthropicContentBlock::Text { text: String::new() }]);
}

#[test]
fn tool_calls_are_numbered_in_order() {
    let use_of = |id: &str| AnthropicContentBlock::ToolUse {
        id: id.to_string(),
        name: "f".to_string(),
        input: json(r#"{"a": 1}"#),
    };
    let resp = ChatCompletionResponse::from(assistant_msg(vec![
        use_of("a"),
        AnthropicContentBlock::Text { text: "t".to_string() },
        use_of("b"),
    ]));
    let calls = resp.choices[0].message.as_ref().unwrap().tool_calls.as_ref().unwrap();
    assert_eq!(calls.iter().map(|c| c.index).collect::<Vec<_>>(), vec![Some(0), Some(1)]);
    assert_eq!(calls[1].id.as_deref(), Some("b"));
    assert_eq!(calls[0].function.arguments, r#"{"a":1}"#);
}

#[test]
fn a_tool_use_id_has_its_prefix() {
    assert_eq!(tool_use_id("abc"), "toolu_abc");
}

#[test]
fn tool_uses_survive_the_round_trip() {
    let uses = |id: &str, input: &str| AnthropicContentBlock::ToolUse {
        id: id.to_string(),
        name: "f".to_string(),
        input: json(input),
    };
    let blocks = || {
        vec![
            uses("a", r#"{"z": [1, -2, null, {"k": "日\n\"x\""}], "b": true, "big": 18446744073709551615}"#),
            AnthropicContentBlock::Text { text: "between".to_string() },
            uses("b", "[]"),
            uses("c", "\"text\""),
        ]
    };
    let back = AnthropicMessage::from(ChatCompletionResponse::from(assistant_msg(blocks())));
    let only_uses = |all: Vec<AnthropicContentBlock>| {
        all.into_iter().filter(|b| matches!(b, AnthropicContentBlock::ToolUse { .. })).collect::<Vec<_>>()
    };
    assert_eq!(only_uses(back.content), only_uses(blocks()));
}
