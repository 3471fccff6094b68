use llama_proxy::api::openai::{ChatCompletionRequest, ContentPart, Message, MessageContent, ToolChoice};
use llama_proxy::augment::{extract_response_text, extract_user_content, inject_augmentation, inject_augmentation_value};
use llama_proxy::json::Json;
use llama_proxy::text_map::TextMap;

fn json(text: &str) -> Json {
    Json::parse(text).unwrap()
}

trait Key {
    fn find<'a>(&self, v: &'a Json) -> Option<&'a Json>;
}

impl Key for &str {
    fn find<'a>(&self, v: &'a Json) -> Option<&'a Json> {
        v.get(self)
    }
}

impl Key for usize {
    fn find<'a>(&self, v: &'a Json) -> Option<&'a Json> {
        v.at(*self)
    }
}

trait Look {
    fn ix(&self, key: impl Key) -> &Json;
}

impl Look for Json {
    fn ix(&self, key: impl Key) -> &Json {
        key.find(self).expect("the value must be there")
    }
}

fn text(v: &Json) -> &str {
    v.as_str().expect("the value must be a text")
}

fn make_request(messages: Vec<Message>) -> ChatCompletionRequest {
    ChatCompletionRequest {
        model: "test".to_string(),
        messages,
        temperature: None,
        top_p: None,
        max_tokens: None,
        stream: None,
        tools: None,
        tool_choice: None,
        stop: None,
        frequency_penalty: None,
        presence_penalty: None,
        user: None,
        reasoning_effort: None,
        verbosity: None,
        thinking_budget: None,
        extra: TextMap::new(),
    }
}

fn user_msg(content: &str) -> Message {
    Message {
        role: "user".to_string(),
        content: Some(MessageContent::Text(content.to_string())),
        name: None,
        tool_calls: None,
        tool_call_id: None,
    }
}

fn assistant_msg(content: &str) -> Message {
    Message {
        role: "assistant".to_string(),
        content: Some(MessageContent::Text(content.to_string())),
        name: None,
        tool_calls: None,
        tool_call_id: None,
    }
}

#[test]
fn test_extract_user_content_simple() {
    let msgs = vec![user_msg("Hello"), assistant_msg("Hi"), user_msg("World")];
    let result = extract_user_content(&msgs);
    assert_eq!(result, vec!["Hello", "World"]);
}

#[test]
fn test_extract_user_content_empty() {
    let msgs: Vec<Message> = vec![];
    let result = extract_user_content(&msgs);
    assert!(result.is_empty());
}

#[test]
fn test_inject_augmentation_last_user() {
    let req = make_request(vec![user_msg("Hello"), assistant_msg("Hi"), user_msg("World")]);
    let result = inject_augmentation(req, "req_prompt", "aug_text").unwrap();

    let last = result.messages.last().unwrap();
    if let Some(MessageContent::Text(t)) = &last.content {
        assert!(t.contains("World"));
        assert!(t.contains("req_prompt"));
        assert!(t.contains("aug_text"));
    } else {
        panic!("Expected text content");
    }
}

#[test]
fn test_inject_augmentation_only_user() {
    let req = make_request(vec![user_msg("Hello, Clara")]);
    let result = inject_augmentation(req, "my_prompt", "extra_info").unwrap();

    if let Some(MessageContent::Text(t)) = &result.messages[0].content {
        assert!(t.starts_with("Hello, Clara"));
        assert!(t.contains("my_prompt"));
        assert!(t.contains("extra_info"));
    } else {
        panic!("Expected text content");
    }
}

#[test]
fn test_extract_response_text_openai() {
    let body = json(r#"{"choices": [{"message": {"role": "assistant", "content": "Hello guy!!!"}}]}"#);
    let result = extract_response_text(&body).unwrap();
    assert_eq!(result, "Hello guy!!!");
}

#[test]
fn test_extract_response_text_anthropic() {
    let body = json(r#"{"id": "msg_01XFDUDYJgAACzvnptvVoYEL", "type": "message", "role": "assistant", "content": [{"type": "text", "text": "Hello guy!!!"}]}"#);
    let result = extract_response_text(&body).unwrap();
    assert_eq!(result, "Hello guy!!!");
}

#[test]
fn test_extract_response_text_unknown() {
    let body = json(r#"{"foo": "bar"}"#);
    assert!(extract_response_text(&body).is_err());
}

fn inject(json: Json) -> Result<Json, String> {
    inject_augmentation_value(json, "REQ_PROMPT", "AUG_TEXT")
}

fn fixture_unknown_fields() -> Json {
    json(r#"{"model": "test-model", "x_custom": {"deep": {"nested": [1, 2, 3], "uni": "日本語"}}, "messages": [{"role": "system", "content": "SYS PROMPT", "x_sys_meta": {"k": [1, 2]}}, {"role": "user", "content": [{"type": "text", "text": "hello", "x_part_meta": {"p": true}}], "x_msg_level": "keep-me"}], "stop": ["END"], "top_k": 40}"#)
}

#[test]
fn value_injection_keeps_unknown_fields_when_typed_roundtrip_loses_them() {
    let input = fixture_unknown_fields();

    let typed = inject_augmentation(
        make_request(vec![
            Message { role: "system".to_string(), ..user_msg("SYS PROMPT") },
            Message {
                content: Some(MessageContent::Parts(vec![ContentPart {
                    content_type: "text".to_string(),
                    text: Some("hello".to_string()),
                    image_url: None,
                }])),
                ..user_msg("")
            },
        ]),
        "REQ_PROMPT",
        "AUG_TEXT",
    )
    .unwrap();
    match &typed.messages[1].content {
        Some(MessageContent::Parts(parts)) => {
            assert_eq!(parts[0].text.as_deref(), Some("hello\n\nREQ_PROMPT\n\nAUG_TEXT"));
        }
        other => panic!("parts must stay parts, got {other:?}"),
    }

    let output = inject(input.clone()).unwrap();

    let bytes = |v: &Json| v.print();
    assert_eq!(bytes(input.ix("x_custom")), bytes(output.ix("x_custom")), "unknown top-level key");
    assert_eq!(
        bytes(input.ix("messages").ix(0).ix("x_sys_meta")),
        bytes(output.ix("messages").ix(0).ix("x_sys_meta")),
        "unknown system-message key"
    );
    assert_eq!(
        bytes(input.ix("messages").ix(1).ix("x_msg_level")),
        bytes(output.ix("messages").ix(1).ix("x_msg_level")),
        "unknown user-message key"
    );
    assert_eq!(
        bytes(input.ix("messages").ix(1).ix("content").ix(0).ix("x_part_meta")),
        bytes(output.ix("messages").ix(1).ix("content").ix(0).ix("x_part_meta")),
        "unknown content-part key"
    );

    let expected = json(&input.print().replace("\"hello\"", r#""hello\n\nREQ_PROMPT\n\nAUG_TEXT""#));
    assert_eq!(output, expected, "output must equal the input plus ONLY the injected block");
}

#[test]
fn value_injection_normalizes_string_stop_to_array_before_injection() {
    let output = inject(json(r#"{"model": "m", "messages": [{"role": "user", "content": "hi"}], "stop": "END"}"#))
    .unwrap();

    assert_eq!(output.ix("stop"), &json(r#"["END"]"#));
    assert_eq!(text(output.ix("messages").ix(0).ix("content")), "hi\n\nREQ_PROMPT\n\nAUG_TEXT");
}

#[test]
fn value_injection_normalizes_stop_even_without_user_message_and_cjk_stays_byte_safe() {
    let output = inject(json(r#"{"model": "m", "messages": [{"role": "assistant", "content": "prior"}], "stop": "終り"}"#))
    .unwrap();

    assert_eq!(
        output.ix("stop").print(),
        json(r#"["終り"]"#).print()
    );
}

#[test]
fn value_injection_leaves_non_string_stop_untouched() {
    let array = inject(json(r#"{"model": "m", "messages": [{"role": "user", "content": "hi"}], "stop": ["a", "b"]}"#))
    .unwrap();
    assert_eq!(array.ix("stop"), &json(r#"["a", "b"]"#));

    let absent = inject(json(r#"{"model": "m", "messages": [{"role": "user", "content": "hi"}]}"#))
    .unwrap();
    assert!(absent.get("stop").is_none(), "no stop key must be invented");

    let scalar = inject(json(r#"{"model": "m", "messages": [{"role": "user", "content": "hi"}], "stop": 5}"#))
    .unwrap();
    assert_eq!(scalar.ix("stop"), &json(r#"5"#));
}

#[test]
fn value_injection_string_content_concat_is_exact() {
    let output = inject(json(r#"{"model": "m", "messages": [{"role": "user", "content": "first"}, {"role": "assistant", "content": "reply"}, {"role": "user", "content": "World"}]}"#))
    .unwrap();

    assert_eq!(text(output.ix("messages").ix(2).ix("content")), "World\n\nREQ_PROMPT\n\nAUG_TEXT");
    assert_eq!(text(output.ix("messages").ix(0).ix("content")), "first",
        "only the LAST user message is touched"
    );
    assert_eq!(text(output.ix("messages").ix(1).ix("content")), "reply");
}

#[test]
fn value_injection_array_content_appends_to_last_text_part_and_keeps_part_unknowns() {
    let input = json(r#"{"model": "m", "messages": [{"role": "user", "content": [{"type": "text", "text": "A"}, {"type": "image_url", "image_url": {"url": "u"}, "x_meta": 1}, {"type": "text", "text": "B"}]}]}"#);

    let output = inject(input.clone()).unwrap();

    let parts = output.ix("messages").ix(0).ix("content").as_array().unwrap();
    assert_eq!(text(parts[0].ix("text")), "A");
    assert_eq!(
        parts[1].print(),
        input.ix("messages").ix(0).ix("content").ix(1).print(),
        "untouched parts stay byte-identical including unknown keys"
    );
    assert_eq!(text(parts[2].ix("text")), "B\n\nREQ_PROMPT\n\nAUG_TEXT");
}

#[test]
fn value_injection_array_without_text_parts_pushes_new_text_part() {
    let output = inject(json(r#"{"model": "m", "messages": [{"role": "user", "content": [{"type": "image_url", "image_url": {"url": "u"}}]}]}"#))
    .unwrap();
    let parts = output.ix("messages").ix(0).ix("content").as_array().unwrap();
    assert_eq!(parts.len(), 2);
    assert_eq!(parts[1], json(r#"{"type": "text", "text": "\n\nREQ_PROMPT\n\nAUG_TEXT"}"#)
    );

    let empty = inject(json(r#"{"model": "m", "messages": [{"role": "user", "content": []}]}"#))
    .unwrap();
    assert_eq!(empty.ix("messages").ix(0).ix("content").as_array().unwrap().len(), 1);
}

#[test]
fn value_injection_text_part_with_null_text_drops_block_as_typed_did() {
    let input = json(r#"{"model": "m", "messages": [{"role": "user", "content": [{"type": "text", "text": null}]}]}"#);

    let output = inject(input.clone()).unwrap();

    assert_eq!(
        output.ix("messages").ix(0).print(),
        input.ix("messages").ix(0).print(),
        "a text part without a text drops the block"
    );
}

#[test]
fn value_injection_absent_or_null_content_becomes_block_string() {
    let absent = inject(json(r#"{"model": "m", "messages": [{"role": "user"}]}"#)).unwrap();
    assert_eq!(text(absent.ix("messages").ix(0).ix("content")), "\n\nREQ_PROMPT\n\nAUG_TEXT");

    let null = inject(json(r#"{"model": "m", "messages": [{"role": "user", "content": null}]}"#))
    .unwrap();
    assert_eq!(text(null.ix("messages").ix(0).ix("content")), "\n\nREQ_PROMPT\n\nAUG_TEXT");
}

#[test]
fn repeat_value_injection_appends_second_block_no_replace_semantics_today() {
    let once = inject(json(r#"{"model": "m", "messages": [{"role": "user", "content": "X"}]}"#))
    .unwrap();
    let twice = inject(once).unwrap();

    assert_eq!(text(twice.ix("messages").ix(0).ix("content")), "X\n\nREQ_PROMPT\n\nAUG_TEXT\n\nREQ_PROMPT\n\nAUG_TEXT",
        "repeat injection duplicates the block"
    );
}

#[test]
fn value_injection_json_braces_in_augment_text_do_not_corrupt_structure() {
    let evil = "{\"evil\":\"}{\",\"nested\":{\"a\":[1,2]}}";
    let output = inject_augmentation_value(
        json(r#"{"model": "m", "x_custom": {"keep": [1, {"y": null}]}, "messages": [{"role": "user", "content": "base"}]}"#),
        "{{{{",
        evil,
    )
    .unwrap();

    assert_eq!(text(output.ix("messages").ix(0).ix("content")), format!("base\n\n{}\n\n{}", "{{{{", evil));
    assert_eq!(output.ix("x_custom"), &json(r#"{"keep": [1, {"y": null}]}"#));
    let reparsed = Json::parse(&output.print()).unwrap();
    assert_eq!(reparsed.ix("messages").ix(0).ix("content"), output.ix("messages").ix(0).ix("content"));
}

#[test]
fn value_injection_cjk_prompt_augment_and_content_are_byte_safe() {
    let output = inject_augmentation_value(
        json(r#"{"model": "m", "messages": [{"role": "user", "content": "こんにちは"}]}"#),
        "日本語プロンプト",
        "拡張コンテキスト🚀",
    )
    .unwrap();

    assert_eq!(
        output.ix("messages").ix(0).ix("content").print(),
        json(r#""こんにちは\n\n日本語プロンプト\n\n拡張コンテキスト🚀""#).print()
    );
}

#[test]
fn value_injection_rejects_bodies_the_typed_gate_rejected() {
    assert!(inject(json(r#""not an object""#)).is_err());
    assert!(inject(json(r#"[1, 2, 3]"#)).is_err());
    assert!(inject(json(r#"{"model": "m", "messages": "nope"}"#)).is_err());
    assert!(inject(json(r#"{"model": "m"}"#)).is_err(), "missing messages key");
    assert!(
        inject(json(r#"{"model": "m", "messages": [{"role": "user", "content": 5}]}"#)).is_err(),
        "number content is rejected"
    );
    assert!(
        inject(json(r#"{"model": "m", "messages": [{"role": "user", "content": {"k": 1}}]}"#)).is_err(),
        "object content is rejected"
    );
    assert!(
        inject(json(r#"{"model": "m", "messages": ["str", {"role": "user", "content": {"n": 1}}]}"#)).is_err(),
        "the last message of the user decides"
    );
}

#[test]
fn value_injection_empty_messages_stays_noop() {
    let input = json(r#"{"model": "m", "messages": []}"#);
    let output = inject(input.clone()).unwrap();
    assert_eq!(output, input);
}

#[test]
fn no_user_message_pushes_system_message_and_never_touches_messages_zero() {
    let input = json(r#"{"model": "m", "messages": [{"role": "system", "content": "IMPORTANT USER PROMPT"}, {"role": "assistant", "content": "prior turn"}]}"#);

    let output = inject(input.clone()).unwrap();

    assert_eq!(
        output.ix("messages").ix(0).print(),
        input.ix("messages").ix(0).print(),
        "the user's system prompt at messages[0] must survive byte-identical"
    );
    let msgs = output.ix("messages").as_array().unwrap();
    assert_eq!(msgs.len(), 3, "augmentation goes into a NEW pushed system message");
    assert_eq!(msgs[2], json(r#"{"role": "system", "content": "\n\nREQ_PROMPT\n\nAUG_TEXT"}"#),
        "pushed at the tail with the same block string the append paths use"
    );
}

#[test]
fn no_user_with_non_string_first_content_pushes_system_instead_of_dropping_block() {
    let output = inject(json(r#"{"model": "m", "messages": [{"role": "assistant", "content": [{"type": "text", "text": "fine"}]}]}"#))
    .unwrap();

    assert_eq!(text(output.ix("messages").ix(0).ix("content").ix(0).ix("text")), "fine", "first message untouched");
    let msgs = output.ix("messages").as_array().unwrap();
    assert_eq!(msgs.len(), 2);
    assert_eq!(msgs[1], json(r#"{"role": "system", "content": "\n\nREQ_PROMPT\n\nAUG_TEXT"}"#)
    );
}

#[test]
fn user_message_at_index_zero_remains_the_injection_target_contract() {
    let output = inject(json(r#"{"model": "m", "messages": [{"role": "user", "content": "IMPORTANT USER PROMPT"}]}"#))
    .unwrap();

    assert_eq!(text(output.ix("messages").ix(0).ix("content")), "IMPORTANT USER PROMPT\n\nREQ_PROMPT\n\nAUG_TEXT",
        "a user message at index 0 is the target"
    );
    assert_eq!(output.ix("messages").as_array().unwrap().len(), 1, "no system message pushed");
}

#[test]
fn no_user_and_empty_messages_stays_noop_without_inventing_system_message() {
    let input = json(r#"{"model": "m", "messages": []}"#);
    assert_eq!(inject(input.clone()).unwrap(), input);
}

#[test]
fn fallback_no_longer_rejects_non_object_first_message_it_pushes_instead() {
    let output = inject(json(r#"{"model": "m", "messages": [[42]]}"#)).unwrap();
    let msgs = output.ix("messages").as_array().unwrap();
    assert_eq!(msgs.len(), 2, "the first message is not read");
    assert_eq!(text(msgs[1].ix("role")), "system");
}

#[test]
fn a_further_member_with_the_name_of_a_field_takes_its_place() {
    let mut request = make_request(vec![user_msg("Hello")]);
    for (key, value) in [
        ("model", r#""other""#),
        ("stop", r#""END""#),
        ("temperature", "0.5"),
        ("max_tokens", "7"),
        ("stream", "true"),
        ("user", "null"),
        ("thinking_budget", "9"),
        ("tool_choice", r#"{"type": "function", "function": {"name": "f"}}"#),
        ("tools", r#"[{"type": "function", "function": {"name": "f", "parameters": null}}]"#),
        ("top_k", "40"),
    ] {
        request.extra.insert(key.to_string(), json(value));
    }
    request.user = Some("u".to_string());
    let result = inject_augmentation(request, "p", "a").unwrap();
    assert_eq!(result.model, "other");
    assert_eq!(result.stop, Some(vec!["END".to_string()]));
    assert_eq!(result.temperature, Some(json("0.5")));
    assert_eq!((result.max_tokens, result.stream, result.thinking_budget), (Some(7), Some(true), Some(9)));
    assert_eq!(result.user, None);
    assert!(matches!(&result.tool_choice, Some(ToolChoice::Object(o)) if o.function.as_ref().unwrap().name == "f"));
    assert_eq!(result.tools.as_ref().unwrap()[0].function.parameters, Json::Null);
    assert_eq!(result.extra.len(), 1);
    assert_eq!(result.extra.get("top_k"), Some(&json("40")));
    assert!(matches!(&result.messages[0].content, Some(MessageContent::Text(t)) if t == "Hello\n\np\n\na"));
}

#[test]
fn messages_that_are_given_once_more_carry_the_block() {
    let mut request = make_request(vec![user_msg("first")]);
    let given = r#"[{"role": "user", "content": "second", "odd": 1}, ["assistant", "hi"],
        {"role": "assistant", "tool_calls": [{"function": {"name": "f", "arguments": {"a": 1}}}]}]"#;
    request.extra.insert("messages".to_string(), json(given));
    let result = inject_augmentation(request, "p", "a").unwrap();
    assert_eq!(result.messages.len(), 3);
    assert_eq!(result.messages[0], user_msg("second\n\np\n\na"));
    assert_eq!(result.messages[1].role, "assistant");
    assert_eq!(result.messages[2].tool_calls.as_ref().unwrap()[0].function.arguments, r#"{"a":1}"#);
    assert!(result.extra.is_empty());
}

#[test]
fn a_member_that_does_not_have_the_type_of_its_field_is_refused() {
    for (key, value) in [
        ("model", "null"),
        ("stop", "[1]"),
        ("max_tokens", "4294967296"),
        ("max_tokens", "-1"),
        ("temperature", r#""hot""#),
        ("tools", r#"[{"type": "function", "function": {"name": "f"}}]"#),
        ("tool_choice", r#"["function"]"#),
        ("messages", "{}"),
        ("messages", r#"[{"role": "user", "content": 5}]"#),
        ("messages", r#"[{"role": "user", "content": "x", "name": 5}]"#),
    ] {
        let mut request = make_request(vec![user_msg("Hello")]);
        request.extra.insert(key.to_string(), json(value));
        assert!(inject_augmentation(request, "p", "a").is_err(), "{key}: {value}");
    }
}
