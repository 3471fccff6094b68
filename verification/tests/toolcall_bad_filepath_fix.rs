use llama_proxy::fixes::json_scan::top_level_key_count;
use llama_proxy::fixes::{FixAction, FixError, FixLogLevel, ResponseFix, ToolcallBadFilepathFix};
use llama_proxy::json::Json;

fn json(text: &str) -> Json {
    Json::parse(text).unwrap()
}

trait Key {
    fn find<'a>(&self, v: &'a Json) -> Option<&'a Json>;
}

impl Key for &str {
    fn find<'a>(&self, v: &'a Json) -> Option<&'a Json> {
        v.get(self)
    }
}

impl Key for usize {
    fn find<'a>(&self, v: &'a Json) -> Option<&'a Json> {
        v.at(*self)
    }
}

trait Look {
    fn ix(&self, key: impl Key) -> &Json;
}

impl Look for Json {
    fn ix(&self, key: impl Key) -> &Json {
        key.find(self).expect("the value must be there")
    }
}

fn text(v: &Json) -> &str {
    v.as_str().expect("the value must be a text")
}

trait ToJson {
    fn to_json(self) -> Json;
}

impl ToJson for &str {
    fn to_json(self) -> Json {
        Json::Str(self.to_string())
    }
}

impl ToJson for Json {
    fn to_json(self) -> Json {
        self
    }
}

fn obj(members: Vec<(&str, Json)>) -> Json {
    let mut o = Json::Object(vec![]);
    for (k, v) in members {
        o.insert(k.to_string(), v);
    }
    o
}

fn arr(items: Vec<Json>) -> Json {
    Json::Array(items)
}


#[test]
fn test_fix_duplicate_filepath() {
    let fix = ToolcallBadFilepathFix::new();

    let malformed = r#"{"content":"code","filePath":"/path/to/file","filePath"/path/to/file"}"#;
    assert!(fix.is_malformed(malformed));

    let fixed = fix.fix_arguments(malformed).expect("truncation must repair");
    assert!(fix.is_valid_json(&fixed));
}

#[test]
fn test_valid_json_passthrough() {
    let fix = ToolcallBadFilepathFix::new();

    let valid = r#"{"content":"code","filePath":"/path/to/file"}"#;
    assert!(!fix.is_malformed(valid));

    let fixed = fix.fix_arguments(valid).expect("valid JSON round-trips");
    assert_eq!(fixed, valid);
}

#[test]
fn test_is_valid_json() {
    let fix = ToolcallBadFilepathFix::new();

    assert!(fix.is_valid_json("{}"));
    assert!(fix.is_valid_json("{\"key\": \"value\"}"));
    assert!(fix.is_valid_json("[]"));
    assert!(!fix.is_valid_json("invalid"));
    assert!(!fix.is_valid_json("{broken"));
}

#[test]
fn test_is_malformed() {
    let fix = ToolcallBadFilepathFix::new();

    assert!(!fix.is_malformed(r#"{"filePath": "/path"}"#));

    assert!(fix.is_malformed(r#"{"filePath": "/path" broken"#));

    assert!(!fix.is_malformed(r#"{"other": "value"}"#));
}

#[test]
fn test_fix_arguments_empty() {
    let fix = ToolcallBadFilepathFix::new();

    let empty = "{}";
    let fixed = fix.fix_arguments(empty).expect("valid JSON round-trips");
    assert_eq!(fixed, "{}");
}

#[test]
fn test_fix_arguments_non_ascii_filepath() {
    let fix = ToolcallBadFilepathFix::new();

    let malformed = r#"{"filePath":"/日本語/file.txt","extra":"dropped","filePath":"/日本語/file.txt"}"#;
    let fixed = fix.fix_arguments(malformed).expect("dup keys round-trip");
    assert!(
        fix.is_valid_json(&fixed),
        "fix_arguments panicked or produced invalid JSON for non-ASCII path: {fixed}"
    );

    let malformed2 = r#"{"filePath":"/über/lösung.rs","x":1,"filePath":"/über/lösung.rs"}"#;
    let fixed2 = fix.fix_arguments(malformed2).expect("dup keys round-trip");
    assert!(
        fix.is_valid_json(&fixed2),
        "fix_arguments panicked or produced invalid JSON for umlaut path: {fixed2}"
    );
}

#[test]
fn test_fix_arguments_complex_valid() {
    let fix = ToolcallBadFilepathFix::new();

    let valid = r#"{"content":"some code","filePath":"/home/user/file.txt"}"#;
    let fixed = fix.fix_arguments(valid).expect("valid JSON round-trips");
    assert!(fix.is_valid_json(&fixed));
}

#[test]
fn test_applies_no_choices() {
    let fix = ToolcallBadFilepathFix::new();

    let response = json(r#"{"other": "data"}"#);
    assert!(!fix.applies(&response));
}

#[test]
fn test_applies_no_tool_calls() {
    let fix = ToolcallBadFilepathFix::new();

    let response = json(r#"{"choices": [{"message": {"content": "Hello"}}]}"#);
    assert!(!fix.applies(&response));
}

#[test]
fn test_applies_valid_tool_call() {
    let fix = ToolcallBadFilepathFix::new();

    let response = json(r#"{"choices": [{"message": {"tool_calls": [{"function": {"name": "write", "arguments": "{\"content\":\"code\",\"filePath\":\"/path\"}"}}]}}]}"#);
    assert!(!fix.applies(&response));
}

#[test]
fn test_applies_malformed_tool_call() {
    let fix = ToolcallBadFilepathFix::new();

    let response = json(r#"{"choices": [{"message": {"tool_calls": [{"function": {"name": "write", "arguments": "{\"filePath\":\"/path\",\"filePath\"/broken\"}"}}]}}]}"#);
    assert!(fix.applies(&response));
}

#[test]
fn test_apply_no_changes_needed() {
    let fix = ToolcallBadFilepathFix::new();

    let response = json(r#"{"choices": [{"message": {"content": "Hello", "tool_calls": null}}]}"#);

    let (result, action) = fix.apply(response.clone());
    assert_eq!(result, response);
    assert!(!action.detected());
}

#[test]
fn test_apply_fixes_malformed() {
    let fix = ToolcallBadFilepathFix::new();

    let response = json(r#"{"choices": [{"message": {"tool_calls": [{"function": {"name": "write", "arguments": "{\"content\":\"code\",\"filePath\":\"/path\",\"filePath\"/broken\"}"}}]}}]}"#);

    let (result, action) = fix.apply(response);
    let args = result.ix("choices").ix(0).ix("message").ix("tool_calls").ix(0).ix("function").ix("arguments")
        .as_str()
        .unwrap();
    assert!(fix.is_valid_json(args));
    assert!(action.detected());
}

#[test]
fn test_fix_malformed_json_no_filepath() {
    let fix = ToolcallBadFilepathFix::new();

    let malformed = r#"{"key": "value" broken"#;
    assert!(fix.is_malformed(malformed), "invalid JSON is malformed");

    let outcome = fix.fix_arguments(malformed);
    assert!(
        matches!(outcome, Err(FixError::Parse(_))),
        "unparseable arguments without a repair pattern must Err, got: {outcome:?}"
    );
}

#[test]
fn test_fix_keep_duplicate_mode() {
    let fix = ToolcallBadFilepathFix::new();
    let malformed = r#"{"filePath":"/path","filePath"/broken"}"#;
    let fixed = fix
        .fix_arguments(malformed)
        .expect("first filePath is intact, truncation must repair");
    assert!(fix.is_valid_json(&fixed), "Fixed output should be valid JSON");
}

#[test]
fn test_multiple_tool_calls() {
    let fix = ToolcallBadFilepathFix::new();

    let response = json(r#"{"choices": [{"message": {"tool_calls": [{"function": {"name": "read", "arguments": "{\"filePath\":\"/valid/path\"}"}}, {"function": {"name": "write", "arguments": "{\"filePath\":\"/path\",\"filePath\"/broken\"}"}}]}}]}"#);

    assert!(fix.applies(&response));
    let (result, action) = fix.apply(response);

    let args1 = result.ix("choices").ix(0).ix("message").ix("tool_calls").ix(0).ix("function").ix("arguments")
        .as_str()
        .unwrap();
    assert!(fix.is_valid_json(args1));

    let args2 = result.ix("choices").ix(0).ix("message").ix("tool_calls").ix(1).ix("function").ix("arguments")
        .as_str()
        .unwrap();
    assert!(fix.is_valid_json(args2));
    assert!(action.detected());
}

#[test]
fn test_escaped_characters() {
    let fix = ToolcallBadFilepathFix::new();

    let valid = r#"{"content":"line1\nline2","filePath":"/path/to/file"}"#;
    assert!(!fix.is_malformed(valid));

    let fixed = fix.fix_arguments(valid).expect("valid JSON round-trips");
    assert!(fix.is_valid_json(&fixed));
}

#[test]
fn test_user_reported_malformed_pattern() {
    let fix = ToolcallBadFilepathFix::new();

    let malformed = r#"{"content":"some code","filePath":"/home/user/file.c","filePath"/home/user/file.c"}"#;

    assert!(fix.is_malformed(malformed), "Should detect malformed pattern");

    let fixed = fix.fix_arguments(malformed).expect("truncation must repair");
    assert!(fix.is_valid_json(&fixed), "Fixed output should be valid JSON, got: {}", fixed);

    let parsed = Json::parse(&fixed).unwrap();
    assert_eq!(text(parsed.ix("content")), "some code");
    assert_eq!(text(parsed.ix("filePath")), "/home/user/file.c");
}

#[test]
fn test_user_exact_error_pattern_non_streaming() {
    let fix = ToolcallBadFilepathFix::new();

    let malformed = "{\"content\":\"#!/usr/bin/perl\\n# test\\n\",\"filePath\":\"/home/iphands/prog/slop/trash/primes.pl\",\"filePath\"/home/iphands/prog/slop/llama-proxy/trash/primes.pl\"}";

    println!("Testing malformed: {}", malformed);

    assert!(fix.is_malformed(malformed), "Should detect as malformed");

    let fixed = fix.fix_arguments(malformed).expect("truncation must repair");
    println!("Fixed result: {}", fixed);

    assert!(fix.is_valid_json(&fixed), "Fixed version MUST be valid JSON, got: {}", fixed);

    let parsed = Json::parse(&fixed).expect("Should parse as JSON");
    assert!(parsed.get("content").is_some(), "Should have content field");
    assert!(parsed.get("filePath").is_some(), "Should have filePath field");

    let filepath = parsed.ix("filePath").as_str().unwrap();
    assert_eq!(
        filepath, "/home/iphands/prog/slop/trash/primes.pl",
        "Should keep first filePath value, got: {}",
        filepath
    );
}

#[test]
fn test_user_pattern_in_full_response() {
    let fix = ToolcallBadFilepathFix::new();

    let response = json(r##"{"id": "chatcmpl-123", "object": "chat.completion", "created": 1234567890, "model": "qwen3-coder", "choices": [{"index": 0, "message": {"role": "assistant", "content": null, "tool_calls": [{"id": "call_1", "type": "function", "function": {"name": "write", "arguments": "{\"content\":\"#!/usr/bin/perl\\n# test\\n\",\"filePath\":\"/home/iphands/prog/slop/trash/primes.pl\",\"filePath\"/home/iphands/prog/slop/llama-proxy/trash/primes.pl\"}"}}]}, "finish_reason": "tool_calls"}], "usage": {"prompt_tokens": 100, "completion_tokens": 50, "total_tokens": 150}}"##);

    println!("Testing full response with malformed tool call");

    assert!(fix.applies(&response), "Fix should apply to this response");

    let (fixed_response, action) = fix.apply(response);

    assert!(action.detected(), "Should detect and fix the malformed content");

    let fixed_args = fixed_response.ix("choices").ix(0).ix("message").ix("tool_calls").ix(0).ix("function").ix("arguments")
        .as_str()
        .unwrap();

    println!("Fixed arguments: {}", fixed_args);

    let parsed_result = Json::parse(fixed_args);
    assert!(
        parsed_result.is_ok(),
        "Fixed arguments MUST be valid JSON! Parse error: {:?}\nArguments: {}",
        parsed_result.err(),
        fixed_args
    );

    let parsed = parsed_result.unwrap();
    assert!(parsed.get("content").is_some());
    assert!(parsed.get("filePath").is_some());
    assert_eq!(text(parsed.ix("filePath")), "/home/iphands/prog/slop/trash/primes.pl");
}

#[test]
fn test_simpler_malformed_patterns() {
    let fix = ToolcallBadFilepathFix::new();

    let test_cases = vec![
        (r#"{"filePath":"/path1","filePath"/path2"}"#, "simple missing colon"),
        (r#"{"content":"code","filePath":"/path1","filePath"/path2"}"#, "with content"),
        (r#"{"filePath":"/path1","filePath":"/path2"}"#, "duplicate valid keys"),
    ];

    for (malformed, description) in test_cases {
        println!("\nTesting case: {}", description);
        println!("Input: {}", malformed);

        assert!(
            fix.is_malformed(malformed),
            "Case '{}' should be detected as malformed",
            description
        );

        let fixed = fix.fix_arguments(malformed).expect("truncation must repair");
        println!("Fixed: {}", fixed);

        assert!(
            fix.is_valid_json(&fixed),
            "Case '{}' should produce valid JSON after fix, got: {}",
            description,
            fixed
        );
    }
}

#[test]
fn test_new_pattern_brace_after_filepath() {
    let fix = ToolcallBadFilepathFix::new();

    let malformed = r#"{"content":"code","filePath":"/path1","filePath}/path2"}"#;
    assert!(fix.is_malformed(malformed), "Should detect 'filePath}}' as malformed");

    let fixed = fix.fix_arguments(malformed).expect("truncation must repair");
    assert!(
        fix.is_valid_json(&fixed),
        "Fixed version should be valid JSON, got: {}",
        fixed
    );
}

#[test]
fn test_new_pattern_slash_after_filepath() {
    let fix = ToolcallBadFilepathFix::new();

    let malformed = r#"{"content":"code","filePath":"/path1","filePath/path2"}"#;
    assert!(fix.is_malformed(malformed), "Should detect 'filePath/' as malformed");

    let fixed = fix.fix_arguments(malformed).expect("truncation must repair");
    println!("Fixed output: {}", fixed);
}

#[test]
fn test_log_level_is_default_info() {
    let fix = ToolcallBadFilepathFix::new();

    assert_eq!(fix.log_level(), FixLogLevel::Info);
}

#[test]
fn test_apply_buffered_cjk_multibyte_first_wins() {
    let fix = ToolcallBadFilepathFix::new();
    let args = r#"{"content":"中文测试内容","filePath":"/x/中文测试目录/file.rs","filePath"/x/第二个坏路径"}"#;
    let response = obj(vec![("choices", arr(vec![obj(vec![("finish_reason", json(r#""tool_calls""#)), ("message", obj(vec![("tool_calls", arr(vec![obj(vec![("index", json(r#"0"#)), ("function", obj(vec![("name", json(r#""write""#)), ("arguments", args.to_json())]))])]))]))])]))]);
    assert!(fix.applies(&response), "CJK payload must be detected as malformed");

    let (result, action) = fix.apply(response);

    let args_out = result.ix("choices").ix(0).ix("message").ix("tool_calls").ix(0).ix("function").ix("arguments")
        .as_str()
        .expect("arguments must remain a string");
    assert!(fix.is_valid_json(args_out), "CJK fix produced invalid JSON: {args_out}");
    let parsed = Json::parse(args_out).expect("fixed args must parse");
    assert_eq!(
        parsed.ix("filePath").as_str(),
        Some("/x/中文测试目录/file.rs"),
        "first (multibyte) filePath must win"
    );
    assert_eq!(
        parsed.ix("content").as_str(),
        Some("中文测试内容"),
        "multibyte content before filePath must be preserved"
    );
    assert!(matches!(action, FixAction::Fixed { .. }), "action must be Fixed");
}

#[test]
fn test_apply_buffered_emoji_4byte_multibyte() {
    let fix = ToolcallBadFilepathFix::new();
    let args = r#"{"content":"写入🀄内容🎉","filePath":"/x/🀄目录/文件.rs","filePath"/x/坏🎉"}"#;
    let response = obj(vec![("choices", arr(vec![obj(vec![("message", obj(vec![("tool_calls", arr(vec![obj(vec![("index", json(r#"0"#)), ("function", obj(vec![("name", json(r#""write""#)), ("arguments", args.to_json())]))])]))]))])]))]);
    assert!(fix.applies(&response));

    let (result, action) = fix.apply(response);

    let args_out = result.ix("choices").ix(0).ix("message").ix("tool_calls").ix(0).ix("function").ix("arguments")
        .as_str()
        .expect("arguments must remain a string");
    assert!(fix.is_valid_json(args_out), "emoji fix produced invalid JSON: {args_out}");
    let parsed = Json::parse(args_out).expect("fixed args must parse");
    assert_eq!(parsed.ix("filePath").as_str(), Some("/x/🀄目录/文件.rs"));
    assert_eq!(parsed.ix("content").as_str(), Some("写入🀄内容🎉"));
    assert!(matches!(action, FixAction::Fixed { .. }));
}

#[test]
fn test_apply_buffered_escaped_unicode_probe() {
    let fix = ToolcallBadFilepathFix::new();
    let args = r#"{"content":"esc content","filePath":"/x/\u4e2d\u6587\u4ef6/file.rs","filePath"/x/bad"}"#;
    let response = obj(vec![("choices", arr(vec![obj(vec![("message", obj(vec![("tool_calls", arr(vec![obj(vec![("index", json(r#"0"#)), ("function", obj(vec![("name", json(r#""write""#)), ("arguments", args.to_json())]))])]))]))])]))]);
    assert!(fix.applies(&response));

    let (result, action) = fix.apply(response);

    let args_out = result.ix("choices").ix(0).ix("message").ix("tool_calls").ix(0).ix("function").ix("arguments")
        .as_str()
        .expect("arguments must remain a string");
    assert!(
        fix.is_valid_json(args_out),
        "escaped-unicode fix produced invalid JSON: {args_out}"
    );
    let parsed = Json::parse(args_out).expect("fixed args must parse");
    assert_eq!(
        parsed.ix("filePath").as_str(),
        Some("/x/中文件/file.rs"),
        r"\uXXXX escapes must survive truncation and decode"
    );
    assert_eq!(parsed.ix("content").as_str(), Some("esc content"));
    assert!(matches!(action, FixAction::Fixed { .. }));
}

#[test]
fn test_content_embedded_filepath_literal_not_malformed() {
    let fix = ToolcallBadFilepathFix::new();
    let args = r#"{"content":"write it like {\"filePath\": \"x\"} please","filePath":"/real/path"}"#;
    Json::parse(args).expect("fixture must be valid JSON");

    assert!(!fix.is_malformed(args), "content-embedded decoy must not trigger");

    let completion_decoy = r#"{"content":"say \"filePath","filePath":"/real/path"}"#;
    Json::parse(completion_decoy).expect("decoy fixture must be valid JSON");
    assert!(
        !fix.is_malformed(completion_decoy),
        "value-completion `\"filePath\"` substring must not trigger"
    );

    let response = obj(vec![("choices", arr(vec![obj(vec![("message", obj(vec![("tool_calls", arr(vec![obj(vec![("index", json(r#"0"#)), ("function", obj(vec![("name", json(r#""write""#)), ("arguments", args.to_json())]))])]))]))])]))]);
    assert!(!fix.applies(&response), "applies() must not fire on a decoy");
    let (result, action) = fix.apply(response.clone());
    assert!(!action.detected(), "no fix action for a decoy");
    assert_eq!(result, response);
}

#[test]
fn test_real_duplicate_top_level_keys_malformed() {
    let fix = ToolcallBadFilepathFix::new();
    let valid_dup = r#"{"filePath":"/path1","filePath":"/path2"}"#;
    Json::parse(valid_dup).expect("valid-JSON dup fixture");
    let malformed_dup = r#"{"content":"code","filePath":"/path","filePath"/path"}"#;

    assert!(fix.is_malformed(valid_dup), "valid JSON with dup keys is malformed");
    assert!(fix.is_malformed(malformed_dup), "malformed dup payload is malformed");
}

#[test]
fn test_nested_only_filepath_not_malformed() {
    let fix = ToolcallBadFilepathFix::new();
    let args = r#"{"meta":{"filePath":"/x"},"content":"hi"}"#;
    Json::parse(args).expect("nested fixture must be valid JSON");
    assert!(!fix.is_malformed(args), "nested-only filePath must not trigger");
}

#[test]
fn test_duplicate_inside_nested_not_malformed() {
    let fix = ToolcallBadFilepathFix::new();
    let args = r#"{"meta":{"filePath":"/a","filePath":"/b"},"content":"x"}"#;
    Json::parse(args).expect("nested-dup fixture must be valid JSON");
    assert!(
        !fix.is_malformed(args),
        "duplicate keys below depth 1 are not this fix's schema violation"
    );
}

#[test]
fn test_unparseable_garbage_malformed() {
    let fix = ToolcallBadFilepathFix::new();
    let garbage_no_key = r#"{"key": "value" broken"#;
    let garbage_with_key = r#"{"filePath": "/path" broken"#;

    assert!(fix.is_malformed(garbage_no_key), "unparseable garbage is malformed");
    assert!(fix.is_malformed(garbage_with_key), "invalid filePath JSON is malformed");
}

#[test]
fn test_escaped_quote_decoy_keys_not_malformed() {
    let fix = ToolcallBadFilepathFix::new();
    let value_decoy = r#"{"msg":"he said \"filePath"}"#;
    let key_decoy = r#"{"say\"filePath\"x":1,"filePath":2}"#;
    Json::parse(value_decoy).expect("value decoy must be valid JSON");
    Json::parse(key_decoy).expect("key decoy must be valid JSON");

    assert!(!fix.is_malformed(value_decoy), "escaped-quote value must not trigger");
    assert!(!fix.is_malformed(key_decoy), "decoy key containing target must not trigger");
}

#[test]
fn test_unicode_escape_key_counts_as_real_duplicate() {
    let fix = ToolcallBadFilepathFix::new();
    let args = r#"{"file\u0050ath":"/a","filePath":"/b"}"#;
    Json::parse(args).expect("escaped-key fixture must be valid JSON");

    assert!(fix.is_malformed(args), "escaped-key duplicate must trigger");
}

#[test]
fn test_multibyte_and_escaped_content_duplicates_malformed() {
    let fix = ToolcallBadFilepathFix::new();
    let cjk_dup = r#"{"content":"你好世界","filePath":"/路径/文件.rs","filePath":"/第二"}"#;
    let escaped_content_dup = r#"{"content":"x = \"filePath\"; y","filePath":"/a","filePath":"/b"}"#;
    Json::parse(cjk_dup).expect("CJK fixture must be valid JSON");
    Json::parse(escaped_content_dup).expect("escaped fixture must be valid JSON");

    assert!(fix.is_malformed(cjk_dup), "CJK duplicate payload must trigger");
    assert!(
        fix.is_malformed(escaped_content_dup),
        "escaped-quote content with real dups must trigger"
    );
}

fn fuzz_response(arguments: Option<&str>) -> Json {
    let call = match arguments {
        Some(args) => obj(vec![("index", json(r#"0"#)), ("function", obj(vec![("name", json(r#""write""#)), ("arguments", args.to_json())]))]),
        None => json(r#"{"index": 0, "function": {"name": "write"}}"#),
    };
    obj(vec![("choices", arr(vec![obj(vec![("message", obj(vec![("tool_calls", arr(vec![call.to_json()]))]))])]))])
}

#[test]
fn test_apply_with_context_unparseable_irreparable_returns_err() {
    
    let fix = ToolcallBadFilepathFix::new();
    let args = r#"{"content":"x",,"filePath":garbage}"#;
    let response = fuzz_response(Some(args));
    let request = json(r#"{}"#);
    assert!(fix.applies(&response), "payload must trigger the fix");

    let outcome = fix.apply_with_context(response, &request);

    assert!(outcome.is_err(), "irreparable payload must Err, got {outcome:?}");
}

#[test]
fn test_apply_unparseable_irreparable_keeps_original_arguments() {
    let fix = ToolcallBadFilepathFix::new();
    let args = r#"{"content":"x",,"filePath":garbage}"#;
    let response = fuzz_response(Some(args));

    let (result, action) = fix.apply(response);

    let args_out = result.ix("choices").ix(0).ix("message").ix("tool_calls").ix(0).ix("function").ix("arguments")
        .as_str()
        .expect("arguments must stay a string");
    assert_eq!(args_out, args, "original arguments must be preserved verbatim");
    assert_ne!(
        args_out, "{}",
        "the destructive empty-object fallback must never reach clients"
    );
    assert!(
        matches!(action, FixAction::Failed { .. }),
        "irreparable payload must report Failed, got {action:?}"
    );
}

#[test]
fn test_fuzz_malformed_payloads_never_panic_and_keep_original_or_valid() {
    let fix = ToolcallBadFilepathFix::new();
    let cjk_base = r#"{"content":"中文测试内容","filePath":"/路径/文件.rs","filePath"/坏路径"}"#;
    let cases: Vec<Option<&str>> = vec![
        Some(r#"{"content":"x",,"filePath":garbage}"#),
        Some(r#"{"content":"a"#),
        Some(&cjk_base[..cjk_base.char_indices().nth(10).map(|(i, _)| i).unwrap_or(cjk_base.len())]),
        Some(&cjk_base[..cjk_base.char_indices().nth(23).map(|(i, _)| i).unwrap_or(cjk_base.len())]),
        Some(r#"{"filePath":"/x/\ud800","y":1"#),
        Some(r#"{"file\u0050ath":"/a","filePath"/b"#),
        Some(""),
        Some("   {"),
        Some(r#"{"filePath":"#),
        None,
    ];

    for args in cases {
        let response = fuzz_response(args);
        let (result, _action) = fix.apply(response.clone());
        let args_out = result.ix("choices").ix(0).ix("message").ix("tool_calls").ix(0)
            .get("function")
            .and_then(|f| f.get("arguments"))
            .and_then(|a| a.as_str());
        match (args, args_out) {
            (None, None) => assert_eq!(result, response, "argument-less call must pass through"),
            (Some(input), Some(out)) => assert!(
                out == input || fix.is_valid_json(out),
                "output must be the original or valid JSON, got: {out}"
            ),
            _ => panic!("tool call slot mutated shape for input {args:?}: {result:?}"),
        }
    }
}

#[test]
fn test_fix_arguments_candidate_invalid_reports_rebuild_error() {
    let fix = ToolcallBadFilepathFix::new();
    let args = r#"[{"filePath":"/x"}garbage"#;
    let outcome = fix.fix_arguments(args);
    assert!(
        matches!(outcome, Err(FixError::Rebuild(_))),
        "truncated candidate that stays invalid must Err(Rebuild), got {outcome:?}"
    );
}

#[test]
fn test_apply_with_context_matches_apply_on_repairable_payloads() {
    
    let fix = ToolcallBadFilepathFix::new();
    let request = json(r#"{}"#);
    for args in [
        r#"{"filePath":"/path1","filePath":"/path2"}"#,
        r#"{"content":"中文测试内容","filePath":"/x/中文/file.rs","filePath"/x/bad"}"#,
        r#"{"content":"esc","filePath":"/x/\u4e2d/file.rs","filePath"/x/bad"}"#,
    ] {
        let response = fuzz_response(Some(args));
        let (applied, apply_action) = fix.apply(response.clone());
        let (contextual, ctx_action) = fix
            .apply_with_context(response, &request)
            .expect("repairable payload must be Ok");
        assert_eq!(
            applied.print(),
            contextual.print(),
            "apply() and apply_with_context() must agree byte-for-byte for: {args}"
        );
        assert_eq!(format!("{apply_action:?}"), format!("{ctx_action:?}"));
    }
}

#[test]
fn test_buffered_duplicate_keeps_first_matching_streaming_winner() {
    let fix = ToolcallBadFilepathFix::new();
    let args = r#"{"filePath":"/first","content":"x","filePath":"/last"}"#;

    Json::parse(args).expect("dup fixture must be valid JSON");
    assert!(fix.is_malformed(args), "duplicate keys must trigger");

    let fixed = fix.fix_arguments(args).expect("valid dup stays repairable");
    let parsed = Json::parse(&fixed).expect("buffered fix must be valid JSON");

    assert_eq!(
        parsed.ix("filePath").as_str(),
        Some("/first"),
        "buffered winner must be the first occurrence, fixed = {fixed}"
    );
    assert_eq!(parsed.ix("content").as_str(), Some("x"), "non-dup field must survive");
}

#[test]
fn test_buffered_duplicate_cjk_first_value_wins() {
    let fix = ToolcallBadFilepathFix::new();
    let args = r#"{"content":"你好世界","filePath":"/第一/文件.rs","filePath":"/第二"}"#;
    Json::parse(args).expect("CJK dup fixture must be valid JSON");

    let response = fuzz_response(Some(args));
    let (result, action) = fix.apply(response);

    let args_out = result.ix("choices").ix(0).ix("message").ix("tool_calls").ix(0).ix("function").ix("arguments")
        .as_str()
        .expect("arguments must remain a string");
    let parsed = Json::parse(args_out).expect("CJK dup fix must be valid JSON");
    assert_eq!(
        parsed.ix("filePath").as_str(),
        Some("/第一/文件.rs"),
        "multibyte first value must win, got {args_out}"
    );
    assert_eq!(parsed.ix("content").as_str(), Some("你好世界"));
    assert!(matches!(action, FixAction::Fixed { .. }));
}

#[test]
fn test_buffered_triple_duplicate_keeps_first() {
    let fix = ToolcallBadFilepathFix::new();
    let args = r#"{"filePath":"/one","content":"x","filePath":"/two","filePath":"/three"}"#;

    let fixed = fix.fix_arguments(args).expect("triple dup stays repairable");
    let parsed = Json::parse(&fixed).expect("triple dup fix must be valid JSON");
    assert_eq!(parsed.ix("filePath").as_str(), Some("/one"), "got {fixed}");
    assert_eq!(parsed.ix("content").as_str(), Some("x"));
    assert_eq!(top_level_key_count(&fixed, "filePath"), 1, "all later dups dropped");
}

#[test]
fn test_buffered_escaped_key_duplicate_first_wins() {
    let fix = ToolcallBadFilepathFix::new();
    let args = r#"{"file\u0050ath":"/first","filePath":"/last"}"#;
    Json::parse(args).expect("escaped-key dup fixture must be valid JSON");
    assert!(fix.is_malformed(args), "escaped-key duplicate must trigger");

    let fixed = fix.fix_arguments(args).expect("escaped-key dup stays repairable");
    let parsed = Json::parse(&fixed).expect("escaped-key dup fix must be valid JSON");
    assert_eq!(parsed.ix("filePath").as_str(), Some("/first"), "got {fixed}");
}

#[test]
fn test_buffered_nested_duplicates_untouched_and_single_key_byte_identical() {
    let fix = ToolcallBadFilepathFix::new();

    let nested_dups = r#"{"meta":{"filePath":"/a","filePath":"/b"},"content":"x"}"#;
    let response = fuzz_response(Some(nested_dups));
    assert!(!fix.applies(&response), "nested dups must not trigger");
    let (result, action) = fix.apply(response.clone());
    assert!(!action.detected());
    assert_eq!(result, response, "nested-dup response must be byte-identical");

    let nested_plus_one = r#"{"meta":{"filePath":"/a","filePath":"/b"},"filePath":"/keep"}"#;
    let response = fuzz_response(Some(nested_plus_one));
    let (result, action) = fix.apply(response.clone());
    assert!(!action.detected());
    assert_eq!(result, response, "single top-level key must be byte-identical");

    for args in [
        r#"{"content":"x","filePath":"/only"}"#,
        r#"{ "filePath" : "/spaced" }"#,
        r#"{"file\u0050ath":"/escaped-only"}"#,
    ] {
        let fixed = fix.fix_arguments(args).expect("valid JSON round-trips");
        assert_eq!(
            fixed,
            Json::parse(args).unwrap().print(),
            "non-dup path must stay the plain serde round-trip for: {args}"
        );
    }
}

#[test]
fn task30_two_repaired_calls_aggregate_both_snippets() {
    let fix = ToolcallBadFilepathFix::new();
    let response = json(r#"{"choices": [{"message": {"tool_calls": [{"index": 0, "function": {"name": "write", "arguments": "{\"filePath\":\"/first\",\"filePath\":\"/dup-a\"}"}}, {"index": 1, "function": {"name": "write", "arguments": "{\"filePath\":\"/second\",\"filePath\":\"/dup-b\"}"}}]}}]}"#);

    let (result, action) = fix.apply(response);

    for (idx, winner) in [(0, "/first"), (1, "/second")] {
        let args_out = result.ix("choices").ix(0).ix("message").ix("tool_calls").ix(idx).ix("function").ix("arguments")
            .as_str()
            .unwrap();
        let parsed = Json::parse(args_out).expect("every repaired call must be valid JSON");
        assert_eq!(parsed.ix("filePath").as_str(), Some(winner), "call {idx} keeps FIRST winner");
    }

    match action {
        FixAction::Fixed {
            original_snippet,
            fixed_snippet,
        } => {
            assert!(
                original_snippet.contains("/dup-a") && original_snippet.contains("/dup-b"),
                "the aggregated action must carry EVERY repaired call's original, got: {original_snippet}"
            );
            assert!(
                fixed_snippet.contains("/first") && fixed_snippet.contains("/second"),
                "the aggregated fixed snippet must carry every winner, got: {fixed_snippet}"
            );
        }
        other => panic!("aggregated action must be Fixed, got {other:?}"),
    }
}

#[test]
fn task30_single_repair_snippets_pass_through_unchanged() {
    let fix = ToolcallBadFilepathFix::new();
    let args = r#"{"filePath":"/first","filePath":"/dup"}"#;
    let response = fuzz_response(Some(args));

    let (_, action) = fix.apply(response);

    match action {
        FixAction::Fixed {
            original_snippet,
            fixed_snippet,
        } => {
            assert_eq!(original_snippet, args);
            assert_eq!(fixed_snippet, r#"{"filePath":"/first"}"#);
        }
        other => panic!("expected Fixed, got {other:?}"),
    }
}
