use llama_proxy::fixes::{FixAction, FixError, FixRegistry, ResponseFix, ToolcallMalformedArgumentsFix};
use llama_proxy::json::Json;
use llama_proxy::text_map::TextMap;

fn json(text: &str) -> Json {
    Json::parse(text).unwrap()
}

trait Key {
    fn find<'a>(&self, v: &'a Json) -> Option<&'a Json>;
}

impl Key for &str {
    fn find<'a>(&self, v: &'a Json) -> Option<&'a Json> {
        v.get(self)
    }
}

impl Key for usize {
    fn find<'a>(&self, v: &'a Json) -> Option<&'a Json> {
        v.at(*self)
    }
}

trait Look {
    fn ix(&self, key: impl Key) -> &Json;
}

impl Look for Json {
    fn ix(&self, key: impl Key) -> &Json {
        key.find(self).expect("the value must be there")
    }
}

trait ToJson {
    fn to_json(self) -> Json;
}

impl ToJson for &str {
    fn to_json(self) -> Json {
        Json::Str(self.to_string())
    }
}

impl ToJson for Json {
    fn to_json(self) -> Json {
        self
    }
}

fn obj(members: Vec<(&str, Json)>) -> Json {
    let mut o = Json::Object(vec![]);
    for (k, v) in members {
        o.insert(k.to_string(), v);
    }
    o
}

fn arr(items: Vec<Json>) -> Json {
    Json::Array(items)
}

#[test]
fn test_extract_tool_schemas() {
    let request = json(r#"{"model": "qwen3", "tools": [{"type": "function", "function": {"name": "write", "description": "Write a file", "parameters": {"type": "object", "properties": {"file_path": {"type": "string"}, "content": {"type": "string"}}, "required": ["file_path", "content"]}}}, {"type": "function", "function": {"name": "read", "parameters": {"type": "object", "properties": {"path": {"type": "string"}}}}}]}"#);

    let schemas = ToolcallMalformedArgumentsFix::extract_tool_schemas(&request);

    assert_eq!(schemas.len(), 2);
    assert!(schemas.contains_key("write"));
    assert!(schemas.contains_key("read"));

    let write_params = schemas.get("write").unwrap();
    assert_eq!(write_params.len(), 2);
    assert!(write_params.contains(&"file_path".to_string()));
    assert!(write_params.contains(&"content".to_string()));

    let read_params = schemas.get("read").unwrap();
    assert_eq!(read_params.len(), 1);
    assert!(read_params.contains(&"path".to_string()));
}

#[test]
fn test_malformed_pattern_detection() {
    let fix = ToolcallMalformedArgumentsFix::new();

    assert!(ToolcallMalformedArgumentsFix::has_empty_key_slot("{\"content\":\"test\",{}\":\"/path\"}"));
    assert!(ToolcallMalformedArgumentsFix::has_empty_key_slot("{{}\":\"value\"}"));

    assert!(!ToolcallMalformedArgumentsFix::has_empty_key_slot("{\"file_path\":\"test\",\"content\":\"data\"}"));
}

#[test]
fn test_fix_arguments_single_missing_param() {
    let fix = ToolcallMalformedArgumentsFix::new();

    let mut schemas = TextMap::new();
    schemas.insert("write".to_string(), vec!["file_path".to_string(), "content".to_string()]);

    let malformed = "{\"content\":\"#!/bin/bash\\necho hello\",{}\":\"/tmp/test.sh\"}";

    let fixed = fix.fix_arguments(malformed, "write", &schemas).unwrap();

    assert!(fixed.is_some());
    let fixed = fixed.unwrap();

    assert!(fixed.contains("\"file_path\":"));
    assert!(!fixed.contains("{}\":"));

    let parsed = Json::parse(&fixed);
    assert!(parsed.is_ok());

    let parsed = parsed.unwrap();
    assert_eq!(parsed.ix("file_path").as_str().unwrap(), "/tmp/test.sh");
    assert!(parsed.ix("content").as_str().unwrap().contains("bash"));
}

#[test]
fn test_fix_arguments_no_malformed_pattern() {
    let fix = ToolcallMalformedArgumentsFix::new();

    let mut schemas = TextMap::new();
    schemas.insert("write".to_string(), vec!["file_path".to_string(), "content".to_string()]);

    let valid = "{\"file_path\":\"/tmp/test.sh\",\"content\":\"data\"}";

    let result = fix.fix_arguments(valid, "write", &schemas);

    assert!(result.unwrap().is_none());
}

#[test]
fn test_fix_arguments_unknown_tool() {
    let fix = ToolcallMalformedArgumentsFix::new();

    let schemas = TextMap::new();

    let malformed = "{\"content\":\"test\",{}\":\"/path\"}";

    let result = fix.fix_arguments(malformed, "unknown_tool", &schemas);

    assert!(result.unwrap().is_none());
}

#[test]
fn test_garbage_token_never_a_candidate() {
    let fix = ToolcallMalformedArgumentsFix::new();
    let schemas = schema_map(&["path", "content"]);

    let malformed = "{\"content\":\"test value\",{}\":\"/some/path\"}";
    assert_eq!(fix.candidate_keys(malformed, schemas.get("write").unwrap()), vec!["path"]);

    let fixed = fix.fix_arguments(malformed, "write", &schemas).unwrap();
    let fixed = fixed.expect("lone candidate fills");
    assert!(!fixed.contains("{}"));
    Json::parse(&fixed).expect("fill is valid JSON");
}

#[test]
fn test_applies_with_context() {
    let fix = ToolcallMalformedArgumentsFix::new();

    let request = json(r#"{"tools": [{"type": "function", "function": {"name": "write"}}]}"#);

    let response_with_tools = json(r#"{"choices": [{"message": {"tool_calls": [{"function": {"name": "write", "arguments": "{\"content\":\"data\",{}\":\"/tmp/file.txt\"}"}}]}}]}"#);

    let response_without_tools = json(r#"{"choices": [{"message": {"content": "Hello"}}]}"#);

    assert!(fix.applies_with_context(&response_with_tools, &request));
    assert!(!fix.applies_with_context(&response_without_tools, &request));
}

#[test]
fn test_fix_response_with_context() {
    let fix = ToolcallMalformedArgumentsFix::new();

    let request = json(r#"{"tools": [{"type": "function", "function": {"name": "write", "parameters": {"type": "object", "properties": {"file_path": {"type": "string"}, "content": {"type": "string"}}}}}]}"#);

    let response = json(r##"{"choices": [{"message": {"tool_calls": [{"function": {"name": "write", "arguments": "{\"content\":\"#!/bin/bash\\necho test\",{}\":\"/tmp/script.sh\"}"}}]}}]}"##);

    let (fixed, action) = fix.apply_with_context(response, &request).unwrap();

    let args = fixed.ix("choices").ix(0).ix("message").ix("tool_calls").ix(0).ix("function").ix("arguments")
        .as_str()
        .unwrap();

    assert!(args.contains("\"file_path\":"));
    assert!(!args.contains("{}\":"));

    let parsed = Json::parse(args);
    assert!(parsed.is_ok());

    assert!(action.detected());
}

#[test]
fn test_apply_without_context_passes_through() {
    let fix = ToolcallMalformedArgumentsFix::new();

    let response = json(r#"{"choices": [{"message": {"tool_calls": [{"function": {"name": "write", "arguments": "{\"content\":\"test\",{}\":\"/path\"}"}}]}}]}"#);

    let (result, action) = fix.apply(response.clone());
    assert_eq!(result, response);
    assert!(!action.detected());
}

#[test]
fn test_single_missing_param_among_three() {
    let fix = ToolcallMalformedArgumentsFix::new();

    let mut schemas = TextMap::new();
    schemas.insert(
        "write".to_string(),
        vec!["file_path".to_string(), "content".to_string(), "mode".to_string()],
    );

    let malformed = "{\"content\":\"data\",\"mode\":\"0755\",{}\":\"/tmp/file\"}";

    let fixed = fix.fix_arguments(malformed, "write", &schemas).unwrap();

    assert!(fixed.is_some());
    let fixed = fixed.unwrap();

    assert!(fixed.contains("\"file_path\":"));

    let parsed = Json::parse(&fixed);
    assert!(parsed.is_ok());
}

#[test]
fn test_original_user_issue() {

    let fix = ToolcallMalformedArgumentsFix::new();

    let request = json(r#"{"model": "qwen3", "tools": [{"type": "function", "function": {"name": "write", "description": "Write a file", "parameters": {"type": "object", "properties": {"file_path": {"type": "string", "description": "Path to the file"}, "content": {"type": "string", "description": "File content"}}, "required": ["file_path", "content"]}}}]}"#);

    let response = json(r##"{"choices": [{"message": {"tool_calls": [{"id": "call_123", "type": "function", "function": {"name": "write", "arguments": "{\"content\":\"#!/bin/bash\\n\\n# Calculate prime numbers from 0 to 1024\\n\\necho \\\"Prime numbers from 0 to 1024:\\\"\\n\\nfor ((n = 2; n <= 1024; n++)); do\\n    is_prime=true\\n\\n    # Check divisibility from 2 to sqrt(n)\\n    for ((i = 2; i * i <= n; i++)); do\\n        ((n % i == 0)) && { is_prime=false; break; }\\n    done\\n\\n    $is_prime && echo \\\"$n\\\"\\ndone\\n\",{}\":\"/home/iphands/prog/slop/llama-proxy/trash/primes.sh\"}"}}]}}]}"##);

    let (fixed, action) = fix.apply_with_context(response, &request).unwrap();

    let args_str = fixed.ix("choices").ix(0).ix("message").ix("tool_calls").ix(0).ix("function").ix("arguments")
        .as_str()
        .unwrap();

    assert!(args_str.contains("\"file_path\":"));
    assert!(!args_str.contains("{}\":"));

    let parsed_args = Json::parse(args_str);
    assert!(parsed_args.is_ok());

    let args = parsed_args.unwrap();
    assert_eq!(
        args.ix("file_path").as_str().unwrap(),
        "/home/iphands/prog/slop/llama-proxy/trash/primes.sh"
    );
    assert!(args.ix("content").as_str().unwrap().contains("#!/bin/bash"));

    assert!(action.detected());
}

fn schema_map(order: &[&str]) -> TextMap<Vec<String>> {
    let mut m = TextMap::new();
    m.insert("write".to_string(), order.iter().map(|k| (*k).to_string()).collect());
    m
}

#[test]
fn test_two_empty_key_slots_assigned_in_schema_order() {
    let fix = ToolcallMalformedArgumentsFix::new();
    let schemas = schema_map(&["path", "mode", "content"]);

    let malformed = r#"{"content":"data",{}":"/tmp/a",{}":"hello"}"#;
    let fixed = fix
        .fix_arguments(malformed, "write", &schemas)
        .expect("2 candidates / 2 slots is a bijection")
        .expect("bijection must assign, not no-op");
    assert_eq!(fixed, r#"{"content":"data","path":"/tmp/a","mode":"hello"}"#);

    let spliced = fix.splice_empty_key_slots(malformed, &["path", "mode"]);
    assert_eq!(spliced, r#"{"content":"data","path":"/tmp/a","mode":"hello"}"#);
}

#[test]
fn test_one_slot_with_multiple_candidates_ambiguous() {
    let fix = ToolcallMalformedArgumentsFix::new();
    let schemas = schema_map(&["path", "mode", "content"]);

    let malformed = r#"{"content":"x",{}":"/tmp/a"}"#;
    let err = fix
        .fix_arguments(malformed, "write", &schemas)
        .expect_err("two candidate keys for one slot is subset selection -> Err");
    assert_eq!(err.to_string(), "rebuild error: ambiguous: 2 candidates for 1 slots");

    assert_eq!(
        fix.splice_empty_key_slots(malformed, &["path"]),
        r#"{"content":"x","path":"/tmp/a"}"#
    );
}

#[test]
fn test_more_slots_than_candidates_fill_invalid_err() {
    let fix = ToolcallMalformedArgumentsFix::new();

    let spliced = fix.splice_empty_key_slots(r#"{"content":"x",{}":"/tmp/a",{}":"/tmp/b"}"#, &["path"]);
    assert_eq!(spliced, r#"{"content":"x","path":"/tmp/a",{}":"/tmp/b"}"#);

    let schemas = schema_map(&["path", "content"]);
    let err = fix
        .fix_arguments(r#"{"content":"x",{}":"/tmp/a",{}":"/tmp/b"}"#, "write", &schemas)
        .expect_err("one candidate cannot fill two slots -> Err, original preserved upstream");
    assert_eq!(err.to_string(), "rebuild error: fill invalid: 2 slots, 1 candidate");
}

#[test]
fn test_all_schema_keys_present_yields_no_candidate_err() {
    let fix = ToolcallMalformedArgumentsFix::new();
    let schemas = schema_map(&["path", "content"]);

    let err = fix
        .fix_arguments(r#"{"path":"/p","content":"c",{}":"/tmp/x"}"#, "write", &schemas)
        .expect_err("all schema keys present: the slot is extra garbage, never guessed away");
    assert_eq!(err.to_string(), "rebuild error: no candidate keys");
}

#[test]
fn test_no_slots_output_is_byte_identical() {
    let fix = ToolcallMalformedArgumentsFix::new();

    let clean = r#"{"path":"/x","content":"y"}"#;
    assert_eq!(fix.splice_empty_key_slots(clean, &["z"]), clean);

    let schemas = schema_map(&["path", "content"]);
    assert!(fix.fix_arguments(clean, "write", &schemas).unwrap().is_none());
}

#[test]
fn test_empty_string_key_in_value_is_not_a_slot() {
    let fix = ToolcallMalformedArgumentsFix::new();

    let decoy = r#"{"x":"{\"\": 1}"}"#;
    assert!(!ToolcallMalformedArgumentsFix::has_empty_key_slot(decoy));

    let schemas = schema_map(&["path"]);
    assert!(fix.fix_arguments(decoy, "write", &schemas).unwrap().is_none());
    assert_eq!(fix.splice_empty_key_slots(decoy, &["path"]), decoy);
}

#[test]
fn test_braces_inside_string_value_are_not_slots() {
    let fix = ToolcallMalformedArgumentsFix::new();
    let schemas = schema_map(&["path", "content"]);

    let malformed = r#"{"content":"brace {} here",{}":"/tmp/a"}"#;
    let fixed = fix
        .fix_arguments(malformed, "write", &schemas)
        .unwrap()
        .expect("real slot must be fixed");
    assert_eq!(fixed, r#"{"content":"brace {} here","path":"/tmp/a"}"#);
}

#[test]
fn test_nested_empty_string_key_is_not_a_slot() {
    let fix = ToolcallMalformedArgumentsFix::new();
    let schemas = schema_map(&["path", "content"]);

    let malformed = r#"{"outer":{"":1},"content":"x",{}":"/tmp/a"}"#;
    let fixed = fix
        .fix_arguments(malformed, "write", &schemas)
        .unwrap()
        .expect("top-level slot must be fixed");
    assert_eq!(fixed, r#"{"outer":{"":1},"content":"x","path":"/tmp/a"}"#);
}

#[test]
fn test_cjk_two_slots_splicer_verbatim_assigned_at_fix_level() {
    let fix = ToolcallMalformedArgumentsFix::new();
    let schemas = schema_map(&["path", "mode", "content"]);

    let malformed = r#"{"content":"你好世界",{}":"/路径/文件.rs",{}":"第二"}"#;
    let spliced = fix.splice_empty_key_slots(malformed, &["path", "mode"]);
    assert_eq!(spliced, r#"{"content":"你好世界","path":"/路径/文件.rs","mode":"第二"}"#);

    let fixed = fix
        .fix_arguments(malformed, "write", &schemas)
        .expect("2 candidates / 2 slots is a bijection")
        .expect("bijection assigns in schema order");
    assert_eq!(fixed, r#"{"content":"你好世界","path":"/路径/文件.rs","mode":"第二"}"#);
}

#[test]
fn test_escaped_quote_splicer_verbatim_assigned_at_fix_level() {
    let fix = ToolcallMalformedArgumentsFix::new();
    let schemas = schema_map(&["path", "mode", "content"]);

    let malformed = r#"{"content":"say \"hi\"",{}":"/tmp/a",{}":"b"}"#;
    let spliced = fix.splice_empty_key_slots(malformed, &["path", "mode"]);
    assert_eq!(spliced, r#"{"content":"say \"hi\"","path":"/tmp/a","mode":"b"}"#);

    let fixed = fix
        .fix_arguments(malformed, "write", &schemas)
        .expect("2 candidates / 2 slots is a bijection")
        .expect("bijection assigns in schema order");
    assert_eq!(fixed, r#"{"content":"say \"hi\"","path":"/tmp/a","mode":"b"}"#);
}

#[test]
fn task27_candidate_scanner_sanity_cjk_dotted_escaped() {
    let fix = ToolcallMalformedArgumentsFix::new();

    let cjk = schema_map(&["路径", "内容"]);
    assert_eq!(fix.candidate_keys(r#"{"内容":"甲",{}":"/乙"}"#, cjk.get("write").unwrap()), vec!["路径"]);

    let dotted = schema_map(&["a.b", "path"]);
    assert_eq!(
        fix.candidate_keys(r#"{"a.b":1,{}":"v"}"#, dotted.get("write").unwrap()),
        vec!["path"],
        "present dotted key drops out"
    );
    assert_eq!(
        fix.candidate_keys(r#"{"x":"a.b",{}":"v"}"#, dotted.get("write").unwrap()),
        vec!["a.b", "path"],
        "dotted key inside a value is not present: both stay candidates, schema order"
    );

    let escaped = schema_map(&["path", "say \"a.b\""]);
    assert_eq!(
        fix.candidate_keys(r#"{"say \"a.b\"":"x",{}":"/tmp/f"}"#, escaped.get("write").unwrap()),
        vec!["path"],
        "escaped-quote key is present; scanner must not desync on the value"
    );
}

#[test]
fn task27_candidate_set_follows_schema_order_not_scan_order() {
    let fix = ToolcallMalformedArgumentsFix::new();
    let input = r#"{"content":"c",{}":"x"}"#;

    let order_a = schema_map(&["path", "mode"]);
    assert_eq!(
        fix.candidate_keys(input, order_a.get("write").unwrap()),
        vec!["path", "mode"],
        "candidates must be enumerated in schema order"
    );

    let order_b = schema_map(&["mode", "path"]);
    assert_eq!(
        fix.candidate_keys(input, order_b.get("write").unwrap()),
        vec!["mode", "path"],
        "candidate order tracks the schema, independent of scan/insertion order"
    );
}

#[test]
fn task27_subset_selection_error_and_response_bytes_preserved() {
    let fix = ToolcallMalformedArgumentsFix::new();
    let request = write_request(&["path", "mode", "content"]);

    let args = r#"{"note":"data",{}":"/tmp/a",{}":"b"}"#;
    let response = obj(vec![("choices", arr(vec![obj(vec![("message", obj(vec![("tool_calls", arr(vec![obj(vec![("id", json(r#""call_1""#)), ("type", json(r#""function""#)), ("function", obj(vec![("name", json(r#""write""#)), ("arguments", args.to_json())]))])]))]))])]))]);
    let input_bytes = response.print();

    let result = fix.apply_with_context(response.clone(), &request);
    match result {
        Ok((v, _a)) => panic!(
            "a guesser would choose a subset here; it produced: {:?}",
            v.ix("choices").ix(0).ix("message").ix("tool_calls").ix(0).ix("function").ix("arguments").as_str()
        ),
        Err(err) => {
            assert!(matches!(err, FixError::Rebuild(_)), "must be Rebuild, got {err:?}");
            assert_eq!(err.to_string(), "rebuild error: ambiguous: 3 candidates for 2 slots");
        }
    }
    assert_eq!(
        response.print(),
        input_bytes,
        "fixer must not mutate what the fail-safe forwards"
    );
}

#[test]
fn test_two_slots_three_candidates_ambiguous() {
    let fix = ToolcallMalformedArgumentsFix::new();

    let cjk = schema_map(&["路径", "模式", "备注"]);
    let err = fix
        .fix_arguments(r#"{"杂项":"x",{}":"/甲",{}":"/乙"}"#, "write", &cjk)
        .expect_err("3 candidates for 2 slots is subset selection -> Err");
    assert_eq!(err.to_string(), "rebuild error: ambiguous: 3 candidates for 2 slots");

    let latin = schema_map(&["path", "mode", "content"]);
    let err = fix
        .fix_arguments(r#"{"other":"x",{}":"same",{}":"same"}"#, "write", &latin)
        .expect_err("duplicate slot values do not make a bijection");
    assert_eq!(err.to_string(), "rebuild error: ambiguous: 3 candidates for 2 slots");
}

fn write_request(order: &[&str]) -> Json {
    let props = obj(order.iter().map(|k| (*k, json(r#"{"type": "string"}"#))).collect());
    obj(vec![("tools", arr(vec![obj(vec![("type", json(r#""function""#)), ("function", obj(vec![("name", json(r#""write""#)), ("parameters", obj(vec![("type", json(r#""object""#)), ("properties", props.to_json())]))]))])]))])
}

fn registry_with_malformed_fix() -> FixRegistry<ToolcallMalformedArgumentsFix> {
    let mut registry = FixRegistry::new();
    registry.register(ToolcallMalformedArgumentsFix::new());
    registry
}

#[test]
fn task28_malformed_in_choices_one_message_triggers_fix() {
    let fix = ToolcallMalformedArgumentsFix::new();
    let request = write_request(&["file_path", "content"]);
    let response = json(r#"{"choices": [{"index": 0, "message": {"role": "assistant", "content": "done"}, "finish_reason": "stop"}, {"index": 1, "message": {"role": "assistant", "tool_calls": [{"id": "call_1", "type": "function", "function": {"name": "write", "arguments": "{\"content\":\"data\",{}\":\"/tmp/file.txt\"}"}}]}, "finish_reason": "tool_calls"}]}"#);

    assert!(
        fix.applies(&response),
        "applies() must trigger on a choices[1] message tool call"
    );
    assert!(fix.applies_with_context(&response, &request));

    let result = registry_with_malformed_fix().apply_fixes_with_context(response, &request);
    let args = result.ix("choices").ix(1).ix("message").ix("tool_calls").ix(0).ix("function").ix("arguments")
        .as_str()
        .unwrap();
    assert!(args.contains(r#""file_path":"#));
    assert!(!args.contains(r#"{}":"#));
    Json::parse(args).expect("fixed arguments are valid JSON");
}

#[test]
fn task28_malformed_in_choices_one_delta_triggers_fix() {
    let fix = ToolcallMalformedArgumentsFix::new();
    let request = write_request(&["file_path", "content"]);
    let response = json(r#"{"choices": [{"index": 0, "message": {"role": "assistant", "content": "done"}, "finish_reason": "stop"}, {"index": 1, "delta": {"tool_calls": [{"index": 0, "function": {"name": "write", "arguments": "{\"content\":\"data\",{}\":\"/tmp/file.txt\"}"}}]}}]}"#);

    assert!(
        fix.applies(&response),
        "applies() must trigger on a choices[1] delta tool call"
    );
    assert!(fix.applies_with_context(&response, &request));

    let result = registry_with_malformed_fix().apply_fixes_with_context(response, &request);
    let args = result.ix("choices").ix(1).ix("delta").ix("tool_calls").ix(0).ix("function").ix("arguments")
        .as_str()
        .unwrap();
    assert!(args.contains(r#""file_path":"#));
    assert!(!args.contains(r#"{}":"#));
    Json::parse(args).expect("fixed delta arguments are valid JSON");
}

#[test]
fn task28_two_malformed_choices_both_fixed() {
    let request = write_request(&["file_path", "content"]);
    let response = json(r#"{"choices": [{"message": {"tool_calls": [{"function": {"name": "write", "arguments": "{\"content\":\"a\",{}\":\"/tmp/0\"}"}}]}}, {"message": {"tool_calls": [{"function": {"name": "write", "arguments": "{\"content\":\"b\",{}\":\"/tmp/1\"}"}}]}}]}"#);

    let result = registry_with_malformed_fix().apply_fixes_with_context(response, &request);
    for i in 0..2 {
        let args = result.ix("choices").ix(i).ix("message").ix("tool_calls").ix(0).ix("function").ix("arguments")
            .as_str()
            .unwrap();
        assert!(args.contains(r#""file_path":"#), "choice[{i}] must be fixed");
        assert!(!args.contains(r#"{}":"#), "choice[{i}] slot must be gone");
    }
}

#[test]
fn task28_irreparable_later_choice_aborts_whole_response() {
    let fix = ToolcallMalformedArgumentsFix::new();
    let request = write_request(&["path", "mode", "content"]);
    let response = json(r#"{"choices": [{"message": {"tool_calls": [{"function": {"name": "write", "arguments": "{\"content\":\"a\",\"mode\":\"0644\",{}\":\"/tmp/0\"}"}}]}}, {"message": {"tool_calls": [{"function": {"name": "write", "arguments": "{\"content\":\"b\",{}\":\"/tmp/1\"}"}}]}}]}"#);
    let input_bytes = response.print();

    let err = fix
        .apply_with_context(response.clone(), &request)
        .expect_err("choice[1] ambiguity aborts the whole response repair");
    assert!(matches!(err, FixError::Rebuild(_)));
    assert_eq!(err.to_string(), "rebuild error: ambiguous: 2 candidates for 1 slots");
    assert_eq!(
        response.print(),
        input_bytes,
        "the fixer took a clone; caller's copy untouched"
    );

    let result = registry_with_malformed_fix().apply_fixes_with_context(response, &request);
    assert_eq!(result.print(), input_bytes, "fail-safe forwards the ORIGINAL bytes");
}

#[test]
fn task28_clean_tool_calls_do_not_trigger_gate() {
    let fix = ToolcallMalformedArgumentsFix::new();
    let clean = json(r#"{"choices": [{"message": {"tool_calls": [{"function": {"name": "write", "arguments": "{\"content\":\"d\",\"file_path\":\"/tmp/f\"}"}}]}}, {"delta": {"tool_calls": [{"function": {"name": "write", "arguments": "{\"content\":\"d\"}"}}]}}]}"#);
    assert!(!fix.applies(&clean), "valid arguments must not claim a detection");
    assert!(!fix.applies_with_context(&clean, &write_request(&["file_path", "content"])));

    let odd = json(r#"{"choices": [{"delta": {"tool_calls": [{"function": {"name": "write", "arguments": null}}, {"function": {"name": "write"}}, {}, null]}}]}"#);
    assert!(!fix.applies(&odd));
}

#[test]
fn task28_null_choice_between_valid_choices_is_skipped() {
    let fix = ToolcallMalformedArgumentsFix::new();
    let request = write_request(&["file_path", "content"]);
    let response = obj(vec![("choices", arr(vec![json(r#"{"message": {"content": "done"}}"#), Json::Null, json(r#"{"message": {"tool_calls": [{"function": {"name": "write", "arguments": "{\"content\":\"x\",{}\":\"/tmp/n\"}"}}]}}"#)]))]);

    assert!(fix.applies(&response), "null entry must not mask the choices[2] trigger");
    let result = registry_with_malformed_fix().apply_fixes_with_context(response, &request);
    assert!(result.ix("choices").ix(1) == &Json::Null, "null choice survives untouched");
    let args = result.ix("choices").ix(2).ix("message").ix("tool_calls").ix(0).ix("function").ix("arguments")
        .as_str()
        .unwrap();
    assert!(args.contains(r#""file_path":"#));
}

#[test]
fn task28_delta_tool_call_without_function_key_no_panic() {
    let fix = ToolcallMalformedArgumentsFix::new();
    let request = write_request(&["file_path", "content"]);
    let response = json(r#"{"choices": [{"delta": {"content": ""}}, {"delta": {"tool_calls": [{"index": 0, "id": "call_1", "type": "function"}, {"index": 0, "function": {"name": "write", "arguments": "{\"content\":\"x\",{}\":\"/tmp/f\"}"}}]}}]}"#);

    assert!(fix.applies(&response));
    let result = registry_with_malformed_fix().apply_fixes_with_context(response, &request);
    let deltas = result.ix("choices").ix(1).ix("delta").ix("tool_calls").as_array().unwrap();
    assert!(deltas[0].get("function").is_none(), "function-less entry stays as sent");
    let args = deltas[1].ix("function").ix("arguments").as_str().unwrap();
    assert!(args.contains(r#""file_path":"#));
}

#[test]
fn task30_two_repaired_calls_across_choices_aggregate_both_snippets() {
    let request = write_request(&["file_path", "content"]);
    let response = json(r#"{"choices": [{"message": {"tool_calls": [{"function": {"name": "write", "arguments": "{\"content\":\"AAA\",{}\":\"/tmp/a.txt\"}"}}]}}, {"message": {"tool_calls": [{"function": {"name": "write", "arguments": "{\"content\":\"BBB\",{}\":\"/tmp/b.txt\"}"}}]}}]}"#);

    let (result, action) = ToolcallMalformedArgumentsFix::new()
        .apply_with_context(response, &request)
        .expect("one candidate for one slot per call — bijective, both repairable");

    for (choice, marker) in [(0, "AAA"), (1, "BBB")] {
        let args = result.ix("choices").ix(choice).ix("message").ix("tool_calls").ix(0).ix("function").ix("arguments")
            .as_str()
            .unwrap();
        assert!(
            args.contains(r#""file_path""#) && args.contains(marker),
            "choice {choice} repaired"
        );
    }

    match action {
        FixAction::Fixed {
            original_snippet,
            fixed_snippet,
        } => {
            assert!(
                original_snippet.contains("AAA") && original_snippet.contains("BBB"),
                "aggregated originals must cover every repaired call, got: {original_snippet}"
            );
            assert!(
                fixed_snippet.contains("/tmp/a.txt") && fixed_snippet.contains("/tmp/b.txt"),
                "aggregated fixed snippets must cover every repaired call, got: {fixed_snippet}"
            );
        }
        other => panic!("aggregated action must be Fixed, got {other:?}"),
    }
}
