use llama_proxy::config::{FixModuleConfig, FixesConfig};
use llama_proxy::fixes::snippet::{truncate_snippet, SnippetLimit};
use llama_proxy::fixes::{
    create_default_registry, create_registry_from_config, BuiltinFix, FixAction, FixError, FixRegistry, ResponseFix,
    ToolcallBadFilepathFix, ToolcallMalformedArgumentsFix,
};
use llama_proxy::harness::fixes::{BareFix, ScriptedFix};
use llama_proxy::json::Json;
use llama_proxy::text_map::TextMap;

fn json(text: &str) -> Json {
    Json::parse(text).unwrap()
}

trait Key {
    fn find<'a>(&self, v: &'a Json) -> Option<&'a Json>;
}

impl Key for &str {
    fn find<'a>(&self, v: &'a Json) -> Option<&'a Json> {
        v.get(self)
    }
}

impl Key for usize {
    fn find<'a>(&self, v: &'a Json) -> Option<&'a Json> {
        v.at(*self)
    }
}

trait Look {
    fn ix(&self, key: impl Key) -> &Json;
}

impl Look for Json {
    fn ix(&self, key: impl Key) -> &Json {
        key.find(self).expect("the value must be there")
    }
}

fn text(v: &Json) -> &str {
    v.as_str().expect("the value must be a text")
}

trait ToJson {
    fn to_json(self) -> Json;
}

impl ToJson for &str {
    fn to_json(self) -> Json {
        Json::Str(self.to_string())
    }
}

impl ToJson for String {
    fn to_json(self) -> Json {
        Json::Str(self)
    }
}

impl ToJson for Json {
    fn to_json(self) -> Json {
        self
    }
}

fn obj(members: Vec<(&str, Json)>) -> Json {
    let mut o = Json::Object(vec![]);
    for (k, v) in members {
        o.insert(k.to_string(), v);
    }
    o
}

fn arr(items: Vec<Json>) -> Json {
    Json::Array(items)
}

#[test]
fn test_truncate_snippet_bytes_truncates_long_text() {
    let long_text = "a".repeat(200);
    let snippet = truncate_snippet(&long_text, 100, SnippetLimit::Bytes);

    assert!(snippet.len() <= 103);
    assert!(snippet.ends_with("..."));
}

#[test]
fn test_truncate_snippet_bytes_preserves_short_text() {
    let short_text = "short text";
    let snippet = truncate_snippet(short_text, 100, SnippetLimit::Bytes);

    assert_eq!(snippet, short_text);
    assert!(!snippet.ends_with("..."));
}

#[test]
fn task30_aggregate_repairs_fold_contract() {
    assert!(matches!(FixAction::aggregate_repairs(&[]), FixAction::NotApplicable));

    let one = FixAction::fixed("o1", "f1");
    match FixAction::aggregate_repairs(std::slice::from_ref(&one)) {
        FixAction::Fixed {
            original_snippet,
            fixed_snippet,
        } => {
            assert_eq!(original_snippet, "o1", "single repair passes through verbatim");
            assert_eq!(fixed_snippet, "f1");
        }
        other => panic!("single repair must stay Fixed, got {other:?}"),
    }

    let many = vec![FixAction::fixed("o1", "f1"), FixAction::fixed("o2 日本", "f2 🔧")];
    match FixAction::aggregate_repairs(&many) {
        FixAction::Fixed {
            original_snippet,
            fixed_snippet,
        } => {
            assert_eq!(original_snippet, "2 repairs: o1 ;; o2 日本");
            assert_eq!(fixed_snippet, "2 repairs: f1 ;; f2 🔧");
        }
        other => panic!("multi repair must fold into Fixed, got {other:?}"),
    }
}

fn fixes_cfg(global_enabled: bool, modules: &[(&str, bool)]) -> FixesConfig {
    let mut map = TextMap::new();
    for (name, enabled) in modules {
        map.insert(
            (*name).to_string(),
            FixModuleConfig {
                enabled: *enabled,
                options: TextMap::new(),
            },
        );
    }
    FixesConfig {
        enabled: global_enabled,
        modules: map,
    }
}

#[test]
fn test_from_config_disabled_module_is_not_constructed() {
    let fixes = fixes_cfg(true, &[("toolcall_bad_filepath", false)]);

    let registry = create_registry_from_config(&fixes);

    assert_eq!(registry.list_fixes().len(), 2);
    assert!(registry.get_fix("toolcall_bad_filepath").is_none());
    assert!(registry.is_enabled("toolcall_null_index_fix"));
    assert!(registry.is_enabled("toolcall_malformed_arguments"));
}

#[test]
fn test_from_config_explicit_true_and_absent_both_construct() {
    let fixes = fixes_cfg(true, &[("toolcall_bad_filepath", true)]);

    let registry = create_registry_from_config(&fixes);
    assert_eq!(registry.list_fixes().len(), 3);
    assert!(registry.is_enabled("toolcall_bad_filepath"));
    assert!(registry.is_enabled("toolcall_null_index_fix"));
    assert!(registry.is_enabled("toolcall_malformed_arguments"));
}

#[test]
fn test_from_config_matches_both_name_spellings() {
    let short_key = create_registry_from_config(&fixes_cfg(true, &[("toolcall_null_index", false)]));
    assert_eq!(short_key.list_fixes().len(), 2);
    assert!(short_key.get_fix("toolcall_null_index_fix").is_none());

    let suffixed_key = create_registry_from_config(&fixes_cfg(true, &[("toolcall_bad_filepath_fix", false)]));
    assert_eq!(suffixed_key.list_fixes().len(), 2);
    assert!(suffixed_key.get_fix("toolcall_bad_filepath").is_none());
}

#[test]
fn test_from_config_unknown_key_warns_and_continues() {
    let fixes = fixes_cfg(true, &[("toolcall_badfilepath", false), ("ツール修正", false)]);

    let registry = create_registry_from_config(&fixes);
    assert_eq!(registry.list_fixes().len(), 3);
    assert!(registry.is_enabled("toolcall_bad_filepath"));
}

#[test]
fn test_from_config_global_disabled_constructs_nothing() {
    let fixes = fixes_cfg(false, &[("toolcall_bad_filepath", true)]);

    let registry = create_registry_from_config(&fixes);
    assert!(registry.list_fixes().is_empty());
}

#[test]
fn test_from_config_preserves_default_registration_order() {
    let default_registry = create_default_registry();
    let expected: Vec<&str> = default_registry.list_fixes().iter().map(|f| f.name()).collect();

    let registry = create_registry_from_config(&FixesConfig::default());
    let actual: Vec<&str> = registry.list_fixes().iter().map(|f| f.name()).collect();
    assert_eq!(actual, expected);
}

#[test]
fn test_registry_new() {
    let registry = FixRegistry::<BuiltinFix>::new();
    assert!(registry.list_fixes().is_empty());
    assert!(!registry.is_enabled("toolcall_bad_filepath"));
}

#[test]
fn test_registry_default() {
    let registry = FixRegistry::<BuiltinFix>::default();
    assert!(registry.list_fixes().is_empty());
}

#[test]
fn test_registry_register() {
    let mut registry = FixRegistry::new();
    let fix = ToolcallBadFilepathFix::new();
    registry.register(fix);

    assert_eq!(registry.list_fixes().len(), 1);
    assert!(registry.is_enabled("toolcall_bad_filepath"));
}

#[test]
fn test_registry_set_enabled() {
    let mut registry = FixRegistry::new();
    registry.register(ToolcallBadFilepathFix::new());

    assert!(registry.is_enabled("toolcall_bad_filepath"));

    registry.set_enabled("toolcall_bad_filepath", false);
    assert!(!registry.is_enabled("toolcall_bad_filepath"));

    registry.set_enabled("toolcall_bad_filepath", true);
    assert!(registry.is_enabled("toolcall_bad_filepath"));
}

#[test]
fn test_registry_set_enabled_unknown_fix() {
    let mut registry = FixRegistry::<BuiltinFix>::new();
    registry.set_enabled("unknown_fix", false);
    assert!(!registry.is_enabled("unknown_fix"));
}

#[test]
fn test_registry_is_enabled_unknown() {
    let registry = FixRegistry::<BuiltinFix>::new();
    assert!(!registry.is_enabled("nonexistent"));
}

#[test]
fn test_registry_get_fix() {
    let mut registry = FixRegistry::new();
    registry.register(ToolcallBadFilepathFix::new());

    let fix = registry.get_fix("toolcall_bad_filepath");
    assert!(fix.is_some());
    assert_eq!(fix.unwrap().name(), "toolcall_bad_filepath");

    let missing = registry.get_fix("nonexistent");
    assert!(missing.is_none());
}

#[test]
fn test_registry_apply_fixes_no_fixes() {
    let registry = FixRegistry::<BuiltinFix>::new();
    let response = json(r#"{"test": "value"}"#);
    let result = registry.apply_fixes(response.clone());
    assert_eq!(result, response);
}

#[test]
fn test_registry_apply_fixes_disabled() {
    let mut registry = FixRegistry::new();
    registry.register(ToolcallBadFilepathFix::new());
    registry.set_enabled("toolcall_bad_filepath", false);

    let response = json(r#"{"test": "value"}"#);
    let result = registry.apply_fixes(response.clone());
    assert_eq!(result, response);
}

#[test]
fn test_registry_apply_fixes_doesnt_apply() {
    let mut registry = FixRegistry::new();
    registry.register(ToolcallBadFilepathFix::new());

    let response = json(r#"{"choices": [{"message": {"content": "Hello"}}]}"#);
    let result = registry.apply_fixes(response.clone());
    assert_eq!(result, response);
}

#[test]
fn test_registry_apply_fixes_applies() {
    let mut registry = FixRegistry::new();
    registry.register(ToolcallBadFilepathFix::new());

    let response = json(r#"{"choices": [{"message": {"tool_calls": [{"function": {"name": "write", "arguments": "{\"filePath\":\"/path\",\"filePath\"/broken\"}"}}]}}]}"#);

    let result = registry.apply_fixes(response);
    let args = result.ix("choices").ix(0).ix("message").ix("tool_calls").ix(0).ix("function").ix("arguments");
    let args_str = args.as_str().unwrap();
    assert!(Json::parse(args_str).is_ok());
}

#[test]
fn test_registry_apply_fixes_stream() {
    let mut registry = FixRegistry::new();
    registry.register(ToolcallBadFilepathFix::new());

    let chunk = json(r#"{"choices": [{"delta": {"content": "test"}}]}"#);

    let result = registry.apply_fixes_stream(chunk.clone());
    assert_eq!(result, chunk);
}

#[test]
fn test_registry_configure() {
    let mut registry = FixRegistry::new();
    registry.register(ToolcallBadFilepathFix::new());

    let mut modules = TextMap::new();
    modules.insert(
        "toolcall_bad_filepath".to_string(),
        FixModuleConfig {
            enabled: false,
            options: TextMap::new(),
        },
    );

    registry.configure(&modules);
    assert!(!registry.is_enabled("toolcall_bad_filepath"));
}

#[test]
fn test_registry_configure_accepts_fix_suffix_spelling() {
    let mut registry = FixRegistry::new();
    registry.register(ToolcallBadFilepathFix::new());

    let mut modules = TextMap::new();
    modules.insert(
        "toolcall_bad_filepath_fix".to_string(),
        FixModuleConfig {
            enabled: false,
            options: TextMap::new(),
        },
    );

    registry.configure(&modules);
    assert!(!registry.is_enabled("toolcall_bad_filepath"));
}

#[test]
fn test_registry_configure_typo_leaves_fix_untouched() {
    let mut registry = FixRegistry::new();
    registry.register(ToolcallBadFilepathFix::new());

    let mut modules = TextMap::new();
    modules.insert(
        "toolcall_badfilepath".to_string(),
        FixModuleConfig {
            enabled: false,
            options: TextMap::new(),
        },
    );

    registry.configure(&modules);
    assert!(registry.is_enabled("toolcall_bad_filepath"));
}

#[test]
fn test_registry_configure_unknown_fix() {
    let mut registry = FixRegistry::<BuiltinFix>::new();

    let mut modules = TextMap::new();
    modules.insert(
        "unknown_fix".to_string(),
        FixModuleConfig {
            enabled: true,
            options: TextMap::new(),
        },
    );

    registry.configure(&modules);
}

#[test]
fn test_multiple_fixes() {
    let mut registry = FixRegistry::new();
    registry.register(ToolcallBadFilepathFix::new());
    registry.register(ToolcallBadFilepathFix::new());

    assert_eq!(registry.list_fixes().len(), 2);
    assert!(registry.is_enabled("toolcall_bad_filepath"));
}

#[test]
fn test_apply_fixes_with_context() {
    let mut registry = FixRegistry::new();
    let fix = ToolcallMalformedArgumentsFix::new();
    registry.register(fix);

    let request = json(r#"{"tools": [{"type": "function", "function": {"name": "write", "parameters": {"type": "object", "properties": {"file_path": {"type": "string"}, "content": {"type": "string"}}}}}]}"#);

    let response = json(r#"{"choices": [{"message": {"tool_calls": [{"function": {"name": "write", "arguments": "{\"content\":\"data\",{}\":\"/tmp/file.txt\"}"}}]}}]}"#);

    let result = registry.apply_fixes_with_context(response, &request);

    let args = result.ix("choices").ix(0).ix("message").ix("tool_calls").ix(0).ix("function").ix("arguments")
        .as_str()
        .unwrap();

    assert!(args.contains(r#""file_path":"#));
    assert!(!args.contains(r#"{}":"#));

    let parsed = Json::parse(args);
    assert!(parsed.is_ok());
}

#[test]
fn test_apply_fixes_with_context_disabled() {
    let mut registry = FixRegistry::new();
    let fix = ToolcallMalformedArgumentsFix::new();
    registry.register(fix);
    registry.set_enabled("toolcall_malformed_arguments", false);

    let request = json(r#"{"tools": [{"type": "function", "function": {"name": "write", "parameters": {"type": "object", "properties": {"file_path": {"type": "string"}, "content": {"type": "string"}}}}}]}"#);

    let response = json(r#"{"choices": [{"message": {"tool_calls": [{"function": {"name": "write", "arguments": "{\"content\":\"data\",{}\":\"/tmp/file.txt\"}"}}]}}]}"#);

    let result = registry.apply_fixes_with_context(response.clone(), &request);

    assert_eq!(result, response);
}

#[test]
fn test_apply_fixes_stream_with_context() {
    let mut registry = FixRegistry::new();
    let fix = ToolcallMalformedArgumentsFix::new();
    registry.register(fix);

    let request = json(r#"{"tools": [{"type": "function", "function": {"name": "write", "parameters": {"type": "object", "properties": {"file_path": {"type": "string"}, "content": {"type": "string"}}}}}]}"#);

    let chunk = json(r#"{"choices": [{"delta": {"tool_calls": [{"function": {"name": "write", "arguments": "{\"content\":\"data\",{}\":\"/path.txt\"}"}}]}}]}"#);

    let result = registry.apply_fixes_stream_with_context(chunk, &request);

    let args = result.ix("choices").ix(0).ix("delta").ix("tool_calls").ix(0).ix("function").ix("arguments")
        .as_str()
        .unwrap();

    assert!(args.contains(r#""file_path":"#));
    assert!(!args.contains(r#"{}":"#));
}

#[test]
fn test_backward_compatibility_with_old_fixes() {
    let mut registry = FixRegistry::new();
    registry.register(ToolcallBadFilepathFix::new());

    let request = json(r#"{"model": "test"}"#);

    let response = json(r#"{"choices": [{"message": {"tool_calls": [{"function": {"name": "write", "arguments": "{\"filePath\":\"/path\",\"filePath\":\"/broken\"}"}}]}}]}"#);

    let result = registry.apply_fixes_with_context(response, &request);

    let args = result.ix("choices").ix(0).ix("message").ix("tool_calls").ix(0).ix("function").ix("arguments")
        .as_str()
        .unwrap();

    assert!(Json::parse(args).is_ok());
}

#[test]
fn test_truncate_snippet_multibyte_is_char_safe() {
    let s = "ファイル🔧".repeat(40);

    let clipped = truncate_snippet(&s, 10, SnippetLimit::Bytes);
    assert!(clipped.ends_with("..."));
    assert!(clipped.len() <= 13);
    assert!(s.starts_with(clipped.trim_end_matches("...")));

    let clipped = truncate_snippet(&s, 10, SnippetLimit::Chars);
    assert!(clipped.ends_with("..."));
    assert_eq!(clipped.chars().count(), 10);
}

#[test]
fn test_apply_fixes_with_context_fixer_error_keeps_response_byte_identical() {
    let mut registry = FixRegistry::new();
    registry.register(ScriptedFix::Failing);

    let request = json(r#"{"model": "test"}"#);
    let response = json(r#"{"choices": [{"message": {"content": "hello"}}]}"#);

    let result = registry.apply_fixes_with_context(response.clone(), &request);

    assert_eq!(
        result.print(),
        response.print()
    );
}

#[test]
fn test_apply_fixes_with_context_fixer_error_does_not_swallow_later_fix() {
    let mut registry = FixRegistry::new();
    registry.register(ScriptedFix::Failing);
    registry.register(ScriptedFix::Arguments(ToolcallMalformedArgumentsFix::new()));

    let request = json(r#"{"tools": [{"type": "function", "function": {"name": "write", "parameters": {"type": "object", "properties": {"file_path": {"type": "string"}, "content": {"type": "string"}}}}}]}"#);
    let response = json(r#"{"choices": [{"message": {"tool_calls": [{"function": {"name": "write", "arguments": "{\"content\":\"data\",{}\":\"/tmp/file.txt\"}"}}]}}]}"#);

    let result = registry.apply_fixes_with_context(response, &request);

    let args = result.ix("choices").ix(0).ix("message").ix("tool_calls").ix(0).ix("function").ix("arguments")
        .as_str()
        .unwrap();
    assert!(args.contains(r#""file_path":"#));
    assert!(!args.contains(r#"{}":"#));
}

#[test]
fn test_apply_fixes_with_context_ok_fixed_still_applies() {
    let mut registry = FixRegistry::new();
    registry.register(ScriptedFix::Marking);

    let request = json(r#"{"model": "test"}"#);
    let response = json(r#"{"choices": []}"#);

    let result = registry.apply_fixes_with_context(response, &request);

    assert_eq!(*result.ix("marked"), Json::Bool(true));
}

#[test]
fn test_fixer_error_action_records_reason_and_clips_snippet() {
    let response = obj(vec![("choices", arr(vec![obj(vec![("message", obj(vec![("content", ("x".repeat(500)).to_json())]))])]))]);

    let action = FixRegistry::<ToolcallBadFilepathFix>::fixer_error_action(&response, &FixError::Parse("boom".to_string()));

    match action {
        FixAction::Failed {
            original_snippet,
            attempted_fix,
        } => {
            assert_eq!(attempted_fix, "fixer error: parse error: boom");
            assert_eq!(original_snippet.chars().count(), 200);
            assert!(original_snippet.ends_with("..."));
        }
        other => panic!("expected Failed action, got {other:?}"),
    }
}

#[test]
fn test_fixer_error_action_attempted_fix_round_trips_cjk() {
    let action = FixRegistry::<ToolcallBadFilepathFix>::fixer_error_action(
        &json(r#"{}"#),
        &FixError::Rebuild("再構築に失敗しました 🔧".to_string()),
    );

    match action {
        FixAction::Failed { attempted_fix, .. } => {
            assert_eq!(attempted_fix, "fixer error: rebuild error: 再構築に失敗しました 🔧");
        }
        other => panic!("expected Failed action, got {other:?}"),
    }
}

#[test]
fn test_apply_with_context_trait_default_returns_ok_not_applicable() {
    let fix = BareFix;
    let response = json(r#"{"a": 1}"#);

    let (out, action) = fix.apply_with_context(response.clone(), &json(r#"{}"#)).unwrap();

    assert_eq!(out, response);
    assert!(matches!(action, FixAction::NotApplicable));
}

fn response_with_arguments(arguments: &str) -> Json {
    obj(vec![("choices", arr(vec![obj(vec![("message", obj(vec![("tool_calls", arr(vec![obj(vec![("index", json(r#"0"#)), ("function", obj(vec![("name", json(r#""write""#)), ("arguments", arguments.to_json())]))])]))]))])]))])
}

#[test]
fn test_real_fixer_unparseable_payload_keeps_input_and_emits_exactly_one_failed() {
    let mut registry = FixRegistry::new();
    registry.register(ToolcallBadFilepathFix::new());

    let request = json(r#"{"model": "test"}"#);
    let response = response_with_arguments(r#"{"content":"x",,"filePath":garbage}"#);
    let input_json = response.print();

    let (result, logs) = registry.apply_fixes_with_context_logged(response.clone(), &request);

    let output_json = result.print();
    assert_eq!(output_json, input_json);
    let args_out = result.ix("choices").ix(0).ix("message").ix("tool_calls").ix(0).ix("function").ix("arguments")
        .as_str()
        .unwrap();
    assert_eq!(args_out, r#"{"content":"x",,"filePath":garbage}"#);
    assert_ne!(args_out, "{}");

    let failed_records = logs.iter().filter(|l| l.message == "Failed to fix malformed content").count();
    let success_records = logs.iter().filter(|l| l.message == "Successfully fixed malformed content").count();
    assert_eq!(failed_records, 1, "expected exactly one failure, log: {logs:?}");
    assert_eq!(success_records, 0, "a failed fix must never log success, log: {logs:?}");
}

#[test]
fn test_real_fixer_parseable_duplicate_payload_still_fixed_via_context() {
    let mut registry = FixRegistry::new();
    registry.register(ToolcallBadFilepathFix::new());

    let request = json(r#"{"model": "test"}"#);
    let response = response_with_arguments(r#"{"filePath":"/path1","filePath":"/path2"}"#);

    let result = registry.apply_fixes_with_context(response, &request);

    let args_out = result.ix("choices").ix(0).ix("message").ix("tool_calls").ix(0).ix("function").ix("arguments")
        .as_str()
        .unwrap();
    assert!(Json::parse(args_out).is_ok(), "normalized args: {args_out}");
    let parsed = Json::parse(args_out).unwrap();
    assert_eq!(text(parsed.ix("filePath")), "/path1", "of equal keys the first wins");
}
