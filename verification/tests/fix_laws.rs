use llama_proxy::augment::{extract_user_content_from_json, inject_augmentation_value, AugmentBackend};
use llama_proxy::config::{AugmentBackendConfig, AugmentBackendError, FixModuleConfig, FixesConfig};
use llama_proxy::fixes::builtin::create_registry_from_config_logged;
use llama_proxy::fixes::log::{log_fix_action, LogLevel};
use llama_proxy::fixes::snippet::{truncate_snippet, SnippetLimit};
use llama_proxy::fixes::toolcall_malformed_arguments_fix::empty_key_slots;
use llama_proxy::fixes::{
    create_default_registry, FixAction, FixError, FixLogLevel, ResponseFix, ToolCallNullIndexFix,
    ToolcallBadFilepathFix, ToolcallMalformedArgumentsFix,
};
use llama_proxy::json::Json;
use llama_proxy::text_map::TextMap;

fn json(text: &str) -> Json {
    Json::parse(text).unwrap()
}

fn calls(side: &str, list: &str) -> Json {
    json(&format!(r#"{{"id": "r", "choices": [{{"{side}": {{"role": "assistant", "tool_calls": {list}}}}}]}}"#))
}

#[test]
fn a_fix_repairs_every_call_and_keeps_the_rest() {
    let response = calls("message", r#"[{"id": "a"}, {"index": 7}, {"index": null}, 3]"#);
    let (fixed, action) = ToolCallNullIndexFix::new().apply(response);
    assert_eq!(fixed, calls("message", r#"[{"id": "a", "index": 0}, {"index": 7}, {"index": 2}, 3]"#));
    assert!(matches!(action, FixAction::Fixed { .. }));
}

#[test]
fn a_second_application_changes_nothing() {
    let fix = ToolCallNullIndexFix::new();
    let (once, _) = fix.apply(calls("message", r#"[{"id": "a"}, {"index": "x"}]"#));
    let (twice, action) = fix.apply(once.clone());
    assert_eq!(twice, once);
    assert!(matches!(action, FixAction::NotApplicable));
}

#[test]
fn repaired_arguments_are_json() {
    let fix = ToolcallBadFilepathFix::new();
    for args in [
        r#"{"content":"x","filePath":"/a","filePath"/b"}"#,
        r#"{"filePath":"/a","filePath":"/b"}"#,
        r#"{"filePath"#,
        "",
    ] {
        match fix.fix_arguments(args) {
            Ok(text) => assert!(Json::parse(&text).is_ok(), "{args} became {text}"),
            Err(e) => assert!(matches!(e, FixError::Parse(_) | FixError::Rebuild(_)), "{e:?}"),
        }
    }
}

#[test]
fn a_fill_takes_as_many_slots_as_there_are_parameters() {
    let fill = ToolcallMalformedArgumentsFix::fill_result;
    assert!(fill(0, 3, "t".to_string(), true).is_err());
    assert_eq!(fill(1, 1, "t".to_string(), true), Ok(Some("t".to_string())));
    assert!(fill(2, 1, "t".to_string(), true).is_err());
    assert!(fill(1, 1, "t".to_string(), false).is_err());
}

#[test]
fn slots_are_found_by_their_pattern() {
    assert_eq!(empty_key_slots(r#"{"a":1,{}":2}"#), vec![6]);
    assert_eq!(empty_key_slots(r#"{"a":{}}"#), Vec::<usize>::new());
}

#[test]
fn failures_are_logged_as_errors_whatever_the_level() {
    for level in [FixLogLevel::Info, FixLogLevel::Debug] {
        let lines = log_fix_action("f", &FixAction::failed("o", "a"), level);
        assert_eq!(lines.last().unwrap().level, LogLevel::Error);
        assert_eq!(lines.last().unwrap().message, "Failed to fix malformed content");
    }
    let lines = log_fix_action("f", &FixAction::NotApplicable, FixLogLevel::Info);
    assert_eq!((lines.len(), lines[0].level), (1, LogLevel::Trace));
}

#[test]
fn a_clip_is_a_prefix_within_its_bound() {
    assert_eq!(truncate_snippet("abcdef", 6, SnippetLimit::Chars), "abcdef");
    assert_eq!(truncate_snippet("abcdefg", 6, SnippetLimit::Chars), "abc...");
    assert_eq!(truncate_snippet("日本語", 4, SnippetLimit::Bytes), "日...");
}

#[test]
fn every_fix_error_has_its_text() {
    assert_eq!(FixError::Parse("x".to_string()).to_string(), "parse error: x");
    assert_eq!(FixError::Rebuild("x".to_string()).to_string(), "rebuild error: x");
}

#[test]
fn what_would_be_fixed_is_found_without_fixing() {
    let registry = create_default_registry();
    let response = calls("message", r#"[{"id": "a", "function": {"name": "f", "arguments": "{}"}}]"#);
    let names = registry.detect_fixes(&response, None, "a test");
    assert_eq!(names, vec!["toolcall_null_index_fix"]);
    let detected = registry.detections(&response, None, "a test");
    assert_eq!(detected.len(), 1);
    let clean = calls("message", r#"[{"index": 0, "function": {"name": "f", "arguments": "{}"}}]"#);
    assert!(registry.detect_fixes(&clean, None, "a test").is_empty());
}

#[test]
fn an_injection_keeps_the_other_members() {
    let request = json(r#"{"model": "m", "stop": "x", "n": 2.5, "messages": [{"role": "user", "content": "a", "name": "u"}]}"#);
    let once = inject_augmentation_value(request, "p", "t").unwrap();
    assert_eq!(once.get("n"), Some(&Json::Float("2.5".to_string())));
    assert_eq!(once.get("stop"), Some(&json(r#"["x"]"#)));
    let message = once.get("messages").and_then(|m| m.at(0)).unwrap();
    assert_eq!(message.get("name").and_then(Json::as_str), Some("u"));
    assert!(message.get("content").and_then(Json::as_str).unwrap().starts_with('a'));
    let twice = inject_augmentation_value(once.clone(), "p", "t").unwrap();
    let length = |v: &Json| v.get("messages").and_then(|m| m.at(0)).and_then(|m| m.get("content"))
        .and_then(Json::as_str).unwrap().len();
    assert_eq!(length(&twice) - length(&once), length(&once) - 1);
}

#[test]
fn the_enriching_backend_is_asked_for_a_completion() {
    let mut config = AugmentBackendConfig::default();
    config.url = "http://h:1/".to_string();
    config.model = "fast".to_string();
    config.timeout_secs = 9;
    let backend = AugmentBackend::from_config(&config);
    assert_eq!(backend.timeout_secs, 9);
    assert_eq!(backend.endpoint(), "http://h:1/v1/chat/completions");
    let body = backend.request_body("be brief", "what is up");
    assert_eq!(body.get("model").and_then(Json::as_str), Some("fast"));
    let said: Vec<&str> = body.get("messages").and_then(Json::as_array).unwrap().iter()
        .map(|m| m.get("content").and_then(Json::as_str).unwrap()).collect();
    assert!(said.iter().any(|t| t.contains("be brief")) && said.iter().any(|t| t.contains("what is up")));
    let refused = AugmentBackend::refused("500", "oops");
    assert!(refused.contains("500") && refused.contains("oops"), "{refused}");
    assert!(AugmentBackendError { message: "m".to_string() }.to_string().contains('m'));
}

#[test]
fn what_the_user_wrote_is_read_from_a_request() {
    let request = json(
        r#"{"messages": [
            {"role": "system", "content": "be kind"},
            {"role": "user", "content": "one"},
            {"role": "user", "content": [{"type": "text", "text": "two"}, {"type": "image"}, {"type": "text", "text": "three"}]},
            {"role": "user", "content": 4}
        ]}"#,
    );
    assert_eq!(extract_user_content_from_json(&request), "one\ntwo\nthree");
    assert_eq!(extract_user_content_from_json(&json(r#"{"messages": {}}"#)), "");
}

#[test]
fn the_short_spelling_of_a_fix_decides() {
    let module = |enabled: bool| FixModuleConfig { enabled, options: TextMap::new() };
    let mut modules = TextMap::new();
    modules.insert("toolcall_bad_filepath_fix".to_string(), module(true));
    modules.insert("toolcall_bad_filepath".to_string(), module(false));
    modules.insert("no_such_fix".to_string(), module(true));
    let (registry, report) = create_registry_from_config_logged(&FixesConfig { enabled: true, modules });
    let names: Vec<&str> = registry.list_fixes().iter().map(|f| f.name()).collect();
    assert_eq!(names, vec!["toolcall_null_index_fix", "toolcall_malformed_arguments"]);
    assert_eq!(report.skipped, vec!["toolcall_bad_filepath"]);
    assert_eq!(report.unknown, vec!["no_such_fix"]);
}
