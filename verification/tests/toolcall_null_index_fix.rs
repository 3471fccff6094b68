use llama_proxy::fixes::{FixAction, FixLogLevel, FixRegistry, ResponseFix, ToolCallNullIndexFix};
use llama_proxy::json::Json;

fn json(text: &str) -> Json {
    Json::parse(text).unwrap()
}

trait Key {
    fn find<'a>(&self, v: &'a Json) -> Option<&'a Json>;
}

impl Key for &str {
    fn find<'a>(&self, v: &'a Json) -> Option<&'a Json> {
        v.get(self)
    }
}

impl Key for usize {
    fn find<'a>(&self, v: &'a Json) -> Option<&'a Json> {
        v.at(*self)
    }
}

trait Look {
    fn ix(&self, key: impl Key) -> &Json;
}

impl Look for Json {
    fn ix(&self, key: impl Key) -> &Json {
        key.find(self).expect("the value must be there")
    }
}

trait ToJson {
    fn to_json(self) -> Json;
}

impl ToJson for Json {
    fn to_json(self) -> Json {
        self
    }
}

fn obj(members: Vec<(&str, Json)>) -> Json {
    let mut o = Json::Object(vec![]);
    for (k, v) in members {
        o.insert(k.to_string(), v);
    }
    o
}

#[test]
fn test_needs_index_fix_null() {
    let tool_call = json(r#"{"id": "call-1", "index": null}"#);
    assert!(ToolCallNullIndexFix::needs_index_fix(&tool_call));
}

#[test]
fn test_needs_index_fix_missing() {
    let tool_call = json(r#"{"id": "call-1"}"#);
    assert!(ToolCallNullIndexFix::needs_index_fix(&tool_call));
}

#[test]
fn test_needs_index_fix_valid() {
    let tool_call = json(r#"{"id": "call-1", "index": 0}"#);
    assert!(!ToolCallNullIndexFix::needs_index_fix(&tool_call));
}

#[test]
fn test_needs_index_fix_wrong_type() {
    for bad in [json(r#""0""#), json(r#"true"#), json(r#"[0]"#), json(r#"{"i": 0}"#)] {
        let tool_call = obj(vec![("id", json(r#""call-1""#)), ("index", bad.to_json())]);
        assert!(
            ToolCallNullIndexFix::needs_index_fix(&tool_call),
            "non-number index must need repair: {tool_call:?}"
        );
    }
}

#[test]
fn test_fix_message_tool_calls() {
    let fix = ToolCallNullIndexFix::new();
    let response = json(r#"{"choices": [{"message": {"tool_calls": [{"id": "call-1", "index": null, "function": {"name": "test"}}, {"id": "call-2", "function": {"name": "test2"}}]}}]}"#);

    let (fixed, action) = fix.apply(response);

    assert!(matches!(action, FixAction::Fixed { .. }));
    assert_eq!(fixed.ix("choices").ix(0).ix("message").ix("tool_calls").ix(0).ix("index").as_u64(), Some(0));
    assert_eq!(fixed.ix("choices").ix(0).ix("message").ix("tool_calls").ix(1).ix("index").as_u64(), Some(1));
}

#[test]
fn test_fix_delta_tool_calls() {
    let fix = ToolCallNullIndexFix::new();
    let response = json(r#"{"choices": [{"delta": {"tool_calls": [{"id": "call-1", "index": null, "function": {"name": "test"}}]}}]}"#);

    let (fixed, action) = fix.apply(response);

    assert!(matches!(action, FixAction::Fixed { .. }));
    assert_eq!(fixed.ix("choices").ix(0).ix("delta").ix("tool_calls").ix(0).ix("index").as_u64(), Some(0));
}

#[test]
fn test_no_fix_needed() {
    let fix = ToolCallNullIndexFix::new();
    let response = json(r#"{"choices": [{"message": {"tool_calls": [{"id": "call-1", "index": 0, "function": {"name": "test"}}]}}]}"#);

    let (_, action) = fix.apply(response);
    assert!(matches!(action, FixAction::NotApplicable));
}

#[test]
fn test_applies_detection() {
    let fix = ToolCallNullIndexFix::new();

    let response_needs_fix = json(r#"{"choices": [{"message": {"tool_calls": [{"id": "call-1", "index": null}]}}]}"#);
    assert!(fix.applies(&response_needs_fix));

    let response_ok = json(r#"{"choices": [{"message": {"tool_calls": [{"id": "call-1", "index": 0}]}}]}"#);
    assert!(!fix.applies(&response_ok));
}

#[test]
fn test_multiple_tool_calls_sequential_indices() {
    let fix = ToolCallNullIndexFix::new();
    let response = json(r#"{"choices": [{"message": {"tool_calls": [{"id": "call-1", "index": null}, {"id": "call-2", "index": null}, {"id": "call-3", "index": null}]}}]}"#);

    let (fixed, action) = fix.apply(response);

    assert!(matches!(action, FixAction::Fixed { .. }));
    assert_eq!(fixed.ix("choices").ix(0).ix("message").ix("tool_calls").ix(0).ix("index").as_u64(), Some(0));
    assert_eq!(fixed.ix("choices").ix(0).ix("message").ix("tool_calls").ix(1).ix("index").as_u64(), Some(1));
    assert_eq!(fixed.ix("choices").ix(0).ix("message").ix("tool_calls").ix(2).ix("index").as_u64(), Some(2));
}

#[test]
fn test_mixed_indices() {
    let fix = ToolCallNullIndexFix::new();
    let response = json(r#"{"choices": [{"message": {"tool_calls": [{"id": "call-1", "index": 0}, {"id": "call-2", "index": null}, {"id": "call-3"}]}}]}"#);

    let (fixed, action) = fix.apply(response);

    assert!(matches!(action, FixAction::Fixed { .. }));
    assert_eq!(fixed.ix("choices").ix(0).ix("message").ix("tool_calls").ix(0).ix("index").as_u64(), Some(0));
    assert_eq!(fixed.ix("choices").ix(0).ix("message").ix("tool_calls").ix(1).ix("index").as_u64(), Some(1));
    assert_eq!(fixed.ix("choices").ix(0).ix("message").ix("tool_calls").ix(2).ix("index").as_u64(), Some(2));
}

#[test]
fn test_enabled_state_is_registry_owned() {
    let mut registry = FixRegistry::new();
    registry.register(ToolCallNullIndexFix::new());

    let response = json(r#"{"choices": [{"message": {"tool_calls": [{"id": "call-1", "index": null}]}}]}"#);

    let repaired = registry.apply_fixes(response.clone());
    assert_eq!(repaired.ix("choices").ix(0).ix("message").ix("tool_calls").ix(0).ix("index").as_u64(), Some(0));

    registry.set_enabled("toolcall_null_index_fix", false);
    let untouched = registry.apply_fixes(response.clone());
    assert_eq!(
        untouched.print(),
        response.print(),
        "a registry-disabled fix must not touch the response"
    );
}

#[test]
fn test_repairs_wrong_typed_index_positionally() {
    let fix = ToolCallNullIndexFix::new();
    let response = json(r#"{"choices": [{"message": {"tool_calls": [{"id": "call-1", "index": "0"}, {"id": "call-2", "index": true}]}}]}"#);

    let (fixed, action) = fix.apply(response);

    assert!(matches!(action, FixAction::Fixed { .. }));
    assert_eq!(fixed.ix("choices").ix(0).ix("message").ix("tool_calls").ix(0).ix("index").as_u64(), Some(0));
    assert_eq!(fixed.ix("choices").ix(0).ix("message").ix("tool_calls").ix(1).ix("index").as_u64(), Some(1));
}

#[test]
fn test_valid_numeric_index_kept_when_position_disagrees() {
    let fix = ToolCallNullIndexFix::new();
    let response = json(r#"{"choices": [{"message": {"tool_calls": [{"id": "call-1", "index": 5}, {"id": "call-2", "index": null}]}}]}"#);

    let (fixed, action) = fix.apply(response);

    assert!(matches!(action, FixAction::Fixed { .. }));
    assert_eq!(fixed.ix("choices").ix(0).ix("message").ix("tool_calls").ix(0).ix("index").as_u64(), Some(5),
        "valid index passes through"
    );
    assert_eq!(fixed.ix("choices").ix(0).ix("message").ix("tool_calls").ix(1).ix("index").as_u64(), Some(1),
        "repair is positional, not sequential-after-valid"
    );
}

#[test]
fn test_non_object_tool_call_entry_skipped_others_repaired() {
    let fix = ToolCallNullIndexFix::new();
    let response = json(r#"{"choices": [{"message": {"tool_calls": [{"id": "call-1"}, 42, {"id": "call-3", "index": null}]}}]}"#);

    let (fixed, action) = fix.apply(response);

    assert!(matches!(action, FixAction::Fixed { .. }));
    assert_eq!(fixed.ix("choices").ix(0).ix("message").ix("tool_calls").ix(0).ix("index").as_u64(), Some(0));
    assert_eq!(fixed.ix("choices").ix(0).ix("message").ix("tool_calls").ix(1), &json(r#"42"#),
        "non-object entry must survive as sent"
    );
    assert_eq!(fixed.ix("choices").ix(0).ix("message").ix("tool_calls").ix(2).ix("index").as_u64(), Some(2));
}

#[test]
fn test_non_array_tool_calls_untouched() {
    let fix = ToolCallNullIndexFix::new();
    let response = json(r#"{"choices": [{"message": {"tool_calls": "not-an-array"}}]}"#);

    let (fixed, action) = fix.apply(response.clone());
    assert!(matches!(action, FixAction::NotApplicable));
    assert_eq!(
        fixed.print(),
        response.print()
    );
}

#[test]
fn test_missing_choices_untouched() {
    let fix = ToolCallNullIndexFix::new();
    let response = json(r#"{"id": "chatcmpl-1"}"#);

    let (fixed, action) = fix.apply(response.clone());
    assert!(matches!(action, FixAction::NotApplicable));
    assert_eq!(
        fixed.print(),
        response.print()
    );
}

#[test]
fn test_log_level_is_debug() {
    let fix = ToolCallNullIndexFix::new();

    assert_eq!(fix.log_level(), FixLogLevel::Debug);
}
