use std::ops::Range;
use llama_proxy::fixes::json_scan::{top_level_key_count, top_level_key_spans};
use llama_proxy::json::Json;

trait Key {
    fn find<'a>(&self, v: &'a Json) -> Option<&'a Json>;
}

impl Key for &str {
    fn find<'a>(&self, v: &'a Json) -> Option<&'a Json> {
        v.get(self)
    }
}

impl Key for usize {
    fn find<'a>(&self, v: &'a Json) -> Option<&'a Json> {
        v.at(*self)
    }
}

trait Look {
    fn ix(&self, key: impl Key) -> &Json;
}

impl Look for Json {
    fn ix(&self, key: impl Key) -> &Json {
        key.find(self).expect("the value must be there")
    }
}

fn text(v: &Json) -> &str {
    v.as_str().expect("the value must be a text")
}

#[test]
fn duplicate_keys_counted_twice_by_stream_premise() {
    let json = r#"{"filePath":1,"filePath":2}"#;
    assert_eq!(top_level_key_count(json, "filePath"), 2);
    let spans = top_level_key_spans(json, "filePath");
    assert_eq!(spans.len(), 2);
    assert_eq!(&json[spans[0].value.clone()], "1");
    assert_eq!(&json[spans[1].value.clone()], "2");
    assert_eq!(&json[spans[0].key.clone()], "\"filePath\"");
}

#[test]
fn nested_key_not_counted_at_depth_one() {
    let json = r#"{"a":{"filePath":1},"b":[{"filePath":2}],"filePath":3}"#;
    assert_eq!(top_level_key_count(json, "filePath"), 1);
    let spans = top_level_key_spans(json, "filePath");
    assert_eq!(spans.len(), 1);
    assert_eq!(&json[spans[0].value.clone()], "3");
    let nested_only = r#"{"meta":{"filePath":"/x"},"content":"hi"}"#;
    assert_eq!(top_level_key_count(nested_only, "filePath"), 0);
    assert!(top_level_key_spans(nested_only, "filePath").is_empty());
}

#[test]
fn key_appearance_inside_string_value_is_zero() {
    let json = r#"{"msg":"he said \"filePath"}"#;
    assert_eq!(top_level_key_count(json, "filePath"), 0);
    assert!(top_level_key_spans(json, "filePath").is_empty());
    Json::parse(json).expect("valid fixture");
}

#[test]
fn escaped_quote_payload_counts_two() {
    let json = r#"{"content":"x = \"filePath\"; y","filePath":"/a","filePath":"/b"}"#;
    Json::parse(json).expect("valid fixture");
    assert_eq!(top_level_key_count(json, "filePath"), 2);
    assert_eq!(top_level_key_spans(json, "filePath").len(), 2);
}

#[test]
fn unicode_escape_key_matches_target() {
    let json = r#"{"file\u0050ath":1,"filePath":2}"#;
    assert_eq!(top_level_key_count(json, "filePath"), 2);
    assert_eq!(top_level_key_spans(json, "filePath").len(), 2);
    let decoy = r#"{"say\"filePath\"x":1,"filePath":2}"#;
    assert_eq!(top_level_key_count(decoy, "filePath"), 1);
    assert_eq!(top_level_key_spans(decoy, "filePath").len(), 1);
}

#[test]
fn cjk_payload_offsets_are_char_boundary_safe() {
    let json = r#"{"content":"你好世界","filePath":"/路径/文件.rs","note":"中","filePath":"/第二"}"#;
    Json::parse(json).expect("valid fixture");
    let spans = top_level_key_spans(json, "filePath");
    assert_eq!(spans.len(), 2);
    assert_eq!(&json[spans[0].value.clone()], "\"/路径/文件.rs\"");
    assert_eq!(&json[spans[1].value.clone()], "\"/第二\"");
    assert_eq!(top_level_key_count(json, "filePath"), 2);
}

#[test]
fn empty_containers_as_values() {
    let json = r#"{"filePath":{},"filePath":[]}"#;
    assert_eq!(top_level_key_count(json, "filePath"), 2);
    let spans = top_level_key_spans(json, "filePath");
    assert_eq!(&json[spans[0].value.clone()], "{}");
    assert_eq!(&json[spans[1].value.clone()], "[]");
}

#[test]
fn pretty_whitespace_newlines_counted() {
    let json = "{\n  \"filePath\" : 1,\n  \"other\": 2,\n  \"filePath\"\t:\t{\"nested\":true}\n}\n";
    assert_eq!(top_level_key_count(json, "filePath"), 2);
    let spans = top_level_key_spans(json, "filePath");
    assert_eq!(spans.len(), 2);
    assert_eq!(&json[spans[1].value.clone()], "{\"nested\":true}");
}

#[test]
fn deeply_nested_one_and_two_levels() {
    let one = r#"{"a":{"filePath":1},"filePath":2}"#;
    assert_eq!(top_level_key_count(one, "filePath"), 1);
    assert_eq!(top_level_key_spans(one, "filePath").len(), 1);
    let two = r#"{"a":{"b":{"filePath":1}},"c":[[{"filePath":2}]],"filePath":3}"#;
    assert_eq!(top_level_key_count(two, "filePath"), 1);
    assert_eq!(top_level_key_spans(two, "filePath").len(), 1);
}

#[test]
fn malformed_yields_zero_everywhere() {
    let cases = [
        "",
        "   ",
        "-",
        "123",
        "\"filePath\"",
        "[{\"filePath\":1}]",
        "{\"filePath\":1,",
        "{\"filePath\"",
        "{\"filePath\":1,}",
        "{-}",
        "{\"a\":1\"filePath\":2}",
    ];
    for json in cases {
        assert_eq!(top_level_key_count(json, "filePath"), 0, "count {json:?}");
        assert!(top_level_key_spans(json, "filePath").is_empty(), "spans {json:?}");
    }
}

#[test]
fn trailing_garbage_after_object_ignored_by_both() {
    let json = r#"{"filePath":1}trailing junk"#;
    assert_eq!(top_level_key_count(json, "filePath"), 1);
    assert_eq!(top_level_key_spans(json, "filePath").len(), 1);
}

#[test]
fn count_matches_spans_on_every_fixture() {
    let fixtures: &[(&str, usize)] = &[
        (r#"{"filePath":1,"filePath":2}"#, 2),
        (r#"{"a":{"filePath":1},"b":[{"filePath":2}]}"#, 0),
        (r#"{"msg":"he said \"filePath"}"#, 0),
        (r#"{"content":"x = \"filePath\"; y","filePath":"/a","filePath":"/b"}"#, 2),
        (r#"{"file\u0050ath":1,"filePath":2}"#, 2),
        (r#"{"say\"filePath\"x":1,"filePath":2}"#, 1),
        (
            r#"{"content":"你好世界","filePath":"/路径/文件.rs","note":"中","filePath":"/第二"}"#,
            2,
        ),
        (r#"{"filePath":{},"filePath":[]}"#, 2),
        (
            "{\n  \"filePath\" : 1,\n  \"other\": 2,\n  \"filePath\"\t:\t{\"nested\":true}\n}\n",
            2,
        ),
        (r#"{"a":{"b":{"filePath":1}},"c":[[{"filePath":2}]],"filePath":3}"#, 1),
        (r#"{"filePath":1}trailing junk"#, 1),
        (r#"{"filePath":{"deep":[{"x":"\"}"}]},"filePath":2,"z":"}{["}"#, 2),
        (r#"{"filePath":{"a":"x"},"filePath":["e","f"],"g":{"h":{"i":[1,"}}]"]}}}"#, 2),
        (r#"{"filePath":-1.5e3,"filePath":true,"filePath":null,"other":""}"#, 3),
        (r#"{"":""}"#, 0),
    ];
    for (json, expected) in fixtures {
        assert_eq!(top_level_key_count(json, "filePath"), *expected, "count {json:?}");
        assert_eq!(top_level_key_spans(json, "filePath").len(), *expected, "spans {json:?}");
    }
}

#[test]
fn first_wins_rebuild_from_spans() {
    let json = r#"{"content":"x","filePath":"/a","role":"user","filePath":"/b","filePath":"/c"}"#;
    let rebuilt = rebuild_first_wins(json, "filePath");
    assert_eq!(&rebuilt, r#"{"content":"x","filePath":"/a","role":"user"}"#);
    let v = Json::parse(&rebuilt).expect("rebuilt is valid");
    assert_eq!(text(v.ix("filePath")), "/a");
    assert_eq!(text(v.ix("role")), "user");
    assert_eq!(top_level_key_count(&rebuilt, "filePath"), 1);

    let pretty = "{\n  \"content\":\"x\",\n  \"filePath\":\"/a\",\n  \"filePath\":\"/b\"\n}";
    let rebuilt_p = rebuild_first_wins(pretty, "filePath");
    assert_eq!(&rebuilt_p, "{\n  \"content\":\"x\",\n  \"filePath\":\"/a\"\n}");
    Json::parse(&rebuilt_p).expect("rebuilt pretty is valid");
}

fn rebuild_first_wins(json: &str, key: &str) -> String {
    let spans = top_level_key_spans(json, key);
    assert!(spans.len() > 1);
    let b = json.as_bytes();
    let mut cuts: Vec<Range<usize>> = Vec::new();
    for sp in &spans[1..] {
        let mut s = sp.key.start;
        while matches!(b[s - 1], b' ' | b'\t' | b'\n' | b'\r') {
            s -= 1;
        }
        assert_eq!(b[s - 1], b',');
        cuts.push(s - 1..sp.value.end);
    }
    let mut out = String::new();
    let mut prev = 0usize;
    for c in &cuts {
        out.push_str(&json[prev..c.start]);
        prev = c.end;
    }
    out.push_str(&json[prev..]);
    out
}

#[test]
fn a_member_without_a_value_is_malformed() {
    for text in [r#"{"filePath":}"#, r#"{"filePath": ,"x":1}"#, r#"{"a":1,"filePath":]"#] {
        assert!(top_level_key_spans(text, "filePath").is_empty(), "{text}");
        assert_eq!(top_level_key_count(text, "filePath"), 0, "{text}");
    }
}

#[test]
fn what_follows_the_object_is_not_looked_at() {
    let text = r#"{"k":1,"k":{"k":2}}"#;
    let spans = top_level_key_spans(text, "k");
    assert_eq!(spans.len(), 2);
    assert!(spans[0].value.end < spans[1].key.start);
    for tail in [" ", "}", r#","k":3}"#, "日本", "\""] {
        let longer = format!("{text}{tail}");
        assert_eq!(top_level_key_spans(&longer, "k"), spans, "{tail}");
        assert_eq!(top_level_key_count(&longer, "k"), 2, "{tail}");
    }
}
