use llama_proxy::json::Json;
use llama_proxy::text::{
    ascii_lowercase, contains, decimal_text, is_blank, join, split, starts_with, strip_prefix, text_less,
    trim_end_char,
};
use llama_proxy::text_map::TextMap;

#[test]
fn numbers_are_held_as_what_they_are() {
    assert_eq!(Json::parse("18446744073709551615"), Ok(Json::Unsigned(u64::MAX)));
    assert_eq!(Json::parse("-5"), Ok(Json::Negative(-5)));
    assert_eq!(Json::parse("2.50"), Ok(Json::Float("2.5".to_string())));
    assert_eq!(Json::parse("1e3"), Ok(Json::Float("1000.0".to_string())));
}

#[test]
fn objects_are_printed_in_key_order() {
    let v = Json::parse(r#"{"b": [1, -2, 0.5, null, true], "a": "ü\n"}"#).unwrap();
    assert_eq!(v.print(), r#"{"a":"ü\n","b":[1,-2,0.5,null,true]}"#);
    assert_eq!(Json::parse(&v.print()), Ok(v));
}

#[test]
fn what_is_no_json_is_refused() {
    let err = Json::parse("{\"a\":}").unwrap_err();
    assert!(err.contains("expected value"), "{err}");
    assert!(Json::parse("").is_err());
    assert!(Json::parse(&"[".repeat(200)).is_err());
    let deep = format!("{}{}", "[".repeat(127), "]".repeat(127));
    assert!(Json::parse(&deep).is_ok());
}

#[test]
fn a_member_is_set_in_its_place() {
    let mut v = Json::parse(r#"{"a": 1, "c": 3}"#).unwrap();
    v.insert("b".to_string(), Json::Unsigned(2));
    v.insert("c".to_string(), Json::Null);
    assert_eq!(v, Json::parse(r#"{"a": 1, "b": 2, "c": null}"#).unwrap());
    *v.get_mut("a").unwrap() = Json::Bool(false);
    assert_eq!(v.get("a"), Some(&Json::Bool(false)));
    assert!(v.get_mut("z").is_none());
    let mut text = Json::Str("x".to_string());
    text.insert("k".to_string(), Json::Null);
    assert_eq!(text, Json::Str("x".to_string()));
}

#[test]
fn a_map_keeps_one_value_for_a_key() {
    let mut map = TextMap::new();
    map.insert("b".to_string(), 1);
    map.insert("a".to_string(), 2);
    map.insert("b".to_string(), 3);
    assert_eq!(map.len(), 2);
    assert_eq!(map.get("b"), Some(&3));
    assert_eq!(map.get("c"), None);
    assert!(map.contains_key("a") && !map.contains_key("c"));
    assert!(!map.is_empty());
}

#[test]
fn texts_are_taken_apart_and_put_together() {
    assert_eq!(split("a.b..c", '.'), vec!["a", "b", "", "c"]);
    assert_eq!(split("", '.'), vec![""]);
    assert_eq!(join(&vec!["a".to_string(), "日".to_string()], "\n"), "a\n日");
    assert_eq!(decimal_text(0), "0");
    assert_eq!(decimal_text(u64::MAX), "18446744073709551615");
    assert_eq!(trim_end_char("http://h//", '/'), "http://h");
    assert_eq!(strip_prefix("/v1/日", "/v1"), "/日");
    assert_eq!(strip_prefix("/v1", "/v2"), "/v1");
    assert!(starts_with("日本", "日") && !starts_with("日", "日本"));
    assert!(contains("abc", "bc") && contains("abc", "") && !contains("abc", "cb"));
    assert_eq!(ascii_lowercase("ÄBC"), "Äbc");
    assert!(is_blank(" \t\n\u{3000}") && is_blank("") && !is_blank(" x "));
    assert!(text_less("a", "b") && text_less("a", "ab") && !text_less("b", "ab"));
}

#[test]
fn plain_values_are_read_back() {
    for text in ["null", "-9223372036854775808", "18446744073709551615", r#""\u0000🤖\\\"""#, r#"{"é":[{}],"z":[[]]}"#] {
        let value = Json::parse(text).unwrap();
        assert_eq!(Json::parse(&value.print()), Ok(value), "{text}");
    }
}

#[test]
fn an_object_with_any_key_is_read_back() {
    let key = "$serde_json::private::RawValue";
    for inner in ["\"x\"", "\"1\"", "1"] {
        let text = format!("{{\"{key}\":{inner}}}");
        let value = Json::parse(&text).unwrap();
        assert!(value.get(key).is_some(), "{text}");
        assert_eq!(Json::parse(&value.print()), Ok(value), "{text}");
    }
}

#[test]
fn a_float_is_printed_as_the_number_that_was_read() {
    for text in ["0.1", "1.7976931348623157e308", "5e-324", "123456.78901234567", "0.30000000000000004", "9007199254740993.5"] {
        let read: serde_json::Value = serde_json::from_str(text).unwrap();
        assert_eq!(Json::parse(text).unwrap().print(), read.to_string(), "{text}");
    }
    let mut seed: u64 = 12345;
    for _ in 0..2000 {
        seed = seed.wrapping_mul(6364136223846793005).wrapping_add(1442695040888963407);
        let text = format!("0.{:017}", seed % 100_000_000_000_000_000);
        let read: serde_json::Value = serde_json::from_str(&text).unwrap();
        assert_eq!(Json::parse(&text).unwrap().print(), read.to_string(), "{text}");
    }
    assert_eq!(Json::Float("no number".to_string()).print(), "null");
}

#[test]
fn a_map_lists_its_entries_as_they_came() {
    let mut map = TextMap::new();
    for (key, value) in [("b", 1), ("a", 2), ("b", 3), ("c", 4)] {
        map.insert(key.to_string(), value);
    }
    let listed = |m: &TextMap<i32>| (0..m.len()).map(|i| (m.entry(i).0.to_string(), *m.entry(i).1)).collect::<Vec<_>>();
    assert_eq!(listed(&map), vec![("b".to_string(), 3), ("a".to_string(), 2), ("c".to_string(), 4)]);
    assert_eq!(map.remove("a"), Some(2));
    assert_eq!(map.remove("a"), None);
    assert_eq!(listed(&map), vec![("b".to_string(), 3), ("c".to_string(), 4)]);
}
