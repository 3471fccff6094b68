use llama_proxy::harness::backend::{
    answer_completion, clear_queued_responses, clear_requests, default_completion_response, default_slots_response,
    drain_requests, install_props_without_context, install_vllm_metrics, install_vllm_models, queue_response,
    record_request, set_metrics_body, set_models_body, set_props_body,
};
use llama_proxy::harness::readiness::wait_before;
use llama_proxy::harness::types::{
    parse_index, BackendState, MockResponse, ProxyResponse, SseEvent, StreamingResponse,
};
use llama_proxy::harness::vram::vram_like_keys;
use llama_proxy::json::Json;
use llama_proxy::text_map::TextMap;

fn json(text: &str) -> Json {
    Json::parse(text).unwrap()
}

#[test]
fn records_non_chat_requests() {
    let mut state = BackendState::default();
    let body = json(r#"{"model": "test-model"}"#);
    record_request(&mut state, "POST".to_string(), "/api/models/vram-estimate".to_string(), body);
    let received = drain_requests(&mut state);
    assert!(
        received.iter().any(|r| r.method == "POST" && r.path == "/api/models/vram-estimate"),
        "POST /api/models/vram-estimate was not recorded; received = {:?}",
        received.iter().map(|r| format!("{} {}", r.method, r.path)).collect::<Vec<_>>()
    );
    assert!(state.received_requests.is_empty());
}

#[test]
fn a_queued_response_comes_before_the_default() {
    let mut state = BackendState::default();
    queue_response(&mut state, MockResponse::error(503, "busy").with_delay(20));
    let first = answer_completion(&mut state, json("{}"));
    assert_eq!((first.status, first.body.as_str(), first.delay_ms), (503, "busy", 20));
    let second = answer_completion(&mut state, json("[]"));
    assert_eq!(second, default_completion_response());
    let paths: Vec<&str> = state.received_requests.iter().map(|r| r.path.as_str()).collect();
    assert_eq!(paths, vec!["/v1/chat/completions", "/v1/chat/completions"]);

    queue_response(&mut state, MockResponse::json("{}"));
    clear_queued_responses(&mut state);
    clear_requests(&mut state);
    assert!(state.response_queue.is_empty() && state.received_requests.is_empty());
}

#[test]
fn what_the_backend_serves_is_json() {
    assert_eq!(json(default_slots_response()).at(0).and_then(|s| s.get("n_ctx")).and_then(Json::as_u64), Some(8192));
    assert!(Json::parse(&default_completion_response().body).is_ok());
    let mut state = BackendState::default();
    install_vllm_models(&mut state);
    install_props_without_context(&mut state);
    install_vllm_metrics(&mut state);
    let models = json(&state.models_body);
    let first = models.get("data").and_then(|d| d.at(0)).unwrap();
    assert_eq!(first.get("max_model_len").and_then(Json::as_u64), Some(262144));
    assert!(json(&state.props_body).get("default_generation_settings").is_none());
    assert!(state.metrics_body.contains("kv_cache_size_tokens=\"81280\""));
    set_models_body(&mut state, "m");
    set_props_body(&mut state, "p");
    set_metrics_body(&mut state, "k");
    assert_eq!((state.models_body.as_str(), state.props_body.as_str(), state.metrics_body.as_str()), ("m", "p", "k"));
}

#[test]
fn responses_carry_their_content_type() {
    assert_eq!(MockResponse::json("{}").content_type, "application/json");
    assert_eq!(MockResponse::sse("data: [DONE]\n\n").content_type, "text/event-stream");
    assert_eq!(MockResponse::error(500, "x").status, 500);
}

fn reply(body: &str) -> ProxyResponse {
    let mut headers = TextMap::new();
    headers.insert("x-request-id".to_string(), "42".to_string());
    ProxyResponse { status: 200, body: json(body), headers }
}

#[test]
fn a_path_leads_to_a_value() {
    let r = reply(r#"{"choices": [{"message": {"content": "hi", "tool_calls": [{"function": {"arguments": "{\"a\":1}"}}]}}]}"#);
    assert_eq!(r.get_str("choices.0.message.content"), Some("hi"));
    assert_eq!(r.get("choices.1"), None);
    assert_eq!(r.get("choices.+0.message.content"), r.get("choices.0.message.content"));
    assert_eq!(r.tool_call_args(0, 0), Some(r#"{"a":1}"#));
    assert_eq!(r.tool_call_args_json(0, 0), Ok(json(r#"{"a":1}"#)));
    assert!(r.tool_call_args_json(0, 1).is_err());
    assert_eq!(r.header("X-Request-ID"), Some("42"));
    assert_eq!(r.header("missing"), None);
}

#[test]
fn an_index_is_a_decimal_number() {
    assert_eq!(parse_index("0"), Some(0));
    assert_eq!(parse_index("007"), Some(7));
    assert_eq!(parse_index("+7"), Some(7));
    assert_eq!(parse_index("18446744073709551615"), Some(usize::MAX));
    assert_eq!(parse_index("18446744073709551616"), None);
    assert_eq!(parse_index(""), None);
    assert_eq!(parse_index("+"), None);
    assert_eq!(parse_index("-1"), None);
    assert_eq!(parse_index("1a"), None);
}

fn event(data: &str) -> SseEvent {
    SseEvent { data: data.to_string(), is_done: data == "[DONE]" }
}

#[test]
fn a_stream_is_put_together_again() {
    let r = StreamingResponse {
        events: vec![
            event(r#"{"choices":[{"delta":{"content":"he"}}]}"#),
            event(r#"{"choices":[{"delta":{"content":"llo","tool_calls":[{"index":1,"function":{"arguments":"{\"a"}}]}}]}"#),
            event("not json"),
            event(r#"{"choices":[{"delta":{"tool_calls":[{"index":1,"function":{"arguments":"\":1}"}}]},"finish_reason":"stop"}]}"#),
            event("[DONE]"),
        ],
    };
    assert!(r.has_done_marker());
    assert_eq!(r.data_events().len(), 4);
    assert_eq!(r.accumulated_content(), "hello");
    assert_eq!(r.accumulated_tool_args(1), r#"{"a":1}"#);
    assert_eq!(r.accumulated_tool_args(0), "");
    assert_eq!(r.finish_reason().as_deref(), Some("stop"));
    assert!(event("{").parse_json().unwrap_err().starts_with("SSE JSON parse error: "));
    assert_eq!(event("[1]").parse_json(), Ok(json("[1]")));
}

#[test]
fn keys_that_look_like_memory_figures_are_found() {
    let mut found = vec![];
    vram_like_keys(
        &json(r#"{"models": [{"name": "a", "VRAM_used": 1}, {"sizeBytes": {"id": 2}}], "size_display": "x"}"#),
        "$",
        &mut found,
    );
    assert_eq!(
        found,
        vec!["$.models[0].VRAM_used", "$.models[1].sizeBytes", "$.models[1].sizeBytes.id", "$.size_display"]
    );
}

#[test]
fn a_starting_proxy_is_asked_thirty_times() {
    assert_eq!(wait_before(0), Some(200));
    assert_eq!(wait_before(29), Some(3100));
    assert_eq!(wait_before(30), None);
}
