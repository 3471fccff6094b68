use llama_proxy::backends::preflight::{
    learn_node, learn_single, models_url, plan_node_client, plan_preflight_client, read_models, refused_models,
    settle_model, ModelNote, MAX_IDLE_CONNECTIONS,
};
use llama_proxy::config::{BackendConfig, BackendNodeConfig, TlsConfig};
use llama_proxy::json::Json;

fn tls(cert: Option<&str>, key: Option<&str>) -> TlsConfig {
    TlsConfig {
        accept_invalid_certs: true,
        ca_cert_path: Some("/ca.pem".to_string()),
        client_cert_path: cert.map(str::to_string),
        client_key_path: key.map(str::to_string),
    }
}

#[test]
fn a_client_is_planned_with_its_certificates() {
    let plan = plan_node_client(300, Some(&tls(Some("/c.pem"), Some("/k.pem"))));
    assert_eq!((plan.timeout_seconds, plan.connect_timeout_seconds), (300, 5));
    assert_eq!(plan.max_idle_connections, MAX_IDLE_CONNECTIONS);
    assert!(plan.accept_invalid_certs);
    assert_eq!(plan.ca_cert_path.as_deref(), Some("/ca.pem"));
    assert_eq!(plan.identity_paths, Some(("/c.pem".to_string(), "/k.pem".to_string())));
    assert_eq!(plan_node_client(300, Some(&tls(Some("/c.pem"), None))).identity_paths, None);
    assert!(!plan_node_client(300, None).accept_invalid_certs);
}

#[test]
fn the_questions_before_the_start_are_capped() {
    assert_eq!(plan_preflight_client(300, None).timeout_seconds, 10);
    assert_eq!(plan_preflight_client(3, None).timeout_seconds, 3);
    assert_eq!(plan_preflight_client(0, None).timeout_seconds, 0);
}

#[test]
fn the_models_are_asked_for_under_the_prefix() {
    assert_eq!(models_url("http://h:1/", None), "http://h:1/v1/models");
    assert_eq!(models_url("http://h:1", Some("/v1")), "http://h:1/models");
    assert_eq!(refused_models("401 Unauthorized"), "/v1/models returned HTTP 401 Unauthorized");
}

#[test]
fn the_answer_of_a_node_is_read() {
    let body = Json::parse(r#"{"data": [{"id": "a", "max_model_len": 4096}, {"x": 1}, {"id": "b"}]}"#).unwrap();
    let models = read_models(Some("llama.cpp/b3000"), &body);
    assert_eq!(models.model_ids, vec!["a", "b"]);
    assert_eq!(models.max_model_len, Some(4096));
    assert!(models.is_llama_cpp);

    let models = read_models(Some("uvicorn"), &Json::parse("{}").unwrap());
    assert!(models.model_ids.is_empty());
    assert_eq!(models.max_model_len, None);
    assert!(!models.is_llama_cpp);
}

#[test]
fn the_only_model_of_a_node_is_asked_of_it() {
    let ids = |list: &[&str]| list.iter().map(|s| s.to_string()).collect::<Vec<String>>();
    let mut model = None;
    assert_eq!(settle_model(&mut model, ids(&[])), ModelNote::NoModels);
    assert_eq!(settle_model(&mut model, ids(&["a", "b"])), ModelNote::Ambiguous(2));
    assert_eq!(model, None);
    assert_eq!(settle_model(&mut model, ids(&["a"])), ModelNote::AutoMapped);
    assert_eq!(model.as_deref(), Some("a"));
    assert_eq!(settle_model(&mut model, ids(&["b"])), ModelNote::AlreadyConfigured);
    assert_eq!(settle_model(&mut model, ids(&["b", "c"])), ModelNote::Kept);
    assert_eq!(model.as_deref(), Some("a"));
}

#[test]
fn what_is_asked_next_of_a_node() {
    let mut node = BackendNodeConfig {
        url: "http://h:1/".to_string(),
        timeout_seconds: 300,
        tls: None,
        model: None,
        api_key: Some("k".to_string()),
        strip_path_prefix: None,
        temperature: None,
    };
    let body = Json::parse(r#"{"data": [{"id": "a", "max_model_len": 4096}]}"#).unwrap();
    let (probe, note) = learn_node(&mut node, read_models(None, &body));
    assert_eq!(note, ModelNote::AutoMapped);
    assert_eq!(node.model.as_deref(), Some("a"));
    assert_eq!((probe.base_url.as_str(), probe.max_model_len), ("http://h:1", Some(4096)));
    assert_eq!(probe.api_key.as_deref(), Some("k"));
}

#[test]
fn a_single_backend_that_is_silent_is_asked_all_the_same() {
    let probe = learn_single(&BackendConfig::default(), None);
    assert_eq!(probe.base_url, "http://localhost:8080");
    assert!(!probe.is_llama_cpp);
    assert_eq!(probe.max_model_len, None);
    assert_eq!(probe.api_key, None);
}
