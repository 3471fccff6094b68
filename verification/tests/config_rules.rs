use llama_proxy::config::loader::{
    validate_backend_config, validate_backend_url, validate_config, validate_reprompt, validate_server_config,
    Surroundings,
};
use llama_proxy::config::validate::{
    bind_address, check_url_parts, is_rfc1123_hostname, require_nonempty, validate_allowed_origins,
    validate_bind_host, validate_failure_cooldown_secs, validate_http_url, validate_reprompt_max_total_ms,
    validate_synthesis, validate_temperature, validate_timeout_seconds, UrlParts, MAX_CHUNK_DELAY_MS,
    MAX_REPROMPT_TOTAL_MS, MAX_TIMEOUT_SECONDS,
};
use llama_proxy::config::{
    default_max_concurrent, AppConfig, AugmentBackendConfig, BackendConfig, BackendGroupConfig, BackendNodeConfig,
    ConfigError, DumpConfig, ExportersConfig, FixesConfig, RepromptConfig, ServerConfig, StatsConfig,
    StreamingMode, SynthesisConfig, Temperature,
};
use llama_proxy::text_map::TextMap;

fn is_ip(host: &str) -> bool {
    matches!(bind_address(host).as_str(), "0.0.0.0" | "127.0.0.1" | "::1" | "::ffff:127.0.0.1")
}

fn temperature(value: f64) -> Temperature {
    Temperature { bits: value.to_bits(), shown: value.to_string() }
}

#[test]
fn timeout_seconds_upper_bound() {
    assert!(validate_timeout_seconds(300, "Backend").is_ok());
    assert!(validate_timeout_seconds(MAX_TIMEOUT_SECONDS, "Backend").is_ok());
    let err = validate_timeout_seconds(MAX_TIMEOUT_SECONDS + 1, "Node in group 'g'")
        .expect_err("over-cap timeout must be rejected");
    let msg = err.to_string();
    assert!(msg.contains("timeout_seconds") && msg.contains("maximum"), "{msg}");
}

#[test]
fn failure_cooldown_upper_bound_rejects_u64_max() {
    assert!(validate_failure_cooldown_secs(30, "g").is_ok());
    assert!(validate_failure_cooldown_secs(0, "g").is_ok(), "0 disables cooldown");
    let err = validate_failure_cooldown_secs(u64::MAX, "g").expect_err("u64::MAX cooldown must be rejected");
    assert!(
        err.to_string().contains("failure_cooldown_secs") && err.to_string().contains("maximum"),
        "must name the field with the cap, got: {err:?}"
    );
}

#[test]
fn reprompt_max_total_ms_upper_bound() {
    assert!(validate_reprompt_max_total_ms(30_000).is_ok());
    assert!(validate_reprompt_max_total_ms(MAX_REPROMPT_TOTAL_MS).is_ok());
    assert!(validate_reprompt_max_total_ms(MAX_REPROMPT_TOTAL_MS + 1).is_err());
}

#[test]
fn synthesis_bounds_reject_zero_size_and_giant_delay() {
    assert!(validate_synthesis(&SynthesisConfig::default()).is_ok(), "defaults must pass");
    let zero = SynthesisConfig {
        chunk_delay_ms: 0,
        chunk_size_chars: 0,
    };
    let err = validate_synthesis(&zero).expect_err("chunk_size_chars 0 must be rejected");
    assert!(err.to_string().contains("chunk_size_chars"), "{err:?}");
    let giant = SynthesisConfig {
        chunk_delay_ms: MAX_CHUNK_DELAY_MS + 1,
        chunk_size_chars: 2000,
    };
    let err = validate_synthesis(&giant).expect_err("over-cap chunk_delay_ms must be rejected");
    assert!(err.to_string().contains("chunk_delay_ms"), "{err:?}");
}

#[test]
fn bind_host_pin_table() {
    let accepted = [
        "0.0.0.0",
        "127.0.0.1",
        "::1",
        "[::1]",
        "[::ffff:127.0.0.1]",
        "[127.0.0.1]",
        "localhost",
        "example.com",
        "example.com.",
        "cosmo.lan",
        "xn--bcher-kva.example",
        "a.com",
    ];
    for h in accepted {
        assert!(validate_bind_host(h, is_ip(h)).is_ok(), "{h} must be accepted");
    }
    let rejected = [
        "",
        "not a host!!",
        "-bad.com",
        "bad-.com",
        "under_score.com",
        "dots..inside",
        "[::1",
        "::1]",
    ];
    for h in rejected {
        assert!(validate_bind_host(h, is_ip(h)).is_err(), "{h} must be rejected");
    }
}

#[test]
fn bind_host_rfc1123_edge_lengths() {
    let label63 = "a".repeat(63);
    assert!(validate_bind_host(&label63, is_ip(&label63)).is_ok(), "63-char label must pass");
    assert!(validate_bind_host(&"a".repeat(64), is_ip(&"a".repeat(64))).is_err(), "64-char label must fail");
    let total255 = format!("{label63}.{label63}.{label63}.{}", "a".repeat(63));
    assert_eq!(total255.len(), 255);
    assert!(validate_bind_host(&total255, is_ip(&total255)).is_ok(), "255-char total must pass");
    let total256 = format!("{label63}.{label63}.{label63}.{}", "a".repeat(64));
    assert_eq!(total256.len(), 256);
    assert!(validate_bind_host(&total256, is_ip(&total256)).is_err(), "256-char total must fail");
}

#[test]
fn http_url_accepts_and_rejects() {
    assert!(validate_http_url("http://localhost:8080", "backend").is_ok());
    assert!(validate_http_url("https://example.com:4234", "backend").is_ok());
    assert!(validate_http_url("http://192.168.1.100:9000", "backend").is_ok());
    assert!(validate_http_url("not-a-url", "backend").is_err());
    assert!(validate_http_url("ftp://example.com", "backend").is_err());
    assert!(validate_http_url("http://", "backend").is_err());
    assert!(validate_http_url("", "backend").is_err());
}

#[test]
fn temperature_pin_table() {
    for ok in [0.0f64, -0.0, 1.0, 2.0] {
        assert!(validate_temperature(&temperature(ok), "node").is_ok(), "{ok} must be accepted");
    }
    for bad in [-0.001f64, 2.0001, f64::INFINITY, f64::NEG_INFINITY, f64::NAN] {
        assert!(validate_temperature(&temperature(bad), "node").is_err(), "{bad} must be rejected");
    }
}

#[test]
fn require_nonempty_rejects_only_empty() {
    assert!(require_nonempty("ok", "field").is_ok());
    assert!(require_nonempty("", "field").is_err());
}

#[test]
fn allowed_origins_pin_table() {
    let accepted = [
        vec!["https://app.example".to_string()],
        vec!["http://localhost:3000".to_string(), "https://a.b.c".to_string()],
        vec!["null".to_string()],
        vec![],
    ];
    for list in accepted {
        assert!(validate_allowed_origins(&list).is_ok(), "{list:?} must be accepted");
    }
    let rejected = [
        vec!["".to_string()],
        vec!["*".to_string()],
        vec!["https://a.example".to_string(), "*".to_string()],
        vec![" https://a.example".to_string()],
        vec!["https://a.example ".to_string()],
        vec!["https://a exam.example".to_string()],
        vec!["https://a.example\r\nX-Evil: 1".to_string()],
        vec!["https://a.example\nX-Evil: 1".to_string()],
        vec!["https://a.example\r".to_string()],
        vec!["https://a.example\u{0}".to_string()],
        vec!["https://a.example\u{7f}".to_string()],
    ];
    for list in rejected {
        assert!(validate_allowed_origins(&list).is_err(), "{list:?} must be rejected");
    }
}

#[test]
fn allowed_origins_control_char_error_is_debug_escaped() {
    let err =
        validate_allowed_origins(&["https://a.example\r\nX-Evil: 1".to_string()]).expect_err("CRLF entry must be rejected");
    let msg = err.to_string();
    assert!(
        msg.contains("control characters"),
        "CRLF must get the control-char message, got {msg:?}"
    );
    assert!(msg.contains("\\r\\n"), "message must escape control chars, got {msg:?}");
    assert!(!msg.contains("\r\n"), "message must not carry raw CRLF");
}

#[test]
fn test_validate_backend_url_valid() {
    assert!(validate_backend_url("http://localhost:8080").is_ok());
    assert!(validate_backend_url("https://example.com:4234").is_ok());
    assert!(validate_backend_url("http://192.168.1.100:9000").is_ok());
}

#[test]
fn test_validate_backend_url_invalid() {
    assert!(validate_backend_url("not-a-url").is_err());

    assert!(validate_backend_url("ftp://example.com").is_err());

    assert!(validate_backend_url("http://").is_err());
}

#[test]
fn test_validate_server_config_valid_port() {
    let config = ServerConfig {
        port: 8066,
        host: "0.0.0.0".to_string(),
        max_concurrent_requests: default_max_concurrent(),
        allowed_origins: None,
    };
    assert!(validate_server_config(&config, true).is_ok());
}

#[test]
fn test_validate_server_config_rejects_wildcard_in_allowed_origins() {
    let config = ServerConfig {
        port: 8066,
        host: "0.0.0.0".to_string(),
        max_concurrent_requests: default_max_concurrent(),
        allowed_origins: Some(vec!["https://app.one".to_string(), "*".to_string()]),
    };
    let err = validate_server_config(&config, true).expect_err("wildcard entry must be rejected");
    assert!(err.to_string().contains("allowed_origins"), "got {err:?}");
}

#[test]
fn test_validate_server_config_zero_port() {
    let config = ServerConfig {
        port: 0,
        host: "0.0.0.0".to_string(),
        max_concurrent_requests: default_max_concurrent(),
        allowed_origins: None,
    };
    let result = validate_server_config(&config, true);
    assert!(result.is_err());
    let err = result.unwrap_err();
    assert!(matches!(err, ConfigError::Validation(_)));
    assert!(err.to_string().contains("port"));
    assert!(err.to_string().contains("1-65535"));
}

#[test]
fn test_validate_backend_config_valid_timeout() {
    let config = BackendConfig {
        url: "http://localhost:8080".to_string(),
        timeout_seconds: 300,
        tls: None,
        model: None,
        api_key: None,
        strip_path_prefix: None,
    };
    assert!(validate_backend_config(&config).is_ok());
}

#[test]
fn test_validate_backend_config_zero_timeout() {
    let config = BackendConfig {
        url: "http://localhost:8080".to_string(),
        timeout_seconds: 0,
        tls: None,
        model: None,
        api_key: None,
        strip_path_prefix: None,
    };
    let result = validate_backend_config(&config);
    assert!(result.is_err());
    let err = result.unwrap_err();
    assert!(matches!(err, ConfigError::Validation(_)));
    assert!(err.to_string().contains("timeout"));
}

fn base() -> AppConfig {
    AppConfig {
        server: ServerConfig {
            port: 8066,
            host: "0.0.0.0".to_string(),
            max_concurrent_requests: default_max_concurrent(),
            allowed_origins: None,
        },
        backend: Some(BackendConfig::default()),
        backends: None,
        fixes: FixesConfig::default(),
        stats: StatsConfig::default(),
        exporters: ExportersConfig::default(),
        streaming: StreamingMode::default(),
        synthesis: SynthesisConfig::default(),
        augment_backend: None,
        reprompt: None,
        dump: DumpConfig::default(),
    }
}

fn checked(config: &AppConfig) -> Result<(), ConfigError> {
    let around = Surroundings { host_is_ip: is_ip(&config.server.host), prompt_file_exists: false };
    validate_config(config, around)
}

fn node(url: &str) -> BackendNodeConfig {
    BackendNodeConfig {
        url: url.to_string(),
        timeout_seconds: 300,
        tls: None,
        model: None,
        api_key: None,
        strip_path_prefix: None,
        temperature: None,
    }
}

fn group(mappings: &[&str], nodes: Vec<BackendNodeConfig>) -> BackendGroupConfig {
    BackendGroupConfig {
        mappings: mappings.iter().map(|m| m.to_string()).collect(),
        strategy: "round_robin".to_string(),
        failure_cooldown_secs: 30,
        exclusive: false,
        nodes,
    }
}

fn grouped(groups: Vec<(&str, BackendGroupConfig)>) -> AppConfig {
    let mut map = TextMap::new();
    for (name, group) in groups {
        map.insert(name.to_string(), group);
    }
    let mut config = base();
    config.backend = None;
    config.backends = Some(map);
    config
}

#[test]
fn test_load_config_minimal() {
    assert_eq!(checked(&base()), Ok(()));
}

#[test]
fn test_load_config_nodes_only_without_backend_section() {
    let config = grouped(vec![("main", group(&[], vec![node("http://localhost:8080")]))]);
    assert_eq!(checked(&config), Ok(()));
}

#[test]
fn test_load_config_no_backend_at_all_loads_for_503_path() {
    let mut config = base();
    config.backend = None;
    assert_eq!(checked(&config), Ok(()));
}

#[test]
fn test_load_config_accepts_unimplemented_streaming_mode() {
    let mut config = base();
    config.streaming = StreamingMode::Passthrough;
    assert_eq!(checked(&config), Ok(()));
}

#[test]
fn test_load_config_with_invalid_port() {
    let mut config = base();
    config.server.port = 0;
    let err = checked(&config).unwrap_err();
    assert!(matches!(err, ConfigError::Validation(_)));
    assert!(err.to_string().contains("port"));
}

#[test]
fn test_invalid_timeout() {
    let mut config = base();
    config.backend.as_mut().unwrap().timeout_seconds = 0;
    let err = checked(&config).unwrap_err();
    assert!(matches!(err, ConfigError::Validation(_)));
    assert!(err.to_string().contains("timeout_seconds must be greater than 0"));
}

#[test]
fn t71_rejects_junk_server_host_and_accepts_ip_forms() {
    let mut config = base();
    config.server.host = "not a host!!".to_string();
    let err = checked(&config).expect_err("junk host must be rejected");
    assert!(err.to_string().contains("RFC-1123"), "got {err:?}");
    for host in ["0.0.0.0", "::1", "[::1]", "localhost", "cosmo.lan"] {
        config.server.host = host.to_string();
        assert!(checked(&config).is_ok(), "{host} must load");
    }
}

#[test]
fn t71_rejects_reprompt_prompt_file_that_does_not_exist() {
    let mut config = base();
    config.reprompt = Some(RepromptConfig {
        enabled: true,
        prompt_file: Some("/nonexistent/does-not-exist.md".to_string()),
        ..RepromptConfig::default()
    });
    let err = checked(&config).expect_err("missing prompt_file must be rejected");
    assert!(err.to_string().contains("does not exist"), "got {err:?}");
    assert_eq!(validate_config(&config, Surroundings { host_is_ip: true, prompt_file_exists: true }), Ok(()));
}

#[test]
fn t71_rejects_dump_enabled_with_empty_path() {
    let mut config = base();
    config.dump = DumpConfig { enabled: true, path: String::new() };
    let err = checked(&config).expect_err("dump enabled with empty path must be rejected");
    assert!(err.to_string().contains("dump path"), "got {err:?}");
    config.dump.path = "/tmp/dumps".to_string();
    assert!(checked(&config).is_ok());
}

#[test]
fn t71_rejects_non_https_augment_url_and_empty_model() {
    let augment = |url: &str, model: &str| {
        let mut config = base();
        config.augment_backend = Some(AugmentBackendConfig {
            enabled: true,
            url: url.to_string(),
            model: model.to_string(),
            ..AugmentBackendConfig::default()
        });
        checked(&config)
    };
    let err = augment("ftp://nope", "fast").expect_err("ftp augment url must be rejected");
    assert!(err.to_string().contains("http"), "got {err:?}");
    let err = augment("http://x.test:1", "").expect_err("empty augment model must be rejected");
    assert!(err.to_string().contains("model"), "got {err:?}");
    assert!(augment("https://x.test:1", "fast").is_ok());
}

#[test]
fn t71_node_temperature_pin_table() {
    for (value, ok) in [
        (0.0, true),
        (2.0, true),
        (1.5, true),
        (-0.1, false),
        (2.5, false),
        (f64::INFINITY, false),
        (f64::NEG_INFINITY, false),
        (f64::NAN, false),
    ] {
        let mut n = node("http://localhost:8080");
        n.temperature = Some(temperature(value));
        let got = checked(&grouped(vec![("g", group(&[], vec![n]))]));
        assert_eq!(got.is_ok(), ok, "temperature {value} ok={ok}, got {got:?}");
    }
}

#[test]
fn t71_rejects_duplicate_model_mapping_across_groups() {
    let config = grouped(vec![
        ("g1", group(&["qwen3"], vec![node("http://localhost:8080")])),
        ("g2", group(&["qwen3", "llama"], vec![node("http://localhost:8081")])),
    ]);
    let msg = checked(&config).expect_err("duplicate mapping must be rejected").to_string();
    assert!(msg.contains("qwen3") && msg.contains("g1") && msg.contains("g2"), "got {msg}");
}

#[test]
fn t71_rejects_second_catch_all_group() {
    let config = grouped(vec![
        ("g1", group(&[], vec![node("http://localhost:8080")])),
        ("g2", group(&[], vec![node("http://localhost:8081")])),
    ]);
    let err = checked(&config).expect_err("two catch-alls must be rejected");
    assert!(err.to_string().contains("catch-all"), "got {err:?}");
}

#[test]
fn t71_rejects_empty_backends_map_and_empty_group_name() {
    let err = checked(&grouped(vec![])).expect_err("empty groups must be rejected");
    assert!(err.to_string().contains("No backend groups"), "got {err:?}");

    let config = grouped(vec![("", group(&["m"], vec![node("http://localhost:8080")]))]);
    let err = checked(&config).expect_err("empty group name must be rejected");
    assert!(err.to_string().contains("group name"), "got {err:?}");
}

#[test]
fn t71_rejects_empty_done_sentinel_entry() {
    let mut config = base();
    config.reprompt = Some(RepromptConfig {
        enabled: true,
        prompt: Some("go".to_string()),
        done_sentinels: vec!["DONE".to_string(), String::new()],
        ..RepromptConfig::default()
    });
    let err = checked(&config).expect_err("empty sentinel must be rejected");
    assert!(err.to_string().contains("done_sentinels"), "got {err:?}");
}

#[test]
fn reprompting_needs_a_prompt() {
    let rep = RepromptConfig { enabled: true, prompt: None, prompt_file: None, ..RepromptConfig::default() };
    assert_eq!(
        validate_reprompt(Some(&rep), false),
        Err(ConfigError::Validation("reprompt: enabled but neither 'prompt_file' nor 'prompt' is set".to_string()))
    );
    assert_eq!(validate_reprompt(None, false), Ok(()));
}

#[test]
fn a_group_needs_nodes_and_a_known_strategy() {
    let err = checked(&grouped(vec![("g", group(&[], vec![]))])).unwrap_err();
    assert!(err.to_string().contains("'g'"), "got {err:?}");

    let mut odd = group(&[], vec![node("http://localhost:8080")]);
    odd.strategy = "fastest".to_string();
    assert_eq!(
        checked(&grouped(vec![("g", odd)])),
        Err(ConfigError::Validation(
            "Backend group 'g' has invalid strategy 'fastest'. Use 'round_robin' or 'priority_free'".to_string()
        ))
    );
}

#[test]
fn an_accepted_configuration_is_within_its_bounds() {
    let mut slow = group(&[], vec![node("http://localhost:8080")]);
    slow.failure_cooldown_secs = u64::MAX;
    assert!(checked(&grouped(vec![("g", slow)])).is_err());

    let mut patient = node("http://localhost:8080");
    patient.timeout_seconds = MAX_TIMEOUT_SECONDS + 1;
    assert!(checked(&grouped(vec![("g", group(&[], vec![patient]))])).is_err());

    let mut config = base();
    config.synthesis.chunk_size_chars = 0;
    assert!(checked(&config).is_err());
}

#[test]
fn what_was_read_of_a_url_decides() {
    let parts = |scheme: &str, host: Option<&str>| {
        Ok(UrlParts { scheme: scheme.to_string(), host: host.map(str::to_string) })
    };
    assert!(check_url_parts(parts("http", Some("h")), "u", "Backend").is_ok());
    assert!(check_url_parts(parts("https", Some("h")), "u", "Backend").is_ok());
    assert!(check_url_parts(parts("ftp", Some("h")), "u", "Backend").is_err());
    assert!(check_url_parts(parts("http", None), "u", "Backend").is_err());
    let err = check_url_parts(Err("empty host".to_string()), "u", "Backend").unwrap_err();
    assert!(err.to_string().contains("empty host"), "got {err:?}");
}

#[test]
fn a_bind_address_loses_its_brackets() {
    assert_eq!(bind_address("[::1]"), "::1");
    assert_eq!(bind_address("::1"), "::1");
    assert_eq!(bind_address("[::1"), "[::1");
    assert!(is_rfc1123_hostname("example.com."));
    assert!(!is_rfc1123_hostname("a..b"));
}

#[test]
fn test_load_config_with_invalid_timeout() {
    let mut config = base();
    config.backend.as_mut().unwrap().timeout_seconds = 0;
    let err = checked(&config).unwrap_err();
    assert!(matches!(err, ConfigError::Validation(_)));
    assert!(err.to_string().contains("timeout"));
}

#[test]
fn accepted_origins_are_exact() {
    let mut config = base();
    config.server.allowed_origins = Some(vec!["https://a.example".to_string()]);
    assert_eq!(checked(&config), Ok(()));
    config.server.allowed_origins = Some(vec!["https://a.example".to_string(), "a\tb".to_string()]);
    assert!(checked(&config).is_err());
}
