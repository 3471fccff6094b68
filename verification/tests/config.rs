use llama_proxy::config::keys::{is_known_key, reject_unknown_keys, Section};
use llama_proxy::config::{
    always_true, default_failure_cooldown_secs, default_max_concurrent, default_strategy, AugmentBackendConfig, BackendConfig,
    ConfigError, DumpConfig, ExportersConfig, FixModuleConfig, FixesConfig, InfluxDbConfig, NoMatchingBackend,
    ServerConfig, StatsConfig, StatsFormat, StreamingMode, SynthesisConfig, TlsConfig,
};
use llama_proxy::json::Json;
use llama_proxy::text_map::TextMap;

#[test]
fn test_backend_config_base_url() {
    let config = BackendConfig {
        url: "http://localhost:8080".to_string(),
        timeout_seconds: 300,
        tls: None,
        model: None,
        api_key: None,
        strip_path_prefix: None,
    };
    assert_eq!(config.base_url(), "http://localhost:8080");
}

#[test]
fn test_backend_config_https() {
    let config = BackendConfig {
        url: "https://example.com:4234".to_string(),
        timeout_seconds: 300,
        tls: None,
        model: None,
        api_key: None,
        strip_path_prefix: None,
    };
    assert_eq!(config.base_url(), "https://example.com:4234");
    assert!(config.is_tls());
}

#[test]
fn test_backend_config_is_tls() {
    let http_config = BackendConfig {
        url: "http://localhost:8080".to_string(),
        timeout_seconds: 300,
        tls: None,
        model: None,
        api_key: None,
        strip_path_prefix: None,
    };
    assert!(!http_config.is_tls());

    let https_config = BackendConfig {
        url: "https://secure.example.com".to_string(),
        timeout_seconds: 300,
        tls: None,
        model: None,
        api_key: None,
        strip_path_prefix: None,
    };
    assert!(https_config.is_tls());
}

#[test]
fn test_backend_config_trailing_slash() {
    let config = BackendConfig {
        url: "http://localhost:8080/".to_string(),
        timeout_seconds: 300,
        tls: None,
        model: None,
        api_key: None,
        strip_path_prefix: None,
    };
    assert_eq!(config.base_url(), "http://localhost:8080");
}

#[test]
fn test_backend_config_default() {
    let config = BackendConfig::default();
    assert_eq!(config.url, "http://localhost:8080");
    assert_eq!(config.timeout_seconds, 300);
    assert!(config.tls.is_none());
    assert!(config.model.is_none());
    assert!(config.api_key.is_none());
}

#[test]
fn test_backend_config_tls_options() {
    let config = BackendConfig {
        url: "https://secure.example.com".to_string(),
        timeout_seconds: 300,
        tls: Some(TlsConfig {
            accept_invalid_certs: true,
            ca_cert_path: Some("/path/to/ca.pem".to_string()),
            client_cert_path: None,
            client_key_path: None,
        }),
        model: None,
        api_key: None,
        strip_path_prefix: None,
    };
    assert!(config.tls.is_some());
    let tls = config.tls.unwrap();
    assert!(tls.accept_invalid_certs);
    assert_eq!(tls.ca_cert_path, Some("/path/to/ca.pem".to_string()));
}

#[test]
fn test_backend_config_model_and_api_key() {
    let config = BackendConfig {
        url: "https://api.example.com".to_string(),
        timeout_seconds: 300,
        tls: None,
        model: Some("anthropic/sonnet-4-5".to_string()),
        api_key: Some("sk-test-key".to_string()),
        strip_path_prefix: None,
    };
    assert_eq!(config.model, Some("anthropic/sonnet-4-5".to_string()));
    assert_eq!(config.api_key, Some("sk-test-key".to_string()));
}

#[test]
fn test_stats_format_default() {
    let format = StatsFormat::default();
    assert!(matches!(format, StatsFormat::Pretty));
}

#[test]
fn test_fix_module_config() {
    let config = FixModuleConfig {
        enabled: true,
        options: TextMap::new(),
    };
    assert!(config.enabled);
    assert!(config.options.is_empty());
}

#[test]
fn test_fix_module_config_with_options() {
    let mut options = TextMap::new();
    options.insert("arbitrary_key".to_string(), Json::Bool(true));

    let config = FixModuleConfig { enabled: false, options };
    assert!(!config.enabled);
    assert!(config.options.contains_key("arbitrary_key"));
}

#[test]
fn test_config_error_display() {
    let err = ConfigError::NotFound("test.yaml".to_string());
    assert!(err.to_string().contains("test.yaml"));

    let err = ConfigError::Parse("invalid type: string".to_string());
    assert!(err.to_string().contains("parse"));

    let err = ConfigError::Validation("invalid URL".to_string());
    assert!(err.to_string().contains("invalid URL"));
}

#[test]
fn test_server_config() {
    let config = ServerConfig {
        port: 8066,
        host: "0.0.0.0".to_string(),
        max_concurrent_requests: default_max_concurrent(),
        allowed_origins: None,
    };
    assert_eq!(config.port, 8066);
    assert_eq!(config.host, "0.0.0.0");
    assert_eq!(config.max_concurrent_requests, 0);
}

#[test]
fn test_stats_config() {
    let config = StatsConfig {
        enabled: true,
        format: StatsFormat::Json,
    };
    assert!(config.enabled);
    assert!(matches!(config.format, StatsFormat::Json));
}

#[test]
fn test_influxdb_config() {
    let config = InfluxDbConfig {
        enabled: true,
        url: "http://localhost:8086".to_string(),
        org: "my-org".to_string(),
        bucket: "metrics".to_string(),
        token: "secret".to_string(),
    };
    assert!(config.enabled);
    assert_eq!(config.url, "http://localhost:8086");
}

#[test]
fn test_streaming_mode_default() {
    let mode = StreamingMode::default();
    assert_eq!(mode, StreamingMode::Fake);
    assert!(mode.is_fake());
    assert!(!mode.is_disabled());
    assert!(!mode.is_passthrough());
}

#[test]
fn test_streaming_mode_disabled() {
    let mode = StreamingMode::Disabled;
    assert!(mode.is_disabled());
    assert!(!mode.is_fake());
    assert!(!mode.is_passthrough());
    assert!(mode.effective_label().starts_with("backend JSON"));
}

#[test]
fn test_streaming_mode_fake() {
    let mode = StreamingMode::Fake;
    assert!(mode.is_fake());
    assert!(!mode.is_disabled());
    assert!(!mode.is_passthrough());
}

#[test]
fn test_streaming_mode_passthrough() {
    let mode = StreamingMode::Passthrough;
    assert!(mode.is_passthrough());
    assert!(!mode.is_disabled());
    assert!(!mode.is_fake());
}

#[test]
fn test_effective_label_names_real_behavior() {
    assert!(StreamingMode::Passthrough.effective_label().contains("verbatim"));
    assert!(StreamingMode::Fake.effective_label().contains("synthesized"));
    assert!(StreamingMode::Passthrough.effective_label().contains("OpenAI"));
}

#[test]
fn test_streaming_mode_from_str_mode() {
    assert_eq!(StreamingMode::from_str_mode("disabled"), Some(StreamingMode::Disabled));
    assert_eq!(StreamingMode::from_str_mode("FAKE"), Some(StreamingMode::Fake));
    assert_eq!(StreamingMode::from_str_mode("Passthrough"), Some(StreamingMode::Passthrough));
    assert_eq!(
        StreamingMode::from_str_mode("accumulator"),
        None,
        "there is no such mode"
    );
    assert_eq!(StreamingMode::from_str_mode("bogus"), None);
}

#[test]
fn test_streaming_mode_resolve_precedence() {
    assert_eq!(
        StreamingMode::resolve(Some("disabled"), StreamingMode::Fake).unwrap(),
        StreamingMode::Disabled
    );
    assert_eq!(
        StreamingMode::resolve(Some("passthrough"), StreamingMode::Disabled).unwrap(),
        StreamingMode::Passthrough
    );
    assert_eq!(
        StreamingMode::resolve(None, StreamingMode::Disabled).unwrap(),
        StreamingMode::Disabled
    );
    assert_eq!(
        StreamingMode::resolve(None, StreamingMode::default()).unwrap(),
        StreamingMode::Fake
    );
    assert!(StreamingMode::resolve(Some("bogus"), StreamingMode::Fake).is_err());
}

#[test]
fn test_no_matching_backend_display() {
    let err = NoMatchingBackend {
        requested_model: Some("gpt-4".to_string()),
    };
    assert_eq!(err.to_string(), "No backend configured for model: gpt-4");

    let err = NoMatchingBackend { requested_model: None };
    assert_eq!(err.to_string(), "No backend configured (no model specified and no catch-all)");
}

#[test]
fn test_augment_backend_default_impl_matches_opt_in() {
    assert!(
        !AugmentBackendConfig::default().enabled,
        "augmentation is opt-in"
    );
}

#[test]
fn test_augment_backend_default_impl_timeout_is_15() {
    assert_eq!(AugmentBackendConfig::default().timeout_secs, 15);
}

fn keys_of(yaml: &str) -> Vec<String> {
    let value: serde_yaml::Value = serde_yaml::from_str(yaml).unwrap();
    value.as_mapping().unwrap().keys().map(|k| k.as_str().unwrap().to_string()).collect()
}

fn rejected(section: Section, yaml: &str, bogus_key: &str) {
    let err = reject_unknown_keys(section, &keys_of(yaml)).expect_err("typo key must be rejected");
    assert!(
        err.to_string().contains(bogus_key),
        "error must name the bogus key {bogus_key}, got: {err:?}"
    );
    assert_eq!(err, ConfigError::Parse(format!("unknown field `{bogus_key}`")));
}

#[test]
fn appconfig_rejects_bogus_app_key() {
    rejected(
        Section::App,
        "server:\n  port: 8066\n  host: \"0.0.0.0\"\nbogus_app_key: 1\n",
        "bogus_app_key",
    );
}

#[test]
fn serverconfig_rejects_bogus_server_key() {
    rejected(
        Section::Server,
        "port: 8066\nhost: \"0.0.0.0\"\nbogus_server_key: 1\n", "bogus_server_key");
}

#[test]
fn backendconfig_rejects_bogus_backend_key() {
    rejected(
        Section::Backend,
        "url: \"http://localhost:8080\"\nbogus_backend_key: 1\n", "bogus_backend_key");
}

#[test]
fn backendnodeconfig_rejects_bogus_node_key() {
    rejected(
        Section::Node,
        "url: \"http://localhost:8080\"\nbogus_node_key: 1\n", "bogus_node_key");
}

#[test]
fn backendgroupconfig_rejects_bogus_group_key() {
    rejected(
        Section::Group,
        "mappings: []\nnodes: []\nbogus_group_key: 1\n", "bogus_group_key");
}

#[test]
fn statsconfig_rejects_bogus_stats_key() {
    rejected(
        Section::Stats,
        "enabled: true\nbogus_stats_key: 1\n", "bogus_stats_key");
}

#[test]
fn dumpconfig_rejects_bogus_dump_key() {
    rejected(
        Section::Dump,
        "enabled: false\nbogus_dump_key: 1\n", "bogus_dump_key");
}

#[test]
fn synthesisconfig_rejects_bogus_synthesis_key() {
    rejected(
        Section::Synthesis,
        "chunk_delay_ms: 0\nbogus_synthesis_key: 1\n", "bogus_synthesis_key");
}

#[test]
fn influxdbconfig_rejects_bogus_influx_key() {
    rejected(
        Section::InfluxDb,
        "enabled: false\nbogus_influx_key: 1\n", "bogus_influx_key");
}

#[test]
fn repromptconfig_rejects_bogus_reprompt_key() {
    rejected(
        Section::Reprompt,
        "enabled: false\nbogus_reprompt_key: 1\n", "bogus_reprompt_key");
}

#[test]
fn augmentbackendconfig_rejects_bogus_augment_key() {
    rejected(
        Section::Augment,
        "url: \"http://localhost:8701\"\nmodel: \"fast\"\nbogus_augment_key: 1\n",
        "bogus_augment_key",
    );
}

#[test]
fn tlsconfig_rejects_bogus_tls_key() {
    rejected(
        Section::Tls,
        "accept_invalid_certs: false\nbogus_tls_key: 1\n", "bogus_tls_key");
}

#[test]
fn alias_key_still_accepted_under_deny() {
    let keys = keys_of("enabled: true\nprompt: \"x\"\ndone_sentinel: \"FINISH\"\n");
    assert_eq!(reject_unknown_keys(Section::Reprompt, &keys), Ok(()));
}

#[test]
fn deleted_accumulator_alias_is_now_unknown() {
    let err = StreamingMode::resolve(Some("accumulator"), StreamingMode::Fake).unwrap_err();
    assert!(err.contains("accumulator"), "got {err}");
}

#[test]
fn every_documented_key_of_the_server_section_is_known() {
    for key in ["port", "host", "max_concurrent_requests", "allowed_origins"] {
        assert!(is_known_key(Section::Server, key), "{key}");
    }
    assert!(!is_known_key(Section::Server, "Port"));
    assert_eq!(reject_unknown_keys(Section::Server, &[]), Ok(()));
}

#[test]
fn defaults_of_the_sections() {
    assert_eq!(default_strategy(), "round_robin");
    assert_eq!(default_failure_cooldown_secs(), 30);
    let synthesis = SynthesisConfig::default();
    assert_eq!((synthesis.chunk_delay_ms, synthesis.chunk_size_chars), (0, 2000));
    assert!(FixesConfig::default().enabled);
    assert!(FixesConfig::default().modules.is_empty());
    assert!(StatsConfig::default().enabled);
    assert!(!DumpConfig::default().enabled);
    assert!(!ExportersConfig::default().influxdb.enabled);
}

#[test]
fn the_mode_of_the_command_line_is_read_without_regard_to_case() {
    assert_eq!(StreamingMode::from_lowercase("fake"), Some(StreamingMode::Fake));
    assert_eq!(StreamingMode::from_lowercase("FAKE"), None);
    assert_eq!(StreamingMode::from_str_mode("DISABLED"), Some(StreamingMode::Disabled));
    assert_eq!(StreamingMode::Passthrough.to_string(), "passthrough");
}

#[test]
fn every_configuration_error_has_its_text() {
    let shown = |e: ConfigError| e.to_string();
    assert_eq!(shown(ConfigError::Validation("x".to_string())), "Configuration validation error: x");
    assert_eq!(shown(ConfigError::NotFound("x".to_string())), "Configuration file not found: x");
    assert_eq!(shown(ConfigError::Io("x".to_string())), "Failed to read configuration file: x");
    assert_eq!(shown(ConfigError::Parse("x".to_string())), "Failed to parse configuration: x");
}

#[test]
fn test_influxdb_batch_keys_are_rejected() {
    for key in ["batch_size: 10", "flush_interval_seconds: 5"] {
        let yaml = format!(
            "enabled: true\nurl: \"http://localhost:8086\"\norg: \"my-org\"\nbucket: \"llama-metrics\"\ntoken: \"t\"\n{key}\n"
        );
        let err = reject_unknown_keys(Section::InfluxDb, &keys_of(&yaml))
            .expect_err(&format!("{key} must be rejected, not ignored"));
        let msg = err.to_string();
        assert!(msg.contains("unknown field"), "{key}: {msg}");
        assert!(msg.contains("batch_size") || msg.contains("flush_interval_seconds"), "{key}: {msg}");
    }
}

#[test]
fn fix_module_without_enabled_key_defaults_enabled() {
    assert!(always_true(), "a bare module entry must mean enabled");
}

#[test]
fn the_scheme_of_a_url_decides_whatever_its_host_holds() {
    let tls = |url: &str| BackendConfig { url: url.to_string(), ..BackendConfig::default() }.is_tls();
    assert!(tls("HTTPS://exämple.test"));
    assert!(!tls("http://exämple.test"));
    assert!(!tls("https:/"));
}
