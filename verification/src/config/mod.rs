//! Configuration: what it holds, what is assumed where it is silent, and which
//! of it is refused.

use vstd::prelude::*;
use vstd::string::*;
use vstd::utf8::*;
use crate::json::Json;
use crate::text::{ascii_lowered, keeps_ascii_start, joined, lowercase, lowercased, same_text, starts_with, trim_end_char, trimmed_end};
use crate::text_map::TextMap;

pub mod keys;
pub mod laws;
pub mod loader;
pub mod validate;

pub use loader::validate_config;
pub use validate::validate_http_url;

verus! {

broadcast use vstd::string::group_string_axioms;

/// The whole configuration.
pub struct AppConfig {
    pub server: ServerConfig,
    /// The single backend, where there are no groups.
    pub backend: Option<BackendConfig>,
    /// The groups of backends, by name.
    pub backends: Option<TextMap<BackendGroupConfig>>,
    pub fixes: FixesConfig,
    pub stats: StatsConfig,
    pub exporters: ExportersConfig,
    pub streaming: StreamingMode,
    pub synthesis: SynthesisConfig,
    pub augment_backend: Option<AugmentBackendConfig>,
    pub reprompt: Option<RepromptConfig>,
    pub dump: DumpConfig,
}

/// Whether and where requests are dumped.
#[derive(Debug, PartialEq, Eq)]
pub struct DumpConfig {
    pub enabled: bool,
    pub path: String,
}

impl Default for DumpConfig {
    fn default() -> (config: DumpConfig)
        ensures
            !config.enabled,
            config.path@ == Seq::<char>::empty(),
    {
        DumpConfig { enabled: false, path: String::new() }
    }
}

/// The server of the proxy.
#[derive(Debug, PartialEq, Eq)]
pub struct ServerConfig {
    pub port: u16,
    pub host: String,
    /// How many completion requests may be under way at once; 0 for any
    /// number.
    pub max_concurrent_requests: usize,
    /// The origins that may read responses; `None` for every origin.
    pub allowed_origins: Option<Vec<String>>,
}

/// How many requests may be under way where the configuration does not say:
/// any number.
pub fn default_max_concurrent() -> (n: usize)
    ensures
        n == 0,
{
    0
}

/// A single backend.
#[derive(Debug, PartialEq, Eq)]
pub struct BackendConfig {
    pub url: String,
    pub timeout_seconds: u64,
    pub tls: Option<TlsConfig>,
    pub model: Option<String>,
    pub api_key: Option<String>,
    /// A prefix that request paths lose before they go to the backend.
    pub strip_path_prefix: Option<String>,
}

/// How a backend is reached over TLS.
#[derive(Debug, PartialEq, Eq)]
pub struct TlsConfig {
    pub accept_invalid_certs: bool,
    pub ca_cert_path: Option<String>,
    pub client_cert_path: Option<String>,
    pub client_key_path: Option<String>,
}

/// The timeout of a request where the configuration does not say, in seconds.
pub fn default_timeout() -> (seconds: u64)
    ensures
        seconds == 300,
{
    300
}

impl Default for BackendConfig {
    fn default() -> (config: BackendConfig)
        ensures
            config.url@ == "http://localhost:8080"@,
            config.timeout_seconds == 300,
            config.tls is None,
            config.model is None,
            config.api_key is None,
            config.strip_path_prefix is None,
    {
        BackendConfig {
            url: "http://localhost:8080".to_owned(),
            timeout_seconds: default_timeout(),
            tls: None,
            model: None,
            api_key: None,
            strip_path_prefix: None,
        }
    }
}

impl BackendConfig {
    /// The URL without trailing slashes.
    pub fn base_url(&self) -> (base: &str)
        ensures
            base@ == trimmed_end(self.url@, '/'),
    {
        trim_end_char(self.url.as_str(), '/')
    }

    /// Whether the backend is reached over TLS.
    pub fn is_tls(&self) -> (tls: bool)
        ensures
            tls == "https://"@.is_prefix_of(lowercased(self.url@)),
            is_ascii_chars(self.url@) ==> tls == "https://"@.is_prefix_of(ascii_lowered(self.url@)),
            self.url@.len() >= 8 && is_ascii_chars(self.url@.take(8)) ==> tls == (ascii_lowered(self.url@.take(8))
                == "https://"@),
    {
        let lower = lowercase(self.url.as_str());
        proof {
            reveal_strlit("https://");
            assert(keeps_ascii_start(lower@, self.url@, 8));
            if self.url@.len() >= 8 && is_ascii_chars(self.url@.take(8)) {
                assert("https://"@.is_prefix_of(lower@) == (lower@.take(8) == "https://"@)) by {
                    assert(lower@.take(8) =~= lower@.subrange(0, 8));
                }
            }
        }
        starts_with(lower.as_str(), "https://")
    }
}

/// A number between 0 and 2, as it was given: its IEEE 754 double precision
/// bits, which decide, and its text, for messages.
#[derive(Debug, PartialEq, Eq)]
pub struct Temperature {
    pub bits: u64,
    pub shown: String,
}

/// A node of a group.
#[derive(Debug, PartialEq, Eq)]
pub struct BackendNodeConfig {
    pub url: String,
    pub timeout_seconds: u64,
    pub tls: Option<TlsConfig>,
    pub model: Option<String>,
    pub api_key: Option<String>,
    pub strip_path_prefix: Option<String>,
    /// The temperature of requests to this node, in place of the client's.
    pub temperature: Option<Temperature>,
}

/// A group of backends.
#[derive(Debug, PartialEq, Eq)]
pub struct BackendGroupConfig {
    /// The models that the group serves; none for every model.
    pub mappings: Vec<String>,
    pub strategy: String,
    /// How long a node that failed is left alone, in seconds.
    pub failure_cooldown_secs: u64,
    /// Whether the group serves only the models that it maps.
    pub exclusive: bool,
    pub nodes: Vec<BackendNodeConfig>,
}

/// The strategy of a group where the configuration does not say.
pub fn default_strategy() -> (strategy: String)
    ensures
        strategy@ == "round_robin"@,
{
    "round_robin".to_owned()
}

/// How long a node that failed is left alone where the configuration does not
/// say, in seconds.
pub fn default_failure_cooldown_secs() -> (seconds: u64)
    ensures
        seconds == 30,
{
    30
}

/// No backend serves the requested model.
#[derive(Debug, PartialEq, Eq)]
pub struct NoMatchingBackend {
    pub requested_model: Option<String>,
}

impl NoMatchingBackend {
    /// The error in words.
    pub fn to_string(&self) -> (text: String)
        ensures
            text@ == match self.requested_model {
                Some(model) => "No backend configured for model: "@ + model@,
                None => "No backend configured (no model specified and no catch-all)"@,
            },
    {
        match &self.requested_model {
            Some(model) => joined("No backend configured for model: ", model.as_str()),
            None => "No backend configured (no model specified and no catch-all)".to_owned(),
        }
    }
}

/// Which fixes run.
#[derive(Debug, PartialEq, Eq)]
pub struct FixesConfig {
    /// Whether any fix runs.
    pub enabled: bool,
    /// What is said of a fix, by its name.
    pub modules: TextMap<FixModuleConfig>,
}

/// Whether fixes run where the configuration does not say.
pub fn default_fixes_enabled() -> (enabled: bool)
    ensures
        enabled,
{
    true
}

/// Whether a fix that is spoken of runs where nothing else is said of it.
pub fn always_true() -> (enabled: bool)
    ensures
        enabled,
{
    true
}

impl Default for FixesConfig {
    fn default() -> (config: FixesConfig)
        ensures
            config.enabled,
            config.modules@ == Map::<Seq<char>, FixModuleConfig>::empty(),
    {
        FixesConfig { enabled: default_fixes_enabled(), modules: TextMap::new() }
    }
}

/// What is said of one fix.
#[derive(Debug, PartialEq, Eq)]
pub struct FixModuleConfig {
    /// Whether the fix runs.
    pub enabled: bool,
    /// Settings of the fix.
    pub options: TextMap<Json>,
}

/// Whether and how statistics are logged.
#[derive(Debug, PartialEq, Eq)]
pub struct StatsConfig {
    pub enabled: bool,
    pub format: StatsFormat,
}

/// Whether statistics are logged where the configuration does not say.
pub fn default_stats_enabled() -> (enabled: bool)
    ensures
        enabled,
{
    true
}

impl Default for StatsConfig {
    fn default() -> (config: StatsConfig)
        ensures
            config.enabled,
            config.format == StatsFormat::Pretty,
    {
        StatsConfig { enabled: default_stats_enabled(), format: StatsFormat::Pretty }
    }
}

/// The format of logged statistics.
#[derive(Debug, Clone, Copy, PartialEq, Eq, Structural)]
pub enum StatsFormat {
    Pretty,
    Json,
    Compact,
}

impl Default for StatsFormat {
    fn default() -> (format: StatsFormat)
        ensures
            format == StatsFormat::Pretty,
    {
        StatsFormat::Pretty
    }
}

/// How streamed responses are handled.
#[derive(Debug, Clone, Copy, PartialEq, Eq, Structural)]
pub enum StreamingMode {
    /// As `Fake`; reserved.
    Disabled,
    /// The backend is asked for one JSON body, and a stream is made of it.
    /// Fixes and re-prompts run.
    Fake,
    /// The stream of the backend is handed on as it is. Fixes only detect.
    Passthrough,
}

impl Default for StreamingMode {
    fn default() -> (mode: StreamingMode)
        ensures
            mode == StreamingMode::Fake,
    {
        StreamingMode::Fake
    }
}

impl StreamingMode {
    /// The spelling of a mode.
    pub open spec fn spelling(self) -> Seq<char> {
        match self {
            StreamingMode::Disabled => "disabled"@,
            StreamingMode::Fake => "fake"@,
            StreamingMode::Passthrough => "passthrough"@,
        }
    }

    /// The mode that a spelling means.
    pub open spec fn spelled(s: Seq<char>) -> Option<StreamingMode> {
        if s == "disabled"@ {
            Some(StreamingMode::Disabled)
        } else if s == "fake"@ {
            Some(StreamingMode::Fake)
        } else if s == "passthrough"@ {
            Some(StreamingMode::Passthrough)
        } else {
            None
        }
    }

    pub fn is_disabled(&self) -> (b: bool)
        ensures
            b == (*self == StreamingMode::Disabled),
    {
        matches!(self, StreamingMode::Disabled)
    }

    pub fn is_fake(&self) -> (b: bool)
        ensures
            b == (*self == StreamingMode::Fake),
    {
        matches!(self, StreamingMode::Fake)
    }

    pub fn is_passthrough(&self) -> (b: bool)
        ensures
            b == (*self == StreamingMode::Passthrough),
    {
        matches!(self, StreamingMode::Passthrough)
    }

    /// What the mode comes to, in words.
    pub fn effective_label(&self) -> (label: &'static str)
        ensures
            label@ == match *self {
                StreamingMode::Fake => "backend JSON, synthesized SSE"@,
                StreamingMode::Passthrough => "backend SSE, verbatim (OpenAI path only)"@,
                StreamingMode::Disabled => "backend JSON, synthesized SSE (reserved: disabled)"@,
            },
    {
        match self {
            StreamingMode::Fake => "backend JSON, synthesized SSE",
            StreamingMode::Passthrough => "backend SSE, verbatim (OpenAI path only)",
            StreamingMode::Disabled => "backend JSON, synthesized SSE (reserved: disabled)",
        }
    }

    /// The spelling of the mode.
    pub fn as_str(&self) -> (s: &'static str)
        ensures
            s@ == self.spelling(),
    {
        match self {
            StreamingMode::Disabled => "disabled",
            StreamingMode::Fake => "fake",
            StreamingMode::Passthrough => "passthrough",
        }
    }

    /// The spelling of the mode.
    pub fn to_string(&self) -> (s: String)
        ensures
            s@ == self.spelling(),
    {
        self.as_str().to_owned()
    }

    /// The mode that a lower case spelling means.
    pub fn from_lowercase(s: &str) -> (mode: Option<StreamingMode>)
        ensures
            mode == StreamingMode::spelled(s@),
    {
        if same_text(s, "disabled") {
            Some(StreamingMode::Disabled)
        } else if same_text(s, "fake") {
            Some(StreamingMode::Fake)
        } else if same_text(s, "passthrough") {
            Some(StreamingMode::Passthrough)
        } else {
            None
        }
    }

    /// The mode that a spelling means, in upper or lower case.
    pub fn from_str_mode(s: &str) -> (mode: Option<StreamingMode>)
        ensures
            mode == StreamingMode::spelled(lowercased(s@)),
            is_ascii_chars(s@) ==> mode == StreamingMode::spelled(ascii_lowered(s@)),
    {
        StreamingMode::from_lowercase(lowercase(s).as_str())
    }

    /// The mode that is in effect: that of the command line, where it names
    /// one, or else that of the configuration. A spelling that means no mode is
    /// an error.
    pub fn resolve(cli_override: Option<&str>, config_value: StreamingMode) -> (result: Result<StreamingMode, String>)
        ensures
            match cli_override {
                Some(raw) => match StreamingMode::spelled(lowercased(raw@)) {
                    Some(mode) => result == Ok::<StreamingMode, String>(mode),
                    None => result is Err && result->Err_0@ == "Invalid streaming mode: "@ + raw@
                        + ". Use 'disabled', 'fake', or 'passthrough'."@,
                },
                None => result == Ok::<StreamingMode, String>(config_value),
            },
            cli_override is Some && is_ascii_chars(cli_override->0@) ==> match StreamingMode::spelled(
                ascii_lowered(cli_override->0@),
            ) {
                Some(mode) => result == Ok::<StreamingMode, String>(mode),
                None => result is Err,
            },
    {
        match cli_override {
            Some(raw) => match StreamingMode::from_str_mode(raw) {
                Some(mode) => Ok(mode),
                None => {
                    let mut message = joined("Invalid streaming mode: ", raw);
                    message.append(". Use 'disabled', 'fake', or 'passthrough'.");
                    Err(message)
                },
            },
            None => Ok(config_value),
        }
    }
}

/// Every mode is read back from its own spelling.
pub proof fn law_modes_are_read_back(mode: StreamingMode)
    ensures
        StreamingMode::spelled(mode.spelling()) == Some(mode),
{
    reveal_strlit("disabled");
    reveal_strlit("fake");
    reveal_strlit("passthrough");
    assert("disabled"@.len() == 8 && "fake"@.len() == 4 && "passthrough"@.len() == 11);
}

/// How a made-up stream is paced and split.
#[derive(Debug, PartialEq, Eq)]
pub struct SynthesisConfig {
    /// The pause between chunks, in milliseconds.
    pub chunk_delay_ms: u64,
    /// The most characters of a chunk.
    pub chunk_size_chars: usize,
}

/// The most characters of a chunk where the configuration does not say.
pub fn default_synthesis_chunk_size_chars() -> (n: usize)
    ensures
        n == 2000,
{
    2000
}

impl Default for SynthesisConfig {
    fn default() -> (config: SynthesisConfig)
        ensures
            config.chunk_delay_ms == 0,
            config.chunk_size_chars == 2000,
    {
        SynthesisConfig { chunk_delay_ms: 0, chunk_size_chars: default_synthesis_chunk_size_chars() }
    }
}

/// The backend that requests are enriched by.
#[derive(Debug, PartialEq, Eq)]
pub struct AugmentBackendConfig {
    pub enabled: bool,
    pub url: String,
    pub model: String,
    pub prompt_file: String,
    pub request_prompt_file: String,
    /// The timeout of a call to the backend, in seconds.
    pub timeout_secs: u64,
}

/// Whether requests are enriched where the configuration does not say.
pub fn default_augment_enabled() -> (enabled: bool)
    ensures
        !enabled,
{
    false
}

/// The timeout of a call where the configuration does not say, in seconds.
pub fn default_augment_timeout_secs() -> (seconds: u64)
    ensures
        seconds == 15,
{
    15
}

/// The file of the prompt to the enriching backend.
pub fn default_prompt_file() -> (path: String)
    ensures
        path@ == "./augmenter/backend_prompt.md"@,
{
    "./augmenter/backend_prompt.md".to_owned()
}

/// The file of the prompt that introduces what was added to a request.
pub fn default_request_prompt_file() -> (path: String)
    ensures
        path@ == "./augmenter/request_prompt.md"@,
{
    "./augmenter/request_prompt.md".to_owned()
}

/// The enriching backend is configured but not set up.
#[derive(Debug, PartialEq, Eq)]
pub struct AugmentBackendError {
    pub message: String,
}

impl AugmentBackendError {
    /// The error in words.
    pub fn to_string(&self) -> (text: String)
        ensures
            text@ == "AugmentBackendError: "@ + self.message@,
    {
        joined("AugmentBackendError: ", self.message.as_str())
    }
}

impl Default for AugmentBackendConfig {
    fn default() -> (config: AugmentBackendConfig)
        ensures
            !config.enabled,
            config.url@ == Seq::<char>::empty(),
            config.model@ == Seq::<char>::empty(),
            config.prompt_file@ == "./augmenter/backend_prompt.md"@,
            config.request_prompt_file@ == "./augmenter/request_prompt.md"@,
            config.timeout_secs == 15,
    {
        AugmentBackendConfig {
            enabled: default_augment_enabled(),
            url: String::new(),
            model: String::new(),
            prompt_file: default_prompt_file(),
            request_prompt_file: default_request_prompt_file(),
            timeout_secs: default_augment_timeout_secs(),
        }
    }
}

/// How a model that stopped too early is asked to go on.
#[derive(Debug, PartialEq, Eq)]
pub struct RepromptConfig {
    pub enabled: bool,
    pub prompt_file: Option<String>,
    pub prompt: Option<String>,
    pub max_retries: u32,
    /// Texts that say that the model is done.
    pub done_sentinels: Vec<String>,
    pub dynamic_prompt: bool,
    pub log_stop_responses: bool,
    pub skip_read_only_requests: bool,
    /// How long all of it may take, in milliseconds.
    pub max_total_ms: u64,
}

/// How often a model is asked to go on where the configuration does not say.
pub fn default_reprompt_max_retries() -> (n: u32)
    ensures
        n == 3,
{
    3
}

/// Whether requests without tools that change files are left alone where the
/// configuration does not say.
pub fn default_reprompt_skip_read_only() -> (skip: bool)
    ensures
        skip,
{
    true
}

/// The texts that say that a model is done where the configuration does not
/// say.
pub fn default_reprompt_done_sentinels() -> (sentinels: Vec<String>)
    ensures
        sentinels@.len() == 1,
        sentinels@[0]@ == "DONE"@,
{
    let mut sentinels: Vec<String> = Vec::new();
    sentinels.push("DONE".to_owned());
    sentinels
}

/// Whether the prompt is read anew where the configuration does not say.
pub fn default_reprompt_dynamic_prompt() -> (dynamic: bool)
    ensures
        dynamic,
{
    true
}

/// How long all of it may take where the configuration does not say, in
/// milliseconds.
pub fn default_reprompt_max_total_ms() -> (ms: u64)
    ensures
        ms == 30_000,
{
    30_000
}

impl Default for RepromptConfig {
    fn default() -> (config: RepromptConfig)
        ensures
            !config.enabled,
            config.prompt_file is None,
            config.prompt is None,
            config.max_retries == 3,
            config.done_sentinels@.len() == 1,
            config.done_sentinels@[0]@ == "DONE"@,
            config.dynamic_prompt,
            !config.log_stop_responses,
            config.skip_read_only_requests,
            config.max_total_ms == 30_000,
    {
        RepromptConfig {
            enabled: false,
            prompt_file: None,
            prompt: None,
            max_retries: default_reprompt_max_retries(),
            done_sentinels: default_reprompt_done_sentinels(),
            dynamic_prompt: default_reprompt_dynamic_prompt(),
            log_stop_responses: false,
            skip_read_only_requests: default_reprompt_skip_read_only(),
            max_total_ms: default_reprompt_max_total_ms(),
        }
    }
}

/// Where metrics go.
#[derive(Debug, PartialEq, Eq)]
pub struct ExportersConfig {
    pub influxdb: InfluxDbConfig,
}

impl Default for ExportersConfig {
    fn default() -> (config: ExportersConfig)
        ensures
            !config.influxdb.enabled,
            config.influxdb.url@ == "http://localhost:8086"@,
            config.influxdb.org@ == "my-org"@,
            config.influxdb.bucket@ == "llama-metrics"@,
            config.influxdb.token@ == Seq::<char>::empty(),
    {
        ExportersConfig { influxdb: InfluxDbConfig::default() }
    }
}

/// The InfluxDB that metrics go to.
#[derive(Debug, PartialEq, Eq)]
pub struct InfluxDbConfig {
    pub enabled: bool,
    pub url: String,
    pub org: String,
    pub bucket: String,
    pub token: String,
}

/// The URL of the database where the configuration does not say.
pub fn default_influxdb_url() -> (url: String)
    ensures
        url@ == "http://localhost:8086"@,
{
    "http://localhost:8086".to_owned()
}

/// The organisation where the configuration does not say.
pub fn default_influxdb_org() -> (org: String)
    ensures
        org@ == "my-org"@,
{
    "my-org".to_owned()
}

/// The bucket where the configuration does not say.
pub fn default_influxdb_bucket() -> (bucket: String)
    ensures
        bucket@ == "llama-metrics"@,
{
    "llama-metrics".to_owned()
}

impl Default for InfluxDbConfig {
    fn default() -> (config: InfluxDbConfig)
        ensures
            !config.enabled,
            config.url@ == "http://localhost:8086"@,
            config.org@ == "my-org"@,
            config.bucket@ == "llama-metrics"@,
            config.token@ == Seq::<char>::empty(),
    {
        InfluxDbConfig {
            enabled: false,
            url: default_influxdb_url(),
            org: default_influxdb_org(),
            bucket: default_influxdb_bucket(),
            token: String::new(),
        }
    }
}

/// Why a configuration is refused. Errors of the file system and of the parser
/// come as their messages.
#[derive(Debug, PartialEq, Eq)]
pub enum ConfigError {
    NotFound(String),
    Io(String),
    Parse(String),
    Validation(String),
}

/// A [`ConfigError`], as contracts see it.
pub enum ConfigErrorView {
    NotFound(Seq<char>),
    Io(Seq<char>),
    Parse(Seq<char>),
    Validation(Seq<char>),
}

impl View for ConfigError {
    type V = ConfigErrorView;

    open spec fn view(&self) -> ConfigErrorView {
        match self {
            ConfigError::NotFound(m) => ConfigErrorView::NotFound(m@),
            ConfigError::Io(m) => ConfigErrorView::Io(m@),
            ConfigError::Parse(m) => ConfigErrorView::Parse(m@),
            ConfigError::Validation(m) => ConfigErrorView::Validation(m@),
        }
    }
}

impl ConfigError {
    /// The error in words.
    pub fn to_string(&self) -> (text: String)
        ensures
            text@ == match self@ {
                ConfigErrorView::NotFound(m) => "Configuration file not found: "@ + m,
                ConfigErrorView::Io(m) => "Failed to read configuration file: "@ + m,
                ConfigErrorView::Parse(m) => "Failed to parse configuration: "@ + m,
                ConfigErrorView::Validation(m) => "Configuration validation error: "@ + m,
            },
    {
        match self {
            ConfigError::NotFound(m) => joined("Configuration file not found: ", m.as_str()),
            ConfigError::Io(m) => joined("Failed to read configuration file: ", m.as_str()),
            ConfigError::Parse(m) => joined("Failed to parse configuration: ", m.as_str()),
            ConfigError::Validation(m) => joined("Configuration validation error: ", m.as_str()),
        }
    }
}

} // verus!
