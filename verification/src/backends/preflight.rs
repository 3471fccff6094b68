//! What is asked of a node before the proxy starts, and what is learnt from the
//! answer: which models the node serves, and how large a context it has.
//!
//! No answer stops the start. A node that cannot be asked is passed over.

use vstd::prelude::*;
use vstd::string::*;
use crate::config::{BackendConfig, BackendNodeConfig, TlsConfig};
use crate::json::{views, Json, JsonView};
use crate::text::{contains, copy_opt, find_from, group_texts, joined, texts, trim_end_char, trimmed_end};
use super::node::{node_url, opt_str, request_url, CONNECT_TIMEOUT_SECS};

verus! {

broadcast use {vstd::string::group_string_axioms, crate::json::group_json, crate::text::group_texts};

/// The longest that a node is waited for before the start, in seconds.
pub const PREFLIGHT_TIMEOUT_CAP_SECS: u64 = 10;

/// How many idle connections to a node are kept.
pub const MAX_IDLE_CONNECTIONS: usize = 10;

/// How a client for a node is to be built.
#[derive(Debug, PartialEq, Eq)]
pub struct ClientPlan {
    pub timeout_seconds: u64,
    pub connect_timeout_seconds: u64,
    pub max_idle_connections: usize,
    pub accept_invalid_certs: bool,
    /// The file of a certificate to trust.
    pub ca_cert_path: Option<String>,
    /// The files of the certificate and the key to show.
    pub identity_paths: Option<(String, String)>,
}

/// The files of an identity: both, or none.
pub open spec fn identity_of(tls: TlsConfig) -> Option<(String, String)> {
    match (tls.client_cert_path, tls.client_key_path) {
        (Some(cert), Some(key)) => Some((cert, key)),
        _ => None,
    }
}

/// How a client for a node is to be built. Forwarding and the questions before
/// the start build theirs alike.
pub fn plan_node_client(timeout_seconds: u64, tls: Option<&TlsConfig>) -> (plan: ClientPlan)
    ensures
        plan == (ClientPlan {
            timeout_seconds,
            connect_timeout_seconds: CONNECT_TIMEOUT_SECS,
            max_idle_connections: MAX_IDLE_CONNECTIONS,
            accept_invalid_certs: match tls {
                Some(t) => t.accept_invalid_certs,
                None => false,
            },
            ca_cert_path: match tls {
                Some(t) => t.ca_cert_path,
                None => None,
            },
            identity_paths: match tls {
                Some(t) => identity_of(*t),
                None => None,
            },
        }),
{
    let mut plan = ClientPlan {
        timeout_seconds,
        connect_timeout_seconds: CONNECT_TIMEOUT_SECS,
        max_idle_connections: MAX_IDLE_CONNECTIONS,
        accept_invalid_certs: false,
        ca_cert_path: None,
        identity_paths: None,
    };
    if let Some(t) = tls {
        plan.accept_invalid_certs = t.accept_invalid_certs;
        plan.ca_cert_path = copy_opt(&t.ca_cert_path);
        if let Some(cert) = &t.client_cert_path {
            if let Some(key) = &t.client_key_path {
                plan.identity_paths = Some((cert.clone(), key.clone()));
            }
        }
    }
    plan
}

/// How a client for the questions before the start is to be built: as any
/// other, but with a timeout that is capped. A timeout of 0, which is none,
/// stays 0.
pub fn plan_preflight_client(timeout_seconds: u64, tls: Option<&TlsConfig>) -> (plan: ClientPlan)
    ensures
        plan == (ClientPlan {
            timeout_seconds: if timeout_seconds < PREFLIGHT_TIMEOUT_CAP_SECS {
                timeout_seconds
            } else {
                PREFLIGHT_TIMEOUT_CAP_SECS
            },
            connect_timeout_seconds: CONNECT_TIMEOUT_SECS,
            max_idle_connections: MAX_IDLE_CONNECTIONS,
            accept_invalid_certs: match tls {
                Some(t) => t.accept_invalid_certs,
                None => false,
            },
            ca_cert_path: match tls {
                Some(t) => t.ca_cert_path,
                None => None,
            },
            identity_paths: match tls {
                Some(t) => identity_of(*t),
                None => None,
            },
        }),
{
    let capped = if timeout_seconds < PREFLIGHT_TIMEOUT_CAP_SECS {
        timeout_seconds
    } else {
        PREFLIGHT_TIMEOUT_CAP_SECS
    };
    plan_node_client(capped, tls)
}

/// The URL at which a node is asked for its models.
pub fn models_url(url: &str, strip_path_prefix: Option<&str>) -> (asked: String)
    ensures
        asked@ == request_url(trimmed_end(url@, '/'), "/v1/models"@, opt_str(strip_path_prefix)),
{
    node_url(trim_end_char(url, '/'), "/v1/models", strip_path_prefix)
}

/// What a node said of its models.
#[derive(Debug, PartialEq, Eq)]
pub struct ModelsResult {
    pub model_ids: Vec<String>,
    pub max_model_len: Option<u64>,
    pub is_llama_cpp: bool,
}

/// What a node's answer says, plus what is needed to ask it for its context.
#[derive(Debug, PartialEq, Eq)]
pub struct ContextProbe {
    /// The URL of the node without trailing slashes, under which its context is
    /// kept.
    pub base_url: String,
    /// Whether the node is one of llama.cpp, which must be asked for the context
    /// that it runs with.
    pub is_llama_cpp: bool,
    pub max_model_len: Option<u64>,
    /// The key of the node, without which it does not answer.
    pub api_key: Option<String>,
}

/// The ids of the first `n` models that have one.
pub open spec fn ids_of(models: Seq<JsonView>, n: nat) -> Seq<Seq<char>>
    decreases n,
{
    if n == 0 || n > models.len() {
        Seq::empty()
    } else {
        let before = ids_of(models, (n - 1) as nat);
        match models[n - 1].get("id"@) {
            Some(JsonView::Str(id)) => before.push(id),
            _ => before,
        }
    }
}

/// The models that an answer lists.
pub open spec fn models_of(body: JsonView) -> Seq<JsonView> {
    match body.get("data"@) {
        Some(JsonView::Array(models)) => models,
        _ => Seq::empty(),
    }
}

/// The largest context that an answer gives for its first model.
pub open spec fn first_max_len(body: JsonView) -> Option<u64> {
    let models = models_of(body);
    if models.len() > 0 {
        match models[0].get("max_model_len"@) {
            Some(v) => v.as_u64(),
            None => None,
        }
    } else {
        None
    }
}

/// Whether the name of a server is that of llama.cpp.
pub open spec fn names_llama_cpp(server: Option<Seq<char>>) -> bool {
    server is Some && find_from(server->0, "llama.cpp"@, 0) is Some
}

/// Reads the answer of a node: its `Server` header and its body.
pub fn read_models(server: Option<&str>, body: &Json) -> (result: ModelsResult)
    ensures
        texts(result.model_ids@) == ids_of(models_of(body@), models_of(body@).len()),
        result.max_model_len == first_max_len(body@),
        result.is_llama_cpp == names_llama_cpp(opt_str(server)),
{
    let is_llama_cpp = match server {
        Some(s) => contains(s, "llama.cpp"),
        None => false,
    };
    let mut model_ids: Vec<String> = Vec::new();
    let mut max_model_len: Option<u64> = None;
    proof {
        assert(texts(model_ids@) =~= Seq::empty());
    }
    if let Some(Json::Array(models)) = body.get("data") {
        let mut i: usize = 0;
        while i < models.len()
            invariant
                i <= models@.len(),
                texts(model_ids@) == ids_of(views(models@), i as nat),
            decreases models@.len() - i,
        {
            if let Some(Json::Str(id)) = models[i].get("id") {
                model_ids.push(id.clone());
            }
            i += 1;
        }
        if models.len() > 0 {
            if let Some(v) = models[0].get("max_model_len") {
                max_model_len = v.as_u64();
            }
        }
    }
    ModelsResult { model_ids, max_model_len, is_llama_cpp }
}

/// What is said of an answer that is no success.
pub fn refused_models(status: &str) -> (message: String)
    ensures
        message@ == "/v1/models returned HTTP "@ + status@,
{
    joined("/v1/models returned HTTP ", status)
}

/// What an answer means for the model of a node, to be logged.
#[derive(Debug, Clone, Copy, PartialEq, Eq, Structural)]
pub enum ModelNote {
    /// The node serves no model.
    NoModels,
    /// The node serves one model, which is now asked of it.
    AutoMapped,
    /// The node serves one model, and which to ask of it is configured.
    AlreadyConfigured,
    /// The node serves this many models, and which to ask of it is not
    /// configured.
    Ambiguous(usize),
    /// The node serves several models, and which to ask of it is configured.
    Kept,
}

/// What an answer with this many models means.
pub open spec fn note_of(configured: bool, models: nat) -> ModelNote {
    if models == 0 {
        ModelNote::NoModels
    } else if models == 1 {
        if configured {
            ModelNote::AlreadyConfigured
        } else {
            ModelNote::AutoMapped
        }
    } else if configured {
        ModelNote::Kept
    } else {
        ModelNote::Ambiguous(models as usize)
    }
}

/// Takes the only model of a node as the one to ask of it, where none is
/// configured.
pub fn settle_model(model: &mut Option<String>, ids: Vec<String>) -> (note: ModelNote)
    ensures
        note == note_of(*old(model) is Some, ids@.len()),
        *final(model) == if ids@.len() == 1 && *old(model) is None {
            Some(ids@[0])
        } else {
            *old(model)
        },
{
    let configured = model.is_some();
    let n = ids.len();
    if n == 0 {
        return ModelNote::NoModels;
    }
    if n == 1 {
        if configured {
            return ModelNote::AlreadyConfigured;
        }
        let mut ids = ids;
        let only = ids.swap_remove(0);
        *model = Some(only);
        return ModelNote::AutoMapped;
    }
    if configured {
        ModelNote::Kept
    } else {
        ModelNote::Ambiguous(n)
    }
}

/// What is asked of a node next, and what its answer means for its model. Only
/// the model of the node may change.
pub fn learn_node(node: &mut BackendNodeConfig, models: ModelsResult) -> (learnt: (ContextProbe, ModelNote))
    ensures
        learnt.0.base_url@ == trimmed_end(old(node).url@, '/'),
        learnt.0.is_llama_cpp == models.is_llama_cpp,
        learnt.0.max_model_len == models.max_model_len,
        learnt.0.api_key == old(node).api_key,
        learnt.1 == note_of(old(node).model is Some, models.model_ids@.len()),
        *final(node) == (BackendNodeConfig {
            model: if models.model_ids@.len() == 1 && old(node).model is None {
                Some(models.model_ids@[0])
            } else {
                old(node).model
            },
            ..*old(node)
        }),
{
    let probe = ContextProbe {
        base_url: trim_end_char(node.url.as_str(), '/').to_owned(),
        is_llama_cpp: models.is_llama_cpp,
        max_model_len: models.max_model_len,
        api_key: copy_opt(&node.api_key),
    };
    let note = settle_model(&mut node.model, models.model_ids);
    (probe, note)
}

/// What is asked of a single backend next. One that did not answer is asked as
/// if it were not of llama.cpp and had said nothing.
pub fn learn_single(backend: &BackendConfig, models: Option<&ModelsResult>) -> (probe: ContextProbe)
    ensures
        probe.base_url@ == trimmed_end(backend.url@, '/'),
        probe.is_llama_cpp == (models is Some && models->0.is_llama_cpp),
        probe.max_model_len == match models {
            Some(m) => m.max_model_len,
            None => None,
        },
        probe.api_key == backend.api_key,
{
    let (is_llama_cpp, max_model_len) = match models {
        Some(m) => (m.is_llama_cpp, m.max_model_len),
        None => (false, None),
    };
    ContextProbe {
        base_url: backend.base_url().to_owned(),
        is_llama_cpp,
        max_model_len,
        api_key: copy_opt(&backend.api_key),
    }
}

} // verus!
