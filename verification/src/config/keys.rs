//! The keys that each section of a configuration may hold. A key that a section
//! does not know is refused by its name, since it is most often a slip.

use vstd::prelude::*;
use vstd::string::*;
use crate::text::{joined, same_text, str_texts, texts};
use super::validate::{check_view, Check};
use super::{ConfigError, ConfigErrorView};

verus! {

broadcast use vstd::string::group_string_axioms;

/// A section of a configuration.
#[derive(Debug, Clone, Copy, PartialEq, Eq, Structural)]
pub enum Section {
    App,
    Server,
    Backend,
    Node,
    Group,
    Stats,
    Dump,
    Synthesis,
    InfluxDb,
    Reprompt,
    Augment,
    Tls,
}

/// The keys of a section.
pub open spec fn section_keys(section: Section) -> Seq<Seq<char>> {
    match section {
        Section::App => seq![
            "server"@,
            "backend"@,
            "backends"@,
            "fixes"@,
            "stats"@,
            "exporters"@,
            "streaming"@,
            "synthesis"@,
            "augment-backend"@,
            "reprompt"@,
            "dump"@,
        ],
        Section::Server => seq!["port"@, "host"@, "max_concurrent_requests"@, "allowed_origins"@],
        Section::Backend => seq!["url"@, "timeout_seconds"@, "tls"@, "model"@, "api_key"@, "strip_path_prefix"@],
        Section::Node => seq![
            "url"@,
            "timeout_seconds"@,
            "tls"@,
            "model"@,
            "api_key"@,
            "strip_path_prefix"@,
            "temperature"@,
        ],
        Section::Group => seq!["mappings"@, "strategy"@, "failure_cooldown_secs"@, "exclusive"@, "nodes"@],
        Section::Stats => seq!["enabled"@, "format"@],
        Section::Dump => seq!["enabled"@, "path"@],
        Section::Synthesis => seq!["chunk_delay_ms"@, "chunk_size_chars"@],
        Section::InfluxDb => seq!["enabled"@, "url"@, "org"@, "bucket"@, "token"@],
        Section::Reprompt => seq![
            "enabled"@,
            "prompt_file"@,
            "prompt"@,
            "max_retries"@,
            "done_sentinels"@,
            "done_sentinel"@,
            "dynamic_prompt"@,
            "log_stop_responses"@,
            "skip_read_only_requests"@,
            "max_total_ms"@,
        ],
        Section::Augment => seq![
            "enabled"@,
            "url"@,
            "model"@,
            "prompt_file"@,
            "request_prompt_file"@,
            "timeout_secs"@,
        ],
        Section::Tls => seq!["accept_invalid_certs"@, "ca_cert_path"@, "client_cert_path"@, "client_key_path"@],
    }
}

/// The keys of a section.
fn keys_of(section: Section) -> (keys: Vec<&'static str>)
    ensures
        str_texts(keys@) == section_keys(section),
{
    let keys: Vec<&'static str> = match section {
        Section::App => vec![
            "server",
            "backend",
            "backends",
            "fixes",
            "stats",
            "exporters",
            "streaming",
            "synthesis",
            "augment-backend",
            "reprompt",
            "dump",
        ],
        Section::Server => vec!["port", "host", "max_concurrent_requests", "allowed_origins"],
        Section::Backend => vec!["url", "timeout_seconds", "tls", "model", "api_key", "strip_path_prefix"],
        Section::Node => vec!["url", "timeout_seconds", "tls", "model", "api_key", "strip_path_prefix", "temperature"],
        Section::Group => vec!["mappings", "strategy", "failure_cooldown_secs", "exclusive", "nodes"],
        Section::Stats => vec!["enabled", "format"],
        Section::Dump => vec!["enabled", "path"],
        Section::Synthesis => vec!["chunk_delay_ms", "chunk_size_chars"],
        Section::InfluxDb => vec!["enabled", "url", "org", "bucket", "token"],
        Section::Reprompt => vec![
            "enabled",
            "prompt_file",
            "prompt",
            "max_retries",
            "done_sentinels",
            "done_sentinel",
            "dynamic_prompt",
            "log_stop_responses",
            "skip_read_only_requests",
            "max_total_ms",
        ],
        Section::Augment => vec!["enabled", "url", "model", "prompt_file", "request_prompt_file", "timeout_secs"],
        Section::Tls => vec!["accept_invalid_certs", "ca_cert_path", "client_cert_path", "client_key_path"],
    };
    proof {
        assert(str_texts(keys@) =~= section_keys(section));
    }
    keys
}

/// Whether a section knows a key.
pub fn is_known_key(section: Section, key: &str) -> (known: bool)
    ensures
        known == section_keys(section).contains(key@),
{
    let keys = keys_of(section);
    let mut i: usize = 0;
    while i < keys.len()
        invariant
            i <= keys@.len(),
            str_texts(keys@) == section_keys(section),
            forall|k: int| 0 <= k < i ==> section_keys(section)[k] != key@,
        decreases keys@.len() - i,
    {
        if same_text(keys[i], key) {
            proof {
                assert(section_keys(section)[i as int] == key@);
            }
            return true;
        }
        proof {
            assert(str_texts(keys@)[i as int] == keys@[i as int]@);
        }
        i += 1;
    }
    proof {
        assert(str_texts(keys@).len() == keys@.len());
    }
    false
}

/// The check of the keys of a section from the `i`th on: the first one that is
/// not known is refused.
pub open spec fn keys_check(section: Section, keys: Seq<Seq<char>>, i: int) -> Check
    decreases keys.len() - i,
{
    if i < 0 || i >= keys.len() {
        Ok(())
    } else if section_keys(section).contains(keys[i]) {
        keys_check(section, keys, i + 1)
    } else {
        Err(ConfigErrorView::Parse("unknown field `"@ + keys[i] + "`"@))
    }
}

/// Refuses the first key that a section does not know.
pub fn reject_unknown_keys(section: Section, keys: &[String]) -> (r: Result<(), ConfigError>)
    ensures
        check_view(r) == keys_check(section, texts(keys@), 0),
{
    let mut i: usize = 0;
    while i < keys.len()
        invariant
            i <= keys@.len(),
            keys_check(section, texts(keys@), 0) == keys_check(section, texts(keys@), i as int),
        decreases keys@.len() - i,
    {
        proof {
            assert(texts(keys@)[i as int] == keys@[i as int]@);
        }
        if !is_known_key(section, keys[i].as_str()) {
            let mut message = joined("unknown field `", keys[i].as_str());
            message.append("`");
            return Err(ConfigError::Parse(message));
        }
        i += 1;
    }
    Ok(())
}

/// A section is accepted only where it knows every one of its keys.
pub proof fn law_every_key_is_known(section: Section, keys: Seq<Seq<char>>, from: int, i: int)
    requires
        0 <= from <= i < keys.len(),
        keys_check(section, keys, from) is Ok,
    ensures
        section_keys(section).contains(keys[i]),
    decreases keys.len() - from,
{
    if from < i {
        law_every_key_is_known(section, keys, from + 1, i);
    }
}

} // verus!
