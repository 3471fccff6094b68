//! The check of a configuration that was read.

use vstd::prelude::*;
use vstd::string::*;
use crate::text::{all_white, is_blank, joined, same_text, texts};
use crate::text_map::TextMap;
use super::validate::{and_check, bind_host_check, check_view, cooldown_name, invalid, maximum_check, nonempty_check,
    origins_check, parsed_url, require_nonempty, synthesis_check, temperature_check, url_check, validate_allowed_origins,
    validate_bind_host, validate_failure_cooldown_secs, validate_http_url, validate_reprompt_max_total_ms,
    validate_synthesis, validate_temperature, validate_timeout_seconds, Check, MAX_FAILURE_COOLDOWN_SECS,
    MAX_REPROMPT_TOTAL_MS, MAX_TIMEOUT_SECONDS};
use super::{AppConfig, BackendConfig, BackendGroupConfig, BackendNodeConfig, ConfigError, ConfigErrorView, RepromptConfig,
    ServerConfig};

verus! {

broadcast use vstd::string::group_string_axioms;

/// What the check needs to know of the machine.
#[derive(Debug, Clone, Copy, PartialEq, Eq, Structural)]
pub struct Surroundings {
    /// Whether the host of the server, without brackets, is an IP address.
    pub host_is_ip: bool,
    /// Whether the file of the continue prompt exists.
    pub prompt_file_exists: bool,
}

/// The check that no text is empty, from the `i`th on.
pub open spec fn all_nonempty_check(values: Seq<Seq<char>>, what: Seq<char>, i: int) -> Check
    decreases values.len() - i,
{
    if i < 0 || i >= values.len() {
        Ok(())
    } else {
        and_check(nonempty_check(values[i], what), all_nonempty_check(values, what, i + 1))
    }
}

/// The check of the file of the continue prompt.
pub open spec fn prompt_file_check(file: Option<String>, exists: bool) -> Check {
    match file {
        Some(f) => and_check(
            nonempty_check(f@, "reprompt prompt_file"@),
            if exists {
                Ok(())
            } else {
                invalid("reprompt: prompt_file '"@ + f@ + "' does not exist"@)
            },
        ),
        None => Ok(()),
    }
}

/// The check of re-prompting.
pub open spec fn reprompt_check(rep: Option<RepromptConfig>, prompt_file_exists: bool) -> Check {
    match rep {
        None => Ok(()),
        Some(r) => if r.enabled && r.prompt_file is None && r.prompt is None {
            invalid("reprompt: enabled but neither 'prompt_file' nor 'prompt' is set"@)
        } else {
            and_check(
                prompt_file_check(r.prompt_file, prompt_file_exists),
                and_check(
                    all_nonempty_check(texts(r.done_sentinels@), "reprompt done_sentinels entry"@, 0),
                    maximum_check("reprompt max_total_ms"@, r.max_total_ms, MAX_REPROMPT_TOTAL_MS),
                ),
            )
        },
    }
}

fn require_all_nonempty(values: &[String], what: &str) -> (r: Result<(), ConfigError>)
    ensures
        check_view(r) == all_nonempty_check(texts(values@), what@, 0),
{
    let mut i: usize = 0;
    while i < values.len()
        invariant
            i <= values@.len(),
            all_nonempty_check(texts(values@), what@, 0) == all_nonempty_check(texts(values@), what@, i as int),
        decreases values@.len() - i,
    {
        let checked = require_nonempty(values[i].as_str(), what);
        proof {
            assert(texts(values@)[i as int] == values@[i as int]@);
        }
        if checked.is_err() {
            return checked;
        }
        i += 1;
    }
    Ok(())
}

/// The view of an optional borrowed configuration.
pub open spec fn opt_deref<T>(v: Option<&T>) -> Option<T> {
    match v {
        Some(x) => Some(*x),
        None => None,
    }
}

/// Checks re-prompting. The caller says whether the file of the prompt exists.
pub fn validate_reprompt(rep: Option<&RepromptConfig>, prompt_file_exists: bool) -> (r: Result<(), ConfigError>)
    ensures
        check_view(r) == reprompt_check(opt_deref(rep), prompt_file_exists),
{
    let rep = match rep {
        None => {
            return Ok(());
        },
        Some(rep) => rep,
    };
    if rep.enabled && rep.prompt_file.is_none() && rep.prompt.is_none() {
        return Err(
            ConfigError::Validation("reprompt: enabled but neither 'prompt_file' nor 'prompt' is set".to_owned()),
        );
    }
    if let Some(file) = &rep.prompt_file {
        let named = require_nonempty(file.as_str(), "reprompt prompt_file");
        if named.is_err() {
            return named;
        }
        if !prompt_file_exists {
            let mut message = joined("reprompt: prompt_file '", file.as_str());
            message.append("' does not exist");
            return Err(ConfigError::Validation(message));
        }
    }
    let sentinels = require_all_nonempty(rep.done_sentinels.as_slice(), "reprompt done_sentinels entry");
    if sentinels.is_err() {
        return sentinels;
    }
    validate_reprompt_max_total_ms(rep.max_total_ms)
}

/// Which group serves which model.
pub type Owners = Map<Seq<char>, Seq<char>>;

/// The check of the models of a group from the `i`th on, given who serves what
/// so far: each is named, and served by one group only. What comes out is who
/// serves what then.
pub open spec fn mappings_check(models: Seq<Seq<char>>, group: Seq<char>, owners: Owners, i: int) -> Result<
    Owners,
    ConfigErrorView,
>
    decreases models.len() - i,
{
    if i < 0 || i >= models.len() {
        Ok(owners)
    } else if models[i].len() == 0 {
        Err(ConfigErrorView::Validation("backend group mapping entry"@ + " must not be empty"@))
    } else if owners.contains_key(models[i]) {
        Err(
            ConfigErrorView::Validation(
                "Model '"@ + models[i] + "' is mapped in both group '"@ + owners[models[i]] + "' and group '"@ + group
                    + "'"@,
            ),
        )
    } else {
        mappings_check(models, group, owners.insert(models[i], group), i + 1)
    }
}

/// The place of a node, for messages.
pub open spec fn node_place(group: Seq<char>) -> Seq<char> {
    "Node in group '"@ + group + "'"@
}

/// The check of a node.
pub open spec fn node_check(node: BackendNodeConfig, group: Seq<char>) -> Check {
    and_check(
        url_check(parsed_url(node.url@), node.url@, "Backend"@),
        if node.timeout_seconds == 0 {
            invalid(node_place(group) + " has timeout_seconds of 0"@)
        } else {
            and_check(
                match node.temperature {
                    Some(t) => temperature_check(t, node_place(group)),
                    None => Ok(()),
                },
                maximum_check(node_place(group) + " timeout_seconds"@, node.timeout_seconds, MAX_TIMEOUT_SECONDS),
            )
        },
    )
}

/// The check of nodes from the `i`th on.
pub open spec fn nodes_check(nodes: Seq<BackendNodeConfig>, group: Seq<char>, i: int) -> Check
    decreases nodes.len() - i,
{
    if i < 0 || i >= nodes.len() {
        Ok(())
    } else {
        and_check(node_check(nodes[i], group), nodes_check(nodes, group, i + 1))
    }
}

/// The check of what a group says beyond its models.
pub open spec fn group_body_check(group: BackendGroupConfig, name: Seq<char>) -> Check {
    if group.nodes@.len() == 0 {
        invalid("Backend group '"@ + name + "' has no nodes configured"@)
    } else if group.strategy@ != "round_robin"@ && group.strategy@ != "priority_free"@ {
        invalid(
            "Backend group '"@ + name + "' has invalid strategy '"@ + group.strategy@
                + "'. Use 'round_robin' or 'priority_free'"@,
        )
    } else {
        and_check(
            nodes_check(group.nodes@, name, 0),
            maximum_check(cooldown_name(name), group.failure_cooldown_secs, MAX_FAILURE_COOLDOWN_SECS),
        )
    }
}

/// The check of the groups from the `i`th on, given whether one of them was a
/// catch-all, and who serves what so far.
pub open spec fn groups_check(
    groups: Seq<(String, BackendGroupConfig)>,
    caught: bool,
    owners: Owners,
    i: int,
) -> Check
    decreases groups.len() - i,
{
    if i < 0 || i >= groups.len() {
        Ok(())
    } else {
        let name = groups[i].0@;
        let group = groups[i].1;
        let catch_all = group.mappings@.len() == 0;
        if name.len() == 0 {
            nonempty_check(name, "backend group name"@)
        } else if catch_all && caught {
            invalid("Only one catch-all group (empty 'mappings: []') may be configured"@)
        } else {
            match mappings_check(texts(group.mappings@), name, owners, 0) {
                Err(e) => Err(e),
                Ok(then) => and_check(
                    group_body_check(group, name),
                    groups_check(groups, caught || catch_all, then, i + 1),
                ),
            }
        }
    }
}

/// The check of a single backend.
pub open spec fn backend_check(backend: BackendConfig) -> Check {
    if backend.timeout_seconds == 0 {
        invalid("Backend timeout_seconds must be greater than 0"@)
    } else {
        Ok(())
    }
}

/// The check of the backends: the groups where there are any, or else the
/// single backend.
pub open spec fn backends_check(config: AppConfig) -> Check {
    match config.backends {
        Some(groups) => if groups.listed().len() == 0 {
            invalid("No backend groups configured"@)
        } else {
            groups_check(groups.listed(), false, Map::empty(), 0)
        },
        None => match config.backend {
            Some(backend) => and_check(
                backend_check(backend),
                and_check(
                    url_check(parsed_url(backend.url@), backend.url@, "Backend"@),
                    maximum_check("Backend"@ + " timeout_seconds"@, backend.timeout_seconds, MAX_TIMEOUT_SECONDS),
                ),
            ),
            None => Ok(()),
        },
    }
}

/// Who serves what, as a map holds it.
pub open spec fn owner_views(m: Map<Seq<char>, String>) -> Owners {
    m.map_values(|s: String| s@)
}

fn validate_mappings(models: &Vec<String>, group: &str, owners: &mut TextMap<String>) -> (r: Result<(), ConfigError>)
    ensures
        match r {
            Ok(()) => mappings_check(texts(models@), group@, owner_views(old(owners)@), 0) == Ok::<
                Owners,
                ConfigErrorView,
            >(owner_views(final(owners)@)),
            Err(e) => mappings_check(texts(models@), group@, owner_views(old(owners)@), 0) == Err::<
                Owners,
                ConfigErrorView,
            >(e@),
        },
{
    let ghost all = texts(models@);
    let mut i: usize = 0;
    while i < models.len()
        invariant
            i <= models@.len(),
            all == texts(models@),
            mappings_check(all, group@, owner_views(old(owners)@), 0) == mappings_check(
                all,
                group@,
                owner_views(owners@),
                i as int,
            ),
        decreases models@.len() - i,
    {
        let model = models[i].as_str();
        proof {
            assert(all[i as int] == model@);
        }
        if model.is_empty() {
            return require_nonempty(model, "backend group mapping entry");
        }
        if let Some(previous) = owners.get(model) {
            let mut message = joined("Model '", model);
            message.append("' is mapped in both group '");
            message.append(previous.as_str());
            message.append("' and group '");
            message.append(group);
            message.append("'");
            return Err(ConfigError::Validation(message));
        }
        let ghost before = owners@;
        owners.insert(model.to_owned(), group.to_owned());
        proof {
            assert(owner_views(owners@) =~= owner_views(before).insert(model@, group@));
        }
        i += 1;
    }
    Ok(())
}

fn place_of_node(group: &str) -> (place: String)
    ensures
        place@ == node_place(group@),
{
    let mut place = joined("Node in group '", group);
    place.append("'");
    place
}

fn validate_node(node: &BackendNodeConfig, group: &str) -> (r: Result<(), ConfigError>)
    ensures
        check_view(r) == node_check(*node, group@),
{
    let url = validate_backend_url(node.url.as_str());
    if url.is_err() {
        return url;
    }
    let place = place_of_node(group);
    if node.timeout_seconds == 0 {
        return Err(ConfigError::Validation(joined(place.as_str(), " has timeout_seconds of 0")));
    }
    if let Some(t) = &node.temperature {
        let temperature = validate_temperature(t, place.as_str());
        if temperature.is_err() {
            return temperature;
        }
    }
    validate_timeout_seconds(node.timeout_seconds, place.as_str())
}

fn validate_nodes(nodes: &Vec<BackendNodeConfig>, group: &str) -> (r: Result<(), ConfigError>)
    ensures
        check_view(r) == nodes_check(nodes@, group@, 0),
{
    let mut i: usize = 0;
    while i < nodes.len()
        invariant
            i <= nodes@.len(),
            nodes_check(nodes@, group@, 0) == nodes_check(nodes@, group@, i as int),
        decreases nodes@.len() - i,
    {
        let checked = validate_node(&nodes[i], group);
        if checked.is_err() {
            return checked;
        }
        i += 1;
    }
    Ok(())
}

fn validate_group_body(group: &BackendGroupConfig, name: &str) -> (r: Result<(), ConfigError>)
    ensures
        check_view(r) == group_body_check(*group, name@),
{
    if group.nodes.len() == 0 {
        let mut message = joined("Backend group '", name);
        message.append("' has no nodes configured");
        return Err(ConfigError::Validation(message));
    }
    if !same_text(group.strategy.as_str(), "round_robin") && !same_text(group.strategy.as_str(), "priority_free") {
        let mut message = joined("Backend group '", name);
        message.append("' has invalid strategy '");
        message.append(group.strategy.as_str());
        message.append("'. Use 'round_robin' or 'priority_free'");
        return Err(ConfigError::Validation(message));
    }
    let nodes = validate_nodes(&group.nodes, name);
    if nodes.is_err() {
        return nodes;
    }
    validate_failure_cooldown_secs(group.failure_cooldown_secs, name)
}

/// Checks the backends.
pub fn validate_backends(config: &AppConfig) -> (r: Result<(), ConfigError>)
    ensures
        check_view(r) == backends_check(*config),
{
    let groups = match &config.backends {
        None => {
            if let Some(backend) = &config.backend {
                let timeout = validate_backend_config(backend);
                if timeout.is_err() {
                    return timeout;
                }
                let url = validate_backend_url(backend.url.as_str());
                if url.is_err() {
                    return url;
                }
                return validate_timeout_seconds(backend.timeout_seconds, "Backend");
            }
            return Ok(());
        },
        Some(groups) => groups,
    };
    let n = groups.len();
    if n == 0 {
        return Err(ConfigError::Validation("No backend groups configured".to_owned()));
    }
    let mut caught = false;
    let mut owners: TextMap<String> = TextMap::new();
    let mut i: usize = 0;
    proof {
        assert(owner_views(owners@) =~= Map::empty());
    }
    while i < n
        invariant
            i <= n,
            n > 0,
            n == groups.listed().len(),
            config.backends is Some,
            config.backends->0 == *groups,
            groups_check(groups.listed(), false, Map::empty(), 0) == groups_check(
                groups.listed(),
                caught,
                owner_views(owners@),
                i as int,
            ),
        decreases n - i,
    {
        let (name, group) = groups.entry(i);
        if name.is_empty() {
            return require_nonempty(name, "backend group name");
        }
        if group.mappings.len() == 0 {
            if caught {
                return Err(
                    ConfigError::Validation(
                        "Only one catch-all group (empty 'mappings: []') may be configured".to_owned(),
                    ),
                );
            }
            caught = true;
        }
        let mapped = validate_mappings(&group.mappings, name, &mut owners);
        if mapped.is_err() {
            return mapped;
        }
        let body = validate_group_body(group, name);
        if body.is_err() {
            return body;
        }
        i += 1;
    }
    Ok(())
}

/// Checks the URL of a backend.
pub fn validate_backend_url(url: &str) -> (r: Result<(), ConfigError>)
    ensures
        check_view(r) == url_check(parsed_url(url@), url@, "Backend"@),
{
    validate_http_url(url, "Backend")
}

/// The check of the server.
pub open spec fn server_check(config: ServerConfig, host_is_ip: bool) -> Check {
    if config.port == 0 {
        invalid("Server port must be between 1-65535, got 0"@)
    } else {
        and_check(
            match config.allowed_origins {
                Some(origins) => origins_check(texts(origins@), 0),
                None => Ok(()),
            },
            bind_host_check(config.host@, host_is_ip),
        )
    }
}

/// Checks the server. The caller says whether its host, without brackets, is an
/// IP address.
pub fn validate_server_config(config: &ServerConfig, host_is_ip: bool) -> (r: Result<(), ConfigError>)
    ensures
        check_view(r) == server_check(*config, host_is_ip),
{
    if config.port == 0 {
        return Err(ConfigError::Validation("Server port must be between 1-65535, got 0".to_owned()));
    }
    if let Some(origins) = &config.allowed_origins {
        let checked = validate_allowed_origins(origins.as_slice());
        if checked.is_err() {
            return checked;
        }
    }
    validate_bind_host(config.host.as_str(), host_is_ip)
}

/// Checks a single backend.
pub fn validate_backend_config(config: &BackendConfig) -> (r: Result<(), ConfigError>)
    ensures
        check_view(r) == backend_check(*config),
{
    if config.timeout_seconds == 0 {
        return Err(ConfigError::Validation("Backend timeout_seconds must be greater than 0".to_owned()));
    }
    Ok(())
}

/// The check of the enriching backend and of the dump.
pub open spec fn rest_check(config: AppConfig) -> Check {
    and_check(
        match config.augment_backend {
            Some(augment) => and_check(
                url_check(parsed_url(augment.url@), augment.url@, "Augment backend"@),
                nonempty_check(augment.model@, "augment-backend model"@),
            ),
            None => Ok(()),
        },
        if config.dump.enabled && all_white(config.dump.path@) {
            invalid("dump path while dump is enabled"@ + " must not be empty"@)
        } else {
            Ok(())
        },
    )
}

/// The check of a configuration: the first part that is refused decides.
pub open spec fn config_check(config: AppConfig, around: Surroundings) -> Check {
    and_check(
        server_check(config.server, around.host_is_ip),
        and_check(
            reprompt_check(config.reprompt, around.prompt_file_exists),
            and_check(backends_check(config), and_check(rest_check(config), synthesis_check(config.synthesis))),
        ),
    )
}

/// Checks the enriching backend and the dump.
fn validate_rest(config: &AppConfig) -> (r: Result<(), ConfigError>)
    ensures
        check_view(r) == rest_check(*config),
{
    if let Some(augment) = &config.augment_backend {
        let url = validate_http_url(augment.url.as_str(), "Augment backend");
        if url.is_err() {
            return url;
        }
        let model = require_nonempty(augment.model.as_str(), "augment-backend model");
        if model.is_err() {
            return model;
        }
    }
    if config.dump.enabled && is_blank(config.dump.path.as_str()) {
        proof {
            reveal_strlit("");
        }
        return require_nonempty("", "dump path while dump is enabled");
    }
    Ok(())
}

/// Checks a configuration that was read. Whoever takes a configuration that
/// passed need check nothing again.
pub fn validate_config(config: &AppConfig, around: Surroundings) -> (r: Result<(), ConfigError>)
    ensures
        check_view(r) == config_check(*config, around),
{
    let server = validate_server_config(&config.server, around.host_is_ip);
    if server.is_err() {
        return server;
    }
    let reprompt = validate_reprompt(config.reprompt.as_ref(), around.prompt_file_exists);
    if reprompt.is_err() {
        return reprompt;
    }
    let backends = validate_backends(config);
    if backends.is_err() {
        return backends;
    }
    let rest = validate_rest(config);
    if rest.is_err() {
        return rest;
    }
    validate_synthesis(&config.synthesis)
}

/// Where groups are accepted, each of them is.
proof fn lemma_group_accepted(groups: Seq<(String, BackendGroupConfig)>, caught: bool, owners: Owners, from: int, i: int)
    requires
        0 <= from <= i < groups.len(),
        groups_check(groups, caught, owners, from) is Ok,
    ensures
        groups[i].0@.len() > 0,
        group_body_check(groups[i].1, groups[i].0@) is Ok,
    decreases groups.len() - from,
{
    let catch_all = groups[from].1.mappings@.len() == 0;
    if from < i {
        let then = mappings_check(texts(groups[from].1.mappings@), groups[from].0@, owners, 0)->Ok_0;
        lemma_group_accepted(groups, caught || catch_all, then, from + 1, i);
    }
}

proof fn lemma_node_accepted(nodes: Seq<BackendNodeConfig>, group: Seq<char>, from: int, j: int)
    requires
        0 <= from <= j < nodes.len(),
        nodes_check(nodes, group, from) is Ok,
    ensures
        node_check(nodes[j], group) is Ok,
    decreases nodes.len() - from,
{
    if from < j {
        lemma_node_accepted(nodes, group, from + 1, j);
    }
}

/// In groups that are accepted, every group has a name, nodes and a bounded
/// cooldown, and every node a bounded timeout that is not zero.
pub proof fn law_accepted_groups_are_bounded(groups: Seq<(String, BackendGroupConfig)>, i: int, j: int)
    requires
        groups_check(groups, false, Map::empty(), 0) is Ok,
        0 <= i < groups.len(),
        0 <= j < groups[i].1.nodes@.len(),
    ensures
        groups[i].0@.len() > 0,
        groups[i].1.failure_cooldown_secs <= MAX_FAILURE_COOLDOWN_SECS,
        0 < groups[i].1.nodes@[j].timeout_seconds <= MAX_TIMEOUT_SECONDS,
{
    lemma_group_accepted(groups, false, Map::empty(), 0, i);
    lemma_node_accepted(groups[i].1.nodes@, groups[i].0@, 0, j);
}

/// Whether a group serves every model.
pub open spec fn is_catch_all(group: BackendGroupConfig) -> bool {
    group.mappings@.len() == 0
}

proof fn lemma_no_catch_all_after(
    groups: Seq<(String, BackendGroupConfig)>,
    owners: Owners,
    from: int,
    i: int,
)
    requires
        0 <= from <= i < groups.len(),
        groups_check(groups, true, owners, from) is Ok,
    ensures
        !is_catch_all(groups[i].1),
    decreases groups.len() - from,
{
    if from < i {
        let then = mappings_check(texts(groups[from].1.mappings@), groups[from].0@, owners, 0)->Ok_0;
        lemma_no_catch_all_after(groups, then, from + 1, i);
    }
}

proof fn lemma_one_catch_all(
    groups: Seq<(String, BackendGroupConfig)>,
    caught: bool,
    owners: Owners,
    from: int,
    i: int,
    j: int,
)
    requires
        0 <= from <= i < j < groups.len(),
        groups_check(groups, caught, owners, from) is Ok,
    ensures
        !(is_catch_all(groups[i].1) && is_catch_all(groups[j].1)),
    decreases groups.len() - from,
{
    let catch_all = is_catch_all(groups[from].1);
    let then = mappings_check(texts(groups[from].1.mappings@), groups[from].0@, owners, 0)->Ok_0;
    if from < i {
        lemma_one_catch_all(groups, caught || catch_all, then, from + 1, i, j);
    } else if catch_all {
        lemma_no_catch_all_after(groups, then, from + 1, j);
    }
}

/// Groups that are accepted hold at most one catch-all.
pub proof fn law_one_catch_all_at_most(groups: Seq<(String, BackendGroupConfig)>, i: int, j: int)
    requires
        groups_check(groups, false, Map::empty(), 0) is Ok,
        0 <= i < j < groups.len(),
    ensures
        !(is_catch_all(groups[i].1) && is_catch_all(groups[j].1)),
{
    lemma_one_catch_all(groups, false, Map::empty(), 0, i, j);
}

/// Models that are accepted were served by no one, and are served then; who
/// was served stays served.
proof fn lemma_mappings_accepted(models: Seq<Seq<char>>, group: Seq<char>, owners: Owners, from: int, k: int)
    requires
        0 <= from,
        mappings_check(models, group, owners, from) is Ok,
    ensures
        forall|m: Seq<char>|
            owners.contains_key(m) ==> #[trigger] mappings_check(models, group, owners, from)->Ok_0.contains_key(m),
        from <= k < models.len() ==> !owners.contains_key(models[k]) && mappings_check(
            models,
            group,
            owners,
            from,
        )->Ok_0.contains_key(models[k]),
    decreases models.len() - from,
{
    if from < models.len() {
        lemma_mappings_accepted(models, group, owners.insert(models[from], group), from + 1, k);
        let then = mappings_check(models, group, owners.insert(models[from], group), from + 1)->Ok_0;
        assert(then.contains_key(models[from]));
        assert forall|m: Seq<char>| owners.contains_key(m) implies #[trigger] then.contains_key(m) by {
            assert(owners.insert(models[from], group).contains_key(m));
        }
    }
}

proof fn lemma_served_once(
    groups: Seq<(String, BackendGroupConfig)>,
    caught: bool,
    owners: Owners,
    from: int,
    j: int,
    b: int,
)
    requires
        0 <= from <= j < groups.len(),
        groups_check(groups, caught, owners, from) is Ok,
        0 <= b < groups[j].1.mappings@.len(),
    ensures
        !owners.contains_key(groups[j].1.mappings@[b]@),
    decreases groups.len() - from,
{
    let models = texts(groups[from].1.mappings@);
    let then = mappings_check(models, groups[from].0@, owners, 0)->Ok_0;
    lemma_mappings_accepted(models, groups[from].0@, owners, 0, b);
    if from < j {
        lemma_served_once(groups, caught || is_catch_all(groups[from].1), then, from + 1, j, b);
        let m = groups[j].1.mappings@[b]@;
        if owners.contains_key(m) {
            assert(then.contains_key(m));
        }
    } else {
        assert(models[b] == groups[j].1.mappings@[b]@);
    }
}

proof fn lemma_distinct_owners(
    groups: Seq<(String, BackendGroupConfig)>,
    caught: bool,
    owners: Owners,
    from: int,
    i: int,
    a: int,
    j: int,
    b: int,
)
    requires
        0 <= from <= i < j < groups.len(),
        groups_check(groups, caught, owners, from) is Ok,
        0 <= a < groups[i].1.mappings@.len(),
        0 <= b < groups[j].1.mappings@.len(),
    ensures
        groups[i].1.mappings@[a]@ != groups[j].1.mappings@[b]@,
    decreases groups.len() - from,
{
    let models = texts(groups[from].1.mappings@);
    let then = mappings_check(models, groups[from].0@, owners, 0)->Ok_0;
    let caught_then = caught || is_catch_all(groups[from].1);
    if from < i {
        lemma_distinct_owners(groups, caught_then, then, from + 1, i, a, j, b);
    } else {
        lemma_mappings_accepted(models, groups[from].0@, owners, 0, a);
        assert(models[a] == groups[i].1.mappings@[a]@);
        lemma_served_once(groups, caught_then, then, from + 1, j, b);
    }
}

/// In groups that are accepted, no model is served by two groups.
pub proof fn law_a_model_has_one_group(
    groups: Seq<(String, BackendGroupConfig)>,
    i: int,
    a: int,
    j: int,
    b: int,
)
    requires
        groups_check(groups, false, Map::empty(), 0) is Ok,
        0 <= i < j < groups.len(),
        0 <= a < groups[i].1.mappings@.len(),
        0 <= b < groups[j].1.mappings@.len(),
    ensures
        groups[i].1.mappings@[a]@ != groups[j].1.mappings@[b]@,
{
    lemma_distinct_owners(groups, false, Map::empty(), 0, i, a, j, b);
}

/// A configuration that is accepted has a port, chunks that hold a character,
/// and a bounded time for re-prompting.
pub proof fn law_accepted_configuration_is_bounded(config: AppConfig, around: Surroundings)
    requires
        config_check(config, around) is Ok,
    ensures
        config.server.port > 0,
        config.synthesis.chunk_size_chars >= 1,
        config.synthesis.chunk_delay_ms <= super::validate::MAX_CHUNK_DELAY_MS,
        config.reprompt is Some ==> config.reprompt->0.max_total_ms <= MAX_REPROMPT_TOTAL_MS,
        config.reprompt is Some && config.reprompt->0.enabled ==> config.reprompt->0.prompt_file is Some
            || config.reprompt->0.prompt is Some,
        config.backends is None && config.backend is Some ==> 0 < config.backend->0.timeout_seconds
            <= MAX_TIMEOUT_SECONDS,
{
}

} // verus!
