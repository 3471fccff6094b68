//! Which configurations are accepted.

use vstd::prelude::*;
use vstd::string::*;
use crate::backends::grouped::group_failure;
use crate::backends::{strategy_spelled, BalancingStrategy};
use crate::text::{debug_text, decimal, is_white, split_from, split_text, texts};
use super::loader::{all_nonempty_check, backends_check, config_check, group_body_check, groups_check, mappings_check,
    node_check, nodes_check, reprompt_check, rest_check, server_check, Owners, Surroundings};
use super::keys::{keys_check, section_keys, Section};
use super::validate::{is_finite, is_hostname, is_label, maximum_check, origin_check, origins_check, parsed_url, synthesis_check, unbracketed, url_check,
    without_last_dot, Check};
use super::{
    default_augment_enabled, default_augment_timeout_secs, default_failure_cooldown_secs, default_influxdb_bucket,
    default_influxdb_org, default_influxdb_url, default_max_concurrent, default_prompt_file, default_reprompt_done_sentinels,
    default_reprompt_dynamic_prompt, default_reprompt_max_retries, default_reprompt_max_total_ms,
    default_reprompt_skip_read_only, default_request_prompt_file, default_strategy, default_synthesis_chunk_size_chars,
    default_timeout, AppConfig, AugmentBackendConfig, BackendConfig, BackendGroupConfig, BackendNodeConfig, ConfigErrorView,
    InfluxDbConfig, RepromptConfig, ServerConfig, StreamingMode, SynthesisConfig,
};

verus! {

broadcast use vstd::string::group_string_axioms;

/// A URL that can be called: of `http` or `https`, with a host.
pub open spec fn can_be_called(url: Seq<char>) -> bool {
    &&& parsed_url(url) is Ok
    &&& parsed_url(url)->Ok_0.scheme == "http"@ || parsed_url(url)->Ok_0.scheme == "https"@
    &&& parsed_url(url)->Ok_0.host is Some
    &&& parsed_url(url)->Ok_0.host->0.len() > 0
}

/// A URL is accepted, whatever it is for, where it can be called, and nowhere
/// else.
pub proof fn law_urls_that_can_be_called_are_accepted(url: Seq<char>, label: Seq<char>)
    ensures
        url_check(parsed_url(url), url, label) is Ok <==> can_be_called(url),
{
}

/// A node that can serve: its URL can be called, its timeout is at least a second
/// and at most a day, and its temperature, if any, is from 0 to 2.
pub open spec fn can_serve(node: BackendNodeConfig) -> bool {
    &&& can_be_called(node.url@)
    &&& 1 <= node.timeout_seconds <= 86_400
    &&& node.temperature is Some ==> node.temperature->0.bits <= 0x4000_0000_0000_0000 || node.temperature->0.bits
        == 0x8000_0000_0000_0000
}

/// A number from 0 to 2 is finite.
proof fn lemma_small_is_finite(bits: u64)
    requires
        bits <= 0x4000_0000_0000_0000 || bits == 0x8000_0000_0000_0000,
    ensures
        is_finite(bits),
{
    assert(bits & 0x7ff0_0000_0000_0000 != 0x7ff0_0000_0000_0000) by (bit_vector)
        requires
            bits <= 0x4000_0000_0000_0000 || bits == 0x8000_0000_0000_0000,
    ;
}

/// A node is accepted where it can serve, and nowhere else.
pub proof fn law_nodes_that_can_serve_are_accepted(node: BackendNodeConfig, group: Seq<char>)
    ensures
        node_check(node, group) is Ok <==> can_serve(node),
{
    if can_serve(node) {
        if let Some(t) = node.temperature {
            lemma_small_is_finite(t.bits);
        }
    }
}

proof fn lemma_nodes(nodes: Seq<BackendNodeConfig>, group: Seq<char>, from: int)
    requires
        0 <= from <= nodes.len(),
    ensures
        nodes_check(nodes, group, from) is Ok <==> forall|j: int| from <= j < nodes.len() ==> can_serve(#[trigger] nodes[j]),
    decreases nodes.len() - from,
{
    if from < nodes.len() {
        lemma_nodes(nodes, group, from + 1);
        law_nodes_that_can_serve_are_accepted(nodes[from], group);
    }
}

/// A group that can serve: it has nodes, each of which can, one of the two
/// strategies, and a cooldown of at most a day.
pub open spec fn group_can_serve(group: BackendGroupConfig) -> bool {
    &&& group.nodes@.len() > 0
    &&& forall|j: int| 0 <= j < group.nodes@.len() ==> can_serve(#[trigger] group.nodes@[j])
    &&& group.strategy@ == "round_robin"@ || group.strategy@ == "priority_free"@
    &&& group.failure_cooldown_secs <= 86_400
}

/// What a group says beyond its models is accepted where the group can serve, and
/// nowhere else.
pub proof fn law_groups_that_can_serve_are_accepted(group: BackendGroupConfig, name: Seq<char>)
    ensures
        group_body_check(group, name) is Ok <==> group_can_serve(group),
{
    lemma_nodes(group.nodes@, name, 0);
}

/// Both strategies can be chosen in a configuration: one of two spellings of each
/// is accepted. A balancer can be made for every group that is accepted.
pub proof fn law_every_strategy_can_be_chosen(group: BackendGroupConfig, name: Seq<char>, strategy: BalancingStrategy)
    requires
        group.nodes@.len() > 0,
        forall|j: int| 0 <= j < group.nodes@.len() ==> can_serve(#[trigger] group.nodes@[j]),
        group.failure_cooldown_secs <= 86_400,
    ensures
        strategy_spelled(group.strategy@) == Some(strategy) && !group.strategy@.contains('-') ==> group_body_check(
            group,
            name,
        ) is Ok,
        group_body_check(group, name) is Ok ==> group_failure(group.strategy@, group.nodes@.len()) is None,
        strategy_spelled(
            match strategy {
                BalancingStrategy::RoundRobin => "round_robin"@,
                BalancingStrategy::PriorityFree => "priority_free"@,
            },
        ) == Some(strategy),
{
    law_groups_that_can_serve_are_accepted(group, name);
    lemma_spellings();
}

proof fn lemma_spellings()
    ensures
        "round-robin"@.contains('-'),
        "priority-free"@.contains('-'),
        "round_robin"@ != "priority_free"@,
        "round_robin"@ != "priority-free"@,
{
    reveal_strlit("round-robin");
    reveal_strlit("priority-free");
    reveal_strlit("round_robin");
    reveal_strlit("priority_free");
    assert("round-robin"@[5] == '-');
    assert("priority-free"@[8] == '-');
    assert("round_robin"@.len() == 11 && "priority_free"@.len() == 13 && "priority-free"@.len() == 13);
}

/// How a strategy is spelled: with a hyphen or an underscore, and in no other way.
pub proof fn law_strategies_have_two_spellings(s: Seq<char>)
    ensures
        strategy_spelled(s) == Some(BalancingStrategy::RoundRobin) <==> s == "round-robin"@ || s == "round_robin"@,
        strategy_spelled(s) == Some(BalancingStrategy::PriorityFree) <==> s == "priority-free"@ || s == "priority_free"@,
{
    reveal_strlit("round-robin");
    reveal_strlit("priority-free");
    reveal_strlit("round_robin");
    reveal_strlit("priority_free");
    assert("round-robin"@.len() == 11 && "round_robin"@.len() == 11);
    assert("priority_free"@.len() == 13 && "priority-free"@.len() == 13);
}

/// Groups that can serve side by side: each has a name and can serve, every model
/// that a group names has a name and is named once, and at most one group names
/// none.
pub open spec fn groups_can_serve(groups: Seq<(String, BackendGroupConfig)>) -> bool {
    &&& forall|i: int| 0 <= i < groups.len() ==> (#[trigger] groups[i]).0@.len() > 0 && group_can_serve(groups[i].1)
    &&& forall|i: int, a: int|
        0 <= i < groups.len() && 0 <= a < groups[i].1.mappings@.len() ==> (#[trigger] groups[i].1.mappings@[a])@.len() > 0
    &&& forall|i: int, a: int, j: int, b: int|
        0 <= i < groups.len() && 0 <= a < groups[i].1.mappings@.len() && 0 <= j < groups.len() && 0 <= b
            < groups[j].1.mappings@.len() && (i != j || a != b) ==> (#[trigger] groups[i].1.mappings@[a])@ != (
        #[trigger] groups[j].1.mappings@[b])@
    &&& forall|i: int, j: int|
        0 <= i < j < groups.len() && (#[trigger] groups[i]).1.mappings@.len() == 0 ==> (#[trigger] groups[j]).1.mappings@.len()
            > 0
}

/// What the models of a group leave behind where they are accepted.
proof fn lemma_mappings(models: Seq<Seq<char>>, group: Seq<char>, owners: Owners, from: int)
    requires
        0 <= from <= models.len(),
    ensures
        mappings_check(models, group, owners, from) is Ok <==> {
            &&& forall|b: int| from <= b < models.len() ==> (#[trigger] models[b]).len() > 0 && !owners.contains_key(models[b])
            &&& forall|a: int, b: int| from <= a < b < models.len() ==> #[trigger] models[a] != #[trigger] models[b]
        },
        mappings_check(models, group, owners, from) is Ok ==> forall|m: Seq<char>| #[trigger]
            mappings_check(models, group, owners, from)->Ok_0.contains_key(m) <==> owners.contains_key(m) || exists|b: int|
                from <= b < models.len() && #[trigger] models[b] == m,
    decreases models.len() - from,
{
    if from < models.len() && models[from].len() > 0 && !owners.contains_key(models[from]) {
        let more = owners.insert(models[from], group);
        lemma_mappings(models, group, more, from + 1);
        if mappings_check(models, group, owners, from) is Ok {
            assert forall|b: int| from <= b < models.len() implies (#[trigger] models[b]).len() > 0 && !owners.contains_key(
                models[b],
            ) by {
                if b > from {
                    assert(!more.contains_key(models[b]));
                }
            }
            assert forall|a: int, b: int| from <= a < b < models.len() implies #[trigger] models[a] != #[trigger] models[b] by {
                if a == from {
                    assert(!more.contains_key(models[b]));
                }
            }
            let then = mappings_check(models, group, owners, from)->Ok_0;
            assert forall|m: Seq<char>| #[trigger] then.contains_key(m) <==> owners.contains_key(m) || exists|b: int|
                from <= b < models.len() && #[trigger] models[b] == m by {
                if then.contains_key(m) && !owners.contains_key(m) {
                    if m == models[from] {
                        assert(models[from] == m);
                    }
                }
            }
        } else if forall|b: int|
            from <= b < models.len() ==> (#[trigger] models[b]).len() > 0 && !owners.contains_key(models[b]) {
            if forall|a: int, b: int| from <= a < b < models.len() ==> #[trigger] models[a] != #[trigger] models[b] {
                assert forall|b: int| from + 1 <= b < models.len() implies (#[trigger] models[b]).len() > 0
                    && !more.contains_key(models[b]) by {
                    assert(models[from] != models[b]);
                }
                assert(false);
            }
        }
    }
}

/// The rest of the groups can serve beside those that own models already.
spec fn rest_can_serve(groups: Seq<(String, BackendGroupConfig)>, caught: bool, owners: Owners, from: int) -> bool {
    &&& forall|i: int| from <= i < groups.len() ==> (#[trigger] groups[i]).0@.len() > 0 && group_can_serve(groups[i].1)
    &&& forall|i: int, a: int|
        from <= i < groups.len() && 0 <= a < groups[i].1.mappings@.len() ==> (#[trigger] groups[i].1.mappings@[a])@.len() > 0
            && !owners.contains_key(groups[i].1.mappings@[a]@)
    &&& forall|i: int, a: int, j: int, b: int|
        from <= i < groups.len() && 0 <= a < groups[i].1.mappings@.len() && from <= j < groups.len() && 0 <= b
            < groups[j].1.mappings@.len() && (i != j || a != b) ==> (#[trigger] groups[i].1.mappings@[a])@ != (
        #[trigger] groups[j].1.mappings@[b])@
    &&& forall|i: int, j: int|
        from <= i < j < groups.len() && (#[trigger] groups[i]).1.mappings@.len() == 0 ==> (#[trigger] groups[j]).1.mappings@.len()
            > 0
    &&& caught ==> forall|j: int| from <= j < groups.len() ==> (#[trigger] groups[j]).1.mappings@.len() > 0
}

proof fn lemma_groups_accepted(groups: Seq<(String, BackendGroupConfig)>, caught: bool, owners: Owners, from: int)
    requires
        0 <= from <= groups.len(),
        rest_can_serve(groups, caught, owners, from),
    ensures
        groups_check(groups, caught, owners, from) is Ok,
    decreases groups.len() - from,
{
    if from < groups.len() {
        let models = texts(groups[from].1.mappings@);
        let name = groups[from].0@;
        assert forall|b: int| 0 <= b < models.len() implies (#[trigger] models[b]).len() > 0 && !owners.contains_key(
            models[b],
        ) by {
            assert(models[b] == groups[from].1.mappings@[b]@);
        }
        assert forall|a: int, b: int| 0 <= a < b < models.len() implies #[trigger] models[a] != #[trigger] models[b] by {
            assert(groups[from].1.mappings@[a]@ != groups[from].1.mappings@[b]@);
        }
        lemma_mappings(models, name, owners, 0);
        law_groups_that_can_serve_are_accepted(groups[from].1, name);
        let then = mappings_check(models, name, owners, 0)->Ok_0;
        let caught_then = caught || groups[from].1.mappings@.len() == 0;
        assert(rest_can_serve(groups, caught_then, then, from + 1)) by {
            assert forall|i: int, a: int| from + 1 <= i < groups.len() && 0 <= a < groups[i].1.mappings@.len() implies (
            #[trigger] groups[i].1.mappings@[a])@.len() > 0 && !then.contains_key(groups[i].1.mappings@[a]@) by {
                let m = groups[i].1.mappings@[a]@;
                if then.contains_key(m) {
                    let b = choose|b: int| 0 <= b < models.len() && #[trigger] models[b] == m;
                    assert(groups[from].1.mappings@[b]@ == m);
                }
            }
        }
        lemma_groups_accepted(groups, caught_then, then, from + 1);
    }
}

proof fn lemma_groups_refused(groups: Seq<(String, BackendGroupConfig)>, caught: bool, owners: Owners, from: int)
    requires
        0 <= from <= groups.len(),
        groups_check(groups, caught, owners, from) is Ok,
    ensures
        rest_can_serve(groups, caught, owners, from),
    decreases groups.len() - from,
{
    if from < groups.len() {
        let models = texts(groups[from].1.mappings@);
        let name = groups[from].0@;
        lemma_mappings(models, name, owners, 0);
        law_groups_that_can_serve_are_accepted(groups[from].1, name);
        let then = mappings_check(models, name, owners, 0)->Ok_0;
        let caught_then = caught || groups[from].1.mappings@.len() == 0;
        lemma_groups_refused(groups, caught_then, then, from + 1);
        assert forall|i: int, a: int| from <= i < groups.len() && 0 <= a < groups[i].1.mappings@.len() implies (
        #[trigger] groups[i].1.mappings@[a])@.len() > 0 && !owners.contains_key(groups[i].1.mappings@[a]@) by {
            if i == from {
                assert(models[a] == groups[i].1.mappings@[a]@);
            } else {
                assert(!then.contains_key(groups[i].1.mappings@[a]@));
            }
        }
        assert forall|i: int, a: int, j: int, b: int|
            from <= i < groups.len() && 0 <= a < groups[i].1.mappings@.len() && from <= j < groups.len() && 0 <= b
                < groups[j].1.mappings@.len() && (i != j || a != b) implies (#[trigger] groups[i].1.mappings@[a])@ != (
        #[trigger] groups[j].1.mappings@[b])@ by {
            let m = groups[i].1.mappings@[a]@;
            let w = groups[j].1.mappings@[b]@;
            if i == from && j == from {
                assert(models[a] == m && models[b] == w);
                if a < b {
                    assert(models[a] != models[b]);
                } else {
                    assert(models[b] != models[a]);
                }
            } else if i == from {
                assert(models[a] == m);
                assert(then.contains_key(m));
                assert(!then.contains_key(w));
            } else if j == from {
                assert(models[b] == w);
                assert(then.contains_key(w));
                assert(!then.contains_key(m));
            }
        }
    }
}

/// Groups are accepted where they can serve side by side, and nowhere else.
pub proof fn law_groups_that_serve_side_by_side_are_accepted(groups: Seq<(String, BackendGroupConfig)>)
    ensures
        groups_check(groups, false, Map::empty(), 0) is Ok <==> groups_can_serve(groups),
{
    if groups_can_serve(groups) {
        lemma_groups_accepted(groups, false, Map::empty(), 0);
    }
    if groups_check(groups, false, Map::empty(), 0) is Ok {
        lemma_groups_refused(groups, false, Map::empty(), 0);
    }
}

/// A letter or digit of ASCII.
pub open spec fn letter_or_digit(c: char) -> bool {
    ('a' <= c && c <= 'z') || ('A' <= c && c <= 'Z') || ('0' <= c && c <= '9')
}

/// A stretch of a text that lies between two dots or ends of it and holds none.
pub open spec fn lies_between_dots(name: Seq<char>, a: int, b: int) -> bool {
    &&& 0 <= a <= b <= name.len()
    &&& a == 0 || name[a - 1] == '.'
    &&& b == name.len() || name[b] == '.'
    &&& forall|j: int| a <= j < b ==> #[trigger] name[j] != '.'
}

proof fn lemma_parts_lie_between(s: Seq<char>, start: int, i: int, k: int) -> (r: (int, int))
    requires
        0 <= start <= i <= s.len(),
        start == 0 || s[start - 1] == '.',
        forall|j: int| start <= j < i ==> #[trigger] s[j] != '.',
        0 <= k < split_from(s, '.', start, i).len(),
    ensures
        lies_between_dots(s, r.0, r.1),
        split_from(s, '.', start, i)[k] == s.subrange(r.0, r.1),
    decreases s.len() - i,
{
    if i >= s.len() {
        (start, s.len() as int)
    } else if s[i] == '.' {
        if k == 0 {
            (start, i)
        } else {
            let rest = split_from(s, '.', i + 1, i + 1);
            assert(split_from(s, '.', start, i)[k] == rest[k - 1]);
            lemma_parts_lie_between(s, i + 1, i + 1, k - 1)
        }
    } else {
        lemma_parts_lie_between(s, start, i + 1, k)
    }
}

proof fn lemma_what_lies_between_is_a_part(s: Seq<char>, start: int, i: int, a: int, b: int) -> (k: int)
    requires
        0 <= start <= i <= s.len(),
        start == 0 || s[start - 1] == '.',
        forall|j: int| start <= j < i ==> #[trigger] s[j] != '.',
        lies_between_dots(s, a, b),
        start <= a,
    ensures
        0 <= k < split_from(s, '.', start, i).len(),
        split_from(s, '.', start, i)[k] == s.subrange(a, b),
    decreases s.len() - i,
{
    if i >= s.len() {
        if a > start {
            assert(s[a - 1] == '.');
        }
        if b < s.len() {
            assert(s[b] == '.');
        }
        0
    } else if s[i] == '.' {
        if a <= i {
            if a > start {
                assert(s[a - 1] == '.');
            }
            if b > i {
                assert(s[i] != '.');
            }
            if b < i {
                assert(s[b] == '.');
            }
            0
        } else {
            let rest = split_from(s, '.', i + 1, i + 1);
            let k = lemma_what_lies_between_is_a_part(s, i + 1, i + 1, a, b);
            assert(split_from(s, '.', start, i)[k + 1] == rest[k]);
            k + 1
        }
    } else {
        lemma_what_lies_between_is_a_part(s, start, i + 1, a, b)
    }
}

/// A host name, with or without a dot at its end, has 1 to 255 characters. What
/// lies between its dots has 1 to 63 of them: letters, digits and hyphens, with a
/// letter or digit at each end. Every such text is a host name.
pub proof fn law_host_names(host: Seq<char>, name: Seq<char>)
    requires
        host == name && (name.len() == 0 || name.last() != '.') || host == name.push('.'),
    ensures
        is_hostname(host) <==> {
            &&& 1 <= name.len() <= 255
            &&& forall|a: int, b: int|
                #[trigger] lies_between_dots(name, a, b) ==> {
                    &&& 1 <= b - a <= 63
                    &&& letter_or_digit(name[a])
                    &&& letter_or_digit(name[b - 1])
                    &&& forall|j: int| a <= j < b ==> letter_or_digit(#[trigger] name[j]) || name[j] == '-'
                }
        },
{
    if host == name.push('.') {
        assert(host.drop_last() =~= name);
    }
    assert(without_last_dot(host) == name);
    if is_hostname(host) {
        assert forall|a: int, b: int| #[trigger] lies_between_dots(name, a, b) implies {
            &&& 1 <= b - a <= 63
            &&& letter_or_digit(name[a])
            &&& letter_or_digit(name[b - 1])
            &&& forall|j: int| a <= j < b ==> letter_or_digit(#[trigger] name[j]) || name[j] == '-'
        } by {
            let k = lemma_what_lies_between_is_a_part(name, 0, 0, a, b);
            let label = split_text(name, '.')[k];
            assert(is_label(label));
            assert(label.len() == b - a);
            assert(label[0] == name[a]);
            assert(label.last() == name[b - 1]);
            assert forall|j: int| a <= j < b implies letter_or_digit(#[trigger] name[j]) || name[j] == '-' by {
                assert(label[j - a] == name[j]);
            }
        }
    }
    if 1 <= name.len() <= 255 && (forall|a: int, b: int|
        #[trigger] lies_between_dots(name, a, b) ==> {
            &&& 1 <= b - a <= 63
            &&& letter_or_digit(name[a])
            &&& letter_or_digit(name[b - 1])
            &&& forall|j: int| a <= j < b ==> letter_or_digit(#[trigger] name[j]) || name[j] == '-'
        }) {
        assert forall|k: int| 0 <= k < split_text(name, '.').len() implies is_label(#[trigger] split_text(name, '.')[k]) by {
            let (a, b) = lemma_parts_lie_between(name, 0, 0, k);
            let label = split_text(name, '.')[k];
            assert(label == name.subrange(a, b));
            assert forall|i: int| 0 <= i < label.len() implies letter_or_digit(#[trigger] label[i]) || label[i] == '-' by {
                assert(label[i] == name[a + i]);
            }
        }
    }
}

/// An origin that can be sent back and matched: not empty, without control
/// characters and whitespace, and not the wildcard.
pub open spec fn is_exact_origin(origin: Seq<char>) -> bool {
    &&& origin.len() > 0
    &&& forall|i: int|
        0 <= i < origin.len() ==> (#[trigger] origin[i]) > ' ' && origin[i] != '\u{7f}' && !is_white(origin[i])
    &&& origin != "*"@
}

/// An origin is accepted where it is exact, and nowhere else.
pub proof fn law_exact_origins_are_accepted(origin: Seq<char>)
    ensures
        origin_check(origin) is Ok <==> is_exact_origin(origin),
{
}

proof fn lemma_origins(origins: Seq<Seq<char>>, from: int)
    requires
        0 <= from <= origins.len(),
    ensures
        origins_check(origins, from) is Ok <==> forall|i: int|
            from <= i < origins.len() ==> is_exact_origin(#[trigger] origins[i]),
    decreases origins.len() - from,
{
    if from < origins.len() {
        lemma_origins(origins, from + 1);
        law_exact_origins_are_accepted(origins[from]);
    }
}

proof fn lemma_all_nonempty(values: Seq<Seq<char>>, what: Seq<char>, from: int)
    requires
        0 <= from <= values.len(),
    ensures
        all_nonempty_check(values, what, from) is Ok <==> forall|i: int|
            from <= i < values.len() ==> (#[trigger] values[i]).len() > 0,
    decreases values.len() - from,
{
    if from < values.len() {
        lemma_all_nonempty(values, what, from + 1);
    }
}

/// Re-prompting that can be done: with a prompt where it is enabled, a prompt file
/// that has a name and exists, sentinels that are not empty, and at most an hour.
pub open spec fn can_reprompt(rep: RepromptConfig, prompt_file_exists: bool) -> bool {
    &&& rep.enabled ==> rep.prompt_file is Some || rep.prompt is Some
    &&& rep.prompt_file is Some ==> rep.prompt_file->0@.len() > 0 && prompt_file_exists
    &&& forall|i: int| 0 <= i < rep.done_sentinels@.len() ==> (#[trigger] rep.done_sentinels@[i])@.len() > 0
    &&& rep.max_total_ms <= 3_600_000
}

/// Re-prompting is accepted where it can be done, and nowhere else.
pub proof fn law_reprompting_that_can_be_done_is_accepted(rep: RepromptConfig, prompt_file_exists: bool)
    ensures
        reprompt_check(Some(rep), prompt_file_exists) is Ok <==> can_reprompt(rep, prompt_file_exists),
        reprompt_check(None, prompt_file_exists) is Ok,
{
    let values = texts(rep.done_sentinels@);
    lemma_all_nonempty(values, "reprompt done_sentinels entry"@, 0);
    if reprompt_check(Some(rep), prompt_file_exists) is Ok {
        assert forall|i: int| 0 <= i < rep.done_sentinels@.len() implies (#[trigger] rep.done_sentinels@[i])@.len() > 0 by {
            assert(values[i] == rep.done_sentinels@[i]@);
        }
    }
}

/// Backends that can be used: groups that can serve, at least one of them, or else
/// a single backend whose URL can be called and whose timeout is at least a second
/// and at most a day, or none.
pub open spec fn backends_can_serve(config: AppConfig) -> bool {
    &&& config.backends is Some ==> config.backends->0.listed().len() > 0 && groups_can_serve(config.backends->0.listed())
    &&& config.backends is None && config.backend is Some ==> can_be_called(config.backend->0.url@) && 1
        <= config.backend->0.timeout_seconds <= 86_400
}

/// Backends are accepted where they can serve, and nowhere else. Where there are
/// groups, the single backend does not count.
pub proof fn law_backends_that_can_serve_are_accepted(config: AppConfig)
    ensures
        backends_check(config) is Ok <==> backends_can_serve(config),
{
    if let Some(groups) = config.backends {
        law_groups_that_serve_side_by_side_are_accepted(groups.listed());
    }
}

/// A configuration is accepted where each of its parts can do its work, and
/// nowhere else.
pub proof fn law_which_configurations_are_accepted(config: AppConfig, around: Surroundings)
    ensures
        config_check(config, around) is Ok <==> {
            &&& config.server.port > 0
            &&& around.host_is_ip || is_hostname(unbracketed(config.server.host@))
            &&& config.server.allowed_origins is Some ==> forall|i: int|
                0 <= i < config.server.allowed_origins->0@.len() ==> is_exact_origin(
                    (#[trigger] config.server.allowed_origins->0@[i])@,
                )
            &&& config.reprompt is Some ==> can_reprompt(config.reprompt->0, around.prompt_file_exists)
            &&& backends_can_serve(config)
            &&& config.augment_backend is Some ==> can_be_called(config.augment_backend->0.url@)
                && config.augment_backend->0.model@.len() > 0
            &&& config.dump.enabled ==> exists|i: int|
                0 <= i < config.dump.path@.len() && !is_white(#[trigger] config.dump.path@[i])
            &&& config.synthesis.chunk_delay_ms <= 60_000
            &&& config.synthesis.chunk_size_chars >= 1
        },
{
    if let Some(rep) = config.reprompt {
        law_reprompting_that_can_be_done_is_accepted(rep, around.prompt_file_exists);
    }
    law_backends_that_can_serve_are_accepted(config);
    if let Some(origins) = config.server.allowed_origins {
        let listed = texts(origins@);
        lemma_origins(listed, 0);
        assert forall|i: int| 0 <= i < origins@.len() implies #[trigger] listed[i] == origins@[i]@ by {}
        if forall|i: int| 0 <= i < listed.len() ==> is_exact_origin(#[trigger] listed[i]) {
            assert forall|i: int| 0 <= i < origins@.len() implies is_exact_origin((#[trigger] origins@[i])@) by {
                assert(listed[i] == origins@[i]@);
            }
        }
    }
}

/// Which keys each section knows.
pub proof fn law_which_keys_a_section_knows(section: Section, key: Seq<char>)
    ensures
        section_keys(section).contains(key) <==> match section {
            Section::App => key == "server"@ || key == "backend"@ || key == "backends"@ || key == "fixes"@ || key == "stats"@ || key == "exporters"@ || key == "streaming"@ || key == "synthesis"@ || key == "augment-backend"@ || key == "reprompt"@ || key == "dump"@,
            Section::Server => key == "port"@ || key == "host"@ || key == "max_concurrent_requests"@ || key == "allowed_origins"@,
            Section::Backend => key == "url"@ || key == "timeout_seconds"@ || key == "tls"@ || key == "model"@ || key == "api_key"@ || key == "strip_path_prefix"@,
            Section::Node => key == "url"@ || key == "timeout_seconds"@ || key == "tls"@ || key == "model"@ || key == "api_key"@ || key == "strip_path_prefix"@ || key == "temperature"@,
            Section::Group => key == "mappings"@ || key == "strategy"@ || key == "failure_cooldown_secs"@ || key == "exclusive"@ || key == "nodes"@,
            Section::Stats => key == "enabled"@ || key == "format"@,
            Section::Dump => key == "enabled"@ || key == "path"@,
            Section::Synthesis => key == "chunk_delay_ms"@ || key == "chunk_size_chars"@,
            Section::InfluxDb => key == "enabled"@ || key == "url"@ || key == "org"@ || key == "bucket"@ || key == "token"@,
            Section::Reprompt => key == "enabled"@ || key == "prompt_file"@ || key == "prompt"@ || key == "max_retries"@ || key == "done_sentinels"@ || key == "done_sentinel"@ || key == "dynamic_prompt"@ || key == "log_stop_responses"@ || key == "skip_read_only_requests"@ || key == "max_total_ms"@,
            Section::Augment => key == "enabled"@ || key == "url"@ || key == "model"@ || key == "prompt_file"@ || key == "request_prompt_file"@ || key == "timeout_secs"@,
            Section::Tls => key == "accept_invalid_certs"@ || key == "ca_cert_path"@ || key == "client_cert_path"@ || key == "client_key_path"@,
        },
{
    let keys = section_keys(section);
    match section {
        Section::App => {
            assert(keys[0] == "server"@);
            assert(keys[1] == "backend"@);
            assert(keys[2] == "backends"@);
            assert(keys[3] == "fixes"@);
            assert(keys[4] == "stats"@);
            assert(keys[5] == "exporters"@);
            assert(keys[6] == "streaming"@);
            assert(keys[7] == "synthesis"@);
            assert(keys[8] == "augment-backend"@);
            assert(keys[9] == "reprompt"@);
            assert(keys[10] == "dump"@);
        },
        Section::Server => {
            assert(keys[0] == "port"@);
            assert(keys[1] == "host"@);
            assert(keys[2] == "max_concurrent_requests"@);
            assert(keys[3] == "allowed_origins"@);
        },
        Section::Backend => {
            assert(keys[0] == "url"@);
            assert(keys[1] == "timeout_seconds"@);
            assert(keys[2] == "tls"@);
            assert(keys[3] == "model"@);
            assert(keys[4] == "api_key"@);
            assert(keys[5] == "strip_path_prefix"@);
        },
        Section::Node => {
            assert(keys[0] == "url"@);
            assert(keys[1] == "timeout_seconds"@);
            assert(keys[2] == "tls"@);
            assert(keys[3] == "model"@);
            assert(keys[4] == "api_key"@);
            assert(keys[5] == "strip_path_prefix"@);
            assert(keys[6] == "temperature"@);
        },
        Section::Group => {
            assert(keys[0] == "mappings"@);
            assert(keys[1] == "strategy"@);
            assert(keys[2] == "failure_cooldown_secs"@);
            assert(keys[3] == "exclusive"@);
            assert(keys[4] == "nodes"@);
        },
        Section::Stats => {
            assert(keys[0] == "enabled"@);
            assert(keys[1] == "format"@);
        },
        Section::Dump => {
            assert(keys[0] == "enabled"@);
            assert(keys[1] == "path"@);
        },
        Section::Synthesis => {
            assert(keys[0] == "chunk_delay_ms"@);
            assert(keys[1] == "chunk_size_chars"@);
        },
        Section::InfluxDb => {
            assert(keys[0] == "enabled"@);
            assert(keys[1] == "url"@);
            assert(keys[2] == "org"@);
            assert(keys[3] == "bucket"@);
            assert(keys[4] == "token"@);
        },
        Section::Reprompt => {
            assert(keys[0] == "enabled"@);
            assert(keys[1] == "prompt_file"@);
            assert(keys[2] == "prompt"@);
            assert(keys[3] == "max_retries"@);
            assert(keys[4] == "done_sentinels"@);
            assert(keys[5] == "done_sentinel"@);
            assert(keys[6] == "dynamic_prompt"@);
            assert(keys[7] == "log_stop_responses"@);
            assert(keys[8] == "skip_read_only_requests"@);
            assert(keys[9] == "max_total_ms"@);
        },
        Section::Augment => {
            assert(keys[0] == "enabled"@);
            assert(keys[1] == "url"@);
            assert(keys[2] == "model"@);
            assert(keys[3] == "prompt_file"@);
            assert(keys[4] == "request_prompt_file"@);
            assert(keys[5] == "timeout_secs"@);
        },
        Section::Tls => {
            assert(keys[0] == "accept_invalid_certs"@);
            assert(keys[1] == "ca_cert_path"@);
            assert(keys[2] == "client_cert_path"@);
            assert(keys[3] == "client_key_path"@);
        },
    }
    if keys.contains(key) {
        let k = choose|k: int| 0 <= k < keys.len() && keys[k] == key;
        assert(0 <= k < 11);
    }
}

/// A section is accepted where it knows every one of its keys, and otherwise refused
/// by the first that it does not know.
pub proof fn law_unknown_keys_are_refused_by_name(section: Section, keys: Seq<Seq<char>>, from: int, i: int)
    requires
        0 <= from <= keys.len(),
    ensures
        (forall|k: int| from <= k < keys.len() ==> section_keys(section).contains(#[trigger] keys[k])) ==> keys_check(
            section,
            keys,
            from,
        ) is Ok,
        from <= i < keys.len() && !section_keys(section).contains(keys[i]) && (forall|k: int|
            from <= k < i ==> section_keys(section).contains(#[trigger] keys[k])) ==> keys_check(section, keys, from) == Err::<
            (),
            ConfigErrorView,
        >(ConfigErrorView::Parse("unknown field `"@ + keys[i] + "`"@)),
    decreases keys.len() - from,
{
    if from < keys.len() {
        if section_keys(section).contains(keys[from]) {
            law_unknown_keys_are_refused_by_name(section, keys, from + 1, i);
        }
    }
}

/// How the modes are spelled, and that no other spelling means one.
pub proof fn law_how_modes_are_spelled(s: Seq<char>)
    ensures
        StreamingMode::spelled(s) == Some(StreamingMode::Disabled) <==> s == "disabled"@,
        StreamingMode::spelled(s) == Some(StreamingMode::Fake) <==> s == "fake"@,
        StreamingMode::spelled(s) == Some(StreamingMode::Passthrough) <==> s == "passthrough"@,
        StreamingMode::Disabled.spelling() == "disabled"@,
        StreamingMode::Fake.spelling() == "fake"@,
        StreamingMode::Passthrough.spelling() == "passthrough"@,
{
    reveal_strlit("disabled");
    reveal_strlit("fake");
    reveal_strlit("passthrough");
    assert("disabled"@.len() == 8 && "fake"@.len() == 4 && "passthrough"@.len() == 11);
}

/// An address in brackets is taken without them, and any other host as it is.
pub proof fn law_brackets_are_taken_off(inner: Seq<char>, host: Seq<char>)
    ensures
        unbracketed(seq!['['] + inner + seq![']']) == inner,
        host.len() < 2 || host[0] != '[' || host.last() != ']' ==> unbracketed(host) == host,
{
    let whole = seq!['['] + inner + seq![']'];
    assert(whole.subrange(1, whole.len() - 1) =~= inner);
}

/// A number over its maximum is refused, and no other; the refusal names both.
pub proof fn law_maximum_is_the_last_that_is_accepted(name: Seq<char>, value: u64, max: u64)
    ensures
        maximum_check(name, value, max) is Ok <==> value <= max,
        value > max ==> maximum_check(name, value, max) == Err::<(), ConfigErrorView>(
            ConfigErrorView::Validation(
                name + " "@ + decimal(value as nat) + " exceeds the supported maximum "@ + decimal(max as nat),
            ),
        ),
{
}

/// The first part that is refused decides: the server, then re-prompting, then the
/// backends, then the enriching backend and the dump, then synthesis.
pub proof fn law_the_first_refusal_decides(config: AppConfig, around: Surroundings)
    ensures
        ({
            let server = server_check(config.server, around.host_is_ip);
            let reprompt = reprompt_check(config.reprompt, around.prompt_file_exists);
            let backends = backends_check(config);
            let rest = rest_check(config);
            &&& server is Err ==> config_check(config, around) == server
            &&& server is Ok && reprompt is Err ==> config_check(config, around) == reprompt
            &&& server is Ok && reprompt is Ok && backends is Err ==> config_check(config, around) == backends
            &&& server is Ok && reprompt is Ok && backends is Ok && rest is Err ==> config_check(config, around) == rest
            &&& server is Ok && reprompt is Ok && backends is Ok && rest is Ok ==> config_check(config, around)
                == synthesis_check(config.synthesis)
        }),
{
}

/// Whether a check refuses with these words.
pub open spec fn refuses(check: Check, words: Seq<char>) -> bool {
    check == Err::<(), ConfigErrorView>(ConfigErrorView::Validation(words))
}

/// What is said of a group that cannot serve names the group and what is wrong with it.
pub proof fn law_what_is_said_of_a_group(group: BackendGroupConfig, name: Seq<char>)
    ensures
        group.nodes@.len() == 0 ==> refuses(
            group_body_check(group, name),
            "Backend group '"@ + name + "' has no nodes configured"@,
        ),
        group.nodes@.len() > 0 && group.strategy@ != "round_robin"@ && group.strategy@ != "priority_free"@ ==> refuses(
            group_body_check(group, name),
            "Backend group '"@ + name + "' has invalid strategy '"@ + group.strategy@
                + "'. Use 'round_robin' or 'priority_free'"@,
        ),
        group.nodes@.len() > 0 && (group.strategy@ == "round_robin"@ || group.strategy@ == "priority_free"@) && (forall|j: int|
            0 <= j < group.nodes@.len() ==> can_serve(#[trigger] group.nodes@[j])) && group.failure_cooldown_secs > 86_400
            ==> refuses(
            group_body_check(group, name),
            "Backend group '"@ + name + "' failure_cooldown_secs"@ + " "@ + decimal(group.failure_cooldown_secs as nat)
                + " exceeds the supported maximum "@ + decimal(86_400),
        ),
{
    lemma_nodes(group.nodes@, name, 0);
}

/// What is said of a node that cannot serve names its group and what is wrong with it.
pub proof fn law_what_is_said_of_a_node(node: BackendNodeConfig, group: Seq<char>)
    ensures
        parsed_url(node.url@) is Err ==> refuses(
            node_check(node, group),
            "Invalid "@ + "Backend"@ + " URL '"@ + node.url@ + "': "@ + parsed_url(node.url@)->Err_0,
        ),
        can_be_called(node.url@) && node.timeout_seconds == 0 ==> refuses(
            node_check(node, group),
            "Node in group '"@ + group + "'"@ + " has timeout_seconds of 0"@,
        ),
        can_be_called(node.url@) && node.timeout_seconds > 86_400 && node.temperature is None ==> refuses(
            node_check(node, group),
            "Node in group '"@ + group + "'"@ + " timeout_seconds"@ + " "@ + decimal(node.timeout_seconds as nat)
                + " exceeds the supported maximum "@ + decimal(86_400),
        ),
        can_be_called(node.url@) && node.timeout_seconds > 0 && node.temperature is Some && (
        node.temperature->0.bits & 0x7ff0_0000_0000_0000 == 0x7ff0_0000_0000_0000) ==> refuses(
            node_check(node, group),
            "Node in group '"@ + group + "'"@ + " temperature "@ + node.temperature->0.shown@ + " is not a finite number"@,
        ),
        can_be_called(node.url@) && node.timeout_seconds > 0 && node.temperature is Some && (
        node.temperature->0.bits & 0x7ff0_0000_0000_0000 != 0x7ff0_0000_0000_0000) && node.temperature->0.bits
            > 0x4000_0000_0000_0000 && node.temperature->0.bits != 0x8000_0000_0000_0000 ==> refuses(
            node_check(node, group),
            "Node in group '"@ + group + "'"@ + " temperature "@ + node.temperature->0.shown@
                + " is outside the valid range 0..=2"@,
        ),
{
}

/// What is said of a URL that cannot be called.
pub proof fn law_what_is_said_of_a_url(url: Seq<char>, label: Seq<char>)
    ensures
        parsed_url(url) is Err ==> refuses(
            url_check(parsed_url(url), url, label),
            "Invalid "@ + label + " URL '"@ + url + "': "@ + parsed_url(url)->Err_0,
        ),
        parsed_url(url) is Ok && parsed_url(url)->Ok_0.scheme != "http"@ && parsed_url(url)->Ok_0.scheme != "https"@
            ==> refuses(
            url_check(parsed_url(url), url, label),
            label + " URL must use http:// or https://, got '"@ + parsed_url(url)->Ok_0.scheme + "'"@,
        ),
        parsed_url(url) is Ok && (parsed_url(url)->Ok_0.scheme == "http"@ || parsed_url(url)->Ok_0.scheme == "https"@) && (
        parsed_url(url)->Ok_0.host is None || parsed_url(url)->Ok_0.host->0.len() == 0) ==> refuses(
            url_check(parsed_url(url), url, label),
            label + " URL must include a host: '"@ + url + "'"@,
        ),
{
}

/// What is said of a server that cannot listen: of its port first, then of the first origin
/// that is not exact, then of its host.
pub proof fn law_what_is_said_of_a_server(server: ServerConfig, host_is_ip: bool)
    ensures
        server.port == 0 ==> refuses(
            server_check(server, host_is_ip),
            "Server port must be between 1-65535, got 0"@,
        ),
        server.port > 0 && server.allowed_origins is None && !host_is_ip && !is_hostname(unbracketed(server.host@)) ==> refuses(
            server_check(server, host_is_ip),
            "server host '"@ + server.host@ + "' is neither an IP address nor a valid RFC-1123 hostname"@,
        ),
{
}

/// A model that two groups name is refused by the names of both.
pub proof fn law_what_is_said_of_a_model_with_two_groups(
    models: Seq<Seq<char>>,
    group: Seq<char>,
    owners: Owners,
    from: int,
    i: int,
)
    requires
        0 <= from <= i < models.len(),
        forall|k: int| from <= k < i ==> (#[trigger] models[k]).len() > 0 && !owners.contains_key(models[k]),
        forall|a: int, b: int| from <= a < b <= i ==> #[trigger] models[a] != #[trigger] models[b],
        models[i].len() > 0,
        owners.contains_key(models[i]),
    ensures
        mappings_check(models, group, owners, from) == Err::<Owners, ConfigErrorView>(
            ConfigErrorView::Validation(
                "Model '"@ + models[i] + "' is mapped in both group '"@ + owners[models[i]] + "' and group '"@ + group
                    + "'"@,
            ),
        ),
    decreases i - from,
{
    if from < i {
        let more = owners.insert(models[from], group);
        assert(models[from] != models[i]);
        assert forall|k: int| from + 1 <= k < i implies (#[trigger] models[k]).len() > 0 && !more.contains_key(models[k]) by {
            assert(models[from] != models[k]);
        }
        law_what_is_said_of_a_model_with_two_groups(models, group, more, from + 1, i);
    }
}

/// A section that is left out is as one whose fields are left out: each field has the
/// default that it has by itself.
pub proof fn law_sections_default_as_their_fields_do(
    backend: BackendConfig,
    timeout: u64,
    reprompt: RepromptConfig,
    max_retries: u32,
    sentinels: Vec<String>,
    dynamic: bool,
    skip: bool,
    max_total_ms: u64,
    augment: AugmentBackendConfig,
    augment_enabled: bool,
    augment_timeout: u64,
    prompt_file: String,
    request_prompt_file: String,
    synthesis: SynthesisConfig,
    chunk_size: usize,
    influxdb: InfluxDbConfig,
    url: String,
    org: String,
    bucket: String,
)
    requires
        call_ensures(<BackendConfig as Default>::default, (), backend),
        call_ensures(default_timeout, (), timeout),
        call_ensures(<RepromptConfig as Default>::default, (), reprompt),
        call_ensures(default_reprompt_max_retries, (), max_retries),
        call_ensures(default_reprompt_done_sentinels, (), sentinels),
        call_ensures(default_reprompt_dynamic_prompt, (), dynamic),
        call_ensures(default_reprompt_skip_read_only, (), skip),
        call_ensures(default_reprompt_max_total_ms, (), max_total_ms),
        call_ensures(<AugmentBackendConfig as Default>::default, (), augment),
        call_ensures(default_augment_enabled, (), augment_enabled),
        call_ensures(default_augment_timeout_secs, (), augment_timeout),
        call_ensures(default_prompt_file, (), prompt_file),
        call_ensures(default_request_prompt_file, (), request_prompt_file),
        call_ensures(<SynthesisConfig as Default>::default, (), synthesis),
        call_ensures(default_synthesis_chunk_size_chars, (), chunk_size),
        call_ensures(<InfluxDbConfig as Default>::default, (), influxdb),
        call_ensures(default_influxdb_url, (), url),
        call_ensures(default_influxdb_org, (), org),
        call_ensures(default_influxdb_bucket, (), bucket),
    ensures
        backend.timeout_seconds == timeout,
        reprompt.max_retries == max_retries,
        reprompt.done_sentinels@.len() == sentinels@.len(),
        reprompt.done_sentinels@[0]@ == sentinels@[0]@,
        reprompt.dynamic_prompt == dynamic,
        reprompt.skip_read_only_requests == skip,
        reprompt.max_total_ms == max_total_ms,
        augment.enabled == augment_enabled,
        augment.timeout_secs == augment_timeout,
        augment.prompt_file@ == prompt_file@,
        augment.request_prompt_file@ == request_prompt_file@,
        synthesis.chunk_size_chars == chunk_size,
        influxdb.url@ == url@,
        influxdb.org@ == org@,
        influxdb.bucket@ == bucket@,
{
}

/// What is assumed where a configuration is silent, in seconds, milliseconds and numbers.
pub proof fn law_what_is_assumed(
    timeout: u64,
    cooldown: u64,
    strategy: String,
    augment_timeout: u64,
    max_retries: u32,
    max_total_ms: u64,
    chunk_size: usize,
    concurrent: usize,
)
    requires
        call_ensures(default_timeout, (), timeout),
        call_ensures(default_failure_cooldown_secs, (), cooldown),
        call_ensures(default_strategy, (), strategy),
        call_ensures(default_augment_timeout_secs, (), augment_timeout),
        call_ensures(default_reprompt_max_retries, (), max_retries),
        call_ensures(default_reprompt_max_total_ms, (), max_total_ms),
        call_ensures(default_synthesis_chunk_size_chars, (), chunk_size),
        call_ensures(default_max_concurrent, (), concurrent),
    ensures
        timeout == 300,
        cooldown == 30,
        strategy@ == "round_robin"@,
        augment_timeout == 15,
        max_retries == 3,
        max_total_ms == 30_000,
        chunk_size == 2000,
        concurrent == 0,
{
}

/// What is assumed where a configuration is silent is accepted by the check.
pub proof fn law_what_is_assumed_is_accepted(
    reprompt: RepromptConfig,
    synthesis: SynthesisConfig,
    exists_file: bool,
    group: BackendGroupConfig,
    name: Seq<char>,
)
    requires
        call_ensures(<RepromptConfig as Default>::default, (), reprompt),
        call_ensures(<SynthesisConfig as Default>::default, (), synthesis),
        call_ensures(default_strategy, (), group.strategy),
        call_ensures(default_failure_cooldown_secs, (), group.failure_cooldown_secs),
        group.nodes@.len() > 0,
        forall|j: int|
            0 <= j < group.nodes@.len() ==> can_be_called((#[trigger] group.nodes@[j]).url@) && group.nodes@[j].temperature is None
                && call_ensures(default_timeout, (), group.nodes@[j].timeout_seconds),
    ensures
        reprompt_check(Some(reprompt), exists_file) is Ok,
        synthesis_check(synthesis) is Ok,
        group_body_check(group, name) is Ok,
{
    reveal_strlit("DONE");
    law_reprompting_that_can_be_done_is_accepted(reprompt, exists_file);
    assert forall|j: int| 0 <= j < group.nodes@.len() implies can_serve(#[trigger] group.nodes@[j]) by {
        assert(can_be_called(group.nodes@[j].url@));
    }
    law_groups_that_can_serve_are_accepted(group, name);
}

/// What is said of an origin that is not exact: that it is empty, or else of control
/// characters, or else of whitespace, or else of the wildcard.
pub proof fn law_what_is_said_of_an_origin(origin: Seq<char>)
    ensures
        origin.len() == 0 ==> refuses(origin_check(origin), "server.allowed_origins contains an empty entry"@),
        (exists|i: int| 0 <= i < origin.len() && ((#[trigger] origin[i]) < ' ' || origin[i] == '\u{7f}')) ==> refuses(
            origin_check(origin),
            "server.allowed_origins entry "@ + debug_text(origin)
                + " contains control characters; it would be echoed as a response header"@,
        ),
        (forall|i: int| 0 <= i < origin.len() ==> (#[trigger] origin[i]) >= ' ' && origin[i] != '\u{7f}') && (exists|i: int|
            0 <= i < origin.len() && is_white(#[trigger] origin[i])) ==> refuses(
            origin_check(origin),
            "server.allowed_origins entry "@ + debug_text(origin)
                + " contains whitespace; origins are exact tokens like 'https://app.example'"@,
        ),
        origin == "*"@ ==> refuses(
            origin_check(origin),
            "server.allowed_origins contains '*'; it is not an exact origin — omit allowed_origins to allow every origin"@,
        ),
{
    reveal_strlit("*");
}

/// What is said of re-prompting that cannot be done.
pub proof fn law_what_is_said_of_reprompting(rep: RepromptConfig, prompt_file_exists: bool)
    ensures
        rep.enabled && rep.prompt_file is None && rep.prompt is None ==> refuses(
            reprompt_check(Some(rep), prompt_file_exists),
            "reprompt: enabled but neither 'prompt_file' nor 'prompt' is set"@,
        ),
        rep.prompt_file is Some && rep.prompt_file->0@.len() == 0 ==> refuses(
            reprompt_check(Some(rep), prompt_file_exists),
            "reprompt prompt_file"@ + " must not be empty"@,
        ),
        rep.prompt_file is Some && rep.prompt_file->0@.len() > 0 && !prompt_file_exists ==> refuses(
            reprompt_check(Some(rep), prompt_file_exists),
            "reprompt: prompt_file '"@ + rep.prompt_file->0@ + "' does not exist"@,
        ),
{
}

/// What is said of groups: that there are none, that a name is missing, or that a second one
/// serves every model.
pub proof fn law_what_is_said_of_groups(
    config: AppConfig,
    groups: Seq<(String, BackendGroupConfig)>,
    caught: bool,
    owners: Owners,
    i: int,
)
    ensures
        config.backends is Some && config.backends->0.listed().len() == 0 ==> refuses(
            backends_check(config),
            "No backend groups configured"@,
        ),
        0 <= i < groups.len() && groups[i].0@.len() == 0 ==> refuses(
            groups_check(groups, caught, owners, i),
            "backend group name"@ + " must not be empty"@,
        ),
        0 <= i < groups.len() && groups[i].0@.len() > 0 && caught && groups[i].1.mappings@.len() == 0 ==> refuses(
            groups_check(groups, caught, owners, i),
            "Only one catch-all group (empty 'mappings: []') may be configured"@,
        ),
        config.backends is None && config.backend is Some && config.backend->0.timeout_seconds == 0 ==> refuses(
            backends_check(config),
            "Backend timeout_seconds must be greater than 0"@,
        ),
{
}

/// What is said of the enriching backend, the dump and synthesis.
pub proof fn law_what_is_said_of_the_rest(config: AppConfig)
    ensures
        config.augment_backend is Some && can_be_called(config.augment_backend->0.url@)
            && config.augment_backend->0.model@.len() == 0 ==> refuses(
            rest_check(config),
            "augment-backend model"@ + " must not be empty"@,
        ),
        config.augment_backend is None && config.dump.enabled && config.dump.path@.len() == 0 ==> refuses(
            rest_check(config),
            "dump path while dump is enabled"@ + " must not be empty"@,
        ),
        config.synthesis.chunk_delay_ms <= 60_000 && config.synthesis.chunk_size_chars == 0 ==> refuses(
            synthesis_check(config.synthesis),
            "synthesis chunk_size_chars must be at least 1; 0 emits one chunk per character"@,
        ),
        config.synthesis.chunk_delay_ms > 60_000 ==> refuses(
            synthesis_check(config.synthesis),
            "synthesis chunk_delay_ms"@ + " "@ + decimal(config.synthesis.chunk_delay_ms as nat)
                + " exceeds the supported maximum "@ + decimal(60_000),
        ),
{
}

/// What is said of the URLs of the enriching backend and of the single backend, and of a
/// timeout that is too long.
pub proof fn law_what_is_said_of_single_backends(config: AppConfig)
    ensures
        config.augment_backend is Some && parsed_url(config.augment_backend->0.url@) is Err ==> refuses(
            rest_check(config),
            "Invalid "@ + "Augment backend"@ + " URL '"@ + config.augment_backend->0.url@ + "': "@ + parsed_url(
                config.augment_backend->0.url@,
            )->Err_0,
        ),
        config.backends is None && config.backend is Some && config.backend->0.timeout_seconds > 0 && parsed_url(
            config.backend->0.url@,
        ) is Err ==> refuses(
            backends_check(config),
            "Invalid "@ + "Backend"@ + " URL '"@ + config.backend->0.url@ + "': "@ + parsed_url(
                config.backend->0.url@,
            )->Err_0,
        ),
        config.backends is None && config.backend is Some && config.backend->0.timeout_seconds > 86_400 && can_be_called(
            config.backend->0.url@,
        ) ==> refuses(
            backends_check(config),
            "Backend"@ + " timeout_seconds"@ + " "@ + decimal(config.backend->0.timeout_seconds as nat)
                + " exceeds the supported maximum "@ + decimal(86_400),
        ),
{
}

/// What is said of sentinels that are empty and of re-prompting that takes too long.
pub proof fn law_what_is_said_of_long_reprompting(rep: RepromptConfig, prompt_file_exists: bool)
    requires
        !rep.enabled || rep.prompt is Some,
        rep.prompt_file is None,
    ensures
        rep.done_sentinels@.len() > 0 && rep.done_sentinels@[0]@.len() == 0 ==> refuses(
            reprompt_check(Some(rep), prompt_file_exists),
            "reprompt done_sentinels entry"@ + " must not be empty"@,
        ),
        rep.done_sentinels@.len() == 0 && rep.max_total_ms > 3_600_000 ==> refuses(
            reprompt_check(Some(rep), prompt_file_exists),
            "reprompt max_total_ms"@ + " "@ + decimal(rep.max_total_ms as nat) + " exceeds the supported maximum "@ + decimal(
                3_600_000,
            ),
        ),
{
    let values = texts(rep.done_sentinels@);
    if rep.done_sentinels@.len() > 0 {
        assert(values[0] == rep.done_sentinels@[0]@);
    }
}

} // verus!
