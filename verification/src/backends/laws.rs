//! Which node serves a request, what it is asked for, and what is learnt of it.

use vstd::prelude::*;
use vstd::string::*;
use crate::config::{BackendGroupConfig, BackendNodeConfig, TlsConfig};
use crate::json::JsonView;
use crate::text::{find_from, occurs_at, texts, trimmed_end, without_prefix};
use super::balancer::{claims_one, visited};
use super::grouped::{first_failure, flat, flat_place, fresh_nodes, group_at, group_failure, is_configured,
    keeps_turn, only_balancer_changes, takes_turn, BackendGroup, GroupBalancer, Route};
use super::node::{auth_header, cooling, law_soonest_is_the_first_minimum, node_url, released, request_url, BackendNode};
use super::preflight::{first_max_len, identity_of, ids_of, models_of, models_url, names_llama_cpp, note_of,
    plan_node_client, plan_preflight_client, ClientPlan, ModelNote};
use super::priority_free::{first_free, law_the_first_least_loaded_node_is_chosen,
    law_the_soonest_serves_where_all_are_left_alone};
use super::round_robin::{all_cooling, next_fallbacks, next_turn, turn, turn_from};
use super::{strategy_spelled, BalancingStrategy, LoadBalancer};

verus! {

broadcast use vstd::string::group_string_axioms;

/// A node can be chosen where it is healthy, or where the time for which it is
/// left alone is over.
pub open spec fn is_available(node: BackendNode, now: u64) -> bool {
    node.healthy || node.cooldown_until <= now
}

/// A node is left alone only while it cannot be chosen.
pub proof fn law_healthy_nodes_are_never_left_alone(node: BackendNode, now: u64)
    ensures
        cooling(node, now) <==> !is_available(node, now),
{
}

/// The node that stands some places behind another in the circle of all nodes.
pub open spec fn places_behind(len: int, start: int, places: int) -> int {
    if start + places < len {
        start + places
    } else {
        start + places - len
    }
}

/// Of the nodes that can be chosen, the next one in the circle serves: every node
/// between the one whose turn it is and the one that serves cannot be chosen.
pub proof fn law_the_next_available_node_serves(nodes: Seq<BackendNode>, turns: nat, now: u64, i: int) -> (places: int)
    requires
        0 <= i < nodes.len(),
        is_available(nodes[i], now),
    ensures
        0 <= places < nodes.len(),
        turn(nodes, turns, now) == places_behind(nodes.len() as int, turns as int % nodes.len() as int, places),
        is_available(nodes[turn(nodes, turns, now)], now),
        forall|p: int|
            0 <= p < places ==> !is_available(
                nodes[#[trigger] places_behind(nodes.len() as int, turns as int % nodes.len() as int, p)],
                now,
            ),
{
    let n = nodes.len() as int;
    let s = turns as int % n;
    let mine = if s <= i {
        i - s
    } else {
        i - s + n
    };
    super::balancer::lemma_wrap(s, mine, n);
    assert(visited(nodes.len(), turns, mine) == i);
    lemma_next_available(nodes, turns, now, mine, 0)
}

proof fn lemma_next_available(nodes: Seq<BackendNode>, turns: nat, now: u64, mine: int, step: int) -> (places: int)
    requires
        0 <= step <= mine < nodes.len(),
        is_available(nodes[visited(nodes.len(), turns, mine)], now),
        forall|p: int|
            0 <= p < step ==> !is_available(
                nodes[#[trigger] places_behind(nodes.len() as int, turns as int % nodes.len() as int, p)],
                now,
            ),
    ensures
        0 <= places < nodes.len(),
        turn_from(nodes, turns, now, step) == places_behind(nodes.len() as int, turns as int % nodes.len() as int, places),
        is_available(nodes[turn_from(nodes, turns, now, step)], now),
        forall|p: int|
            0 <= p < places ==> !is_available(
                nodes[#[trigger] places_behind(nodes.len() as int, turns as int % nodes.len() as int, p)],
                now,
            ),
    decreases mine - step,
{
    let n = nodes.len() as int;
    let s = turns as int % n;
    super::balancer::lemma_wrap(s, step, n);
    let at = visited(nodes.len(), turns, step);
    assert(at == places_behind(n, s, step));
    if is_available(nodes[at], now) {
        step
    } else {
        lemma_next_available(nodes, turns, now, mine, step + 1)
    }
}

/// Where no node can be chosen, the one whose time is over soonest serves, the
/// first of several, whatever the strategy.
pub proof fn law_where_none_is_available_the_soonest_serves(nodes: Seq<BackendNode>, turns: nat, now: u64, i: int)
    requires
        0 <= i < nodes.len(),
        forall|k: int| 0 <= k < nodes.len() ==> !is_available(#[trigger] nodes[k], now),
    ensures
        0 <= turn(nodes, turns, now) < nodes.len(),
        nodes[turn(nodes, turns, now)].cooldown_until <= nodes[i].cooldown_until,
        i < turn(nodes, turns, now) ==> nodes[turn(nodes, turns, now)].cooldown_until < nodes[i].cooldown_until,
        first_free(nodes, now) == turn(nodes, turns, now),
{
    lemma_none_available(nodes, turns, now, 0);
    law_soonest_is_the_first_minimum(nodes, nodes.len(), i);
    assert forall|k: int| 0 <= k < nodes.len() implies cooling(#[trigger] nodes[k], now) by {
        assert(!is_available(nodes[k], now));
    }
    law_the_soonest_serves_where_all_are_left_alone(nodes, now);
}

proof fn lemma_none_available(nodes: Seq<BackendNode>, turns: nat, now: u64, step: int)
    requires
        0 <= step <= nodes.len(),
        nodes.len() > 0,
        forall|k: int| 0 <= k < nodes.len() ==> !is_available(#[trigger] nodes[k], now),
    ensures
        turn_from(nodes, turns, now, step) == super::node::soonest(nodes, nodes.len()),
    decreases nodes.len() - step,
{
    if step < nodes.len() {
        super::balancer::lemma_visited(nodes.len(), turns, step);
        assert(!is_available(nodes[visited(nodes.len(), turns, step)], now));
        lemma_none_available(nodes, turns, now, step + 1);
    }
}

/// Of the nodes that can be chosen, the one with the fewest requests serves, and of
/// several such the first.
pub proof fn law_the_least_busy_node_serves(nodes: Seq<BackendNode>, now: u64, i: int)
    requires
        0 <= i < nodes.len(),
        is_available(nodes[i], now),
    ensures
        0 <= first_free(nodes, now) < nodes.len(),
        is_available(nodes[first_free(nodes, now)], now),
        nodes[first_free(nodes, now)].active_requests <= nodes[i].active_requests,
        i < first_free(nodes, now) ==> nodes[first_free(nodes, now)].active_requests < nodes[i].active_requests,
{
    law_the_first_least_loaded_node_is_chosen(nodes, now, i);
}

/// A choice moves the turn on by one, and counts one more time that no node could
/// be chosen where none could, and only there.
pub proof fn law_a_choice_moves_the_turn_on(turns: nat, fallbacks: u64, nodes: Seq<BackendNode>, now: u64)
    requires
        turns < usize::MAX,
        fallbacks < u64::MAX,
    ensures
        next_turn(turns) == turns + 1,
        next_fallbacks(fallbacks, nodes, now) == if exists|i: int|
            0 <= i < nodes.len() && is_available(#[trigger] nodes[i], now) {
            fallbacks as int
        } else {
            fallbacks + 1
        },
{
    if exists|i: int| 0 <= i < nodes.len() && is_available(#[trigger] nodes[i], now) {
        let i = choose|i: int| 0 <= i < nodes.len() && is_available(#[trigger] nodes[i], now);
        assert(!cooling(nodes[i], now));
    } else {
        assert forall|i: int| 0 <= i < nodes.len() implies cooling(#[trigger] nodes[i], now) by {
            assert(!is_available(nodes[i], now));
        }
        assert(all_cooling(nodes, now));
    }
}

/// As long as every node can be chosen, `n` choices in a row of a balancer that
/// chooses in turn reach all of `n` nodes, each once.
pub proof fn law_every_node_has_its_turn(
    first: Seq<BackendNode>,
    then: Seq<BackendNode>,
    turns: nat,
    a: nat,
    b: nat,
    now: u64,
    later: u64,
)
    requires
        first.len() > 0,
        first.len() == then.len(),
        a < b < first.len(),
        forall|i: int| 0 <= i < first.len() ==> is_available(#[trigger] first[i], now),
        forall|i: int| 0 <= i < then.len() ==> is_available(#[trigger] then[i], later),
    ensures
        turn(first, turns + a, now) != turn(then, turns + b, later),
{
    let n = first.len() as int;
    assert forall|i: int| 0 <= i < first.len() implies !cooling(#[trigger] first[i], now) by {
        assert(is_available(first[i], now));
    }
    assert forall|i: int| 0 <= i < then.len() implies !cooling(#[trigger] then[i], later) by {
        assert(is_available(then[i], later));
    }
    super::round_robin::law_nodes_take_turns(first, turns + a, now);
    super::round_robin::law_nodes_take_turns(then, turns + b, later);
    let x = turns + a;
    let y = turns + b;
    if x as int % n == y as int % n {
        vstd::arithmetic::div_mod::lemma_fundamental_div_mod(x as int, n);
        vstd::arithmetic::div_mod::lemma_fundamental_div_mod(y as int, n);
        let p = x as int / n;
        let q = y as int / n;
        assert(n * q - n * p == b - a);
        assert(n * (q - p) == n * q - n * p) by (nonlinear_arith);
        assert(false) by (nonlinear_arith)
            requires
                n * (q - p) == b - a,
                0 < b - a < n,
        ;
    }
}

/// A claim adds one to the requests of one node, and nothing else changes; giving it
/// back takes one off.
pub proof fn law_a_claim_counts_one_request(before: Seq<BackendNode>, at: int, after: Seq<BackendNode>, i: int)
    requires
        claims_one(before, at, after),
        before[at].active_requests < usize::MAX,
        0 <= i < before.len(),
    ensures
        after.len() == before.len(),
        i != at ==> after[i] == before[i],
        after[at].active_requests == before[at].active_requests + 1,
        after[at] == (BackendNode { active_requests: after[at].active_requests, ..before[at] }),
        released(after[at]).active_requests == before[at].active_requests,
        released(after[at]) == before[at],
{
}

/// A path that begins with the prefix loses it, once; any other path stays. What is
/// left stands behind the base.
pub proof fn law_a_path_loses_its_prefix_once(base: Seq<char>, prefix: Seq<char>, rest: Seq<char>, path: Seq<char>)
    ensures
        without_prefix(prefix + rest, prefix) == rest,
        request_url(base, prefix + rest, Some(prefix)) == base + rest,
        (forall|tail: Seq<char>| path != #[trigger] (prefix + tail)) ==> without_prefix(path, prefix) == path
            && request_url(base, path, Some(prefix)) == base + path,
        request_url(base, path, None) == base + path,
{
    assert((prefix + rest).skip(prefix.len() as int) =~= rest);
    assert(prefix.is_prefix_of(prefix + rest)) by {
        assert((prefix + rest).subrange(0, prefix.len() as int) =~= prefix);
    }
    if forall|tail: Seq<char>| path != #[trigger] (prefix + tail) {
        if prefix.is_prefix_of(path) {
            let tail = path.skip(prefix.len() as int);
            assert(path =~= prefix + tail);
        }
    }
}

/// A base does not end in the character that is trimmed, and nothing but that
/// character was taken off.
pub proof fn law_only_the_end_is_trimmed(s: Seq<char>, c: char)
    ensures
        trimmed_end(s, c).len() <= s.len(),
        s.take(trimmed_end(s, c).len() as int) == trimmed_end(s, c),
        trimmed_end(s, c).len() > 0 ==> trimmed_end(s, c).last() != c,
        forall|i: int| trimmed_end(s, c).len() <= i < s.len() ==> #[trigger] s[i] == c,
    decreases s.len(),
{
    if s.len() > 0 && s.last() == c {
        let shorter = s.drop_last();
        law_only_the_end_is_trimmed(shorter, c);
        let t = trimmed_end(s, c);
        assert(s.take(t.len() as int) =~= shorter.take(t.len() as int));
        assert forall|i: int| t.len() <= i < s.len() implies #[trigger] s[i] == c by {
            if i < s.len() - 1 {
                assert(shorter[i] == s[i]);
            }
        }
    } else {
        assert(s.take(s.len() as int) =~= s);
    }
}

/// A node starts as it is configured: idle, and able to be chosen.
pub proof fn law_nodes_start_as_configured(configs: Seq<BackendNodeConfig>, now: u64, i: int)
    requires
        0 <= i < configs.len(),
    ensures
        fresh_nodes(configs, now).len() == configs.len(),
        ({
            let node = fresh_nodes(configs, now)[i];
            &&& node.url == configs[i].url
            &&& node.model == configs[i].model
            &&& node.api_key == configs[i].api_key
            &&& node.timeout_seconds == configs[i].timeout_seconds
            &&& node.strip_path_prefix == configs[i].strip_path_prefix
            &&& node.temperature == configs[i].temperature
            &&& node.active_requests == 0
            &&& forall|later: u64| is_available(node, later)
        }),
{
}

/// One more model is one more id where it has one that is a text.
pub proof fn law_one_more_model_is_one_more_id(models: Seq<JsonView>, model: JsonView)
    ensures
        ids_of(Seq::empty(), 0).len() == 0,
        model.get("id"@) is Some && model.get("id"@)->0 is Str ==> ids_of(models.push(model), models.len() + 1) == ids_of(
            models,
            models.len(),
        ).push(model.get("id"@)->0->Str_0),
        !(model.get("id"@) is Some && model.get("id"@)->0 is Str) ==> ids_of(models.push(model), models.len() + 1) == ids_of(
            models,
            models.len(),
        ),
{
    lemma_first_models(models, models.push(model), models.len());
}

proof fn lemma_first_models(a: Seq<JsonView>, b: Seq<JsonView>, n: nat)
    requires
        n <= a.len(),
        n <= b.len(),
        forall|i: int| 0 <= i < n ==> a[i] == b[i],
    ensures
        ids_of(a, n) == ids_of(b, n),
    decreases n,
{
    if n > 0 {
        lemma_first_models(a, b, (n - 1) as nat);
        assert(a[n - 1] == b[n - 1]);
    }
}

/// The models of an answer are its `data`; the largest context is the
/// `max_model_len` of the first of them, where it is a whole number.
pub proof fn law_the_first_model_tells_the_context(body: JsonView, models: Seq<JsonView>)
    ensures
        body.get("data"@) == Some(JsonView::Array(models)) ==> models_of(body) == models,
        body.get("data"@) == Some(JsonView::Array(models)) && models.len() > 0 ==> match models[0].get("max_model_len"@) {
            Some(JsonView::Unsigned(n)) => first_max_len(body) == Some(n),
            _ => first_max_len(body) is None,
        },
        body.get("data"@) is None || !(body.get("data"@)->0 is Array) ==> models_of(body).len() == 0 && first_max_len(
            body,
        ) is None,
{
}

/// A server is one of llama.cpp where its name holds `llama.cpp` anywhere, and
/// nowhere else.
pub proof fn law_which_servers_are_llama_cpp(server: Seq<char>)
    ensures
        names_llama_cpp(Some(server)) <==> exists|i: int| occurs_at(server, "llama.cpp"@, i),
        !names_llama_cpp(None),
{
    lemma_find(server, "llama.cpp"@, 0);
}

proof fn lemma_find(hay: Seq<char>, needle: Seq<char>, from: int)
    requires
        0 <= from <= hay.len() + 1,
    ensures
        find_from(hay, needle, from) is Some <==> exists|i: int| from <= i && occurs_at(hay, needle, i),
    decreases hay.len() + 1 - from,
{
    if from <= hay.len() {
        lemma_find(hay, needle, from + 1);
        if !occurs_at(hay, needle, from) && exists|i: int| from <= i && occurs_at(hay, needle, i) {
            let i = choose|i: int| from <= i && occurs_at(hay, needle, i);
            assert(from + 1 <= i);
        }
    }
}

/// What the number of models of a node means, with a model configured or without.
pub proof fn law_what_the_number_of_models_means(models: nat)
    requires
        models <= usize::MAX,
    ensures
        models == 0 ==> note_of(true, models) == ModelNote::NoModels && note_of(false, models) == ModelNote::NoModels,
        models == 1 ==> note_of(true, models) == ModelNote::AlreadyConfigured && note_of(false, models)
            == ModelNote::AutoMapped,
        models >= 2 ==> note_of(true, models) == ModelNote::Kept && note_of(false, models) == ModelNote::Ambiguous(
            models as usize,
        ),
{
}

/// An identity is shown only where both its certificate and its key are given.
pub proof fn law_an_identity_has_both_files(tls: TlsConfig)
    ensures
        identity_of(tls) is Some <==> tls.client_cert_path is Some && tls.client_key_path is Some,
        match identity_of(tls) {
            Some((cert, key)) => tls.client_cert_path == Some(cert) && tls.client_key_path == Some(key),
            None => true,
        },
{
}

/// A balancer of groups is made unless one group cannot be; then the first of those, in the
/// order of their names, is told.
pub proof fn law_the_first_group_that_fails_is_told(
    entries: Seq<(String, BackendGroupConfig)>,
    order: Seq<int>,
    k: int,
    at: int,
)
    requires
        0 <= k <= order.len(),
    ensures
        (forall|j: int|
            k <= j < order.len() ==> group_failure(
                entries[#[trigger] order[j]].1.strategy@,
                entries[order[j]].1.nodes@.len(),
            ) is None) ==> first_failure(entries, order, k) is None,
        k <= at < order.len() && group_failure(entries[order[at]].1.strategy@, entries[order[at]].1.nodes@.len()) is Some && (
        forall|j: int|
            k <= j < at ==> group_failure(
                entries[#[trigger] order[j]].1.strategy@,
                entries[order[j]].1.nodes@.len(),
            ) is None) ==> first_failure(entries, order, k) == group_failure(
            entries[order[at]].1.strategy@,
            entries[order[at]].1.nodes@.len(),
        ),
    decreases order.len() - k,
{
    if k < order.len() {
        law_the_first_group_that_fails_is_told(entries, order, k + 1, at);
    }
}

/// A group can be made where its strategy is known and it has a node; what is said
/// otherwise.
pub proof fn law_which_groups_can_be_made(strategy: Seq<char>, nodes: nat)
    ensures
        group_failure(strategy, nodes) is None <==> {
            &&& strategy == "round-robin"@ || strategy == "round_robin"@ || strategy == "priority-free"@ || strategy
                == "priority_free"@
            &&& nodes > 0
        },
        nodes == 0 && (strategy == "round-robin"@ || strategy == "round_robin"@) ==> group_failure(strategy, nodes) == Some(
            "RoundRobinBalancer requires at least one node"@,
        ),
        nodes == 0 && (strategy == "priority-free"@ || strategy == "priority_free"@) ==> group_failure(strategy, nodes) == Some(
            "PriorityFreeBalancer requires at least one node"@,
        ),
        strategy != "round-robin"@ && strategy != "round_robin"@ && strategy != "priority-free"@ && strategy
            != "priority_free"@ ==> group_failure(strategy, nodes) == Some(
            "Unknown load balancer strategy: '"@ + strategy + "'. Supported: priority-free, round-robin"@,
        ),
{
    crate::config::laws::law_strategies_have_two_spellings(strategy);
}

/// A group is what its configuration says: its name, its models in their order, whether it
/// is exclusive, its nodes, and how one of them is chosen.
pub proof fn law_groups_are_as_configured(group: BackendGroup, name: Seq<char>, config: BackendGroupConfig, now: u64, i: int)
    requires
        is_configured(group, name, config, now),
        group_failure(config.strategy@, config.nodes@.len()) is None,
    ensures
        group.name@ == name,
        group.exclusive == config.exclusive,
        group.mappings@.len() == config.mappings@.len(),
        0 <= i < config.mappings@.len() ==> group.mappings@[i]@ == config.mappings@[i]@,
        group.balancer.nodes_view().len() == config.nodes@.len(),
        0 <= i < config.nodes@.len() ==> group.balancer.nodes_view()[i].url == config.nodes@[i].url,
        config.strategy@ == "round_robin"@ || config.strategy@ == "round-robin"@ ==> group.balancer is RoundRobin,
        config.strategy@ == "priority_free"@ || config.strategy@ == "priority-free"@ ==> group.balancer is PriorityFree,
{
    crate::config::laws::law_strategies_have_two_spellings(config.strategy@);
    assert(texts(group.mappings@).len() == group.mappings@.len());
    assert(texts(config.mappings@).len() == config.mappings@.len());
    if 0 <= i < config.mappings@.len() {
        assert(texts(group.mappings@)[i] == texts(config.mappings@)[i]);
    }
}

/// A balancer of a group chooses by its own strategy.
pub proof fn law_a_group_chooses_by_its_strategy(balancer: GroupBalancer, now: u64)
    ensures
        match balancer {
            GroupBalancer::RoundRobin(b) => balancer.choice(now) == turn(b.nodes_view(), b.turns(), now),
            GroupBalancer::PriorityFree(b) => balancer.choice(now) == first_free(b.nodes_view(), now),
        },
{
}

/// A choice leaves the strategy of a group as it is and moves the turn of a balancer that
/// chooses in turn on by one; a claim that is given back moves nothing.
pub proof fn law_a_group_takes_its_turn(before: GroupBalancer, after: GroupBalancer, now: u64)
    ensures
        takes_turn(before, after, now) || keeps_turn(before, after) ==> (before is RoundRobin <==> after is RoundRobin),
        takes_turn(before, after, now) && before is RoundRobin && before->RoundRobin_0.turns() < usize::MAX
            ==> after->RoundRobin_0.turns() == before->RoundRobin_0.turns() + 1,
        takes_turn(before, after, now) && before is RoundRobin && (exists|i: int|
            0 <= i < before.nodes_view().len() && is_available(#[trigger] before.nodes_view()[i], now))
            ==> after->RoundRobin_0.fallbacks() == before->RoundRobin_0.fallbacks(),
        keeps_turn(before, after) && before is RoundRobin ==> after->RoundRobin_0.turns() == before->RoundRobin_0.turns()
            && after->RoundRobin_0.fallbacks() == before->RoundRobin_0.fallbacks(),
{
    if takes_turn(before, after, now) && before is RoundRobin {
        let nodes = before.nodes_view();
        if exists|i: int| 0 <= i < nodes.len() && is_available(#[trigger] nodes[i], now) {
            let i = choose|i: int| 0 <= i < nodes.len() && is_available(#[trigger] nodes[i], now);
            assert(!cooling(nodes[i], now));
            assert(!all_cooling(nodes, now));
        }
    }
}

/// What happens in one group leaves every other group, and the name, the models and the
/// exclusiveness of the group itself, as they were.
pub proof fn law_other_groups_are_left_alone(before: Seq<BackendGroup>, after: Seq<BackendGroup>, g: int, i: int)
    requires
        only_balancer_changes(before, after, g),
        0 <= i < before.len(),
    ensures
        after.len() == before.len(),
        i != g ==> after[i] == before[i],
        after[i].name == before[i].name,
        after[i].mappings == before[i].mappings,
        after[i].exclusive == before[i].exclusive,
{
    assert(after[i] == before.update(g, BackendGroup { balancer: after[g].balancer, ..before[g] })[i]);
}

/// The nodes of all groups are those of the first, then those of the next, and so on.
pub proof fn law_all_nodes_stand_group_by_group(groups: Seq<BackendGroup>, group: BackendGroup)
    ensures
        flat(Seq::empty(), 0).len() == 0,
        flat(groups.push(group), groups.len() + 1) == flat(groups, groups.len()) + group.balancer.nodes_view(),
        flat_place(groups, 0, 0) == 0,
{
    lemma_first_groups(groups, groups.push(group), groups.len());
}

proof fn lemma_first_groups(a: Seq<BackendGroup>, b: Seq<BackendGroup>, n: nat)
    requires
        n <= a.len(),
        n <= b.len(),
        forall|i: int| 0 <= i < n ==> a[i] == b[i],
    ensures
        flat(a, n) == flat(b, n),
    decreases n,
{
    if n > 0 {
        lemma_first_groups(a, b, (n - 1) as nat);
        assert(a[n - 1] == b[n - 1]);
    }
}

/// A route leads to the group that it names, and nowhere means no group.
pub proof fn law_where_a_route_leads(g: usize)
    ensures
        group_at(Route::Mapped(g)) == Some(g as int),
        group_at(Route::CatchAll(g)) == Some(g as int),
        group_at(Route::Fallback(g)) == Some(g as int),
        group_at(Route::Nowhere) is None,
{
}

/// The names of the strategies are those under which they can be configured.
pub proof fn law_strategies_are_called_as_configured(balancer: GroupBalancer)
    ensures
        match balancer {
            GroupBalancer::RoundRobin(_) => balancer.strategy_view() == "round_robin"@ && strategy_spelled(
                balancer.strategy_view(),
            ) == Some(BalancingStrategy::RoundRobin),
            GroupBalancer::PriorityFree(_) => balancer.strategy_view() == "priority_free"@ && strategy_spelled(
                balancer.strategy_view(),
            ) == Some(BalancingStrategy::PriorityFree),
        },
{
    crate::config::laws::law_strategies_have_two_spellings(balancer.strategy_view());
}

/// A client that asks before the start is built as any other, but waits ten seconds at most.
pub proof fn law_questions_differ_only_in_their_timeout(
    timeout: u64,
    tls: Option<&TlsConfig>,
    forwarding: ClientPlan,
    asking: ClientPlan,
)
    requires
        call_ensures(plan_node_client, (timeout, tls), forwarding),
        call_ensures(plan_preflight_client, (timeout, tls), asking),
    ensures
        forwarding.timeout_seconds == timeout,
        asking.timeout_seconds <= 10,
        timeout <= 10 ==> asking.timeout_seconds == timeout,
        timeout >= 10 ==> asking.timeout_seconds == 10,
        asking == (ClientPlan { timeout_seconds: asking.timeout_seconds, ..forwarding }),
        forwarding.connect_timeout_seconds == 5,
        forwarding.max_idle_connections == 10,
        tls is None ==> !forwarding.accept_invalid_certs && forwarding.ca_cert_path is None && forwarding.identity_paths is None,
        tls is Some ==> forwarding.accept_invalid_certs == tls->0.accept_invalid_certs && forwarding.ca_cert_path
            == tls->0.ca_cert_path,
{
}

/// A node is asked for its models under its URL, as any other request is sent to it.
pub proof fn law_where_models_are_asked_for(
    url: &str,
    base: &str,
    prefix: Option<&str>,
    asked: String,
    sent: String,
    path: &str,
)
    requires
        call_ensures(models_url, (url, prefix), asked),
        call_ensures(node_url, (base, path, prefix), sent),
        base@ == trimmed_end(url@, '/'),
        path@ == "/v1/models"@,
    ensures
        asked@ == sent@,
        prefix is None ==> asked@ == base@ + "/v1/models"@,
{
}

/// A request is authorized by the key of its node, and not without one.
pub proof fn law_requests_are_authorized_by_key(key: Option<&str>, header: Option<String>)
    requires
        call_ensures(auth_header, (key,), header),
    ensures
        header is Some <==> key is Some,
        key is Some ==> header->0@ == "Bearer "@ + key->0@,
{
}

} // verus!
