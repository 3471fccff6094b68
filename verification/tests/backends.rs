use llama_proxy::backends::balancer::candidate_order;
use llama_proxy::backends::grouped::Route;
use llama_proxy::backends::node::{auth_header, node_url, soonest_recovering_node, CONNECT_TIMEOUT_SECS};
use llama_proxy::backends::{
    build_balancer_for_group, build_balancer_from_groups, build_balancer_from_single, BackendGuard, BackendNode,
    BalancingStrategy, GroupedLoadBalancer, LoadBalancer, PriorityFreeBalancer, RoundRobinBalancer,
};
use llama_proxy::config::{BackendGroupConfig, BackendNodeConfig};
use llama_proxy::text_map::TextMap;
use std::time::Duration;

const SECOND: u64 = 1_000_000_000;

fn make_test_node(url: &str) -> BackendNode {
    BackendNode::from_config(url.to_string(), 300, None, None, None, None, 0)
}

fn busy_node(url: &str, active_requests: usize) -> BackendNode {
    BackendNode { active_requests, ..make_test_node(url) }
}

/// Selects a node, gives it back and says which one it was.
fn chosen<B: LoadBalancer>(balancer: &mut B, model: Option<&str>) -> String {
    let guard = balancer.select(model, 0).unwrap();
    let url = balancer.node(&guard).base_url().to_string();
    balancer.release(guard);
    url
}

fn group_of(balancer: &mut GroupedLoadBalancer, model: Option<&str>) -> Option<String> {
    let guard = balancer.select(model, 0).unwrap();
    let name = guard.group_name.clone();
    balancer.release(guard);
    name
}

fn active<B: LoadBalancer>(balancer: &B, i: usize) -> usize {
    balancer.all_nodes()[i].active_requests
}

fn at(node: usize) -> BackendGuard {
    BackendGuard { group: 0, node, group_name: None }
}

#[test]
fn candidate_order_walks_one_rotation_for_every_strategy() {
    assert_eq!(candidate_order(3, 0), vec![0, 1, 2], "start=0 must visit lowest index first");
    assert_eq!(candidate_order(3, 2), vec![2, 0, 1], "the walk must wrap around the end");
    assert_eq!(candidate_order(3, 5), vec![2, 0, 1], "start=5 must reduce to start=2");
    assert_eq!(candidate_order(2, usize::MAX), vec![1, 0]);
}

#[test]
fn candidate_order_yields_nodes_matching_their_indices() {
    let nodes = [make_test_node("http://a"), make_test_node("http://b")];
    let seen: Vec<(usize, String)> =
        candidate_order(nodes.len(), 1).into_iter().map(|idx| (idx, nodes[idx].base_url().to_string())).collect();
    assert_eq!(
        seen,
        vec![(1, "http://b".to_string()), (0, "http://a".to_string())],
        "the yielded node must be the node at the yielded index"
    );
}

#[test]
fn candidate_order_on_empty_nodes_is_empty_not_a_panic() {
    assert_eq!(candidate_order(0, 7).len(), 0);
}

#[test]
fn test_build_balancer_for_group_round_robin() {
    let nodes = vec![make_test_node("http://localhost:8080")];
    let balancer = build_balancer_for_group(nodes, "round_robin").unwrap();
    assert_eq!(balancer.strategy_name(), "round_robin");
}

#[test]
fn test_build_balancer_for_group_priority_free() {
    let nodes = vec![make_test_node("http://localhost:8080")];
    let balancer = build_balancer_for_group(nodes, "priority_free").unwrap();
    assert_eq!(balancer.strategy_name(), "priority_free");
}

#[test]
fn test_build_balancer_for_group_unknown_strategy() {
    let nodes = vec![make_test_node("http://localhost:8080")];
    let result = build_balancer_for_group(nodes, "bogus");
    assert!(result.is_err());
    assert!(result.err().unwrap().contains("bogus"));
}

#[test]
fn test_build_balancer_for_group_selects_node() {
    let nodes = vec![make_test_node("http://localhost:8080")];
    let mut balancer = build_balancer_for_group(nodes, "priority_free").unwrap();
    assert_eq!(chosen(&mut balancer, None), "http://localhost:8080");
}

#[test]
fn strategy_serde_takes_kebab_plus_snake_aliases() {
    let parse = |s: &str| BalancingStrategy::from_spelling(s).ok();
    assert_eq!(parse("priority-free"), Some(BalancingStrategy::PriorityFree));
    assert_eq!(parse("priority_free"), Some(BalancingStrategy::PriorityFree));
    assert_eq!(parse("round-robin"), Some(BalancingStrategy::RoundRobin));
    assert_eq!(parse("round_robin"), Some(BalancingStrategy::RoundRobin));
    assert_eq!(parse("least_busy"), None, "unknown spellings stay rejected");
}

#[test]
fn strategy_default_is_priority_free_per_plan() {
    assert_eq!(BalancingStrategy::default(), BalancingStrategy::PriorityFree);
    assert_eq!("round_robin".parse::<BalancingStrategy>().unwrap(), BalancingStrategy::RoundRobin);
}

#[test]
fn build_balancer_for_group_takes_both_spellings() {
    let nodes = vec![make_test_node("http://localhost:8080")];
    assert_eq!(build_balancer_for_group(nodes, "priority-free").unwrap().strategy_name(), "priority_free");
    let nodes = vec![make_test_node("http://localhost:8080")];
    assert_eq!(build_balancer_for_group(nodes, "round-robin").unwrap().strategy_name(), "round_robin");
}

#[test]
fn test_build_balancer_from_groups() {
    let mut groups = TextMap::new();
    groups.insert("test".to_string(), make_group_config(vec![], vec!["http://localhost:8080"]));

    let balancer = build_balancer_from_groups(&groups, 0).unwrap();
    assert_eq!(balancer.strategy_name(), "grouped");
}

#[test]
fn connect_timeout_is_five_seconds() {
    assert_eq!(Duration::from_secs(CONNECT_TIMEOUT_SECS), Duration::from_secs(5));
}

#[test]
fn node_url_applies_the_prefix_exactly_once() {
    assert_eq!(node_url("http://h:1", "/v1/models", Some("/v1")), "http://h:1/models");
    assert_eq!(node_url("http://h:1", "/v1/models", None), "http://h:1/v1/models");
    assert_eq!(
        node_url("http://h:1", "/v1/models", Some("/日本")),
        "http://h:1/v1/models",
        "non-prefix leaves the path untouched"
    );
    assert_eq!(
        node_url("http://h:1", "/v1/models", Some("/v1/models")),
        "http://h:1",
        "degenerate prefix==path strips to root"
    );
    assert_eq!(
        node_url("http://h:1", "/props", Some("/v1")),
        "http://h:1/props",
        "true prefix of a native path is NOT stripped away by accident"
    );
    assert_eq!(
        node_url("http://h:1", "/v1/日本語", Some("/v1")),
        "http://h:1/日本語",
        "multibyte tail survives"
    );
}

fn cooldown_node() -> BackendNode {
    BackendNode::from_config("http://127.0.0.1:1".to_string(), 300, None, None, None, None, 7)
}

#[test]
fn fresh_node_is_selectable() {
    let node = cooldown_node();
    assert!(!node.in_cooldown(7), "a fresh node must be selectable");
    assert!(node.cooldown_expiry() <= 7, "an unfailed node must report an already-past expiry");
}

#[test]
fn mark_failed_cools_the_node_until_expiry() {
    let mut node = cooldown_node();
    let t0 = 100 * SECOND;
    node.mark_failed(t0, 30 * SECOND);
    assert!(node.in_cooldown(t0 + SECOND), "1s into a 30s window the node must be cooled");
    assert!(
        !node.in_cooldown(t0 + 31 * SECOND),
        "31s past marking, the window must have expired and the node selectable again"
    );
    assert_eq!(node.cooldown_expiry(), t0 + 30 * SECOND);
    assert!(!node.in_cooldown(t0 + 30 * SECOND));
}

#[test]
fn mark_healthy_clears_the_cooldown_immediately() {
    let mut node = cooldown_node();
    node.mark_failed(0, 30 * SECOND);
    assert!(node.in_cooldown(0));
    node.mark_healthy();
    assert!(!node.in_cooldown(0), "a success must end the cooldown without waiting for the window");
}

#[test]
fn zero_cooldown_never_excludes() {
    let mut node = cooldown_node();
    node.mark_failed(SECOND, 0);
    assert!(!node.in_cooldown(SECOND), "a zero-duration failure must never take the node out of selection");
}

#[test]
fn a_node_counts_its_requests() {
    let mut node = cooldown_node();
    node.claim();
    node.claim();
    assert_eq!(node.active_requests, 2);
    node.release();
    node.release();
    node.release();
    assert_eq!(node.active_requests, 0, "a node without requests stays without");
}

#[test]
fn a_node_asks_for_its_own_path() {
    let mut node = make_test_node("http://h:1//");
    assert_eq!(node.base_url(), "http://h:1");
    assert_eq!(node.effective_path("/v1/models"), "/v1/models");
    node.strip_path_prefix = Some("/v1".to_string());
    assert_eq!(node.effective_path("/v1/models"), "/models");
    assert_eq!(auth_header(Some("k")), Some("Bearer k".to_string()));
    assert_eq!(auth_header(None), None);
}

#[test]
fn test_single_node_always_selected() {
    let mut balancer = PriorityFreeBalancer::new(vec![make_test_node("http://localhost:8080")]).unwrap();
    assert_eq!(chosen(&mut balancer, None), "http://localhost:8080");
    assert_eq!(chosen(&mut balancer, None), "http://localhost:8080");
}

#[test]
fn test_first_free_wins() {
    let nodes = vec![
        make_test_node("http://localhost:8080"),
        make_test_node("http://localhost:8081"),
        make_test_node("http://localhost:8082"),
    ];
    let mut balancer = PriorityFreeBalancer::new(nodes).unwrap();

    assert_eq!(chosen(&mut balancer, None), "http://localhost:8080");
    assert_eq!(chosen(&mut balancer, None), "http://localhost:8080");
}

#[test]
fn test_skips_busy_nodes() {
    let nodes = vec![
        busy_node("http://localhost:8080", 1),
        busy_node("http://localhost:8081", 1),
        make_test_node("http://localhost:8082"),
    ];
    let mut balancer = PriorityFreeBalancer::new(nodes).unwrap();
    assert_eq!(chosen(&mut balancer, None), "http://localhost:8082");
}

#[test]
fn test_all_busy_picks_least_loaded() {
    let nodes = vec![
        busy_node("http://localhost:8080", 3),
        busy_node("http://localhost:8081", 1),
        busy_node("http://localhost:8082", 2),
    ];
    let mut balancer = PriorityFreeBalancer::new(nodes).unwrap();
    assert_eq!(chosen(&mut balancer, None), "http://localhost:8081");
}

#[test]
fn test_all_busy_tie_picks_lowest_index() {
    let nodes = vec![
        busy_node("http://localhost:8080", 2),
        busy_node("http://localhost:8081", 2),
        busy_node("http://localhost:8082", 2),
    ];
    let mut balancer = PriorityFreeBalancer::new(nodes).unwrap();
    assert_eq!(chosen(&mut balancer, None), "http://localhost:8080");
}

#[test]
fn test_guard_decrements_on_drop() {
    let mut balancer = PriorityFreeBalancer::new(vec![make_test_node("http://localhost:8080")]).unwrap();

    assert_eq!(active(&balancer, 0), 0);
    let guard = balancer.select(None, 0).unwrap();
    assert_eq!(active(&balancer, 0), 1);
    balancer.release(guard);
    assert_eq!(active(&balancer, 0), 0);
}

#[test]
fn test_empty_nodes_error() {
    let result = PriorityFreeBalancer::new(vec![]);
    assert!(result.is_err());
}

#[test]
fn priority_free_test_strategy_name() {
    let balancer = PriorityFreeBalancer::new(vec![make_test_node("http://localhost:8080")]).unwrap();
    assert_eq!(balancer.strategy_name(), "priority_free");
}

#[test]
fn test_five_nodes_example_from_spec() {
    let nodes = vec![
        busy_node("http://localhost:8080", 1),
        busy_node("http://localhost:8081", 1),
        make_test_node("http://localhost:8082"),
        busy_node("http://localhost:8083", 1),
        make_test_node("http://localhost:8084"),
    ];
    let mut balancer = PriorityFreeBalancer::new(nodes).unwrap();
    assert_eq!(chosen(&mut balancer, None), "http://localhost:8082");
}

#[test]
fn priority_free_test_model_parameter_ignored() {
    let nodes = vec![busy_node("http://localhost:8080", 1), make_test_node("http://localhost:8081")];
    let mut balancer = PriorityFreeBalancer::new(nodes).unwrap();

    assert_eq!(chosen(&mut balancer, Some("haiku")), "http://localhost:8081");
    assert_eq!(chosen(&mut balancer, Some("sonnet")), "http://localhost:8081");
    assert_eq!(chosen(&mut balancer, None), "http://localhost:8081");
}

#[test]
fn every_claim_counts_once_while_all_nodes_are_busy() {
    let nodes = vec![busy_node("http://localhost:8080", 8), busy_node("http://localhost:8081", 8)];
    let mut balancer = PriorityFreeBalancer::new(nodes).unwrap();
    let mut guards = Vec::new();
    for _ in 0..8 {
        guards.push(balancer.select(None, 0).unwrap());
    }
    assert_eq!((active(&balancer, 0), active(&balancer, 1)), (12, 12));
    for guard in guards {
        balancer.release(guard);
    }
    assert_eq!((active(&balancer, 0), active(&balancer, 1)), (8, 8));
}

#[test]
fn a_free_node_is_claimed_before_any_is_claimed_twice() {
    let nodes = vec![make_test_node("http://a"), make_test_node("http://b"), make_test_node("http://c")];
    let mut balancer = PriorityFreeBalancer::new(nodes).unwrap();
    let claimed: Vec<usize> = (0..4).map(|_| balancer.select(None, 0).unwrap().node).collect();
    assert_eq!(claimed, vec![0, 1, 2, 0]);
}

#[test]
fn test_round_robin_cycling() {
    let nodes = vec![
        make_test_node("http://localhost:8080"),
        make_test_node("http://localhost:8081"),
        make_test_node("http://localhost:8082"),
    ];
    let mut balancer = RoundRobinBalancer::new(nodes).unwrap();

    assert_eq!(chosen(&mut balancer, None), "http://localhost:8080");
    assert_eq!(chosen(&mut balancer, None), "http://localhost:8081");
    assert_eq!(chosen(&mut balancer, None), "http://localhost:8082");
    assert_eq!(chosen(&mut balancer, None), "http://localhost:8080");
}

#[test]
fn test_round_robin_single_node() {
    let mut balancer = RoundRobinBalancer::new(vec![make_test_node("http://localhost:8080")]).unwrap();

    assert_eq!(chosen(&mut balancer, None), "http://localhost:8080");
    assert_eq!(chosen(&mut balancer, None), "http://localhost:8080");
}

#[test]
fn test_round_robin_empty_nodes_error() {
    let result = RoundRobinBalancer::new(vec![]);
    assert!(result.is_err());
}

#[test]
fn round_robin_test_strategy_name() {
    let balancer = RoundRobinBalancer::new(vec![make_test_node("http://localhost:8080")]).unwrap();
    assert_eq!(balancer.strategy_name(), "round_robin");
}

#[test]
fn round_robin_test_all_nodes() {
    let nodes = vec![make_test_node("http://localhost:8080"), make_test_node("http://localhost:8081")];
    let balancer = RoundRobinBalancer::new(nodes).unwrap();
    assert_eq!(balancer.all_nodes().len(), 2);
}

#[test]
fn test_guard_increments_and_decrements() {
    let mut balancer = RoundRobinBalancer::new(vec![make_test_node("http://localhost:8080")]).unwrap();

    assert_eq!(active(&balancer, 0), 0);
    let guard = balancer.select(None, 0).unwrap();
    assert_eq!(active(&balancer, 0), 1);
    balancer.release(guard);
    assert_eq!(active(&balancer, 0), 0);
}

#[test]
fn test_guard_multiple_concurrent() {
    let mut balancer = RoundRobinBalancer::new(vec![make_test_node("http://localhost:8080")]).unwrap();

    let g1 = balancer.select(None, 0).unwrap();
    let g2 = balancer.select(None, 0).unwrap();
    assert_eq!(active(&balancer, 0), 2);
    balancer.release(g1);
    assert_eq!(active(&balancer, 0), 1);
    balancer.release(g2);
    assert_eq!(active(&balancer, 0), 0);
}

#[test]
fn round_robin_test_model_parameter_ignored() {
    let nodes = vec![make_test_node("http://localhost:8080"), make_test_node("http://localhost:8081")];
    let mut balancer = RoundRobinBalancer::new(nodes).unwrap();

    assert_eq!(chosen(&mut balancer, Some("haiku")), "http://localhost:8080");
    assert_eq!(chosen(&mut balancer, Some("sonnet")), "http://localhost:8081");
    assert_eq!(chosen(&mut balancer, None), "http://localhost:8080");
}

#[test]
fn cooled_nodes_are_skipped_while_a_healthy_one_remains() {
    let a = make_test_node("http://localhost:8080");
    let mut b = make_test_node("http://localhost:8081");
    b.mark_failed(0, 30 * SECOND);
    assert!(
        b.in_cooldown(SECOND) && !b.in_cooldown(31 * SECOND),
        "the cooled node's window must exclude it now and release it after 30s"
    );

    let mut balancer = RoundRobinBalancer::new(vec![a, b]).unwrap();
    for round in 0..4 {
        assert_eq!(
            chosen(&mut balancer, None),
            "http://localhost:8080",
            "round {round}: the cycle must step over the cooled node"
        );
    }
    assert_eq!(balancer.fallback_count(), 0);
}

#[test]
fn all_cooled_fallback_returns_the_soonest_expiry_node() {
    let mut a = make_test_node("http://localhost:8080");
    let mut b = make_test_node("http://localhost:8081");
    b.mark_failed(0, 30 * SECOND);
    a.mark_failed(1, 30 * SECOND);
    assert_eq!(soonest_recovering_node(&[a, b]), 1);

    let mut a = make_test_node("http://localhost:8080");
    let mut b = make_test_node("http://localhost:8081");
    b.mark_failed(0, 30 * SECOND);
    a.mark_failed(1, 30 * SECOND);
    let mut balancer = RoundRobinBalancer::new(vec![a, b]).unwrap();
    let guard = balancer.select(None, 2).unwrap();
    assert_eq!(
        balancer.node(&guard).base_url(),
        "http://localhost:8081",
        "with every node cooled, the soonest-expiring one (b was marked first) must serve"
    );
    assert_eq!(active(&balancer, 1), 1);
    assert_eq!(balancer.fallback_count(), 1);
    assert!(balancer.fallback_is_logged());
    balancer.release(guard);

    balancer.node_mut(&at(1)).mark_healthy();
    let guard = balancer.select(None, 2).unwrap();
    assert_eq!(
        balancer.node(&guard).base_url(),
        "http://localhost:8081",
        "the recovered node must re-enter rotation immediately"
    );
}

fn make_group_config(mappings: Vec<&str>, urls: Vec<&str>) -> BackendGroupConfig {
    BackendGroupConfig {
        mappings: mappings.iter().map(|s| s.to_string()).collect(),
        strategy: "round_robin".to_string(),
        failure_cooldown_secs: 30,
        exclusive: false,
        nodes: urls
            .iter()
            .map(|url| BackendNodeConfig {
                url: url.to_string(),
                timeout_seconds: 300,
                tls: None,
                model: None,
                api_key: None,
                strip_path_prefix: None,
                temperature: None,
            })
            .collect(),
    }
}

fn grouped(groups: Vec<(&str, BackendGroupConfig)>) -> GroupedLoadBalancer {
    let mut map = TextMap::new();
    for (name, group) in groups {
        map.insert(name.to_string(), group);
    }
    GroupedLoadBalancer::new(&map, 0).unwrap()
}

#[test]
fn test_grouped_balancer_model_routing() {
    let mut balancer = grouped(vec![
        ("opus", make_group_config(vec!["opus", "opus4.5"], vec!["http://localhost:8080"])),
        ("haiku", make_group_config(vec!["haiku"], vec!["http://localhost:8081"])),
    ]);

    assert_eq!(chosen(&mut balancer, Some("opus")), "http://localhost:8080");
    assert_eq!(chosen(&mut balancer, Some("opus4.5")), "http://localhost:8080");
    assert_eq!(chosen(&mut balancer, Some("haiku")), "http://localhost:8081");
    assert_eq!(chosen(&mut balancer, Some("unknown")), "http://localhost:8081");
    assert_eq!(chosen(&mut balancer, None), "http://localhost:8081");
}

#[test]
fn test_grouped_balancer_catch_all() {
    let mut balancer = grouped(vec![
        ("opus", make_group_config(vec!["opus"], vec!["http://localhost:8080"])),
        ("catch_all", make_group_config(vec![], vec!["http://localhost:8081"])),
    ]);

    assert_eq!(chosen(&mut balancer, Some("opus")), "http://localhost:8080");
    assert_eq!(chosen(&mut balancer, Some("unknown")), "http://localhost:8081");
    assert_eq!(chosen(&mut balancer, None), "http://localhost:8081");
}

#[test]
fn test_grouped_balancer_only_catch_all() {
    let mut balancer = grouped(vec![("catch_all", make_group_config(vec![], vec!["http://localhost:8080"]))]);

    assert_eq!(chosen(&mut balancer, Some("anything")), "http://localhost:8080");
    assert_eq!(chosen(&mut balancer, None), "http://localhost:8080");
}

#[test]
fn test_grouped_balancer_empty_groups() {
    let mut balancer = grouped(vec![]);

    let result = balancer.select(Some("anything"), 0);
    assert!(result.is_err(), "select on empty groups is an honest error, not a panic");
    assert_eq!(result.unwrap_err().requested_model.as_deref(), Some("anything"));
    assert!(balancer.select(None, 0).is_err());
    assert!(balancer.all_nodes().is_empty());
}

#[test]
fn test_grouped_balancer_multiple_nodes_in_group() {
    let mut balancer = grouped(vec![(
        "haiku",
        make_group_config(vec!["haiku"], vec!["http://localhost:8080", "http://localhost:8081"]),
    )]);

    let guard1 = balancer.select(Some("haiku"), 0).unwrap();
    let guard2 = balancer.select(Some("haiku"), 0).unwrap();

    assert_ne!(balancer.node(&guard1).base_url(), balancer.node(&guard2).base_url());
}

#[test]
fn grouped_test_strategy_name() {
    assert_eq!(grouped(vec![]).strategy_name(), "grouped");
}

#[test]
fn grouped_test_all_nodes() {
    let balancer = grouped(vec![
        ("g1", make_group_config(vec!["a"], vec!["http://localhost:8080"])),
        ("g2", make_group_config(vec!["b"], vec!["http://localhost:8081"])),
    ]);
    assert_eq!(balancer.all_nodes().len(), 2);
}

#[test]
fn duplicate_mapping_resolves_to_the_first_sorted_group() {
    let mut balancer = grouped(vec![
        ("zeta", make_group_config(vec!["dup"], vec!["http://localhost:8080"])),
        ("alpha", make_group_config(vec!["dup"], vec!["http://localhost:8081"])),
    ]);
    assert_eq!(group_of(&mut balancer, Some("dup")).as_deref(), Some("alpha"));
}

#[test]
fn no_catch_all_falls_back_to_first_sorted_group() {
    let mut balancer = grouped(vec![
        ("zulu", make_group_config(vec!["m1"], vec!["http://localhost:8080"])),
        ("alpha", make_group_config(vec!["m2"], vec!["http://localhost:8081"])),
    ]);
    assert_eq!(group_of(&mut balancer, Some("other")).as_deref(), Some("alpha"));
    assert_eq!(group_of(&mut balancer, None).as_deref(), Some("alpha"));
    assert_eq!(group_of(&mut balancer, Some("m2")).as_deref(), Some("alpha"));
    assert_eq!(group_of(&mut balancer, Some("m1")).as_deref(), Some("zulu"));
    assert_eq!(balancer.find_group(Some("other")), Route::Fallback(0));
    assert_eq!(balancer.find_group(Some("m1")), Route::Mapped(1));
}

#[test]
fn catch_all_outranks_positional_fallback() {
    let mut balancer = grouped(vec![
        ("aaa_specific", make_group_config(vec!["mine"], vec!["http://localhost:8080"])),
        ("zzz_catch", make_group_config(vec![], vec!["http://localhost:8081"])),
    ]);
    assert_eq!(
        group_of(&mut balancer, Some("nope")).as_deref(),
        Some("zzz_catch"),
        "an explicit catch-all beats positional fallback even when it sorts last"
    );
    assert_eq!(group_of(&mut balancer, Some("mine")).as_deref(), Some("aaa_specific"));
    assert_eq!(balancer.find_group(None), Route::CatchAll(1));
}

#[test]
fn exclusive_from_config_is_not_fallback_target() {
    let mut cfg = make_group_config(vec!["m1"], vec!["http://localhost:8080"]);
    cfg.exclusive = true;
    let mut balancer = grouped(vec![("solo", cfg)]);
    assert_eq!(
        chosen(&mut balancer, Some("m1")),
        "http://localhost:8080",
        "exclusive group still serves its own mappings"
    );
    assert!(
        balancer.select(Some("other"), 0).is_err(),
        "config exclusive: true must reach find_group — no positional fallback"
    );
    assert!(balancer.select(None, 0).is_err());
    assert_eq!(balancer.find_group(None), Route::Nowhere);
}

#[test]
fn exclusive_groups_are_not_fallback_targets() {
    let mut cfg = make_group_config(vec!["m1"], vec!["http://localhost:8080"]);
    cfg.exclusive = true;
    let mut lb = grouped(vec![("solo", cfg)]);
    assert_eq!(chosen(&mut lb, Some("m1")), "http://localhost:8080", "exclusive still serves its own mappings");
    assert!(lb.select(Some("other"), 0).is_err(), "exclusive opted out of positional fallback");
    assert!(lb.select(None, 0).is_err());
}

#[test]
fn exclusive_group_sorting_first_yields_fallback_to_first_inclusive_group() {
    let mut aaa = make_group_config(vec!["m1"], vec!["http://localhost:8080"]);
    aaa.exclusive = true;
    let mut balancer =
        grouped(vec![("aaa", aaa), ("bbb", make_group_config(vec!["m2"], vec!["http://localhost:8081"]))]);
    assert_eq!(
        group_of(&mut balancer, Some("nope")).as_deref(),
        Some("bbb"),
        "sorted-first aaa opted out; the positional fallback moves to the first non-exclusive group"
    );
    assert_eq!(group_of(&mut balancer, Some("m1")).as_deref(), Some("aaa"));
}

#[test]
fn catch_all_group_with_exclusive_still_catches_all() {
    let mut catch = make_group_config(vec![], vec!["http://localhost:8081"]);
    catch.exclusive = true;
    let mut balancer = grouped(vec![
        ("aaa_specific", make_group_config(vec!["mine"], vec!["http://localhost:8080"])),
        ("zzz_catch", catch),
    ]);
    assert_eq!(group_of(&mut balancer, Some("nope")).as_deref(), Some("zzz_catch"));
    assert_eq!(group_of(&mut balancer, None).as_deref(), Some("zzz_catch"));
}

#[test]
fn a_claim_of_a_group_is_given_back_to_it() {
    let mut balancer = grouped(vec![
        ("a", make_group_config(vec!["x"], vec!["http://localhost:8080"])),
        ("b", make_group_config(vec!["y"], vec!["http://localhost:8081"])),
    ]);
    let guard = balancer.select(Some("y"), 0).unwrap();
    assert_eq!((active(&balancer, 0), active(&balancer, 1)), (0, 1));
    balancer.node_mut(&guard).mark_failed(0, SECOND);
    assert!(balancer.node(&guard).in_cooldown(0));
    balancer.release(guard);
    assert_eq!((active(&balancer, 0), active(&balancer, 1)), (0, 0));
}

#[test]
fn a_single_backend_is_a_balancer_of_one_node() {
    let balancer = build_balancer_from_single(
        "http://h".to_string(),
        9,
        Some("m".to_string()),
        Some("k".to_string()),
        Some("/v1".to_string()),
        5,
    )
    .unwrap();
    assert_eq!(balancer.fallback_count(), 0);
    assert!(!balancer.fallback_is_logged());
    let nodes = balancer.all_nodes();
    assert_eq!(nodes.len(), 1);
    assert_eq!((nodes[0].url.as_str(), nodes[0].timeout_seconds, nodes[0].active_requests), ("http://h", 9, 0));
    assert_eq!(nodes[0].model.as_deref(), Some("m"));
    assert_eq!(nodes[0].api_key.as_deref(), Some("k"));
    assert_eq!(nodes[0].strip_path_prefix.as_deref(), Some("/v1"));
}

#[test]
fn a_group_of_an_unknown_strategy_is_refused() {
    let mut odd = make_group_config(vec![], vec!["http://h"]);
    odd.strategy = "fastest".to_string();
    let mut map = TextMap::new();
    map.insert("g".to_string(), odd);
    let err = build_balancer_from_groups(&map, 0).err().unwrap();
    assert!(err.contains("Unknown load balancer strategy: 'fastest'"), "{err}");
}

#[test]
fn a_failed_node_is_not_free_while_another_is_healthy() {
    let mut a = make_test_node("http://a");
    a.mark_failed(0, 30 * SECOND);
    let mut balancer = PriorityFreeBalancer::new(vec![a, busy_node("http://b", 4)]).unwrap();
    assert_eq!(balancer.select(None, SECOND).unwrap().node, 1);
    assert_eq!(balancer.select(None, 31 * SECOND).unwrap().node, 0, "after its window the node is free again");
}

#[test]
fn the_soonest_node_serves_where_all_failed() {
    let (mut a, mut b) = (make_test_node("http://a"), busy_node("http://b", 4));
    b.mark_failed(0, 30 * SECOND);
    a.mark_failed(1, 30 * SECOND);
    let mut balancer = PriorityFreeBalancer::new(vec![a, b]).unwrap();
    assert_eq!(balancer.select(None, 2).unwrap().node, 1);
}

#[test]
fn a_group_goes_on_with_its_turn_and_keeps_its_models() {
    let mut balancer = grouped(vec![
        ("a", make_group_config(vec!["x"], vec!["http://1", "http://2"])),
        ("b", make_group_config(vec!["y"], vec!["http://3", "http://4"])),
    ]);
    let order: Vec<String> = ["x", "x", "y", "x", "y"].iter().map(|m| chosen(&mut balancer, Some(m))).collect();
    assert_eq!(order, vec!["http://1", "http://2", "http://3", "http://1", "http://4"]);
    assert_eq!(balancer.find_group(Some("x")), Route::Mapped(0));
    assert_eq!(balancer.find_group(Some("y")), Route::Mapped(1));
}
