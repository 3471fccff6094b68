//! Choosing a group by the model of a request, and a node in that group.

use vstd::prelude::*;
use vstd::string::*;
use crate::config::{BackendGroupConfig, BackendNodeConfig, NoMatchingBackend, Temperature};
use crate::text::{copy_opt, group_texts, lemma_precedes_total, lemma_precedes_transitive, offsets, precedes, same_text, text_less, texts};
use crate::text_map::{distinct_keys, TextMap};
use super::balancer::{are_nodes, claims_one, has_room, BackendGuard, LoadBalancer};
use super::node::{claimed, opt_str, released, BackendNode};
use super::priority_free::{first_free, PriorityFreeBalancer};
use super::round_robin::{next_fallbacks, next_turn, turn, RoundRobinBalancer};
use super::{strategy_spelled, unknown_strategy, BalancingStrategy};

verus! {

broadcast use {vstd::string::group_string_axioms, crate::text::group_texts};

/// The balancer of one group.
pub enum GroupBalancer {
    RoundRobin(RoundRobinBalancer),
    PriorityFree(PriorityFreeBalancer),
}

impl GroupBalancer {
    /// The node that is chosen.
    pub open spec fn choice(self, now: u64) -> int {
        match self {
            GroupBalancer::RoundRobin(b) => turn(b.nodes_view(), b.turns(), now),
            GroupBalancer::PriorityFree(b) => first_free(b.nodes_view(), now),
        }
    }
}

/// Whether a balancer is of the same strategy as before, with its turn and its
/// counts as they were.
pub open spec fn keeps_turn(before: GroupBalancer, after: GroupBalancer) -> bool {
    match (before, after) {
        (GroupBalancer::RoundRobin(b), GroupBalancer::RoundRobin(a)) => a.turns() == b.turns() && a.fallbacks()
            == b.fallbacks(),
        (GroupBalancer::PriorityFree(_), GroupBalancer::PriorityFree(_)) => true,
        _ => false,
    }
}

/// Whether a balancer is of the same strategy as before, with its turn gone on
/// by one choice.
pub open spec fn takes_turn(before: GroupBalancer, after: GroupBalancer, now: u64) -> bool {
    match (before, after) {
        (GroupBalancer::RoundRobin(b), GroupBalancer::RoundRobin(a)) => a.turns() == next_turn(b.turns())
            && a.fallbacks() == next_fallbacks(b.fallbacks(), b.nodes_view(), now),
        (GroupBalancer::PriorityFree(_), GroupBalancer::PriorityFree(_)) => true,
        _ => false,
    }
}

impl LoadBalancer for GroupBalancer {
    open spec fn nodes_view(&self) -> Seq<BackendNode> {
        match self {
            GroupBalancer::RoundRobin(b) => b.nodes_view(),
            GroupBalancer::PriorityFree(b) => b.nodes_view(),
        }
    }

    open spec fn well_formed(&self) -> bool {
        match self {
            GroupBalancer::RoundRobin(b) => b.well_formed(),
            GroupBalancer::PriorityFree(b) => b.well_formed(),
        }
    }

    open spec fn holds(&self, guard: BackendGuard) -> bool {
        guard.node < self.nodes_view().len()
    }

    open spec fn place(&self, guard: BackendGuard) -> int {
        guard.node as int
    }

    open spec fn strategy_view(&self) -> Seq<char> {
        match self {
            GroupBalancer::RoundRobin(b) => b.strategy_view(),
            GroupBalancer::PriorityFree(b) => b.strategy_view(),
        }
    }

    /// Never fails, whatever the model.
    fn select(&mut self, model: Option<&str>, now: u64) -> (result: Result<BackendGuard, NoMatchingBackend>)
        ensures
            result is Ok,
            result->Ok_0.node == old(self).choice(now),
            result->Ok_0.group == 0,
            result->Ok_0.group_name is None,
            takes_turn(*old(self), *final(self), now),
    {
        match self {
            GroupBalancer::RoundRobin(b) => b.select(model, now),
            GroupBalancer::PriorityFree(b) => b.select(model, now),
        }
    }

    fn release(&mut self, guard: BackendGuard)
        ensures
            keeps_turn(*old(self), *final(self)),
    {
        match self {
            GroupBalancer::RoundRobin(b) => b.release(guard),
            GroupBalancer::PriorityFree(b) => b.release(guard),
        }
    }

    fn strategy_name(&self) -> &'static str {
        match self {
            GroupBalancer::RoundRobin(b) => b.strategy_name(),
            GroupBalancer::PriorityFree(b) => b.strategy_name(),
        }
    }

    fn all_nodes(&self) -> Vec<&BackendNode> {
        match self {
            GroupBalancer::RoundRobin(b) => b.all_nodes(),
            GroupBalancer::PriorityFree(b) => b.all_nodes(),
        }
    }

    fn node(&self, guard: &BackendGuard) -> &BackendNode {
        match self {
            GroupBalancer::RoundRobin(b) => b.node(guard),
            GroupBalancer::PriorityFree(b) => b.node(guard),
        }
    }

    fn node_mut(&mut self, guard: &BackendGuard) -> (node: &mut BackendNode)
        ensures
            keeps_turn(*old(self), *final(self)),
    {
        match self {
            GroupBalancer::RoundRobin(b) => b.node_mut(guard),
            GroupBalancer::PriorityFree(b) => b.node_mut(guard),
        }
    }
}

/// Why a group cannot be balanced: its strategy is not known, or it has no
/// nodes.
pub open spec fn group_failure(strategy: Seq<char>, nodes: nat) -> Option<Seq<char>> {
    match strategy_spelled(strategy) {
        None => Some(unknown_strategy(strategy)),
        Some(s) => if nodes > 0 {
            None
        } else if s == BalancingStrategy::RoundRobin {
            Some("RoundRobinBalancer requires at least one node"@)
        } else {
            Some("PriorityFreeBalancer requires at least one node"@)
        },
    }
}

/// A balancer that was just made by a strategy.
pub open spec fn is_fresh(b: GroupBalancer, strategy: Seq<char>, nodes: Seq<BackendNode>) -> bool {
    &&& b.well_formed()
    &&& b.nodes_view() == nodes
    &&& match strategy_spelled(strategy)->0 {
        BalancingStrategy::RoundRobin => b is RoundRobin && b->RoundRobin_0.turns() == 0 && b->RoundRobin_0.fallbacks() == 0,
        BalancingStrategy::PriorityFree => b is PriorityFree,
    }
}

/// The balancer of a group, by the spelling of its strategy.
pub fn build_balancer_for_group(nodes: Vec<BackendNode>, strategy: &str) -> (result: Result<GroupBalancer, String>)
    ensures
        match group_failure(strategy@, nodes@.len()) {
            Some(message) => result is Err && result->Err_0@ == message,
            None => result is Ok && is_fresh(result->Ok_0, strategy@, nodes@),
        },
{
    match BalancingStrategy::from_spelling(strategy) {
        Err(message) => Err(message),
        Ok(BalancingStrategy::PriorityFree) => match PriorityFreeBalancer::new(nodes) {
            Ok(b) => Ok(GroupBalancer::PriorityFree(b)),
            Err(message) => Err(message),
        },
        Ok(BalancingStrategy::RoundRobin) => match RoundRobinBalancer::new(nodes) {
            Ok(b) => Ok(GroupBalancer::RoundRobin(b)),
            Err(message) => Err(message),
        },
    }
}

/// The balancer of a single backend.
pub fn build_balancer_from_single(
    url: String,
    timeout_seconds: u64,
    model: Option<String>,
    api_key: Option<String>,
    strip_path_prefix: Option<String>,
    now: u64,
) -> (result: Result<RoundRobinBalancer, String>)
    ensures
        result is Ok,
        result->Ok_0.well_formed(),
        result->Ok_0.turns() == 0,
        result->Ok_0.fallbacks() == 0,
        result->Ok_0.nodes_view() == seq![
            BackendNode {
                url,
                model,
                api_key,
                timeout_seconds,
                active_requests: 0,
                strip_path_prefix,
                temperature: None,
                healthy: true,
                cooldown_until: now,
            },
        ],
{
    let mut nodes: Vec<BackendNode> = Vec::new();
    nodes.push(BackendNode::from_config(url, timeout_seconds, model, api_key, strip_path_prefix, None, now));
    proof {
        assert(nodes@ =~= seq![nodes@[0]]);
    }
    RoundRobinBalancer::new(nodes)
}

/// A group of nodes.
pub struct BackendGroup {
    /// The models that the group serves; none for every model.
    pub mappings: Vec<String>,
    pub balancer: GroupBalancer,
    pub name: String,
    /// Whether the group serves only the models that it maps.
    pub exclusive: bool,
}

impl BackendGroup {
    /// Whether the group names the model.
    pub fn maps_model(&self, model: &str) -> (maps: bool)
        ensures
            maps == texts(self.mappings@).contains(model@),
    {
        let mut i: usize = 0;
        while i < self.mappings.len()
            invariant
                i <= self.mappings@.len(),
                forall|k: int| 0 <= k < i ==> texts(self.mappings@)[k] != model@,
            decreases self.mappings@.len() - i,
        {
            if same_text(self.mappings[i].as_str(), model) {
                proof {
                    assert(texts(self.mappings@)[i as int] == model@);
                }
                return true;
            }
            proof {
                assert(texts(self.mappings@)[i as int] == self.mappings@[i as int]@);
            }
            i += 1;
        }
        proof {
            assert(texts(self.mappings@).len() == self.mappings@.len());
        }
        false
    }

    /// Whether the group serves every model.
    pub fn is_catch_all(&self) -> (all: bool)
        ensures
            all == (self.mappings@.len() == 0),
    {
        self.mappings.len() == 0
    }
}

/// A balancer of groups, in the order of their names.
pub struct GroupedLoadBalancer {
    groups: Vec<BackendGroup>,
}

/// The position of the first group at or after `from` that names a model.
pub open spec fn mapped_from(groups: Seq<BackendGroup>, model: Seq<char>, from: int) -> int
    decreases groups.len() - from,
{
    if from < 0 || from >= groups.len() {
        groups.len() as int
    } else if texts(groups[from].mappings@).contains(model) {
        from
    } else {
        mapped_from(groups, model, from + 1)
    }
}

/// The position of the first group at or after `from` that serves every model.
pub open spec fn catch_all_from(groups: Seq<BackendGroup>, from: int) -> int
    decreases groups.len() - from,
{
    if from < 0 || from >= groups.len() {
        groups.len() as int
    } else if groups[from].mappings@.len() == 0 {
        from
    } else {
        catch_all_from(groups, from + 1)
    }
}

/// The position of the first group at or after `from` that is not exclusive.
pub open spec fn inclusive_from(groups: Seq<BackendGroup>, from: int) -> int
    decreases groups.len() - from,
{
    if from < 0 || from >= groups.len() {
        groups.len() as int
    } else if !groups[from].exclusive {
        from
    } else {
        inclusive_from(groups, from + 1)
    }
}

/// How a request finds its group.
#[derive(Debug, Clone, Copy, PartialEq, Eq, Structural)]
pub enum Route {
    /// The group names the model.
    Mapped(usize),
    /// The group serves every model.
    CatchAll(usize),
    /// The group is the first that is not exclusive; the request may be in the
    /// wrong place, which is to be logged.
    Fallback(usize),
    /// No group.
    Nowhere,
}

/// How a request for a model finds its group: the first that names the model,
/// or else the one for every model, or else the first that is not exclusive.
pub open spec fn route_of(groups: Seq<BackendGroup>, model: Option<Seq<char>>) -> Route {
    let n = groups.len();
    if model is Some && mapped_from(groups, model->0, 0) < n {
        Route::Mapped(mapped_from(groups, model->0, 0) as usize)
    } else if catch_all_from(groups, 0) < n {
        Route::CatchAll(catch_all_from(groups, 0) as usize)
    } else if inclusive_from(groups, 0) < n {
        Route::Fallback(inclusive_from(groups, 0) as usize)
    } else {
        Route::Nowhere
    }
}

/// The group that a route leads to.
pub open spec fn group_at(route: Route) -> Option<int> {
    match route {
        Route::Mapped(i) => Some(i as int),
        Route::CatchAll(i) => Some(i as int),
        Route::Fallback(i) => Some(i as int),
        Route::Nowhere => None,
    }
}

/// Whether of several groups only the one at `g` changed, and of that only its
/// balancer: its name, its models and its exclusiveness are as before.
pub open spec fn only_balancer_changes(before: Seq<BackendGroup>, after: Seq<BackendGroup>, g: int) -> bool {
    &&& 0 <= g < before.len()
    &&& after == before.update(g, BackendGroup { balancer: after[g].balancer, ..before[g] })
}

/// The nodes of the first `n` groups.
pub open spec fn flat(groups: Seq<BackendGroup>, n: nat) -> Seq<BackendNode>
    decreases n,
{
    if n == 0 || n > groups.len() {
        Seq::empty()
    } else {
        flat(groups, (n - 1) as nat) + groups[n - 1].balancer.nodes_view()
    }
}

/// The position of a node among all nodes.
pub open spec fn flat_place(groups: Seq<BackendGroup>, group: int, node: int) -> int {
    flat(groups, group as nat).len() + node
}

proof fn lemma_flat_prefix(a: Seq<BackendGroup>, b: Seq<BackendGroup>, n: nat)
    requires
        n <= a.len(),
        n <= b.len(),
        forall|i: int| 0 <= i < n ==> (#[trigger] a[i]).balancer.nodes_view() == b[i].balancer.nodes_view(),
    ensures
        flat(a, n) == flat(b, n),
    decreases n,
{
    if n > 0 {
        lemma_flat_prefix(a, b, (n - 1) as nat);
        assert(a[n - 1].balancer.nodes_view() == b[n - 1].balancer.nodes_view());
    }
}

/// A node of a group stands where its place says.
proof fn lemma_flat_at(groups: Seq<BackendGroup>, n: nat, g: int, i: int)
    requires
        0 <= g < n <= groups.len(),
        0 <= i < groups[g].balancer.nodes_view().len(),
    ensures
        0 <= flat_place(groups, g, i) < flat(groups, n).len(),
        flat(groups, n)[flat_place(groups, g, i)] == groups[g].balancer.nodes_view()[i],
    decreases n,
{
    if g < n - 1 {
        lemma_flat_at(groups, (n - 1) as nat, g, i);
    }
}

/// Changing a node of a group changes it in its place.
proof fn lemma_flat_update(a: Seq<BackendGroup>, b: Seq<BackendGroup>, n: nat, g: int, i: int, node: BackendNode)
    requires
        0 <= g < n <= a.len(),
        a.len() == b.len(),
        0 <= i < a[g].balancer.nodes_view().len(),
        b[g].balancer.nodes_view() == a[g].balancer.nodes_view().update(i, node),
        forall|k: int| 0 <= k < a.len() && k != g ==> (#[trigger] b[k]).balancer.nodes_view() == a[k].balancer.nodes_view(),
    ensures
        flat(b, n) == flat(a, n).update(flat_place(a, g, i), node),
    decreases n,
{
    if g < n - 1 {
        lemma_flat_update(a, b, (n - 1) as nat, g, i, node);
        lemma_flat_at(a, (n - 1) as nat, g, i);
        assert(b[n - 1].balancer.nodes_view() == a[n - 1].balancer.nodes_view());
        assert(flat(b, n) =~= flat(a, n).update(flat_place(a, g, i), node));
    } else {
        assert forall|k: int| 0 <= k < g implies (#[trigger] b[k]).balancer.nodes_view() == a[k].balancer.nodes_view() by {
        }
        lemma_flat_prefix(b, a, g as nat);
        assert(flat(b, n) =~= flat(a, n).update(flat_place(a, g, i), node));
    }
}

/// Where every node has room, so have the nodes of each group.
proof fn lemma_group_has_room(groups: Seq<BackendGroup>, g: int)
    requires
        0 <= g < groups.len(),
        has_room(flat(groups, groups.len())),
    ensures
        has_room(groups[g].balancer.nodes_view()),
{
    let all = flat(groups, groups.len());
    assert forall|i: int| 0 <= i < groups[g].balancer.nodes_view().len() implies (#[trigger] groups[g].balancer.nodes_view()[i]).active_requests
        < usize::MAX by {
        lemma_flat_at(groups, groups.len(), g, i);
        assert(all[flat_place(groups, g, i)].active_requests < usize::MAX);
    }
}

impl GroupedLoadBalancer {
    /// The groups, in the order of their names.
    pub closed spec fn groups(self) -> Seq<BackendGroup> {
        self.groups@
    }

    /// How a request for a model finds its group.
    pub fn find_group(&self, model: Option<&str>) -> (route: Route)
        ensures
            route == route_of(self.groups(), opt_str(model)),
            group_at(route) is Some ==> 0 <= group_at(route)->0 < self.groups().len(),
    {
        let n = self.groups.len();
        if let Some(m) = model {
            let mut i: usize = 0;
            while i < n
                invariant
                    n == self.groups@.len(),
                    self.groups() == self.groups@,
                    model is Some,
                    model->0@ == m@,
                    i <= n,
                    mapped_from(self.groups@, m@, 0) == mapped_from(self.groups@, m@, i as int),
                decreases n - i,
            {
                if self.groups[i].maps_model(m) {
                    return Route::Mapped(i);
                }
                i += 1;
            }
        }
        let mut i: usize = 0;
        while i < n
            invariant
                n == self.groups@.len(),
                self.groups() == self.groups@,
                i <= n,
                model is Some ==> mapped_from(self.groups@, model->0@, 0) == n,
                catch_all_from(self.groups@, 0) == catch_all_from(self.groups@, i as int),
            decreases n - i,
        {
            if self.groups[i].is_catch_all() {
                return Route::CatchAll(i);
            }
            i += 1;
        }
        let mut i: usize = 0;
        while i < n
            invariant
                n == self.groups@.len(),
                self.groups() == self.groups@,
                i <= n,
                model is Some ==> mapped_from(self.groups@, model->0@, 0) == n,
                catch_all_from(self.groups@, 0) == n,
                inclusive_from(self.groups@, 0) == inclusive_from(self.groups@, i as int),
            decreases n - i,
        {
            if !self.groups[i].exclusive {
                return Route::Fallback(i);
            }
            i += 1;
        }
        Route::Nowhere
    }
}

impl GroupedLoadBalancer {
    /// The group at a position.
    pub fn group(&self, i: usize) -> (group: Option<&BackendGroup>)
        ensures
            match group {
                Some(g) => i < self.groups().len() && *g == self.groups()[i as int],
                None => i >= self.groups().len(),
            },
    {
        if i < self.groups.len() {
            Some(&self.groups[i])
        } else {
            None
        }
    }
}

impl LoadBalancer for GroupedLoadBalancer {
    open spec fn nodes_view(&self) -> Seq<BackendNode> {
        flat(self.groups(), self.groups().len())
    }

    open spec fn well_formed(&self) -> bool {
        forall|i: int| 0 <= i < self.groups().len() ==> (#[trigger] self.groups()[i]).balancer.well_formed()
    }

    open spec fn holds(&self, guard: BackendGuard) -> bool {
        guard.group < self.groups().len() && guard.node < self.groups()[guard.group as int].balancer.nodes_view().len()
    }

    open spec fn place(&self, guard: BackendGuard) -> int {
        flat_place(self.groups(), guard.group as int, guard.node as int)
    }

    open spec fn strategy_view(&self) -> Seq<char> {
        "grouped"@
    }

    /// Claims a node of the group that the model leads to, as that group
    /// chooses it. Where there is no such group, the model is named in the
    /// error.
    fn select(&mut self, model: Option<&str>, now: u64) -> (result: Result<BackendGuard, NoMatchingBackend>)
        ensures
            match group_at(route_of(old(self).groups(), opt_str(model))) {
                Some(g) => {
                    &&& result is Ok
                    &&& result->Ok_0.group == g
                    &&& result->Ok_0.node == old(self).groups()[g].balancer.choice(now)
                    &&& result->Ok_0.group_name is Some
                    &&& result->Ok_0.group_name->0@ == old(self).groups()[g].name@
                    &&& only_balancer_changes(old(self).groups(), final(self).groups(), g)
                    &&& takes_turn(old(self).groups()[g].balancer, final(self).groups()[g].balancer, now)
                    &&& claims_one(
                        old(self).groups()[g].balancer.nodes_view(),
                        result->Ok_0.node as int,
                        final(self).groups()[g].balancer.nodes_view(),
                    )
                },
                None => {
                    &&& final(self).groups() == old(self).groups()
                    &&& result is Err
                    &&& match model {
                        Some(m) => result->Err_0.requested_model is Some && result->Err_0.requested_model->0@ == m@,
                        None => result->Err_0.requested_model is None,
                    }
                },
            },
    {
        let route = self.find_group(model);
        let g = match route {
            Route::Mapped(i) => i,
            Route::CatchAll(i) => i,
            Route::Fallback(i) => i,
            Route::Nowhere => {
                return Err(
                    NoMatchingBackend {
                        requested_model: match model {
                            Some(m) => Some(m.to_owned()),
                            None => None,
                        },
                    },
                );
            },
        };
        let name = self.groups[g].name.clone();
        let ghost before = self.groups@;
        proof {
            lemma_group_has_room(self.groups@, g as int);
        }
        match self.groups[g].balancer.select(model, now) {
            Ok(claim) => {
                proof {
                    let i = claim.node as int;
                    lemma_flat_update(
                        before,
                        self.groups@,
                        before.len(),
                        g as int,
                        i,
                        claimed(before[g as int].balancer.nodes_view()[i]),
                    );
                    lemma_flat_at(before, before.len(), g as int, i);
                    lemma_same_places(before, self.groups@);
                }
                Ok(BackendGuard { group: g, node: claim.node, group_name: Some(name) })
            },
            Err(e) => Err(e),
        }
    }

    fn release(&mut self, guard: BackendGuard)
        ensures
            only_balancer_changes(old(self).groups(), final(self).groups(), guard.group as int),
            keeps_turn(
                old(self).groups()[guard.group as int].balancer,
                final(self).groups()[guard.group as int].balancer,
            ),
    {
        let ghost before = self.groups@;
        let g = guard.group;
        let ghost i = guard.node as int;
        self.groups[g].balancer.release(guard);
        proof {
            lemma_flat_update(
                before,
                self.groups@,
                before.len(),
                g as int,
                i,
                released(before[g as int].balancer.nodes_view()[i]),
            );
            lemma_flat_at(before, before.len(), g as int, i);
            lemma_same_places(before, self.groups@);
        }
    }

    fn strategy_name(&self) -> &'static str {
        "grouped"
    }

    fn all_nodes(&self) -> Vec<&BackendNode> {
        let mut all: Vec<&BackendNode> = Vec::new();
        let mut i: usize = 0;
        while i < self.groups.len()
            invariant
                i <= self.groups@.len(),
                are_nodes(all@, flat(self.groups@, i as nat)),
            decreases self.groups@.len() - i,
        {
            let mut more = self.groups[i].balancer.all_nodes();
            let ghost was = all@;
            let ghost added = more@;
            all.append(&mut more);
            proof {
                let next = flat(self.groups@, (i + 1) as nat);
                assert forall|k: int| 0 <= k < next.len() implies *(#[trigger] all@[k]) == next[k] by {
                    if k < was.len() {
                        assert(all@[k] == was[k]);
                    } else {
                        assert(all@[k] == added[k - was.len()]);
                    }
                }
            }
            i += 1;
        }
        all
    }

    fn node(&self, guard: &BackendGuard) -> &BackendNode {
        proof {
            lemma_flat_at(self.groups@, self.groups@.len(), guard.group as int, guard.node as int);
        }
        self.groups[guard.group].balancer.node(guard)
    }

    fn node_mut(&mut self, guard: &BackendGuard) -> (node: &mut BackendNode)
        ensures
            only_balancer_changes(old(self).groups(), final(self).groups(), guard.group as int),
            keeps_turn(
                old(self).groups()[guard.group as int].balancer,
                final(self).groups()[guard.group as int].balancer,
            ),
    {
        proof {
            lemma_flat_at(self.groups@, self.groups@.len(), guard.group as int, guard.node as int);
            lemma_flat_update_all(self.groups@, guard.group as int, guard.node as int);
        }
        self.groups[guard.group].balancer.node_mut(guard)
    }
}

/// Groups with as many nodes have them in the same places.
proof fn lemma_same_places(a: Seq<BackendGroup>, b: Seq<BackendGroup>)
    requires
        a.len() == b.len(),
        forall|k: int|
            0 <= k < a.len() ==> (#[trigger] b[k]).balancer.nodes_view().len() == a[k].balancer.nodes_view().len(),
    ensures
        forall|g: int, i: int| 0 <= g <= a.len() ==> #[trigger] flat_place(b, g, i) == flat_place(a, g, i),
{
    assert forall|g: int, i: int| 0 <= g <= a.len() implies #[trigger] flat_place(b, g, i) == flat_place(a, g, i) by {
        lemma_same_lengths(a, b, g as nat);
    }
}

proof fn lemma_same_lengths(a: Seq<BackendGroup>, b: Seq<BackendGroup>, n: nat)
    requires
        n <= a.len(),
        a.len() == b.len(),
        forall|k: int|
            0 <= k < a.len() ==> (#[trigger] b[k]).balancer.nodes_view().len() == a[k].balancer.nodes_view().len(),
    ensures
        flat(a, n).len() == flat(b, n).len(),
    decreases n,
{
    if n > 0 {
        lemma_same_lengths(a, b, (n - 1) as nat);
        assert(b[n - 1].balancer.nodes_view().len() == a[n - 1].balancer.nodes_view().len());
    }
}

/// Whatever a node of a group becomes, it becomes that in its place.
proof fn lemma_flat_update_all(a: Seq<BackendGroup>, g: int, i: int)
    requires
        0 <= g < a.len(),
        0 <= i < a[g].balancer.nodes_view().len(),
    ensures
        forall|b: BackendGroup, node: BackendNode|
            b.balancer.nodes_view() == a[g].balancer.nodes_view().update(i, node) ==> flat(
                #[trigger] a.update(g, b),
                a.len(),
            ) == #[trigger] flat(a, a.len()).update(flat_place(a, g, i), node),
        forall|b: BackendGroup, k: int, m: int|
            0 <= k && b.balancer.nodes_view().len() == a[g].balancer.nodes_view().len() ==> #[trigger] flat_place(
                a.update(g, b),
                k,
                m,
            ) == flat_place(a, k, m),
{
    assert forall|b: BackendGroup, k: int, m: int|
        0 <= k && b.balancer.nodes_view().len() == a[g].balancer.nodes_view().len() implies #[trigger] flat_place(
        a.update(g, b),
        k,
        m,
    ) == flat_place(a, k, m) by {
        lemma_same_places(a, a.update(g, b));
    }
    assert forall|b: BackendGroup, node: BackendNode|
        b.balancer.nodes_view() == a[g].balancer.nodes_view().update(i, node) implies flat(
        #[trigger] a.update(g, b),
        a.len(),
    ) == #[trigger] flat(a, a.len()).update(flat_place(a, g, i), node) by {
        lemma_flat_update(a, a.update(g, b), a.len(), g, i, node);
    }
}

/// The place of a name in an order of entries: before the first greater name.
pub open spec fn name_place(entries: Seq<(String, BackendGroupConfig)>, order: Seq<int>, name: Seq<char>, from: int) -> int
    decreases order.len() - from,
{
    if from < 0 || from >= order.len() {
        order.len() as int
    } else if precedes(name, entries[order[from]].0@) {
        from
    } else {
        name_place(entries, order, name, from + 1)
    }
}

/// The positions of the first `n` entries in the order of their names.
pub open spec fn name_order(entries: Seq<(String, BackendGroupConfig)>, n: nat) -> Seq<int>
    decreases n,
{
    if n == 0 || n > entries.len() {
        Seq::empty()
    } else {
        let before = name_order(entries, (n - 1) as nat);
        before.insert(name_place(entries, before, entries[n - 1].0@, 0), n - 1)
    }
}

/// A node as it is configured.
pub open spec fn fresh_node(config: BackendNodeConfig, now: u64) -> BackendNode {
    BackendNode {
        url: config.url,
        model: config.model,
        api_key: config.api_key,
        timeout_seconds: config.timeout_seconds,
        active_requests: 0,
        strip_path_prefix: config.strip_path_prefix,
        temperature: config.temperature,
        healthy: true,
        cooldown_until: now,
    }
}

/// Nodes as they are configured.
pub open spec fn fresh_nodes(configs: Seq<BackendNodeConfig>, now: u64) -> Seq<BackendNode> {
    Seq::new(configs.len(), |i: int| fresh_node(configs[i], now))
}

/// Whether a group is what its configuration says.
pub open spec fn is_configured(group: BackendGroup, name: Seq<char>, config: BackendGroupConfig, now: u64) -> bool {
    &&& group.name@ == name
    &&& texts(group.mappings@) == texts(config.mappings@)
    &&& group.exclusive == config.exclusive
    &&& is_fresh(group.balancer, config.strategy@, fresh_nodes(config.nodes@, now))
}

/// The failure of the first entry that cannot be balanced, from the `k`th in
/// the order on.
pub open spec fn first_failure(entries: Seq<(String, BackendGroupConfig)>, order: Seq<int>, k: int) -> Option<Seq<char>>
    decreases order.len() - k,
{
    if k < 0 || k >= order.len() {
        None
    } else {
        let config = entries[order[k]].1;
        match group_failure(config.strategy@, config.nodes@.len()) {
            Some(message) => Some(message),
            None => first_failure(entries, order, k + 1),
        }
    }
}

/// The positions of the entries in the order of their names.
fn order_by_name(configs: &TextMap<BackendGroupConfig>) -> (order: Vec<usize>)
    ensures
        offsets(order@) == name_order(
            configs.listed(),
            configs.listed().len(),
        ),
        forall|k: int| 0 <= k < order@.len() ==> (#[trigger] order@[k]) < configs.listed().len(),
{
    let n = configs.len();
    let ghost entries = configs.listed();
    let mut order: Vec<usize> = Vec::new();
    let mut i: usize = 0;
    proof {
        assert(offsets(order@) =~= Seq::empty());
    }
    while i < n
        invariant
            i <= n,
            entries == configs.listed(),
            n == entries.len(),
            offsets(order@) == name_order(entries, i as nat),
            forall|k: int| 0 <= k < order@.len() ==> (#[trigger] order@[k]) < i,
        decreases n - i,
    {
        let (name, _config) = configs.entry(i);
        let ghost before = offsets(order@);
        let mut at: usize = 0;
        let mut found = false;
        while at < order.len() && !found
            invariant
                i < n,
                entries == configs.listed(),
                n == entries.len(),
                name@ == entries[i as int].0@,
                before == offsets(order@),
                forall|k: int| 0 <= k < order@.len() ==> (#[trigger] order@[k]) < i,
                at <= order@.len(),
                found ==> at < order@.len() && name_place(entries, before, name@, 0) == at,
                !found ==> name_place(entries, before, name@, 0) == name_place(entries, before, name@, at as int),
            decreases order@.len() - at + (if found { 0int } else { 1int }),
        {
            let (other, _other_config) = configs.entry(order[at]);
            proof {
                assert(before[at as int] == order@[at as int]);
            }
            if text_less(name, other) {
                found = true;
            } else {
                at += 1;
            }
        }
        let ghost was = order@;
        order.insert(at, i);
        proof {
            assert(name_place(entries, before, name@, 0) == at);
            assert(offsets(order@) =~= before.insert(at as int, i as int));
            assert forall|k: int| 0 <= k < order@.len() implies (#[trigger] order@[k]) < i + 1 by {
                if k < at {
                    assert(order@[k] == was[k]);
                } else if k > at {
                    assert(order@[k] == was[k - 1]);
                }
            }
        }
        i += 1;
    }
    order
}

fn copy_texts(v: &Vec<String>) -> (copy: Vec<String>)
    ensures
        texts(copy@) == texts(v@),
{
    let mut copy: Vec<String> = Vec::new();
    let mut i: usize = 0;
    while i < v.len()
        invariant
            i <= v@.len(),
            copy@.len() == i,
            forall|k: int| 0 <= k < i ==> (#[trigger] copy@[k])@ == v@[k]@,
        decreases v@.len() - i,
    {
        copy.push(v[i].clone());
        i += 1;
    }
    proof {
        assert(texts(copy@) =~= texts(v@));
    }
    copy
}

fn build_nodes(configs: &Vec<BackendNodeConfig>, now: u64) -> (nodes: Vec<BackendNode>)
    ensures
        nodes@ == fresh_nodes(configs@, now),
{
    let mut nodes: Vec<BackendNode> = Vec::new();
    let mut i: usize = 0;
    while i < configs.len()
        invariant
            i <= configs@.len(),
            nodes@ == fresh_nodes(configs@, now).take(i as int),
        decreases configs@.len() - i,
    {
        let c = &configs[i];
        let temperature = match &c.temperature {
            Some(t) => Some(Temperature { bits: t.bits, shown: t.shown.clone() }),
            None => None,
        };
        nodes.push(
            BackendNode::from_config(
                c.url.clone(),
                c.timeout_seconds,
                copy_opt(&c.model),
                copy_opt(&c.api_key),
                copy_opt(&c.strip_path_prefix),
                temperature,
                now,
            ),
        );
        proof {
            assert(nodes@ =~= fresh_nodes(configs@, now).take(i + 1));
        }
        i += 1;
    }
    proof {
        assert(nodes@ =~= fresh_nodes(configs@, now));
    }
    nodes
}

impl GroupedLoadBalancer {
    /// The balancer of configured groups, in the order of their names. It fails
    /// with the first group, in that order, that cannot be balanced. No group
    /// at all gives a balancer that serves no model.
    pub fn new(configs: &TextMap<BackendGroupConfig>, now: u64) -> (result: Result<GroupedLoadBalancer, String>)
        ensures
            ({
                let entries = configs.listed();
                let order = name_order(entries, entries.len());
                match first_failure(entries, order, 0) {
                    Some(message) => result is Err && result->Err_0@ == message,
                    None => {
                        &&& result is Ok
                        &&& result->Ok_0.well_formed()
                        &&& has_room(result->Ok_0.nodes_view())
                        &&& result->Ok_0.groups().len() == order.len()
                        &&& forall|k: int|
                            0 <= k < order.len() ==> is_configured(
                                #[trigger] result->Ok_0.groups()[k],
                                entries[order[k]].0@,
                                entries[order[k]].1,
                                now,
                            )
                    },
                }
            }),
    {
        let order = order_by_name(configs);
        let ghost entries = configs.listed();
        let ghost sorted = name_order(entries, entries.len());
        let mut groups: Vec<BackendGroup> = Vec::new();
        let mut k: usize = 0;
        proof {
            assert(offsets(order@).len() == order@.len());
        }
        while k < order.len()
            invariant
                k <= order@.len(),
                entries == configs.listed(),
                sorted == name_order(entries, entries.len()),
                offsets(order@) == sorted,
                order@.len() == sorted.len(),
                forall|j: int| 0 <= j < order@.len() ==> (#[trigger] order@[j]) < entries.len(),
                groups@.len() == k,
                forall|j: int|
                    0 <= j < k ==> is_configured(
                        #[trigger] groups@[j],
                        entries[sorted[j]].0@,
                        entries[sorted[j]].1,
                        now,
                    ),
                first_failure(entries, sorted, 0) == first_failure(entries, sorted, k as int),
            decreases order@.len() - k,
        {
            let (name, config) = configs.entry(order[k]);
            proof {
                assert(sorted[k as int] == order@[k as int]);
            }
            let nodes = build_nodes(&config.nodes, now);
            match build_balancer_for_group(nodes, config.strategy.as_str()) {
                Err(message) => {
                    return Err(message);
                },
                Ok(balancer) => {
                    groups.push(
                        BackendGroup {
                            mappings: copy_texts(&config.mappings),
                            balancer,
                            name: name.to_owned(),
                            exclusive: config.exclusive,
                        },
                    );
                },
            }
            k += 1;
        }
        proof {
            assert forall|j: int| 0 <= j < groups@.len() implies has_room((#[trigger] groups@[j]).balancer.nodes_view()) by {
                assert(is_configured(groups@[j], entries[sorted[j]].0@, entries[sorted[j]].1, now));
            }
            lemma_flat_room(groups@, groups@.len());
        }
        Ok(GroupedLoadBalancer { groups })
    }
}

/// Groups whose nodes have room have room for all their nodes.
proof fn lemma_flat_room(groups: Seq<BackendGroup>, n: nat)
    requires
        n <= groups.len(),
        forall|j: int| 0 <= j < groups.len() ==> has_room((#[trigger] groups[j]).balancer.nodes_view()),
    ensures
        has_room(flat(groups, n)),
    decreases n,
{
    if n > 0 {
        lemma_flat_room(groups, (n - 1) as nat);
        let before = flat(groups, (n - 1) as nat);
        let last = groups[n - 1].balancer.nodes_view();
        assert(has_room(last));
        assert forall|i: int| 0 <= i < flat(groups, n).len() implies (#[trigger] flat(groups, n)[i]).active_requests
            < usize::MAX by {
            if i < before.len() {
                assert(flat(groups, n)[i] == before[i]);
            } else {
                assert(flat(groups, n)[i] == last[i - before.len()]);
            }
        }
    }
}

/// The balancer of configured groups.
pub fn build_balancer_from_groups(groups: &TextMap<BackendGroupConfig>, now: u64) -> (result: Result<
    GroupedLoadBalancer,
    String,
>)
    ensures
        ({
            let entries = groups.listed();
            let order = name_order(entries, entries.len());
            match first_failure(entries, order, 0) {
                Some(message) => result is Err && result->Err_0@ == message,
                None => {
                    &&& result is Ok
                    &&& result->Ok_0.well_formed()
                    &&& has_room(result->Ok_0.nodes_view())
                    &&& result->Ok_0.groups().len() == order.len()
                    &&& forall|k: int|
                        0 <= k < order.len() ==> is_configured(
                            #[trigger] result->Ok_0.groups()[k],
                            entries[order[k]].0@,
                            entries[order[k]].1,
                            now,
                        )
                },
            }
        }),
{
    GroupedLoadBalancer::new(groups, now)
}

proof fn lemma_name_place(entries: Seq<(String, BackendGroupConfig)>, order: Seq<int>, name: Seq<char>, from: int)
    requires
        0 <= from <= order.len(),
    ensures
        from <= name_place(entries, order, name, from) <= order.len(),
        forall|k: int|
            from <= k < name_place(entries, order, name, from) ==> !precedes(name, entries[#[trigger] order[k]].0@),
        name_place(entries, order, name, from) < order.len() ==> precedes(
            name,
            entries[order[name_place(entries, order, name, from)]].0@,
        ),
    decreases order.len() - from,
{
    if from < order.len() && !precedes(name, entries[order[from]].0@) {
        lemma_name_place(entries, order, name, from + 1);
    }
}

/// Whether positions stand in the order of the names that they mean.
pub open spec fn in_name_order(entries: Seq<(String, BackendGroupConfig)>, order: Seq<int>) -> bool {
    forall|a: int, b: int|
        0 <= a < b < order.len() ==> precedes(entries[#[trigger] order[a]].0@, entries[#[trigger] order[b]].0@)
}

/// The groups stand in the order of their names, and every configured group is
/// among them.
pub proof fn law_groups_are_in_name_order(entries: Seq<(String, BackendGroupConfig)>, n: nat)
    requires
        n <= entries.len(),
        distinct_keys(entries),
    ensures
        name_order(entries, n).len() == n,
        in_name_order(entries, name_order(entries, n)),
        forall|k: int| 0 <= k < n ==> 0 <= (#[trigger] name_order(entries, n)[k]) < n,
        forall|i: int| 0 <= i < n ==> #[trigger] name_order(entries, n).contains(i),
    decreases n,
{
    if n > 0 {
        law_groups_are_in_name_order(entries, (n - 1) as nat);
        let before = name_order(entries, (n - 1) as nat);
        let new = (n - 1) as int;
        let name = entries[new].0@;
        let at = name_place(entries, before, name, 0);
        lemma_name_place(entries, before, name, 0);
        let order = name_order(entries, n);
        assert forall|k: int| 0 <= k < at implies precedes(entries[#[trigger] before[k]].0@, name) by {
            assert(0 <= before[k] < n - 1);
            assert(entries[before[k]].0@ != entries[new].0@);
            lemma_precedes_total(name, entries[before[k]].0@);
        }
        assert forall|k: int| at <= k < before.len() implies precedes(name, entries[#[trigger] before[k]].0@) by {
            if k > at {
                assert(precedes(entries[before[at]].0@, entries[before[k]].0@));
                lemma_precedes_transitive(name, entries[before[at]].0@, entries[before[k]].0@);
            }
        }
        assert forall|a: int, b: int| 0 <= a < b < order.len() implies precedes(
            entries[#[trigger] order[a]].0@,
            entries[#[trigger] order[b]].0@,
        ) by {
            if b < at {
                assert(order[a] == before[a] && order[b] == before[b]);
            } else if b == at {
                assert(order[a] == before[a] && order[b] == new);
            } else if a < at {
                assert(order[a] == before[a] && order[b] == before[b - 1]);
            } else if a == at {
                assert(order[a] == new && order[b] == before[b - 1]);
            } else {
                assert(order[a] == before[a - 1] && order[b] == before[b - 1]);
            }
        }
        assert forall|k: int| 0 <= k < n implies 0 <= (#[trigger] order[k]) < n by {
            if k < at {
                assert(order[k] == before[k]);
            } else if k > at {
                assert(order[k] == before[k - 1]);
            }
        }
        assert forall|i: int| 0 <= i < n implies #[trigger] order.contains(i) by {
            if i == new {
                assert(order[at] == new);
            } else {
                assert(before.contains(i));
                let k = choose|k: int| 0 <= k < before.len() && before[k] == i;
                assert(order[if k < at { k } else { k + 1 }] == i);
            }
        }
    }
}

proof fn lemma_mapped_from(groups: Seq<BackendGroup>, model: Seq<char>, from: int)
    requires
        0 <= from <= groups.len(),
    ensures
        from <= mapped_from(groups, model, from) <= groups.len(),
        mapped_from(groups, model, from) < groups.len() ==> texts(
            groups[mapped_from(groups, model, from)].mappings@,
        ).contains(model),
        forall|k: int|
            from <= k < mapped_from(groups, model, from) ==> !texts((#[trigger] groups[k]).mappings@).contains(model),
    decreases groups.len() - from,
{
    if from < groups.len() && !texts(groups[from].mappings@).contains(model) {
        lemma_mapped_from(groups, model, from + 1);
    }
}

proof fn lemma_catch_all_from(groups: Seq<BackendGroup>, from: int)
    requires
        0 <= from <= groups.len(),
    ensures
        from <= catch_all_from(groups, from) <= groups.len(),
        catch_all_from(groups, from) < groups.len() ==> groups[catch_all_from(groups, from)].mappings@.len() == 0,
        forall|k: int| from <= k < catch_all_from(groups, from) ==> (#[trigger] groups[k]).mappings@.len() > 0,
    decreases groups.len() - from,
{
    if from < groups.len() && groups[from].mappings@.len() != 0 {
        lemma_catch_all_from(groups, from + 1);
    }
}

proof fn lemma_inclusive_from(groups: Seq<BackendGroup>, from: int)
    requires
        0 <= from <= groups.len(),
    ensures
        from <= inclusive_from(groups, from) <= groups.len(),
        inclusive_from(groups, from) < groups.len() ==> !groups[inclusive_from(groups, from)].exclusive,
        forall|k: int| from <= k < inclusive_from(groups, from) ==> (#[trigger] groups[k]).exclusive,
    decreases groups.len() - from,
{
    if from < groups.len() && groups[from].exclusive {
        lemma_inclusive_from(groups, from + 1);
    }
}

/// A request goes to the first group that names its model; where none does, to
/// the first for every model; and where there is none, to the first that is not
/// exclusive. It goes nowhere only where every group is exclusive.
pub proof fn law_requests_find_their_group(groups: Seq<BackendGroup>, model: Option<Seq<char>>, i: int)
    requires
        0 <= i < groups.len() <= usize::MAX,
    ensures
        match route_of(groups, model) {
            Route::Mapped(g) => {
                &&& g < groups.len()
                &&& model is Some
                &&& texts(groups[g as int].mappings@).contains(model->0)
                &&& i < g ==> !texts(groups[i].mappings@).contains(model->0)
            },
            Route::CatchAll(g) => {
                &&& g < groups.len()
                &&& groups[g as int].mappings@.len() == 0
                &&& i < g ==> groups[i].mappings@.len() > 0
                &&& model is Some ==> !texts(groups[i].mappings@).contains(model->0)
            },
            Route::Fallback(g) => {
                &&& g < groups.len()
                &&& !groups[g as int].exclusive
                &&& i < g ==> groups[i].exclusive
                &&& groups[i].mappings@.len() > 0
                &&& model is Some ==> !texts(groups[i].mappings@).contains(model->0)
            },
            Route::Nowhere => {
                &&& groups[i].exclusive
                &&& groups[i].mappings@.len() > 0
                &&& model is Some ==> !texts(groups[i].mappings@).contains(model->0)
            },
        },
{
    if model is Some {
        lemma_mapped_from(groups, model->0, 0);
    }
    lemma_catch_all_from(groups, 0);
    lemma_inclusive_from(groups, 0);
}

/// Where there is no group, a request goes nowhere.
pub proof fn law_no_groups_serve_no_one(groups: Seq<BackendGroup>, model: Option<Seq<char>>)
    requires
        groups.len() == 0,
    ensures
        route_of(groups, model) == Route::Nowhere,
{
}

} // verus!
