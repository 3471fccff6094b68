//! Choosing nodes in turn.
//!
//! Nodes that are left alone because they failed are stepped over. Where all of
//! them are, the one that recovers soonest serves.

use vstd::prelude::*;
use vstd::string::*;
use crate::config::NoMatchingBackend;
use super::balancer::{borrow_all, candidate_order, has_room, visited, BackendGuard,
    LoadBalancer};
use super::node::{cooling, soonest, soonest_recovering_node, BackendNode};

verus! {

broadcast use vstd::string::group_string_axioms;

/// A balancer that chooses nodes in turn.
pub struct RoundRobinBalancer {
    nodes: Vec<BackendNode>,
    counter: usize,
    all_cooled_fallbacks: u64,
}

/// The node that is chosen, from a step of the walk on: the first one that is
/// not left alone, or the one that recovers soonest where all are.
pub open spec fn turn_from(nodes: Seq<BackendNode>, start: nat, now: u64, step: int) -> int
    decreases nodes.len() - step,
{
    if step < 0 || step >= nodes.len() {
        soonest(nodes, nodes.len())
    } else if !cooling(nodes[visited(nodes.len(), start, step)], now) {
        visited(nodes.len(), start, step)
    } else {
        turn_from(nodes, start, now, step + 1)
    }
}

/// The node whose turn it is.
pub open spec fn turn(nodes: Seq<BackendNode>, counter: nat, now: u64) -> int {
    turn_from(nodes, counter, now, 0)
}

/// Whether every node is left alone.
pub open spec fn all_cooling(nodes: Seq<BackendNode>, now: u64) -> bool {
    forall|i: int| 0 <= i < nodes.len() ==> cooling(#[trigger] nodes[i], now)
}

/// The count of turns after one more. It starts anew at its end.
pub open spec fn next_turn(turns: nat) -> nat {
    if turns >= usize::MAX {
        0
    } else {
        turns + 1
    }
}

/// The count of the times that every node was left alone, after a choice. It
/// starts anew at its end.
pub open spec fn next_fallbacks(fallbacks: u64, nodes: Seq<BackendNode>, now: u64) -> u64 {
    if !all_cooling(nodes, now) {
        fallbacks
    } else if fallbacks == u64::MAX {
        0
    } else {
        (fallbacks + 1) as u64
    }
}

impl RoundRobinBalancer {
    /// How many times a node was chosen, as far as it is counted.
    pub closed spec fn turns(self) -> nat {
        self.counter as nat
    }

    /// How many times every node was left alone.
    pub closed spec fn fallbacks(self) -> u64 {
        self.all_cooled_fallbacks
    }

    /// A balancer of at least one node.
    pub fn new(nodes: Vec<BackendNode>) -> (result: Result<RoundRobinBalancer, String>)
        ensures
            nodes@.len() == 0 ==> result is Err && result->Err_0@ == "RoundRobinBalancer requires at least one node"@,
            nodes@.len() > 0 ==> {
                &&& result is Ok
                &&& result->Ok_0.nodes_view() == nodes@
                &&& result->Ok_0.turns() == 0
                &&& result->Ok_0.fallbacks() == 0
                &&& result->Ok_0.well_formed()
            },
    {
        if nodes.len() == 0 {
            return Err("RoundRobinBalancer requires at least one node".to_owned());
        }
        Ok(RoundRobinBalancer { nodes, counter: 0, all_cooled_fallbacks: 0 })
    }

    /// How many times every node was left alone.
    pub fn fallback_count(&self) -> (count: u64)
        ensures
            count == self.fallbacks(),
    {
        self.all_cooled_fallbacks
    }

    /// Whether the last time that every node was left alone is to be logged:
    /// the first time, and then every hundredth. Where there was none, nothing
    /// is.
    pub fn fallback_is_logged(&self) -> (logged: bool)
        ensures
            logged == (self.fallbacks() == 1 || (self.fallbacks() > 0 && self.fallbacks() % 100 == 0)),
    {
        self.all_cooled_fallbacks == 1 || (self.all_cooled_fallbacks > 0 && self.all_cooled_fallbacks % 100 == 0)
    }
}

/// Where a step finds a node that is not left alone, not all are; where the
/// whole walk finds none, all are.
proof fn lemma_walk_of_cooling_nodes(nodes: Seq<BackendNode>, start: nat, now: u64)
    requires
        nodes.len() > 0,
        forall|k: int| 0 <= k < nodes.len() ==> cooling(nodes[#[trigger] visited(nodes.len(), start, k)], now),
    ensures
        all_cooling(nodes, now),
{
    let len = nodes.len();
    let s = start as int % len as int;
    assert forall|i: int| 0 <= i < len implies cooling(#[trigger] nodes[i], now) by {
        let step = if i >= s {
            i - s
        } else {
            i - s + len
        };
        super::balancer::lemma_wrap(s, step, len as int);
        assert(visited(len, start, step) == i);
    }
}

impl LoadBalancer for RoundRobinBalancer {
    closed spec fn nodes_view(&self) -> Seq<BackendNode> {
        self.nodes@
    }

    closed spec fn well_formed(&self) -> bool {
        self.nodes@.len() > 0
    }

    open spec fn holds(&self, guard: BackendGuard) -> bool {
        guard.node < self.nodes_view().len()
    }

    open spec fn place(&self, guard: BackendGuard) -> int {
        guard.node as int
    }

    open spec fn strategy_view(&self) -> Seq<char> {
        "round_robin"@
    }

    /// Never fails, whatever the model: the node whose turn it is is claimed,
    /// and the turn goes on.
    fn select(&mut self, model: Option<&str>, now: u64) -> (result: Result<BackendGuard, NoMatchingBackend>)
        ensures
            result is Ok,
            result->Ok_0.node == turn(old(self).nodes_view(), old(self).turns(), now),
            result->Ok_0.group == 0,
            result->Ok_0.group_name is None,
            final(self).turns() == next_turn(old(self).turns()),
            final(self).fallbacks() == next_fallbacks(old(self).fallbacks(), old(self).nodes_view(), now),
    {
        let len = self.nodes.len();
        let start = self.counter;
        self.counter = self.counter.wrapping_add(1);
        let order = candidate_order(len, start);
        let mut step: usize = 0;
        while step < len
            invariant
                0 < len,
                len == self.nodes@.len(),
                self.nodes@ == old(self).nodes_view(),
                has_room(self.nodes@),
                start == old(self).turns(),
                self.turns() == next_turn(old(self).turns()),
                self.fallbacks() == old(self).fallbacks(),
                step <= len,
                order@.len() == len,
                forall|k: int| 0 <= k < len ==> (#[trigger] order@[k]) == visited(len as nat, start as nat, k),
                forall|k: int| 0 <= k < step ==> cooling(self.nodes@[#[trigger] visited(len as nat, start as nat, k)], now),
                turn(self.nodes@, start as nat, now) == turn_from(self.nodes@, start as nat, now, step as int),
            decreases len - step,
        {
            let at = order[step];
            proof {
                super::balancer::lemma_visited(len as nat, start as nat, step as int);
                assert(at == visited(len as nat, start as nat, step as int));
            }
            if !self.nodes[at].in_cooldown(now) {
                proof {
                    assert(!all_cooling(self.nodes@, now));
                    assert(self.nodes@[at as int].active_requests < usize::MAX);
                }
                self.nodes[at].claim();
                return Ok(BackendGuard { group: 0, node: at, group_name: None });
            }
            step += 1;
        }
        proof {
            lemma_walk_of_cooling_nodes(self.nodes@, start as nat, now);
        }
        self.all_cooled_fallbacks = self.all_cooled_fallbacks.wrapping_add(1);
        let at = soonest_recovering_node(self.nodes.as_slice());
        proof {
            assert(self.nodes@[at as int].active_requests < usize::MAX);
        }
        self.nodes[at].claim();
        Ok(BackendGuard { group: 0, node: at, group_name: None })
    }

    fn release(&mut self, guard: BackendGuard)
        ensures
            final(self).turns() == old(self).turns(),
            final(self).fallbacks() == old(self).fallbacks(),
    {
        self.nodes[guard.node].release();
    }

    fn strategy_name(&self) -> &'static str {
        "round_robin"
    }

    fn all_nodes(&self) -> Vec<&BackendNode> {
        borrow_all(&self.nodes)
    }

    fn node(&self, guard: &BackendGuard) -> &BackendNode {
        &self.nodes[guard.node]
    }

    fn node_mut(&mut self, guard: &BackendGuard) -> (node: &mut BackendNode)
        ensures
            final(self).turns() == old(self).turns(),
            final(self).fallbacks() == old(self).fallbacks(),
    {
        &mut self.nodes[guard.node]
    }
}

/// Where no node is left alone, the nodes are chosen strictly in turn.
pub proof fn law_nodes_take_turns(nodes: Seq<BackendNode>, counter: nat, now: u64)
    requires
        nodes.len() > 0,
        forall|i: int| 0 <= i < nodes.len() ==> !cooling(#[trigger] nodes[i], now),
    ensures
        turn(nodes, counter, now) == counter % nodes.len(),
{
    super::balancer::lemma_visited(nodes.len(), counter, 0);
    let s = counter as int % nodes.len() as int;
    super::balancer::lemma_wrap(s, 0, nodes.len() as int);
    assert(!cooling(nodes[visited(nodes.len(), counter, 0)], now));
}

proof fn lemma_turn_from(nodes: Seq<BackendNode>, start: nat, now: u64, step: int)
    requires
        nodes.len() > 0,
        0 <= step <= nodes.len(),
        exists|k: int|
            step <= k < nodes.len() && !cooling(nodes[#[trigger] visited(nodes.len(), start, k)], now),
    ensures
        0 <= turn_from(nodes, start, now, step) < nodes.len(),
        !cooling(nodes[turn_from(nodes, start, now, step)], now),
    decreases nodes.len() - step,
{
    let k = choose|k: int|
        step <= k < nodes.len() && !cooling(nodes[#[trigger] visited(nodes.len(), start, k)], now);
    super::balancer::lemma_visited(nodes.len(), start, step);
    if cooling(nodes[visited(nodes.len(), start, step)], now) {
        assert(step + 1 <= k);
        lemma_turn_from(nodes, start, now, step + 1);
    }
}

/// A node that is left alone is not chosen while there is another.
pub proof fn law_cooled_nodes_are_stepped_over(nodes: Seq<BackendNode>, counter: nat, now: u64)
    requires
        nodes.len() > 0,
        !all_cooling(nodes, now),
    ensures
        0 <= turn(nodes, counter, now) < nodes.len(),
        !cooling(nodes[turn(nodes, counter, now)], now),
{
    if forall|k: int| 0 <= k < nodes.len() ==> cooling(nodes[#[trigger] visited(nodes.len(), counter, k)], now) {
        lemma_walk_of_cooling_nodes(nodes, counter, now);
    }
    lemma_turn_from(nodes, counter, now, 0);
}

/// Whose turn it is does not depend on how many requests the nodes are working
/// on: claims that are made and given back in between change nothing.
pub proof fn law_load_has_no_influence(a: Seq<BackendNode>, b: Seq<BackendNode>, counter: nat, now: u64)
    requires
        a.len() > 0,
        a.len() == b.len(),
        forall|i: int|
            0 <= i < a.len() ==> b[i] == (BackendNode { active_requests: b[i].active_requests, ..#[trigger] a[i] }),
    ensures
        turn(b, counter, now) == turn(a, counter, now),
{
    lemma_same_turn(a, b, counter, now, 0);
}

proof fn lemma_same_turn(a: Seq<BackendNode>, b: Seq<BackendNode>, start: nat, now: u64, step: int)
    requires
        a.len() > 0,
        a.len() == b.len(),
        0 <= step <= a.len(),
        forall|i: int|
            0 <= i < a.len() ==> b[i] == (BackendNode { active_requests: b[i].active_requests, ..#[trigger] a[i] }),
    ensures
        turn_from(b, start, now, step) == turn_from(a, start, now, step),
    decreases a.len() - step,
{
    if step < a.len() {
        super::balancer::lemma_visited(a.len(), start, step);
        assert(cooling(a[visited(a.len(), start, step)], now) == cooling(b[visited(a.len(), start, step)], now));
        lemma_same_turn(a, b, start, now, step + 1);
    } else {
        lemma_same_soonest(a, b, a.len());
    }
}

proof fn lemma_same_soonest(a: Seq<BackendNode>, b: Seq<BackendNode>, n: nat)
    requires
        n <= a.len(),
        a.len() == b.len(),
        forall|i: int|
            0 <= i < a.len() ==> b[i] == (BackendNode { active_requests: b[i].active_requests, ..#[trigger] a[i] }),
    ensures
        soonest(b, n) == soonest(a, n),
    decreases n,
{
    if n > 1 {
        lemma_same_soonest(a, b, (n - 1) as nat);
        super::node::law_soonest_is_the_first_minimum(a, (n - 1) as nat, 0);
        assert(a[n - 1].cooldown_until == b[n - 1].cooldown_until);
        let before = soonest(a, (n - 1) as nat);
        assert(a[before].cooldown_until == b[before].cooldown_until);
    }
}

} // verus!
