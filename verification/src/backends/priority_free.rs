//! Choosing the first node that is free.
//!
//! Where every node is busy, the one with the fewest requests is chosen, and of
//! several such nodes the first. Nodes that are left alone because they failed
//! are passed over; where all of them are, the one that recovers soonest serves.

use vstd::prelude::*;
use vstd::string::*;
use crate::config::NoMatchingBackend;
use super::balancer::{borrow_all, BackendGuard, LoadBalancer};
use super::node::{cooling, soonest, soonest_recovering_node, BackendNode};

verus! {

broadcast use vstd::string::group_string_axioms;

/// A balancer that chooses the first node that is free.
pub struct PriorityFreeBalancer {
    nodes: Vec<BackendNode>,
}

/// The position of the first of the first `n` nodes with the fewest requests,
/// among those that are not left alone.
pub open spec fn least_loaded(nodes: Seq<BackendNode>, now: u64, n: nat) -> Option<int>
    decreases n,
{
    if n == 0 || n > nodes.len() {
        None
    } else {
        let before = least_loaded(nodes, now, (n - 1) as nat);
        if cooling(nodes[n - 1], now) {
            before
        } else {
            match before {
                Some(at) => if nodes[n - 1].active_requests < nodes[at].active_requests {
                    Some(n - 1)
                } else {
                    Some(at)
                },
                None => Some(n - 1),
            }
        }
    }
}

/// The node that is chosen: the first with the fewest requests that is not left
/// alone, or the one that recovers soonest where all are.
pub open spec fn first_free(nodes: Seq<BackendNode>, now: u64) -> int {
    match least_loaded(nodes, now, nodes.len()) {
        Some(at) => at,
        None => soonest(nodes, nodes.len()),
    }
}

impl PriorityFreeBalancer {
    /// A balancer of at least one node.
    pub fn new(nodes: Vec<BackendNode>) -> (result: Result<PriorityFreeBalancer, String>)
        ensures
            nodes@.len() == 0 ==> result is Err && result->Err_0@ == "PriorityFreeBalancer requires at least one node"@,
            nodes@.len() > 0 ==> {
                &&& result is Ok
                &&& result->Ok_0.nodes_view() == nodes@
                &&& result->Ok_0.well_formed()
            },
    {
        if nodes.len() == 0 {
            return Err("PriorityFreeBalancer requires at least one node".to_owned());
        }
        Ok(PriorityFreeBalancer { nodes })
    }
}

impl LoadBalancer for PriorityFreeBalancer {
    closed spec fn nodes_view(&self) -> Seq<BackendNode> {
        self.nodes@
    }

    closed spec fn well_formed(&self) -> bool {
        self.nodes@.len() > 0
    }

    open spec fn holds(&self, guard: BackendGuard) -> bool {
        guard.node < self.nodes_view().len()
    }

    open spec fn place(&self, guard: BackendGuard) -> int {
        guard.node as int
    }

    open spec fn strategy_view(&self) -> Seq<char> {
        "priority_free"@
    }

    /// Never fails, whatever the model.
    fn select(&mut self, model: Option<&str>, now: u64) -> (result: Result<BackendGuard, NoMatchingBackend>)
        ensures
            result is Ok,
            result->Ok_0.node == first_free(old(self).nodes_view(), now),
            result->Ok_0.group == 0,
            result->Ok_0.group_name is None,
    {
        let len = self.nodes.len();
        let mut best: Option<usize> = None;
        let mut i: usize = 0;
        while i < len
            invariant
                len == self.nodes@.len(),
                self.nodes@ == old(self).nodes_view(),
                i <= len,
                match best {
                    Some(at) => at < i && least_loaded(self.nodes@, now, i as nat) == Some(at as int),
                    None => least_loaded(self.nodes@, now, i as nat) is None,
                },
            decreases len - i,
        {
            if !self.nodes[i].in_cooldown(now) {
                let fewer = match best {
                    Some(at) => self.nodes[i].active_requests < self.nodes[at].active_requests,
                    None => true,
                };
                if fewer {
                    best = Some(i);
                }
            }
            i += 1;
        }
        let at = match best {
            Some(at) => at,
            None => soonest_recovering_node(self.nodes.as_slice()),
        };
        proof {
            assert(self.nodes@[at as int].active_requests < usize::MAX);
        }
        self.nodes[at].claim();
        Ok(BackendGuard { group: 0, node: at, group_name: None })
    }

    fn release(&mut self, guard: BackendGuard) {
        self.nodes[guard.node].release();
    }

    fn strategy_name(&self) -> &'static str {
        "priority_free"
    }

    fn all_nodes(&self) -> Vec<&BackendNode> {
        borrow_all(&self.nodes)
    }

    fn node(&self, guard: &BackendGuard) -> &BackendNode {
        &self.nodes[guard.node]
    }

    fn node_mut(&mut self, guard: &BackendGuard) -> &mut BackendNode {
        &mut self.nodes[guard.node]
    }
}

proof fn lemma_least_loaded(nodes: Seq<BackendNode>, now: u64, n: nat, i: int)
    requires
        0 <= i < n <= nodes.len(),
        !cooling(nodes[i], now),
    ensures
        ({
            let least = least_loaded(nodes, now, n);
            &&& least is Some
            &&& 0 <= least->0 < n
            &&& !cooling(nodes[least->0], now)
            &&& nodes[least->0].active_requests <= nodes[i].active_requests
            &&& i < least->0 ==> nodes[least->0].active_requests < nodes[i].active_requests
        }),
    decreases n,
{
    if i < n - 1 {
        lemma_least_loaded(nodes, now, (n - 1) as nat, i);
    } else if least_loaded(nodes, now, (n - 1) as nat) is Some {
        lemma_least_loaded_place(nodes, now, (n - 1) as nat);
    }
}

proof fn lemma_least_loaded_place(nodes: Seq<BackendNode>, now: u64, n: nat)
    requires
        n <= nodes.len(),
        least_loaded(nodes, now, n) is Some,
    ensures
        0 <= least_loaded(nodes, now, n)->0 < n,
        !cooling(nodes[least_loaded(nodes, now, n)->0], now),
    decreases n,
{
    if least_loaded(nodes, now, (n - 1) as nat) is Some {
        lemma_least_loaded_place(nodes, now, (n - 1) as nat);
    }
}

/// The node that is chosen is not left alone and has no more requests than any
/// other that is not, and every such node before it has more.
pub proof fn law_the_first_least_loaded_node_is_chosen(nodes: Seq<BackendNode>, now: u64, i: int)
    requires
        0 <= i < nodes.len(),
        !cooling(nodes[i], now),
    ensures
        0 <= first_free(nodes, now) < nodes.len(),
        !cooling(nodes[first_free(nodes, now)], now),
        nodes[first_free(nodes, now)].active_requests <= nodes[i].active_requests,
        i < first_free(nodes, now) ==> nodes[first_free(nodes, now)].active_requests < nodes[i].active_requests,
{
    lemma_least_loaded(nodes, now, nodes.len(), i);
}

/// A node that is idle and not left alone is never passed over for one that is
/// busy, nor for one behind it.
pub proof fn law_an_idle_node_is_chosen(nodes: Seq<BackendNode>, now: u64, i: int)
    requires
        0 <= i < nodes.len(),
        !cooling(nodes[i], now),
        nodes[i].active_requests == 0,
    ensures
        nodes[first_free(nodes, now)].active_requests == 0,
        first_free(nodes, now) <= i,
{
    law_the_first_least_loaded_node_is_chosen(nodes, now, i);
}

/// Where every node is left alone, the one that recovers soonest is chosen.
pub proof fn law_the_soonest_serves_where_all_are_left_alone(nodes: Seq<BackendNode>, now: u64)
    requires
        forall|i: int| 0 <= i < nodes.len() ==> cooling(#[trigger] nodes[i], now),
    ensures
        first_free(nodes, now) == soonest(nodes, nodes.len()),
{
    if least_loaded(nodes, now, nodes.len()) is Some {
        lemma_least_loaded_place(nodes, now, nodes.len());
    }
}

} // verus!
