//! What every balancer does.

use vstd::prelude::*;
use vstd::string::*;
use crate::config::NoMatchingBackend;
use super::node::{claimed, released, BackendNode};

verus! {

broadcast use vstd::string::group_string_axioms;

/// A claim on one node, for one request. It is given back with
/// [`LoadBalancer::release`], once.
#[derive(Debug, PartialEq, Eq)]
pub struct BackendGuard {
    /// The position of the group of the node, where there are groups; else 0.
    pub group: usize,
    /// The position of the node in its group.
    pub node: usize,
    /// The name of the group of the node, where there are groups.
    pub group_name: Option<String>,
}

/// The node that is visited at a step of a walk that starts at `start` and
/// wraps at the end.
pub open spec fn visited(len: nat, start: nat, step: int) -> int {
    (start as int % len as int + step) % (len as int)
}

/// The order in which nodes are visited: one rotation, from `start` on. No node
/// gives no order.
pub fn candidate_order(len: usize, start: usize) -> (order: Vec<usize>)
    ensures
        order@.len() == len,
        forall|step: int| 0 <= step < len ==> (#[trigger] order@[step]) == visited(len as nat, start as nat, step),
{
    let mut order: Vec<usize> = Vec::new();
    if len == 0 {
        return order;
    }
    let first = start % len;
    let mut step: usize = 0;
    while step < len
        invariant
            0 < len,
            first == start as int % len as int,
            0 <= first < len,
            step <= len,
            order@.len() == step,
            forall|k: int| 0 <= k < step ==> (#[trigger] order@[k]) == visited(len as nat, start as nat, k),
        decreases len - step,
    {
        let left = len - first;
        let at = if step < left {
            first + step
        } else {
            step - left
        };
        proof {
            let sum = first as int + step as int;
            if step < left {
                vstd::arithmetic::div_mod::lemma_small_mod(sum as nat, len as nat);
            } else {
                vstd::arithmetic::div_mod::lemma_fundamental_div_mod_converse(sum, len as int, 1, at as int);
            }
        }
        order.push(at);
        step += 1;
    }
    order
}

/// Whether a balancer claimed one node for a request and did nothing else to
/// its nodes.
pub open spec fn claims_one(before: Seq<BackendNode>, at: int, after: Seq<BackendNode>) -> bool {
    0 <= at < before.len() && after == before.update(at, claimed(before[at]))
}

/// Whether every node can count one request more.
pub open spec fn has_room(nodes: Seq<BackendNode>) -> bool {
    forall|i: int| 0 <= i < nodes.len() ==> (#[trigger] nodes[i]).active_requests < usize::MAX
}

/// Whether borrowed nodes are these nodes.
pub open spec fn are_nodes(borrowed: Seq<&BackendNode>, nodes: Seq<BackendNode>) -> bool {
    &&& borrowed.len() == nodes.len()
    &&& forall|i: int| 0 <= i < nodes.len() ==> *(#[trigger] borrowed[i]) == nodes[i]
}

/// A way of choosing a node.
pub trait LoadBalancer: Sized {
    /// All nodes, in order.
    spec fn nodes_view(&self) -> Seq<BackendNode>;

    /// What every operation keeps.
    spec fn well_formed(&self) -> bool;

    /// Whether a claim is on a node of this balancer.
    spec fn holds(&self, guard: BackendGuard) -> bool;

    /// The position of the node of a claim among all nodes.
    spec fn place(&self, guard: BackendGuard) -> int;

    /// What [`LoadBalancer::strategy_name`] returns.
    spec fn strategy_view(&self) -> Seq<char>;

    /// Claims a node for a request, at the given time. A failure changes no
    /// node.
    fn select(&mut self, model: Option<&str>, now: u64) -> (result: Result<BackendGuard, NoMatchingBackend>)
        requires
            old(self).well_formed(),
            has_room(old(self).nodes_view()),
        ensures
            final(self).well_formed(),
            match result {
                Ok(guard) => {
                    &&& old(self).holds(guard)
                    &&& claims_one(old(self).nodes_view(), old(self).place(guard), final(self).nodes_view())
                },
                Err(_) => final(self).nodes_view() == old(self).nodes_view(),
            },
            forall|g: BackendGuard| #[trigger] final(self).holds(g) == old(self).holds(g),
            forall|g: BackendGuard| #[trigger] final(self).place(g) == old(self).place(g),
    ;

    /// Gives a claim back.
    fn release(&mut self, guard: BackendGuard)
        requires
            old(self).well_formed(),
            old(self).holds(guard),
        ensures
            final(self).well_formed(),
            final(self).nodes_view() == old(self).nodes_view().update(
                old(self).place(guard),
                released(old(self).nodes_view()[old(self).place(guard)]),
            ),
            forall|g: BackendGuard| #[trigger] final(self).holds(g) == old(self).holds(g),
            forall|g: BackendGuard| #[trigger] final(self).place(g) == old(self).place(g),
    ;

    /// The name of the strategy.
    fn strategy_name(&self) -> (name: &'static str)
        ensures
            name@ == self.strategy_view(),
    ;

    /// All nodes, in order.
    fn all_nodes(&self) -> (nodes: Vec<&BackendNode>)
        ensures
            are_nodes(nodes@, self.nodes_view()),
    ;

    /// The node of a claim.
    fn node(&self, guard: &BackendGuard) -> (node: &BackendNode)
        requires
            self.well_formed(),
            self.holds(*guard),
        ensures
            0 <= self.place(*guard) < self.nodes_view().len(),
            *node == self.nodes_view()[self.place(*guard)],
    ;

    /// The node of a claim, to be marked as failed or healthy.
    fn node_mut(&mut self, guard: &BackendGuard) -> (node: &mut BackendNode)
        requires
            old(self).well_formed(),
            old(self).holds(*guard),
        ensures
            *node == old(self).nodes_view()[old(self).place(*guard)],
            final(self).well_formed(),
            final(self).nodes_view() == old(self).nodes_view().update(old(self).place(*guard), *final(node)),
            forall|g: BackendGuard| #[trigger] final(self).holds(g) == old(self).holds(g),
            forall|g: BackendGuard| #[trigger] final(self).place(g) == old(self).place(g),
    ;
}

/// Borrows every node.
pub(crate) fn borrow_all(nodes: &Vec<BackendNode>) -> (borrowed: Vec<&BackendNode>)
    ensures
        are_nodes(borrowed@, nodes@),
{
    let mut borrowed: Vec<&BackendNode> = Vec::new();
    let mut i: usize = 0;
    while i < nodes.len()
        invariant
            i <= nodes@.len(),
            borrowed@.len() == i,
            forall|k: int| 0 <= k < i ==> *(#[trigger] borrowed@[k]) == nodes@[k],
        decreases nodes@.len() - i,
    {
        borrowed.push(&nodes[i]);
        i += 1;
    }
    borrowed
}

/// A walk visits every node once: no two steps meet.
pub proof fn law_a_walk_visits_every_node_once(len: nat, start: nat, a: int, b: int)
    requires
        0 < len,
        0 <= a < b < len,
    ensures
        0 <= visited(len, start, a) < len,
        visited(len, start, a) != visited(len, start, b),
{
    let s = start as int % len as int;
    lemma_wrap(s, a, len as int);
    lemma_wrap(s, b, len as int);
}

pub(crate) proof fn lemma_wrap(s: int, step: int, len: int)
    requires
        0 < len,
        0 <= s < len,
        0 <= step < len,
    ensures
        (s + step) % len == if s + step < len {
            s + step
        } else {
            s + step - len
        },
{
    if s + step < len {
        vstd::arithmetic::div_mod::lemma_small_mod((s + step) as nat, len as nat);
    } else {
        vstd::arithmetic::div_mod::lemma_fundamental_div_mod_converse(s + step, len, 1, s + step - len);
    }
}

/// A step of a walk visits a node.
pub(crate) proof fn lemma_visited(len: nat, start: nat, step: int)
    requires
        0 < len,
        0 <= step < len,
    ensures
        0 <= visited(len, start, step) < len,
{
    lemma_wrap(start as int % len as int, step, len as int);
}

/// A walk that starts at the first node visits the nodes in their order.
pub proof fn law_a_walk_from_the_start_is_in_order(len: nat, step: int)
    requires
        0 <= step < len,
    ensures
        visited(len, 0, step) == step,
{
    vstd::arithmetic::div_mod::lemma_small_mod(0, len);
    lemma_wrap(0, step, len as int);
}

/// A request that is claimed and given back leaves the nodes as they were.
pub proof fn law_released_claims_leave_no_trace(
    before: Seq<BackendNode>,
    at: int,
    during: Seq<BackendNode>,
    after: Seq<BackendNode>,
)
    requires
        has_room(before),
        claims_one(before, at, during),
        after == during.update(at, released(during[at])),
    ensures
        after == before,
{
    assert(before[at].active_requests < usize::MAX);
    assert(after =~= before);
}

} // verus!
