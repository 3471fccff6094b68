//! The choice of a backend for a request.
//!
//! A balancer holds nodes and counts the requests that each of them is working
//! on. Selecting a node claims it for one request; releasing the claim gives it
//! back. Whoever shares a balancer between threads does so under a lock.

use vstd::prelude::*;
use vstd::string::*;
use crate::text::{joined, same_text};

pub mod balancer;
pub mod grouped;
pub mod laws;
pub mod node;
pub mod preflight;
pub mod priority_free;
pub mod round_robin;

pub use balancer::{BackendGuard, LoadBalancer};
pub use grouped::{
    build_balancer_for_group, build_balancer_from_groups, build_balancer_from_single, GroupBalancer, GroupedLoadBalancer,
};
pub use node::BackendNode;
pub use priority_free::PriorityFreeBalancer;
pub use round_robin::RoundRobinBalancer;

verus! {

broadcast use vstd::string::group_string_axioms;

/// How a node of a group is chosen.
#[derive(Debug, Clone, Copy, PartialEq, Eq, Structural)]
pub enum BalancingStrategy {
    PriorityFree,
    RoundRobin,
}

impl Default for BalancingStrategy {
    fn default() -> (strategy: BalancingStrategy)
        ensures
            strategy == BalancingStrategy::PriorityFree,
    {
        BalancingStrategy::PriorityFree
    }
}

/// The strategy that a spelling means, with a hyphen or an underscore.
pub open spec fn strategy_spelled(s: Seq<char>) -> Option<BalancingStrategy> {
    if s == "priority-free"@ || s == "priority_free"@ {
        Some(BalancingStrategy::PriorityFree)
    } else if s == "round-robin"@ || s == "round_robin"@ {
        Some(BalancingStrategy::RoundRobin)
    } else {
        None
    }
}

/// What is said of a spelling that means no strategy.
pub open spec fn unknown_strategy(s: Seq<char>) -> Seq<char> {
    "Unknown load balancer strategy: '"@ + s + "'. Supported: priority-free, round-robin"@
}

impl BalancingStrategy {
    /// The strategy that a spelling means.
    pub fn from_spelling(s: &str) -> (result: Result<BalancingStrategy, String>)
        ensures
            match strategy_spelled(s@) {
                Some(strategy) => result == Ok::<BalancingStrategy, String>(strategy),
                None => result is Err && result->Err_0@ == unknown_strategy(s@),
            },
    {
        if same_text(s, "priority-free") || same_text(s, "priority_free") {
            Ok(BalancingStrategy::PriorityFree)
        } else if same_text(s, "round-robin") || same_text(s, "round_robin") {
            Ok(BalancingStrategy::RoundRobin)
        } else {
            let mut message = joined("Unknown load balancer strategy: '", s);
            message.append("'. Supported: priority-free, round-robin");
            Err(message)
        }
    }
}

impl std::str::FromStr for BalancingStrategy {
    type Err = String;

    fn from_str(s: &str) -> (result: Result<BalancingStrategy, String>)
        ensures
            match strategy_spelled(s@) {
                Some(strategy) => result == Ok::<BalancingStrategy, String>(strategy),
                None => result is Err && result->Err_0@ == unknown_strategy(s@),
            },
    {
        BalancingStrategy::from_spelling(s)
    }
}

} // verus!
