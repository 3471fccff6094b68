//! A single backend node.

use vstd::prelude::*;
use vstd::string::*;
use crate::config::Temperature;
use crate::text::{joined, strip_prefix, trim_end_char, trimmed_end, without_prefix};

verus! {

broadcast use vstd::string::group_string_axioms;

/// How long a connection to a backend may take to come about, in seconds.
pub const CONNECT_TIMEOUT_SECS: u64 = 5;

/// A backend node. Times are nanoseconds on the clock of the caller, which
/// never goes back.
#[derive(Debug, PartialEq, Eq)]
pub struct BackendNode {
    pub url: String,
    pub model: Option<String>,
    pub api_key: Option<String>,
    pub timeout_seconds: u64,
    /// How many requests the node is working on.
    pub active_requests: usize,
    /// A prefix that request paths lose before they go to the node.
    pub strip_path_prefix: Option<String>,
    /// The temperature of requests to this node, in place of the client's.
    pub temperature: Option<Temperature>,
    /// Whether the last answer of the node was a success.
    pub healthy: bool,
    /// The time from which a node that failed may be chosen again.
    pub cooldown_until: u64,
}

/// A node with one request more.
pub open spec fn claimed(n: BackendNode) -> BackendNode {
    BackendNode { active_requests: (n.active_requests + 1) as usize, ..n }
}

/// A node with one request less; a node without any stays without.
pub open spec fn released(n: BackendNode) -> BackendNode {
    BackendNode {
        active_requests: if n.active_requests == 0 {
            0
        } else {
            (n.active_requests - 1) as usize
        },
        ..n
    }
}

/// Whether a node is left alone because it failed.
pub open spec fn cooling(n: BackendNode, now: u64) -> bool {
    !n.healthy && now < n.cooldown_until
}

impl BackendNode {
    /// A node that is idle and can be chosen.
    pub fn from_config(
        url: String,
        timeout_seconds: u64,
        model: Option<String>,
        api_key: Option<String>,
        strip_path_prefix: Option<String>,
        temperature: Option<Temperature>,
        now: u64,
    ) -> (node: BackendNode)
        ensures
            node == (BackendNode {
                url,
                model,
                api_key,
                timeout_seconds,
                active_requests: 0,
                strip_path_prefix,
                temperature,
                healthy: true,
                cooldown_until: now,
            }),
    {
        BackendNode {
            url,
            model,
            api_key,
            timeout_seconds,
            active_requests: 0,
            strip_path_prefix,
            temperature,
            healthy: true,
            cooldown_until: now,
        }
    }

    /// Leaves the node alone for a while from now on. A second failure starts
    /// the while anew.
    pub fn mark_failed(&mut self, now: u64, cooldown: u64)
        requires
            now + cooldown <= u64::MAX,
        ensures
            *final(self) == (BackendNode { healthy: false, cooldown_until: (now + cooldown) as u64, ..*old(self) }),
    {
        self.cooldown_until = now + cooldown;
        self.healthy = false;
    }

    /// Ends the time for which the node is left alone.
    pub fn mark_healthy(&mut self)
        ensures
            *final(self) == (BackendNode { healthy: true, ..*old(self) }),
    {
        self.healthy = true;
    }

    /// Whether the node is left alone.
    pub fn in_cooldown(&self, now: u64) -> (cools: bool)
        ensures
            cools == cooling(*self, now),
    {
        !self.healthy && now < self.cooldown_until
    }

    /// When a node that failed may be chosen again.
    pub fn cooldown_expiry(&self) -> (at: u64)
        ensures
            at == self.cooldown_until,
    {
        self.cooldown_until
    }

    /// The URL without trailing slashes.
    pub fn base_url(&self) -> (base: &str)
        ensures
            base@ == trimmed_end(self.url@, '/'),
    {
        trim_end_char(self.url.as_str(), '/')
    }

    /// The path that the node is asked for.
    pub fn effective_path<'a>(&self, path: &'a str) -> (effective: &'a str)
        ensures
            effective@ == match self.strip_path_prefix {
                Some(prefix) => without_prefix(path@, prefix@),
                None => path@,
            },
    {
        match &self.strip_path_prefix {
            Some(prefix) => strip_prefix(path, prefix.as_str()),
            None => path,
        }
    }

    /// Counts one request more.
    pub fn claim(&mut self)
        requires
            old(self).active_requests < usize::MAX,
        ensures
            *final(self) == claimed(*old(self)),
    {
        self.active_requests = self.active_requests + 1;
    }

    /// Counts one request less; a node without any stays without.
    pub fn release(&mut self)
        ensures
            *final(self) == released(*old(self)),
    {
        if self.active_requests > 0 {
            self.active_requests = self.active_requests - 1;
        }
    }
}

/// The header that authorizes a request, where there is a key for it.
pub fn auth_header(api_key: Option<&str>) -> (header: Option<String>)
    ensures
        match api_key {
            Some(key) => header is Some && header->0@ == "Bearer "@ + key@,
            None => header is None,
        },
{
    match api_key {
        Some(key) => Some(joined("Bearer ", key)),
        None => None,
    }
}

/// The URL of a request: the base and the path, which loses the prefix where
/// it has it, once.
pub open spec fn request_url(base: Seq<char>, path: Seq<char>, prefix: Option<Seq<char>>) -> Seq<char> {
    base + match prefix {
        Some(p) => without_prefix(path, p),
        None => path,
    }
}

/// The view of an optional borrowed text.
pub open spec fn opt_str(s: Option<&str>) -> Option<Seq<char>> {
    match s {
        Some(t) => Some(t@),
        None => None,
    }
}

/// The URL of a request.
pub fn node_url(base: &str, path: &str, prefix: Option<&str>) -> (url: String)
    ensures
        url@ == request_url(base@, path@, opt_str(prefix)),
{
    let native = match prefix {
        Some(p) => strip_prefix(path, p),
        None => path,
    };
    joined(base, native)
}

/// The position of the first of the first `n` nodes whose time of being left
/// alone ends soonest.
pub open spec fn soonest(nodes: Seq<BackendNode>, n: nat) -> int
    decreases n,
{
    if n <= 1 || n > nodes.len() {
        0
    } else {
        let before = soonest(nodes, (n - 1) as nat);
        if nodes[n - 1].cooldown_until < nodes[before].cooldown_until {
            n - 1
        } else {
            before
        }
    }
}

/// The position of the node whose time of being left alone ends soonest; of
/// several such nodes, the first.
pub fn soonest_recovering_node(nodes: &[BackendNode]) -> (at: usize)
    requires
        nodes@.len() > 0,
    ensures
        at == soonest(nodes@, nodes@.len()),
        at < nodes@.len(),
{
    let mut best: usize = 0;
    let mut i: usize = 1;
    while i < nodes.len()
        invariant
            1 <= i <= nodes@.len(),
            best < i,
            best == soonest(nodes@, i as nat),
        decreases nodes@.len() - i,
    {
        if nodes[i].cooldown_until < nodes[best].cooldown_until {
            best = i;
        }
        i += 1;
    }
    best
}

/// No node recovers sooner than the one that is found, and none before it as
/// soon.
pub proof fn law_soonest_is_the_first_minimum(nodes: Seq<BackendNode>, n: nat, i: int)
    requires
        0 < n <= nodes.len(),
        0 <= i < n,
    ensures
        0 <= soonest(nodes, n) < n,
        nodes[soonest(nodes, n)].cooldown_until <= nodes[i].cooldown_until,
        i < soonest(nodes, n) ==> nodes[soonest(nodes, n)].cooldown_until < nodes[i].cooldown_until,
    decreases n,
{
    if n > 1 {
        if i < n - 1 {
            law_soonest_is_the_first_minimum(nodes, (n - 1) as nat, i);
        } else {
            law_soonest_is_the_first_minimum(nodes, (n - 1) as nat, 0);
        }
    }
}

/// A failure that leaves a node alone for no time never excludes it.
pub proof fn law_zero_cooldown_never_excludes(node: BackendNode, failed_at: u64, now: u64)
    requires
        failed_at <= now,
    ensures
        !cooling(BackendNode { healthy: false, cooldown_until: failed_at, ..node }, now),
{
}

/// A node that failed is left alone until its time is over, and no longer.
pub proof fn law_a_failed_node_comes_back(node: BackendNode, failed_at: u64, cooldown: u64, now: u64)
    requires
        failed_at + cooldown <= u64::MAX,
        failed_at <= now,
    ensures
        cooling(BackendNode { healthy: false, cooldown_until: (failed_at + cooldown) as u64, ..node }, now) <==> now
            < failed_at + cooldown,
{
}

/// Claiming a node and releasing it changes nothing.
pub proof fn law_release_undoes_claim(node: BackendNode)
    requires
        node.active_requests < usize::MAX,
    ensures
        released(claimed(node)) == node,
{
}

} // verus!
