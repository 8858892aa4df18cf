//! Pure admission policy: allow-lists and the connection cap.
//!
//! The allow-lists are fixed at process start from the configuration; all
//! checks are side-effect-free and are evaluated before any listener is
//! created, so a rejected request leaves no resources allocated.

use vstd::prelude::*;

verus! {

/// Whether some string of `v` reads as `u`.
pub open spec fn has_user_view(v: Seq<String>, u: Seq<char>) -> bool {
    exists|k: int| 0 <= k < v.len() && #[trigger] v[k]@ == u
}

/// Mathematical content of an [`AccessPolicy`]: the two allow-lists as sets
/// and the cap on simultaneously active tunnels.
#[verifier::ext_equal]
pub ghost struct PolicyView {
    pub allowed_ports: Set<u16>,
    pub allowed_users: Set<Seq<char>>,
    pub max_connections: u32,
}

/// Validation logic over the configured allow-lists and connection cap.
/// Carries no state beyond the configuration.
pub struct AccessPolicy {
    pub allowed_ports: Vec<u16>,
    pub allowed_users: Vec<String>,
    pub max_connections: u32,
}

impl View for AccessPolicy {
    type V = PolicyView;

    open spec fn view(&self) -> PolicyView {
        PolicyView {
            allowed_ports: Set::new(|p: u16| self.allowed_ports@.contains(p)),
            allowed_users: Set::new(|u: Seq<char>| has_user_view(self.allowed_users@, u)),
            max_connections: self.max_connections,
        }
    }
}

impl AccessPolicy {
    /// A policy over the given allow-lists and cap.
    pub fn new(allowed_ports: Vec<u16>, allowed_users: Vec<String>, max_connections: u32) -> (p:
        AccessPolicy)
        ensures
            p.allowed_ports == allowed_ports,
            p.allowed_users == allowed_users,
            p.max_connections == max_connections,
    {
        AccessPolicy { allowed_ports, allowed_users, max_connections }
    }

    /// Whether a public port may be bound: membership in the port allow-list.
    pub fn is_port_allowed(&self, port: u16) -> (r: bool)
        ensures
            r == self@.allowed_ports.contains(port),
    {
        let n = self.allowed_ports.len();
        let mut i: usize = 0;
        while i < n
            invariant
                i <= n,
                n == self.allowed_ports@.len(),
                forall|j: int| 0 <= j < i ==> self.allowed_ports@[j] != port,
            decreases n - i,
        {
            if self.allowed_ports[i] == port {
                return true;
            }
            i = i + 1;
        }
        false
    }

    /// Whether a username may operate tunnels: membership in the user
    /// allow-list.
    pub fn is_user_allowed(&self, username: &String) -> (r: bool)
        ensures
            r == self@.allowed_users.contains(username@),
    {
        let n = self.allowed_users.len();
        let mut i: usize = 0;
        while i < n
            invariant
                i <= n,
                n == self.allowed_users@.len(),
                forall|j: int| 0 <= j < i ==> self.allowed_users@[j]@ != username@,
            decreases n - i,
        {
            if self.allowed_users[i].eq(username) {
                return true;
            }
            i = i + 1;
        }
        false
    }

    /// Whether one more tunnel fits under the configured cap.
    pub fn has_capacity(&self, current: usize) -> (r: bool)
        ensures
            r == ((current as nat) < self@.max_connections),
    {
        current < self.max_connections as usize
    }
}

} // verus!
