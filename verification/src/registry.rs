//! The tunnel registry: the authoritative in-memory store of active tunnels
//! and sessions.
//!
//! All access to the shared registry state funnels through the operations of
//! [`TunnelManager`]; the process serializes them (one lock around the
//! bookkeeping, never around the data path), so the contracts here describe
//! one atomic step each. Creating a tunnel reserves its port entry before the
//! transport listener is opened; [`TunnelManager::finish_bind`] then either
//! activates the reservation or rolls it back, so no partial state survives a
//! failed bind. Closing a session closes every tunnel it owns before the
//! session record is dropped, so no tunnel outlives its owning session.

use vstd::prelude::*;

use crate::config::ServerConfig;
use crate::errors::TunnelError;
use crate::policy::{AccessPolicy, PolicyView};

verus! {

/// A binding from a public port to a local forwarding target, owned by one
/// session. `remote_port` is unique among active tunnels and acts as the
/// primary key. `bound` distinguishes the short-lived reservation placeholder
/// from a tunnel whose listener is up.
#[derive(Debug)]
pub struct Tunnel {
    pub remote_port: u16,
    pub local_host: String,
    pub local_port: u16,
    pub owner_session_id: u64,
    pub created_at: u64,
    pub bound: bool,
}

/// Mathematical content of a [`Tunnel`].
#[verifier::ext_equal]
pub ghost struct TunnelView {
    pub remote_port: u16,
    pub local_host: Seq<char>,
    pub local_port: u16,
    pub owner_session_id: u64,
    pub created_at: u64,
    pub bound: bool,
}

impl View for Tunnel {
    type V = TunnelView;

    open spec fn view(&self) -> TunnelView {
        TunnelView {
            remote_port: self.remote_port,
            local_host: self.local_host@,
            local_port: self.local_port,
            owner_session_id: self.owner_session_id,
            created_at: self.created_at,
            bound: self.bound,
        }
    }
}

/// An authenticated client connection and its identity, valid until
/// disconnect or timeout. The set of tunnels a session owns is not stored
/// here: it is the derived index [`owned_ports`] over the registry, kept
/// consistent because the registry is the single writer.
#[derive(Debug)]
pub struct Session {
    pub session_id: u64,
    pub username: String,
    pub remote_addr: String,
    pub connected_at: u64,
}

/// Mathematical content of a [`Session`].
#[verifier::ext_equal]
pub ghost struct SessionView {
    pub session_id: u64,
    pub username: Seq<char>,
    pub remote_addr: Seq<char>,
    pub connected_at: u64,
}

impl View for Session {
    type V = SessionView;

    open spec fn view(&self) -> SessionView {
        SessionView {
            session_id: self.session_id,
            username: self.username@,
            remote_addr: self.remote_addr@,
            connected_at: self.connected_at,
        }
    }
}

/// Mathematical content of the whole registry.
#[verifier::ext_equal]
pub ghost struct ManagerView {
    pub policy: PolicyView,
    pub tunnels: Seq<TunnelView>,
    pub sessions: Seq<SessionView>,
}

/// Whether some tunnel is registered under public port `p`.
pub open spec fn has_port(ts: Seq<TunnelView>, p: u16) -> bool {
    exists|i: int| 0 <= i < ts.len() && ts[i].remote_port == p
}

/// The index of the tunnel registered under `p` (unique when the registry is
/// well-formed).
pub open spec fn port_index(ts: Seq<TunnelView>, p: u16) -> int {
    choose|i: int| 0 <= i < ts.len() && ts[i].remote_port == p
}

/// The tunnel registered under `p`.
pub open spec fn tunnel_at(ts: Seq<TunnelView>, p: u16) -> TunnelView {
    ts[port_index(ts, p)]
}

/// Whether a live session carries identity `id`.
pub open spec fn has_session(ss: Seq<SessionView>, id: u64) -> bool {
    exists|i: int| 0 <= i < ss.len() && ss[i].session_id == id
}

/// The index of the session with identity `id`.
pub open spec fn session_index(ss: Seq<SessionView>, id: u64) -> int {
    choose|i: int| 0 <= i < ss.len() && ss[i].session_id == id
}

/// The ports of the tunnels owned by session `sid`, in registration order:
/// the derived session→tunnels index.
pub open spec fn owned_ports(ts: Seq<TunnelView>, sid: u64) -> Seq<u16> {
    ts.filter(|t: TunnelView| t.owner_session_id == sid).map_values(|t: TunnelView| t.remote_port)
}

impl ManagerView {
    /// Registry invariant: a port is bound to at most one tunnel; session
    /// identities are unique; every tunnel's owner is a live session; every
    /// registered port passed the allow-list; the cap is respected.
    pub open spec fn wf(self) -> bool {
        &&& forall|i: int, j: int|
            0 <= i < j < self.tunnels.len() ==> #[trigger] self.tunnels[i].remote_port
                != #[trigger] self.tunnels[j].remote_port
        &&& forall|i: int, j: int|
            0 <= i < j < self.sessions.len() ==> #[trigger] self.sessions[i].session_id
                != #[trigger] self.sessions[j].session_id
        &&& forall|i: int|
            0 <= i < self.tunnels.len() ==> has_session(
                self.sessions,
                #[trigger] self.tunnels[i].owner_session_id,
            )
        &&& forall|i: int|
            0 <= i < self.tunnels.len() ==> self.policy.allowed_ports.contains(
                #[trigger] self.tunnels[i].remote_port,
            )
        &&& self.tunnels.len() <= self.policy.max_connections
    }
}

/// Admission decision for a create request: uniqueness of the port, the
/// allow-list, then the capacity cap, checked in one critical section.
pub open spec fn create_result(m: ManagerView, remote_port: u16) -> Result<(), TunnelError> {
    if has_port(m.tunnels, remote_port) {
        Err(TunnelError::PortAlreadyBound)
    } else if !m.policy.allowed_ports.contains(remote_port) {
        Err(TunnelError::PortNotAllowed)
    } else if m.tunnels.len() >= m.policy.max_connections {
        Err(TunnelError::CapacityExceeded)
    } else {
        Ok(())
    }
}

/// The reservation placeholder that an admitted create request enters before
/// its listener is opened.
pub open spec fn reserved_tunnel(
    sid: u64,
    remote_port: u16,
    local_host: Seq<char>,
    local_port: u16,
    created_at: u64,
) -> TunnelView {
    TunnelView {
        remote_port,
        local_host,
        local_port,
        owner_session_id: sid,
        created_at,
        bound: false,
    }
}

/// Registry state after a create request: unchanged when refused, extended by
/// the reservation when admitted.
pub open spec fn create_next(
    m: ManagerView,
    sid: u64,
    remote_port: u16,
    local_host: Seq<char>,
    local_port: u16,
    created_at: u64,
) -> ManagerView {
    if create_result(m, remote_port) is Ok {
        ManagerView {
            tunnels: m.tunnels.push(
                reserved_tunnel(sid, remote_port, local_host, local_port, created_at),
            ),
            ..m
        }
    } else {
        m
    }
}

/// Result of closing the tunnel on `p`.
pub open spec fn close_result(m: ManagerView, p: u16) -> Result<(), TunnelError> {
    if has_port(m.tunnels, p) {
        Ok(())
    } else {
        Err(TunnelError::NotFound)
    }
}

/// Registry state after closing the tunnel on `p`: its entry is removed at
/// once, whatever connections are still draining.
pub open spec fn close_next(m: ManagerView, p: u16) -> ManagerView {
    if has_port(m.tunnels, p) {
        ManagerView { tunnels: m.tunnels.remove(port_index(m.tunnels, p)), ..m }
    } else {
        m
    }
}

/// Result of reporting the transport bind outcome for the reservation on `p`.
pub open spec fn finish_bind_result(m: ManagerView, p: u16, bound_ok: bool) -> Result<
    (),
    TunnelError,
> {
    if has_port(m.tunnels, p) && !tunnel_at(m.tunnels, p).bound {
        if bound_ok {
            Ok(())
        } else {
            Err(TunnelError::TransportBindError)
        }
    } else {
        Err(TunnelError::NotFound)
    }
}

/// Registry state after the bind outcome: a successful bind activates the
/// reservation; a failed bind rolls it back entirely.
pub open spec fn finish_bind_next(m: ManagerView, p: u16, bound_ok: bool) -> ManagerView {
    if has_port(m.tunnels, p) && !tunnel_at(m.tunnels, p).bound {
        let i = port_index(m.tunnels, p);
        if bound_ok {
            ManagerView {
                tunnels: m.tunnels.update(i, (TunnelView { bound: true, ..m.tunnels[i] })),
                ..m
            }
        } else {
            ManagerView { tunnels: m.tunnels.remove(i), ..m }
        }
    } else {
        m
    }
}

/// Registry state after a session ends: every tunnel it owns is closed, then
/// the session record itself is dropped.
pub open spec fn close_session_next(m: ManagerView, sid: u64) -> ManagerView {
    if has_session(m.sessions, sid) {
        ManagerView {
            tunnels: m.tunnels.filter(|t: TunnelView| t.owner_session_id != sid),
            sessions: m.sessions.remove(session_index(m.sessions, sid)),
            ..m
        }
    } else {
        m
    }
}

/// Whether a session's declared budget has run out by `now`: it connected
/// more than `timeout` seconds ago.
pub open spec fn session_expired(s: SessionView, now: u64, timeout: u64) -> bool {
    s.connected_at + timeout < now
}

/// The identities of the sessions expired by `now`, in admission order.
pub open spec fn expired_ids(ss: Seq<SessionView>, now: u64, timeout: u64) -> Seq<u64> {
    ss.filter(|s: SessionView| session_expired(s, now, timeout)).map_values(
        |s: SessionView| s.session_id,
    )
}

/// Registry state after the authenticator admits a session.
pub open spec fn add_session_next(m: ManagerView, sv: SessionView) -> ManagerView {
    if has_session(m.sessions, sv.session_id) {
        m
    } else {
        ManagerView { sessions: m.sessions.push(sv), ..m }
    }
}

/// Owner of the mapping from public ports to live tunnels, and of the session
/// records. The one piece of shared mutable state in the system; every
/// mutation goes through its operations.
pub struct TunnelManager {
    pub policy: AccessPolicy,
    tunnels: Vec<Tunnel>,
    sessions: Vec<Session>,
}

impl View for TunnelManager {
    type V = ManagerView;

    closed spec fn view(&self) -> ManagerView {
        ManagerView {
            policy: self.policy@,
            tunnels: self.tunnels@.map_values(|t: Tunnel| t@),
            sessions: self.sessions@.map_values(|s: Session| s@),
        }
    }
}

impl TunnelManager {
    /// An empty registry governed by the policy the settings describe.
    pub fn new(config: &ServerConfig) -> (m: TunnelManager)
        ensures
            m@.policy.allowed_ports == crate::config::allowed_ports_spec(config.allowed_ports@),
            m@.policy.allowed_users == crate::config::allowed_users_spec(config.allowed_users@),
            m@.policy.max_connections == config.max_connections,
            m@.tunnels == Seq::<TunnelView>::empty(),
            m@.sessions == Seq::<SessionView>::empty(),
            m@.wf(),
    {
        TunnelManager::with_policy(config.to_policy())
    }

    /// An empty registry governed by the given policy.
    pub fn with_policy(policy: AccessPolicy) -> (m: TunnelManager)
        ensures
            m@.policy == policy@,
            m@.tunnels == Seq::<TunnelView>::empty(),
            m@.sessions == Seq::<SessionView>::empty(),
            m@.wf(),
    {
        let m = TunnelManager { policy, tunnels: Vec::new(), sessions: Vec::new() };
        proof {
            assert(m@.tunnels =~= Seq::<TunnelView>::empty());
            assert(m@.sessions =~= Seq::<SessionView>::empty());
        }
        m
    }

    /// The index of the tunnel on `p`, if any.
    fn find_port(&self, p: u16) -> (r: Option<usize>)
        ensures
            match r {
                Some(i) => i < self@.tunnels.len() && self@.tunnels[i as int].remote_port == p,
                None => !has_port(self@.tunnels, p),
            },
    {
        let n = self.tunnels.len();
        let mut i: usize = 0;
        while i < n
            invariant
                i <= n,
                n == self@.tunnels.len(),
                n == self.tunnels@.len(),
                forall|j: int| 0 <= j < i ==> self@.tunnels[j].remote_port != p,
            decreases n - i,
        {
            if self.tunnels[i].remote_port == p {
                return Some(i);
            }
            i = i + 1;
        }
        None
    }

    /// The index of the session with identity `id`, if any.
    fn find_session(&self, id: u64) -> (r: Option<usize>)
        ensures
            match r {
                Some(i) => i < self@.sessions.len() && self@.sessions[i as int].session_id == id,
                None => !has_session(self@.sessions, id),
            },
    {
        let n = self.sessions.len();
        let mut i: usize = 0;
        while i < n
            invariant
                i <= n,
                n == self@.sessions.len(),
                n == self.sessions@.len(),
                forall|j: int| 0 <= j < i ==> self@.sessions[j].session_id != id,
            decreases n - i,
        {
            if self.sessions[i].session_id == id {
                return Some(i);
            }
            i = i + 1;
        }
        None
    }

    /// Admit or refuse a tunnel request from a live session, in one atomic
    /// step: uniqueness, allow-list and capacity are checked together, and an
    /// admitted request reserves its port entry *before* any listener exists.
    /// The caller must then attempt the transport bind and report the outcome
    /// through [`TunnelManager::finish_bind`]. A refused request changes
    /// nothing.
    pub fn create_tunnel(
        &mut self,
        session_id: u64,
        remote_port: u16,
        local_host: &str,
        local_port: u16,
        created_at: u64,
    ) -> (r: Result<(), TunnelError>)
        requires
            old(self)@.wf(),
            has_session(old(self)@.sessions, session_id),
        ensures
            r == create_result(old(self)@, remote_port),
            final(self)@ == create_next(
                old(self)@,
                session_id,
                remote_port,
                local_host@,
                local_port,
                created_at,
            ),
            final(self)@.wf(),
            r is Ok ==> has_port(final(self)@.tunnels, remote_port),
    {
        let ghost m0 = self@;
        if let Some(_i) = self.find_port(remote_port) {
            return Err(TunnelError::PortAlreadyBound);
        }
        if !self.policy.is_port_allowed(remote_port) {
            return Err(TunnelError::PortNotAllowed);
        }
        if !self.policy.has_capacity(self.tunnels.len()) {
            return Err(TunnelError::CapacityExceeded);
        }
        let t = Tunnel {
            remote_port,
            local_host: local_host.to_owned(),
            local_port,
            owner_session_id: session_id,
            created_at,
            bound: false,
        };
        self.tunnels.push(t);
        proof {
            let target = create_next(m0, session_id, remote_port, local_host@, local_port, created_at);
            assert(self@.tunnels =~= target.tunnels);
            assert(self@ =~= target);
            assert(self@.tunnels[m0.tunnels.len() as int].remote_port == remote_port);
        }
        Ok(())
    }

    /// Report the transport bind outcome for the reservation on `remote_port`
    /// in one atomic step: a successful bind activates the entry; a failed
    /// bind (`AddressInUse` and kin) rolls the reservation back entirely and
    /// surfaces `TransportBindError`, so no partial state survives. Refused
    /// with `NotFound` when no reservation is pending for the port.
    pub fn finish_bind(&mut self, remote_port: u16, bound_ok: bool) -> (r: Result<
        (),
        TunnelError,
    >)
        requires
            old(self)@.wf(),
        ensures
            r == finish_bind_result(old(self)@, remote_port, bound_ok),
            final(self)@ == finish_bind_next(old(self)@, remote_port, bound_ok),
            final(self)@.wf(),
            r is Ok ==> has_port(final(self)@.tunnels, remote_port) && tunnel_at(
                final(self)@.tunnels,
                remote_port,
            ).bound,
            !bound_ok ==> !has_port(final(self)@.tunnels, remote_port) || tunnel_at(
                final(self)@.tunnels,
                remote_port,
            ).bound,
    {
        let ghost m0 = self@;
        match self.find_port(remote_port) {
            None => Err(TunnelError::NotFound),
            Some(i) => {
                proof {
                    let j = port_index(m0.tunnels, remote_port);
                    assert(0 <= j < m0.tunnels.len() && m0.tunnels[j].remote_port == remote_port);
                    assert(i as int == j);
                }
                if self.tunnels[i].bound {
                    Err(TunnelError::NotFound)
                } else if bound_ok {
                    let e = vstd::std_specs::vec::vec_index_mut(&mut self.tunnels, i);
                    e.bound = true;
                    proof {
                        let target = finish_bind_next(m0, remote_port, true);
                        assert(self@.tunnels =~= target.tunnels);
                        assert(self@ =~= target);
                        assert(self@.tunnels[i as int].remote_port == remote_port);
                        assert(port_index(self@.tunnels, remote_port) == i as int);
                    }
                    Ok(())
                } else {
                    self.tunnels.remove(i);
                    proof {
                        let target = finish_bind_next(m0, remote_port, false);
                        assert(self@.tunnels =~= target.tunnels);
                        assert(self@ =~= target);
                        assert forall|k: int|
                            0 <= k < self@.tunnels.len() implies self@.tunnels[k].remote_port
                            != remote_port by {
                            if k < i {
                                assert(self@.tunnels[k] == m0.tunnels[k]);
                            } else {
                                assert(self@.tunnels[k] == m0.tunnels[k + 1]);
                            }
                        }
                    }
                    Err(TunnelError::TransportBindError)
                }
            },
        }
    }

    /// Record a session the authenticator has admitted. Refuses (and changes
    /// nothing) when the identity is already live, so session identities stay
    /// unique.
    pub fn add_session(
        &mut self,
        session_id: u64,
        username: &str,
        remote_addr: &str,
        connected_at: u64,
    ) -> (added: bool)
        requires
            old(self)@.wf(),
        ensures
            added == !has_session(old(self)@.sessions, session_id),
            final(self)@ == add_session_next(
                old(self)@,
                (SessionView {
                    session_id,
                    username: username@,
                    remote_addr: remote_addr@,
                    connected_at,
                }),
            ),
            final(self)@.wf(),
            has_session(final(self)@.sessions, session_id),
    {
        let ghost m0 = self@;
        match self.find_session(session_id) {
            Some(_i) => false,
            None => {
                let s = Session {
                    session_id,
                    username: username.to_owned(),
                    remote_addr: remote_addr.to_owned(),
                    connected_at,
                };
                self.sessions.push(s);
                proof {
                    let sv = SessionView {
                        session_id,
                        username: username@,
                        remote_addr: remote_addr@,
                        connected_at,
                    };
                    let target = add_session_next(m0, sv);
                    assert(self@.sessions =~= target.sessions);
                    assert(self@ =~= target);
                    assert(self@.sessions[m0.sessions.len() as int].session_id == session_id);
                    assert forall|k: int|
                        0 <= k < self@.tunnels.len() implies has_session(
                        self@.sessions,
                        #[trigger] self@.tunnels[k].owner_session_id,
                    ) by {
                        assert(has_session(m0.sessions, m0.tunnels[k].owner_session_id));
                        let w = choose|w: int|
                            0 <= w < m0.sessions.len() && m0.sessions[w].session_id
                                == m0.tunnels[k].owner_session_id;
                        assert(self@.sessions[w].session_id == self@.tunnels[k].owner_session_id);
                    }
                }
                true
            },
        }
    }

    /// End a session: every tunnel it owns is closed (exhaustively), then the
    /// session record is dropped. Returns the closed ports so the process can
    /// cancel their accept loops. Refused with `NotFound` for an unknown
    /// identity.
    pub fn close_session(&mut self, session_id: u64) -> (r: Result<Vec<u16>, TunnelError>)
        requires
            old(self)@.wf(),
        ensures
            r is Ok <==> has_session(old(self)@.sessions, session_id),
            r matches Ok(ports) ==> ports@ == owned_ports(old(self)@.tunnels, session_id),
            r matches Err(e) ==> e is NotFound,
            final(self)@ == close_session_next(old(self)@, session_id),
            final(self)@.wf(),
            !has_session(final(self)@.sessions, session_id),
    {
        let ghost m0 = self@;
        let ghost pred_keep = |t: TunnelView| t.owner_session_id != session_id;
        let ghost pred_own = |t: TunnelView| t.owner_session_id == session_id;
        match self.find_session(session_id) {
            None => Err(TunnelError::NotFound),
            Some(idx) => {
                proof {
                    let j = session_index(m0.sessions, session_id);
                    assert(0 <= j < m0.sessions.len() && m0.sessions[j].session_id == session_id);
                    assert(idx as int == j);
                }
                let mut kept: Vec<Tunnel> = Vec::new();
                let mut closed: Vec<u16> = Vec::new();
                let n = self.tunnels.len();
                let mut i: usize = 0;
                proof {
                    assert(m0.tunnels.take(0).filter(pred_keep) =~= Seq::<TunnelView>::empty())
                        by {
                        assert(m0.tunnels.take(0) =~= Seq::<TunnelView>::empty());
                        reveal_with_fuel(Seq::<_>::filter, 1);
                    }
                    assert(m0.tunnels.take(0).filter(pred_own) =~= Seq::<TunnelView>::empty()) by {
                        assert(m0.tunnels.take(0) =~= Seq::<TunnelView>::empty());
                        reveal_with_fuel(Seq::<_>::filter, 1);
                    }
                    assert(kept@.map_values(|t: Tunnel| t@) =~= m0.tunnels.take(0).filter(
                        pred_keep,
                    ));
                    assert(closed@ =~= owned_ports(m0.tunnels.take(0), session_id));
                }
                while i < n
                    invariant
                        i <= n,
                        n == self.tunnels@.len(),
                        self@ == m0,
                        kept@.map_values(|t: Tunnel| t@) == m0.tunnels.take(i as int).filter(
                            pred_keep,
                        ),
                        closed@ == owned_ports(m0.tunnels.take(i as int), session_id),
                        pred_keep == (|t: TunnelView| t.owner_session_id != session_id),
                        pred_own == (|t: TunnelView| t.owner_session_id == session_id),
                    decreases n - i,
                {
                    let ghost tk = m0.tunnels.take(i as int);
                    let ghost el = m0.tunnels[i as int];
                    proof {
                        assert(m0.tunnels.take(i + 1) =~= tk + seq![el]);
                        Seq::filter_distributes_over_add(tk, seq![el], pred_keep);
                        Seq::filter_distributes_over_add(tk, seq![el], pred_own);
                        lemma_filter_one(el, pred_keep);
                        lemma_filter_one(el, pred_own);
                    }
                    let t = &self.tunnels[i];
                    if t.owner_session_id == session_id {
                        closed.push(t.remote_port);
                        proof {
                            assert(m0.tunnels.take(i + 1).filter(pred_own) =~= tk.filter(
                                pred_own,
                            ).push(el));
                            assert(m0.tunnels.take(i + 1).filter(pred_keep) =~= tk.filter(
                                pred_keep,
                            ));
                            assert(closed@ =~= owned_ports(m0.tunnels.take(i + 1), session_id));
                        }
                    } else {
                        kept.push(clone_tunnel(t));
                        proof {
                            assert(m0.tunnels.take(i + 1).filter(pred_keep) =~= tk.filter(
                                pred_keep,
                            ).push(el));
                            assert(m0.tunnels.take(i + 1).filter(pred_own) =~= tk.filter(
                                pred_own,
                            ));
                            assert(kept@.map_values(|t: Tunnel| t@) =~= m0.tunnels.take(
                                i + 1,
                            ).filter(pred_keep));
                            assert(closed@ =~= owned_ports(m0.tunnels.take(i + 1), session_id));
                        }
                    }
                    i = i + 1;
                }
                proof {
                    assert(m0.tunnels.take(n as int) =~= m0.tunnels);
                }
                self.tunnels = kept;
                self.sessions.remove(idx);
                proof {
                    let target = close_session_next(m0, session_id);
                    assert(self@.sessions =~= target.sessions);
                    assert(self@.tunnels =~= target.tunnels);
                    assert(self@ =~= target);
                    lemma_cascade_wf(m0, session_id);
                }
                Ok(closed)
            },
        }
    }

    /// A consistent point-in-time snapshot of the active tunnels, for the
    /// status reporter; no live reference escapes the registry.
    pub fn list_tunnels(&self) -> (r: Vec<Tunnel>)
        ensures
            r@.len() == self@.tunnels.len(),
            forall|i: int| 0 <= i < r@.len() ==> r@[i]@ == self@.tunnels[i],
    {
        let n = self.tunnels.len();
        let mut r: Vec<Tunnel> = Vec::new();
        let mut i: usize = 0;
        while i < n
            invariant
                i <= n,
                n == self.tunnels@.len(),
                r@.len() == i,
                forall|j: int| 0 <= j < i ==> r@[j]@ == self@.tunnels[j],
            decreases n - i,
        {
            r.push(clone_tunnel(&self.tunnels[i]));
            i = i + 1;
        }
        r
    }

    /// A consistent point-in-time snapshot of the live sessions.
    pub fn list_sessions(&self) -> (r: Vec<Session>)
        ensures
            r@.len() == self@.sessions.len(),
            forall|i: int| 0 <= i < r@.len() ==> r@[i]@ == self@.sessions[i],
    {
        let n = self.sessions.len();
        let mut r: Vec<Session> = Vec::new();
        let mut i: usize = 0;
        while i < n
            invariant
                i <= n,
                n == self.sessions@.len(),
                r@.len() == i,
                forall|j: int| 0 <= j < i ==> r@[j]@ == self@.sessions[j],
            decreases n - i,
        {
            let s = &self.sessions[i];
            r.push(
                Session {
                    session_id: s.session_id,
                    username: s.username.clone(),
                    remote_addr: s.remote_addr.clone(),
                    connected_at: s.connected_at,
                },
            );
            i = i + 1;
        }
        r
    }

    /// The derived index: ports of the tunnels owned by `session_id`, in
    /// registration order.
    pub fn tunnels_of_session(&self, session_id: u64) -> (r: Vec<u16>)
        ensures
            r@ == owned_ports(self@.tunnels, session_id),
    {
        let ghost pred_own = |t: TunnelView| t.owner_session_id == session_id;
        let n = self.tunnels.len();
        let mut r: Vec<u16> = Vec::new();
        let mut i: usize = 0;
        proof {
            assert(self@.tunnels.take(0) =~= Seq::<TunnelView>::empty());
            reveal_with_fuel(Seq::<_>::filter, 1);
            assert(r@ =~= owned_ports(self@.tunnels.take(0), session_id));
        }
        while i < n
            invariant
                i <= n,
                n == self.tunnels@.len(),
                r@ == owned_ports(self@.tunnels.take(i as int), session_id),
                pred_own == (|t: TunnelView| t.owner_session_id == session_id),
            decreases n - i,
        {
            let ghost tk = self@.tunnels.take(i as int);
            let ghost el = self@.tunnels[i as int];
            proof {
                assert(self@.tunnels.take(i + 1) =~= tk + seq![el]);
                Seq::filter_distributes_over_add(tk, seq![el], pred_own);
                lemma_filter_one(el, pred_own);
            }
            if self.tunnels[i].owner_session_id == session_id {
                r.push(self.tunnels[i].remote_port);
                proof {
                    assert(self@.tunnels.take(i + 1).filter(pred_own) =~= tk.filter(pred_own).push(
                        el,
                    ));
                    assert(r@ =~= owned_ports(self@.tunnels.take(i + 1), session_id));
                }
            } else {
                proof {
                    assert(self@.tunnels.take(i + 1).filter(pred_own) =~= tk.filter(pred_own));
                    assert(r@ =~= owned_ports(self@.tunnels.take(i + 1), session_id));
                }
            }
            i = i + 1;
        }
        proof {
            assert(self@.tunnels.take(n as int) =~= self@.tunnels);
        }
        r
    }

    /// The sessions whose declared budget has run out: connected more than
    /// `timeout` seconds before `now`. The process's reaper closes each of
    /// them through [`TunnelManager::close_session`], which cascades to the
    /// tunnels they own.
    pub fn expired_sessions(&self, now: u64, timeout: u64) -> (r: Vec<u64>)
        ensures
            r@ == expired_ids(self@.sessions, now, timeout),
    {
        let ghost pred = |s: SessionView| session_expired(s, now, timeout);
        let n = self.sessions.len();
        let mut r: Vec<u64> = Vec::new();
        let mut i: usize = 0;
        proof {
            assert(self@.sessions.take(0) =~= Seq::<SessionView>::empty());
            reveal_with_fuel(Seq::<_>::filter, 1);
            assert(r@ =~= expired_ids(self@.sessions.take(0), now, timeout));
        }
        while i < n
            invariant
                i <= n,
                n == self.sessions@.len(),
                r@ == expired_ids(self@.sessions.take(i as int), now, timeout),
                pred == (|s: SessionView| session_expired(s, now, timeout)),
            decreases n - i,
        {
            let ghost tk = self@.sessions.take(i as int);
            let ghost el = self@.sessions[i as int];
            proof {
                assert(self@.sessions.take(i + 1) =~= tk + seq![el]);
                Seq::filter_distributes_over_add(tk, seq![el], pred);
                lemma_filter_one(el, pred);
            }
            let s = &self.sessions[i];
            let expired = now > timeout && s.connected_at < now - timeout;
            proof {
                assert(expired == session_expired(el, now, timeout));
            }
            if expired {
                r.push(s.session_id);
                proof {
                    assert(self@.sessions.take(i + 1).filter(pred) =~= tk.filter(pred).push(el));
                    assert(r@ =~= expired_ids(self@.sessions.take(i + 1), now, timeout));
                }
            } else {
                proof {
                    assert(self@.sessions.take(i + 1).filter(pred) =~= tk.filter(pred));
                    assert(r@ =~= expired_ids(self@.sessions.take(i + 1), now, timeout));
                }
            }
            i = i + 1;
        }
        proof {
            assert(self@.sessions.take(n as int) =~= self@.sessions);
        }
        r
    }

    /// How many tunnels are active (reservations included): the quantity the
    /// capacity cap is enforced against.
    pub fn tunnel_count(&self) -> (n: usize)
        ensures
            n == self@.tunnels.len(),
    {
        self.tunnels.len()
    }

    /// How many sessions are live.
    pub fn session_count(&self) -> (n: usize)
        ensures
            n == self@.sessions.len(),
    {
        self.sessions.len()
    }

    /// Close the tunnel on `remote_port`: its registry entry is removed at
    /// once (it no longer appears in any snapshot), and the caller must
    /// signal the tunnel's accept loop to stop; connections already relaying
    /// drain naturally. Refused with `NotFound` when no such tunnel exists.
    pub fn close_tunnel(&mut self, remote_port: u16) -> (r: Result<(), TunnelError>)
        requires
            old(self)@.wf(),
        ensures
            r == close_result(old(self)@, remote_port),
            final(self)@ == close_next(old(self)@, remote_port),
            final(self)@.wf(),
            !has_port(final(self)@.tunnels, remote_port),
    {
        let ghost m0 = self@;
        match self.find_port(remote_port) {
            None => Err(TunnelError::NotFound),
            Some(i) => {
                proof {
                    assert(has_port(m0.tunnels, remote_port));
                    let j = port_index(m0.tunnels, remote_port);
                    assert(0 <= j < m0.tunnels.len() && m0.tunnels[j].remote_port == remote_port);
                    assert(i as int == j);
                }
                self.tunnels.remove(i);
                proof {
                    let target = close_next(m0, remote_port);
                    assert(self@.tunnels =~= target.tunnels);
                    assert(self@ =~= target);
                    assert forall|k: int|
                        0 <= k < self@.tunnels.len() implies self@.tunnels[k].remote_port
                        != remote_port by {
                        if k < i {
                            assert(self@.tunnels[k] == m0.tunnels[k]);
                        } else {
                            assert(self@.tunnels[k] == m0.tunnels[k + 1]);
                        }
                    }
                }
                Ok(())
            },
        }
    }
}

/// A field-for-field copy of a tunnel record, for snapshots.
fn clone_tunnel(t: &Tunnel) -> (r: Tunnel)
    ensures
        r@ == t@,
{
    Tunnel {
        remote_port: t.remote_port,
        local_host: t.local_host.clone(),
        local_port: t.local_port,
        owner_session_id: t.owner_session_id,
        created_at: t.created_at,
        bound: t.bound,
    }
}

/// Filtering a one-element sequence keeps or drops that element.
proof fn lemma_filter_one<A>(t: A, pred: spec_fn(A) -> bool)
    ensures
        pred(t) ==> seq![t].filter(pred) =~= seq![t],
        !pred(t) ==> seq![t].filter(pred) =~= Seq::<A>::empty(),
{
    reveal_with_fuel(Seq::<_>::filter, 2);
    assert(seq![t].drop_last() =~= Seq::<A>::empty());
    assert(seq![t].last() == t);
}

/// Every element of a filtered sequence stands somewhere in the original.
proof fn lemma_filter_element_of(ts: Seq<TunnelView>, pred: spec_fn(TunnelView) -> bool, k: int)
    requires
        0 <= k < ts.filter(pred).len(),
    ensures
        exists|j: int| 0 <= j < ts.len() && ts[j] == ts.filter(pred)[k],
{
    assert(ts.filter(pred).contains(ts.filter(pred)[k]));
    ts.lemma_filter_contains_rev(pred, ts.filter(pred)[k]);
}

/// Filtering preserves pairwise distinctness of the registered ports.
proof fn lemma_filter_keeps_distinct_ports(ts: Seq<TunnelView>, pred: spec_fn(TunnelView) -> bool)
    requires
        forall|i: int, j: int|
            0 <= i < j < ts.len() ==> #[trigger] ts[i].remote_port != #[trigger] ts[j].remote_port,
    ensures
        forall|i: int, j: int|
            0 <= i < j < ts.filter(pred).len() ==> #[trigger] ts.filter(pred)[i].remote_port
                != #[trigger] ts.filter(pred)[j].remote_port,
    decreases ts.len(),
{
    reveal(Seq::filter);
    if ts.len() == 0 {
    } else {
        let rest = ts.drop_last();
        let last = ts.last();
        lemma_filter_keeps_distinct_ports(rest, pred);
        if pred(last) {
            assert(ts.filter(pred) == rest.filter(pred).push(last));
            assert forall|i: int, j: int|
                0 <= i < j < ts.filter(pred).len() implies #[trigger] ts.filter(
                pred,
            )[i].remote_port != #[trigger] ts.filter(pred)[j].remote_port by {
                if j < ts.filter(pred).len() - 1 {
                    assert(ts.filter(pred)[i] == rest.filter(pred)[i]);
                    assert(ts.filter(pred)[j] == rest.filter(pred)[j]);
                } else {
                    assert(ts.filter(pred)[j] == last);
                    assert(ts.filter(pred)[i] == rest.filter(pred)[i]);
                    lemma_filter_element_of(rest, pred, i);
                    let w = choose|w: int|
                        0 <= w < rest.len() && rest[w] == rest.filter(pred)[i];
                    assert(ts[w] == rest[w]);
                    assert(ts[w].remote_port != ts[ts.len() - 1].remote_port);
                }
            }
        } else {
            assert(ts.filter(pred) == rest.filter(pred));
        }
    }
}

/// An admitted create request leaves a well-formed registry with its port
/// registered.
proof fn lemma_create_next_wf(
    m: ManagerView,
    sid: u64,
    port: u16,
    host: Seq<char>,
    lp: u16,
    at: u64,
)
    requires
        m.wf(),
        has_session(m.sessions, sid),
        create_result(m, port) is Ok,
    ensures
        create_next(m, sid, port, host, lp, at).wf(),
        has_port(create_next(m, sid, port, host, lp, at).tunnels, port),
        port_index(create_next(m, sid, port, host, lp, at).tunnels, port) == m.tunnels.len(),
{
    let m1 = create_next(m, sid, port, host, lp, at);
    let n = m.tunnels.len() as int;
    assert(m1.tunnels[n].remote_port == port);
    assert(has_port(m1.tunnels, port));
    assert forall|i: int, j: int|
        0 <= i < j < m1.tunnels.len() implies #[trigger] m1.tunnels[i].remote_port
        != #[trigger] m1.tunnels[j].remote_port by {
        if j == n {
            assert(m1.tunnels[i] == m.tunnels[i]);
            assert(!has_port(m.tunnels, port));
        }
    }
    assert forall|k: int|
        0 <= k < m1.tunnels.len() implies has_session(
        m1.sessions,
        #[trigger] m1.tunnels[k].owner_session_id,
    ) && m1.policy.allowed_ports.contains(#[trigger] m1.tunnels[k].remote_port) by {
        if k < n {
            assert(m1.tunnels[k] == m.tunnels[k]);
        }
    }
    let w = port_index(m1.tunnels, port);
    assert(0 <= w < m1.tunnels.len() && m1.tunnels[w].remote_port == port);
    if w != n {
        assert(m1.tunnels[w] == m.tunnels[w]);
        assert(has_port(m.tunnels, port));
    }
}

/// Law: of two create requests for the same port, serialized by the registry
/// in either order, exactly one is admitted; the loser is refused with
/// `PortAlreadyBound` and changes nothing, and the registry holds exactly one
/// entry for that port afterwards.
pub proof fn lemma_create_race_single_winner(
    m: ManagerView,
    sid1: u64,
    sid2: u64,
    port: u16,
    host1: Seq<char>,
    lp1: u16,
    at1: u64,
    host2: Seq<char>,
    lp2: u16,
    at2: u64,
)
    requires
        m.wf(),
        has_session(m.sessions, sid1),
        has_session(m.sessions, sid2),
        create_result(m, port) is Ok,
    ensures
        ({
            let m1 = create_next(m, sid1, port, host1, lp1, at1);
            &&& create_result(m1, port) == Err::<(), TunnelError>(TunnelError::PortAlreadyBound)
            &&& create_next(m1, sid2, port, host2, lp2, at2) == m1
            &&& m1.tunnels.filter(|t: TunnelView| t.remote_port == port).len() == 1
        }),
{
    let m1 = create_next(m, sid1, port, host1, lp1, at1);
    lemma_create_next_wf(m, sid1, port, host1, lp1, at1);
    let pred = |t: TunnelView| t.remote_port == port;
    let nt = reserved_tunnel(sid1, port, host1, lp1, at1);
    assert(m.tunnels.all(|t: TunnelView| !pred(t))) by {
        assert forall|i: int| 0 <= i < m.tunnels.len() implies !pred(#[trigger] m.tunnels[i]) by {
            assert(!has_port(m.tunnels, port));
        }
    }
    m.tunnels.lemma_all_neg_filter_empty(pred);
    assert(m1.tunnels =~= m.tunnels + seq![nt]);
    Seq::filter_distributes_over_add(m.tunnels, seq![nt], pred);
    lemma_filter_one(nt, pred);
    assert(m1.tunnels.filter(pred) =~= Seq::<TunnelView>::empty() + seq![nt]);
}

/// Law: closing a tunnel right after its creation was admitted undoes the
/// creation exactly — the close succeeds, the port is no longer registered,
/// and the registry returns to its prior state.
pub proof fn lemma_close_undoes_create(
    m: ManagerView,
    sid: u64,
    port: u16,
    host: Seq<char>,
    lp: u16,
    at: u64,
)
    requires
        m.wf(),
        has_session(m.sessions, sid),
        create_result(m, port) is Ok,
    ensures
        ({
            let m1 = create_next(m, sid, port, host, lp, at);
            &&& close_result(m1, port) is Ok
            &&& !has_port(close_next(m1, port).tunnels, port)
            &&& close_next(m1, port) == m
        }),
{
    let m1 = create_next(m, sid, port, host, lp, at);
    lemma_create_next_wf(m, sid, port, host, lp, at);
    let n = m.tunnels.len() as int;
    assert(port_index(m1.tunnels, port) == n);
    assert(close_next(m1, port).tunnels =~= m.tunnels);
    assert(close_next(m1, port) =~= m);
    assert(!has_port(m.tunnels, port));
}

/// Law: a port outside the allow-list is refused with `PortNotAllowed`,
/// creates no registry entry, and (since only allowed ports are ever
/// admitted) is not registered afterwards — so no listener is ever opened
/// for it.
pub proof fn lemma_disallowed_port_never_registered(
    m: ManagerView,
    sid: u64,
    port: u16,
    host: Seq<char>,
    lp: u16,
    at: u64,
)
    requires
        m.wf(),
        !m.policy.allowed_ports.contains(port),
    ensures
        create_result(m, port) == Err::<(), TunnelError>(TunnelError::PortNotAllowed),
        create_next(m, sid, port, host, lp, at) == m,
        !has_port(create_next(m, sid, port, host, lp, at).tunnels, port),
{
    assert(!has_port(m.tunnels, port)) by {
        if has_port(m.tunnels, port) {
            let i = choose|i: int| 0 <= i < m.tunnels.len() && m.tunnels[i].remote_port == port;
            assert(m.policy.allowed_ports.contains(m.tunnels[i].remote_port));
        }
    }
}

/// Law: when as many tunnels are active as the configured cap allows, an
/// otherwise admissible request is refused with `CapacityExceeded` and
/// creates nothing.
pub proof fn lemma_capacity_cap_refuses(
    m: ManagerView,
    sid: u64,
    port: u16,
    host: Seq<char>,
    lp: u16,
    at: u64,
)
    requires
        m.wf(),
        !has_port(m.tunnels, port),
        m.policy.allowed_ports.contains(port),
        m.tunnels.len() >= m.policy.max_connections,
    ensures
        create_result(m, port) == Err::<(), TunnelError>(TunnelError::CapacityExceeded),
        create_next(m, sid, port, host, lp, at) == m,
{
}

/// Law: ending a session closes exactly the tunnels it owned — afterwards it
/// owns none and is gone, every other tunnel is still registered, and every
/// other session is still live.
pub proof fn lemma_session_close_cascades(m: ManagerView, sid: u64)
    requires
        m.wf(),
        has_session(m.sessions, sid),
    ensures
        ({
            let m1 = close_session_next(m, sid);
            &&& m1.wf()
            &&& !has_session(m1.sessions, sid)
            &&& owned_ports(m1.tunnels, sid) == Seq::<u16>::empty()
            &&& forall|p: u16|
                #[trigger] has_port(m1.tunnels, p) <==> (has_port(m.tunnels, p) && tunnel_at(
                    m.tunnels,
                    p,
                ).owner_session_id != sid)
            &&& forall|id: u64|
                id != sid ==> (#[trigger] has_session(m1.sessions, id) <==> has_session(
                    m.sessions,
                    id,
                ))
        }),
{
    let m1 = close_session_next(m, sid);
    let idx = session_index(m.sessions, sid);
    let pred_keep = |t: TunnelView| t.owner_session_id != sid;
    let pred_own = |t: TunnelView| t.owner_session_id == sid;
    lemma_cascade_wf(m, sid);
    // the surviving tunnels own no port attributed to the closed session
    assert(m1.tunnels.all(|t: TunnelView| !pred_own(t))) by {
        assert forall|k: int| 0 <= k < m1.tunnels.len() implies !pred_own(
            #[trigger] m1.tunnels[k],
        ) by {
            m.tunnels.lemma_filter_pred(pred_keep, k);
        }
    }
    m1.tunnels.lemma_all_neg_filter_empty(pred_own);
    assert(owned_ports(m1.tunnels, sid) =~= Seq::<u16>::empty());
    // port survival: exactly the ports of other owners
    assert forall|p: u16| #[trigger] has_port(m1.tunnels, p) implies (has_port(m.tunnels, p)
        && tunnel_at(m.tunnels, p).owner_session_id != sid) by {
        let k = choose|k: int| 0 <= k < m1.tunnels.len() && m1.tunnels[k].remote_port == p;
        m.tunnels.lemma_filter_pred(pred_keep, k);
        lemma_filter_element_of(m.tunnels, pred_keep, k);
        let w = choose|w: int| 0 <= w < m.tunnels.len() && m.tunnels[w] == m1.tunnels[k];
        assert(has_port(m.tunnels, p));
        let pi = port_index(m.tunnels, p);
        assert(0 <= pi < m.tunnels.len() && m.tunnels[pi].remote_port == p);
        assert(pi == w);
    }
    assert forall|p: u16| has_port(m.tunnels, p) && tunnel_at(m.tunnels, p).owner_session_id
        != sid implies #[trigger] has_port(m1.tunnels, p) by {
        let pi = port_index(m.tunnels, p);
        assert(0 <= pi < m.tunnels.len() && m.tunnels[pi].remote_port == p);
        assert(pred_keep(m.tunnels[pi]));
        m.tunnels.lemma_filter_contains(pred_keep, pi);
        assert(m1.tunnels.contains(m.tunnels[pi]));
        let k = choose|k: int| 0 <= k < m1.tunnels.len() && m1.tunnels[k] == m.tunnels[pi];
        assert(m1.tunnels[k].remote_port == p);
    }
    // session survival: every other identity is untouched
    assert forall|id: u64|
        id != sid && #[trigger] has_session(m1.sessions, id) implies has_session(
        m.sessions,
        id,
    ) by {
        let k = choose|k: int| 0 <= k < m1.sessions.len() && m1.sessions[k].session_id == id;
        let k0 = if k < idx {
            k
        } else {
            k + 1
        };
        assert(m1.sessions[k] == m.sessions[k0]);
    }
    assert forall|id: u64|
        id != sid && has_session(m.sessions, id) implies #[trigger] has_session(
        m1.sessions,
        id,
    ) by {
        let k = choose|k: int| 0 <= k < m.sessions.len() && m.sessions[k].session_id == id;
        assert(k != idx);
        let k1 = if k < idx {
            k
        } else {
            k - 1
        };
        assert(m1.sessions[k1] == m.sessions[k]);
    }
}

/// Ending a session leaves a well-formed registry: the surviving tunnels keep
/// distinct, allowed ports, and each still has a live owner.
proof fn lemma_cascade_wf(m: ManagerView, sid: u64)
    requires
        m.wf(),
        has_session(m.sessions, sid),
    ensures
        close_session_next(m, sid).wf(),
        !has_session(close_session_next(m, sid).sessions, sid),
    decreases m.tunnels.len(),
{
    let pred_keep = |t: TunnelView| t.owner_session_id != sid;
    let m1 = close_session_next(m, sid);
    let idx = session_index(m.sessions, sid);
    assert(0 <= idx < m.sessions.len() && m.sessions[idx].session_id == sid);
    assert(m1.sessions == m.sessions.remove(idx));
    assert(m1.tunnels == m.tunnels.filter(pred_keep));
    // sessions after removal: distinct, and sid is gone
    assert forall|k: int| 0 <= k < m1.sessions.len() implies #[trigger] m1.sessions[k].session_id
        != sid by {
        if k < idx {
            assert(m1.sessions[k] == m.sessions[k]);
        } else {
            assert(m1.sessions[k] == m.sessions[k + 1]);
        }
    }
    assert forall|i: int, j: int| 0 <= i < j < m1.sessions.len() implies #[trigger] m1.sessions[i].session_id != #[trigger] m1.sessions[j].session_id by {
        let i0 = if i < idx { i } else { i + 1 };
        let j0 = if j < idx { j } else { j + 1 };
        assert(m1.sessions[i] == m.sessions[i0]);
        assert(m1.sessions[j] == m.sessions[j0]);
    }
    // surviving tunnels: each is an original tunnel whose owner is not sid
    m.tunnels.lemma_filter_len(pred_keep);
    lemma_filter_keeps_distinct_ports(m.tunnels, pred_keep);
    assert forall|k: int| 0 <= k < m1.tunnels.len() implies m.policy.allowed_ports.contains(
        #[trigger] m1.tunnels[k].remote_port,
    ) by {
        m.tunnels.lemma_filter_pred(pred_keep, k);
        lemma_filter_element_of(m.tunnels, pred_keep, k);
        let w = choose|w: int| 0 <= w < m.tunnels.len() && m.tunnels[w] == m1.tunnels[k];
        assert(m.policy.allowed_ports.contains(m.tunnels[w].remote_port));
    }
    assert forall|k: int| 0 <= k < m1.tunnels.len() implies has_session(
        m1.sessions,
        #[trigger] m1.tunnels[k].owner_session_id,
    ) by {
        m.tunnels.lemma_filter_pred(pred_keep, k);
        lemma_filter_element_of(m.tunnels, pred_keep, k);
        let w = choose|w: int| 0 <= w < m.tunnels.len() && m.tunnels[w] == m1.tunnels[k];
        assert(has_session(m.sessions, m.tunnels[w].owner_session_id));
        let ow = choose|ow: int|
            0 <= ow < m.sessions.len() && m.sessions[ow].session_id
                == m.tunnels[w].owner_session_id;
        assert(m.tunnels[w].owner_session_id != sid);
        assert(ow != idx);
        if ow < idx {
            assert(m1.sessions[ow] == m.sessions[ow]);
        } else {
            assert(m1.sessions[ow - 1] == m.sessions[ow]);
        }
    }
    assert forall|i: int, j: int| 0 <= i < j < m1.tunnels.len() implies #[trigger] m1.tunnels[i].remote_port != #[trigger] m1.tunnels[j].remote_port by {
        assert(m.tunnels.filter(pred_keep)[i].remote_port != m.tunnels.filter(
            pred_keep,
        )[j].remote_port);
    }
}

} // verus!
