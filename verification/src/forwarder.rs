//! Lifecycle of one tunnel's accept loop.
//!
//! Each active tunnel owns one accept loop. The loop admits inbound public
//! connections while the tunnel is open; closing the tunnel must stop new
//! admissions deterministically, while connections that are already relaying
//! are allowed to drain to their natural end rather than being severed.
//!
//! The process drives this state machine from its accept task: it asks
//! [`Forwarder::on_accept`] before serving a new connection, records the end
//! of each relay with [`Forwarder::on_connection_done`], and signals closure
//! with [`Forwarder::on_stop`].

use vstd::prelude::*;

verus! {

/// Tunnel-level lifecycle: `Listening` → `Draining` → `Stopped`.
#[derive(Clone, Copy, Debug, PartialEq, Eq, Structural)]
pub enum ForwarderState {
    /// Accepting inbound public connections.
    Listening,
    /// No longer accepting; waiting for in-flight relays to finish.
    Draining,
    /// The accept loop has exited and no relay is in flight.
    Stopped,
}

/// Bookkeeping for one tunnel's accept loop: its lifecycle state and the
/// number of connections currently being relayed.
pub struct Forwarder {
    pub state: ForwarderState,
    pub active: usize,
}

/// Whether the accept loop admits new public connections in this state.
pub open spec fn accepting(f: Forwarder) -> bool {
    f.state is Listening
}

/// State after a stop signal: admissions cease at once; in-flight relays are
/// kept and drain naturally.
pub open spec fn stop_step(f: Forwarder) -> Forwarder {
    if f.active == 0 {
        Forwarder { state: ForwarderState::Stopped, active: f.active }
    } else if f.state is Stopped {
        f
    } else {
        Forwarder { state: ForwarderState::Draining, active: f.active }
    }
}

/// State after one in-flight connection ends (a finished relay, or a failed
/// connect to the local target). A draining loop stops once the last one is
/// gone; a listening tunnel stays listening.
pub open spec fn done_step(f: Forwarder) -> Forwarder
    recommends
        f.active > 0,
{
    if f.active == 1 && f.state is Draining {
        Forwarder { state: ForwarderState::Stopped, active: 0 }
    } else {
        Forwarder { state: f.state, active: (f.active - 1) as usize }
    }
}

/// `k` connection-end events applied in turn.
pub open spec fn drained(f: Forwarder, k: nat) -> Forwarder
    decreases k,
{
    if k == 0 {
        f
    } else {
        drained(done_step(f), (k - 1) as nat)
    }
}

impl Forwarder {
    /// A stopped loop has no in-flight relay left.
    pub open spec fn wf(self) -> bool {
        self.state is Stopped ==> self.active == 0
    }

    /// A freshly started tunnel: listening, nothing in flight.
    pub fn new() -> (f: Forwarder)
        ensures
            f.state is Listening,
            f.active == 0,
            f.wf(),
    {
        Forwarder { state: ForwarderState::Listening, active: 0 }
    }

    /// Asked on each inbound public connection. Admits it exactly while the
    /// tunnel is listening; a draining or stopped tunnel admits nothing.
    pub fn on_accept(&mut self) -> (admitted: bool)
        requires
            old(self).active < usize::MAX,
        ensures
            admitted == accepting(*old(self)),
            final(self).state == old(self).state,
            admitted ==> final(self).active == old(self).active + 1,
            !admitted ==> final(self).active == old(self).active,
            old(self).wf() ==> final(self).wf(),
    {
        match self.state {
            ForwarderState::Listening => {
                self.active = self.active + 1;
                true
            },
            _ => false,
        }
    }

    /// The stop signal of tunnel closure: no new connection is admitted from
    /// this point on, and every in-flight relay is kept.
    pub fn on_stop(&mut self)
        ensures
            *final(self) == stop_step(*old(self)),
            !accepting(*final(self)),
            final(self).active == old(self).active,
            old(self).wf() ==> final(self).wf(),
    {
        if self.active == 0 {
            self.state = ForwarderState::Stopped;
        } else {
            match self.state {
                ForwarderState::Stopped => {},
                _ => {
                    self.state = ForwarderState::Draining;
                },
            }
        }
    }

    /// One in-flight connection ended: its relay finished, its relay failed,
    /// or the connect to the local target was refused. The tunnel itself
    /// survives such an end — only closure stops the listening state.
    pub fn on_connection_done(&mut self)
        requires
            old(self).active > 0,
        ensures
            *final(self) == done_step(*old(self)),
            final(self).active == old(self).active - 1,
            (final(self).state is Listening) == (old(self).state is Listening),
            old(self).wf() ==> final(self).wf(),
    {
        if self.active == 1 {
            match self.state {
                ForwarderState::Draining => {
                    self.state = ForwarderState::Stopped;
                    self.active = 0;
                },
                _ => {
                    self.active = self.active - 1;
                },
            }
        } else {
            self.active = self.active - 1;
        }
    }

    /// Whether a new public connection would be admitted right now.
    pub fn accepts_new(&self) -> (r: bool)
        ensures
            r == accepting(*self),
    {
        match self.state {
            ForwarderState::Listening => true,
            _ => false,
        }
    }

    /// Whether the loop has fully stopped (closed, and drained).
    pub fn is_stopped(&self) -> (r: bool)
        ensures
            r == (self.state is Stopped),
    {
        match self.state {
            ForwarderState::Stopped => true,
            _ => false,
        }
    }
}

/// A draining loop runs dry: after its in-flight connections end one by one,
/// it is stopped, and it never admits a new connection along the way.
proof fn lemma_draining_runs_dry(g: Forwarder)
    requires
        g.state is Draining ==> g.active > 0,
        g.state is Stopped ==> g.active == 0,
        !(g.state is Listening),
    ensures
        drained(g, g.active as nat).state is Stopped,
        drained(g, g.active as nat).active == 0,
        forall|k: nat| k <= g.active ==> !accepting(#[trigger] drained(g, k)),
    decreases g.active,
{
    if g.active == 0 {
        assert(drained(g, 0) == g);
    } else {
        let g2 = done_step(g);
        lemma_draining_runs_dry(g2);
        assert(forall|k: nat| 0 < k <= g.active ==> drained(g, k) == drained(g2, (k - 1) as nat));
    }
}

/// Law: closing a tunnel while connections are mid-relay stops new admissions
/// at once, severs none of the in-flight connections, and the accept loop
/// reaches `Stopped` exactly when those connections have drained naturally.
pub proof fn lemma_close_drains_gracefully(f: Forwarder)
    requires
        f.wf(),
    ensures
        !accepting(stop_step(f)),
        stop_step(f).active == f.active,
        drained(stop_step(f), f.active as nat).state is Stopped,
        drained(stop_step(f), f.active as nat).active == 0,
        forall|k: nat| k <= f.active ==> !accepting(#[trigger] drained(stop_step(f), k)),
{
    let g = stop_step(f);
    lemma_draining_runs_dry(g);
}

} // verus!
