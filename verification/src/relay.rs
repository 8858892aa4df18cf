//! Per-connection relay engine.
//!
//! One relayed connection is a pair of independent copy directions:
//! public→local and local→public. Each direction turns the events its read
//! side produces (a chunk of bytes, end-of-stream, an I/O error) into the
//! action its write side must perform. Bytes are forwarded unmodified and in
//! order; end-of-stream half-closes the peer's write side, so data still in
//! flight the other way is not dropped; an error aborts the connection. The
//! relay as a whole is complete only once both directions have finished.
//!
//! The process's copy tasks read from the sockets and feed every event
//! through [`RelayDirection::on_event`]; the verified contract is what makes
//! the relay byte-transparent.

use vstd::prelude::*;

verus! {

/// State of one copy direction.
#[derive(Clone, Copy, Debug, PartialEq, Eq, Structural)]
pub enum DirectionState {
    /// The read side may still produce bytes.
    Streaming,
    /// The read side reached end-of-stream; the peer has been half-closed.
    SourceDone,
    /// The read or write side failed; the connection is being aborted.
    Failed,
}

/// What one direction's read side reported.
#[derive(Debug)]
pub enum RelayEvent {
    /// A chunk of bytes arrived (possibly empty).
    Data(Vec<u8>),
    /// The read side reached end-of-stream.
    SourceEof,
    /// The read or write side failed mid-relay.
    TransferError,
}

/// What the direction's write side must do in response.
#[derive(Debug)]
pub enum RelayAction {
    /// Write exactly these bytes to the peer, in order.
    Forward(Vec<u8>),
    /// Shut down the peer's write side; the opposite direction continues.
    HalfClosePeer,
    /// Tear the connection down; only this connection is affected.
    AbortConnection,
}

/// One copy direction of a relayed connection.
pub struct RelayDirection {
    pub state: DirectionState,
}

/// Whether this direction has finished (end-of-stream or error).
pub open spec fn direction_finished(d: RelayDirection) -> bool {
    !(d.state is Streaming)
}

/// The bytes of a finite stream, chunk by chunk, in order.
pub open spec fn concat_chunks(chunks: Seq<Seq<u8>>) -> Seq<u8>
    decreases chunks.len(),
{
    if chunks.len() == 0 {
        Seq::empty()
    } else {
        chunks.first() + concat_chunks(chunks.drop_first())
    }
}

impl RelayDirection {
    /// A direction of a freshly connected relay.
    pub fn new() -> (d: RelayDirection)
        ensures
            d.state is Streaming,
    {
        RelayDirection { state: DirectionState::Streaming }
    }

    /// Turn one read-side event into the write-side action. A chunk is
    /// forwarded exactly as it arrived; end-of-stream half-closes the peer;
    /// an error aborts the connection.
    pub fn on_event(&mut self, ev: RelayEvent) -> (act: RelayAction)
        requires
            old(self).state is Streaming,
        ensures
            ev matches RelayEvent::Data(b) ==> ({
                &&& act == RelayAction::Forward(b)
                &&& final(self).state is Streaming
            }),
            ev is SourceEof ==> act is HalfClosePeer && final(self).state is SourceDone,
            ev is TransferError ==> act is AbortConnection && final(self).state is Failed,
    {
        match ev {
            RelayEvent::Data(b) => RelayAction::Forward(b),
            RelayEvent::SourceEof => {
                self.state = DirectionState::SourceDone;
                RelayAction::HalfClosePeer
            },
            RelayEvent::TransferError => {
                self.state = DirectionState::Failed;
                RelayAction::AbortConnection
            },
        }
    }
}

/// Whether the relay of a connection is complete: both of its directions
/// have finished. A one-sided end-of-stream does not complete the relay.
pub fn relay_complete(a: &RelayDirection, b: &RelayDirection) -> (r: bool)
    ensures
        r == (direction_finished(*a) && direction_finished(*b)),
{
    let a_done = match a.state {
        DirectionState::Streaming => false,
        _ => true,
    };
    let b_done = match b.state {
        DirectionState::Streaming => false,
        _ => true,
    };
    a_done && b_done
}

/// Relay a finite stream through one direction: every chunk is fed through
/// the engine and the forwarded bytes are collected. The output is exactly
/// the input stream, unmodified and in order — for any chunking, including
/// empty chunks.
pub fn pump(chunks: Vec<Vec<u8>>) -> (out: Vec<u8>)
    ensures
        out@ == concat_chunks(chunks.deep_view()),
{
    let ghost orig: Seq<Seq<u8>> = chunks.deep_view();
    let mut rest = chunks;
    let mut dir = RelayDirection::new();
    let mut out: Vec<u8> = Vec::new();
    proof {
        assert(rest.deep_view() =~= orig);
        assert(out@ + concat_chunks(rest.deep_view()) =~= concat_chunks(orig));
    }
    while rest.len() > 0
        invariant
            dir.state is Streaming,
            out@ + concat_chunks(rest.deep_view()) == concat_chunks(orig),
        decreases rest.len(),
    {
        let ghost before: Seq<Seq<u8>> = rest.deep_view();
        let c = rest.remove(0);
        proof {
            assert(rest.deep_view() =~= before.drop_first());
            assert(c@ == before.first());
        }
        match dir.on_event(RelayEvent::Data(c)) {
            RelayAction::Forward(mut b) => {
                out.append(&mut b);
            },
            _ => {
                proof {
                    assert(false);
                }
            },
        }
        proof {
            assert(out@ + concat_chunks(rest.deep_view()) =~= concat_chunks(orig));
        }
    }
    proof {
        assert(concat_chunks(rest.deep_view()) =~= Seq::<u8>::empty());
        assert(out@ =~= concat_chunks(orig));
    }
    out
}

} // verus!
