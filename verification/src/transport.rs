//! The per-client media transport state machine.
//!
//! A transport is a negotiated network path for media. It moves through
//! `Uninitialized -> Created -> Connected -> Closed`, and `Closed` is
//! terminal: a closed transport can never re-enter `Connected`. The checks
//! here are made synchronously, before any call into the media engine,
//! because the engine itself misbehaves on out-of-sequence use instead of
//! returning a typed error.

use vstd::prelude::*;

verus! {

/// The lifecycle state of a transport.
#[derive(Clone, Copy, Debug, PartialEq, Eq, Structural)]
pub enum TransportState {
    Uninitialized,
    Created,
    Connected,
    Closed,
}

/// An out-of-sequence transport operation. Every variant is surfaced to the
/// caller with a stable tag and is never retried automatically.
#[derive(Clone, Copy, Debug, PartialEq, Eq, Structural)]
pub enum TransportError {
    /// `create` was called on a transport that was already created.
    AlreadyCreated,
    /// `connect` was called before `create`.
    NotCreated,
    /// `connect` was called on a transport that is already connected.
    AlreadyConnected,
    /// `connect` was called on a closed transport, which can never
    /// become connected again.
    NotConnected,
}

/// One direction of a client's media path.
#[derive(Clone, Copy, Debug, PartialEq, Eq, Structural)]
pub struct Transport {
    pub state: TransportState,
}

/// What `create` does to a transport state.
pub open spec fn spec_create(s: TransportState) -> TransportState {
    if s is Uninitialized {
        TransportState::Created
    } else {
        s
    }
}

/// What `connect` does to a transport state.
pub open spec fn spec_connect(s: TransportState) -> TransportState {
    if s is Created {
        TransportState::Connected
    } else {
        s
    }
}

/// What `close` does to a transport state: any state lands in `Closed`.
pub open spec fn spec_close(s: TransportState) -> TransportState {
    TransportState::Closed
}

impl Transport {
    /// A transport that has not been negotiated yet.
    pub fn new() -> (t: Transport)
        ensures
            t.state == TransportState::Uninitialized,
    {
        Transport { state: TransportState::Uninitialized }
    }

    /// Negotiate the transport: `Uninitialized -> Created`. Calling it a
    /// second time (or on a connected or closed transport) fails with
    /// `AlreadyCreated` and changes nothing.
    pub fn create(&mut self) -> (r: Result<(), TransportError>)
        ensures
            final(self).state == spec_create(old(self).state),
            r is Ok <==> old(self).state == TransportState::Uninitialized,
            r is Err ==> r == Result::<(), TransportError>::Err(TransportError::AlreadyCreated)
                && *final(self) == *old(self),
    {
        match self.state {
            TransportState::Uninitialized => {
                self.state = TransportState::Created;
                Ok(())
            }
            _ => Err(TransportError::AlreadyCreated),
        }
    }

    /// Connect the transport: `Created -> Connected`. Out of sequence the
    /// call fails and changes nothing: with `NotCreated` before `create`,
    /// with `AlreadyConnected` when already connected, and with
    /// `NotConnected` once closed.
    pub fn connect(&mut self) -> (r: Result<(), TransportError>)
        ensures
            final(self).state == spec_connect(old(self).state),
            r is Ok <==> old(self).state == TransportState::Created,
            old(self).state == TransportState::Uninitialized ==> r
                == Result::<(), TransportError>::Err(TransportError::NotCreated),
            old(self).state == TransportState::Connected ==> r
                == Result::<(), TransportError>::Err(TransportError::AlreadyConnected),
            old(self).state == TransportState::Closed ==> r
                == Result::<(), TransportError>::Err(TransportError::NotConnected),
            r is Err ==> *final(self) == *old(self),
    {
        match self.state {
            TransportState::Created => {
                self.state = TransportState::Connected;
                Ok(())
            }
            TransportState::Uninitialized => Err(TransportError::NotCreated),
            TransportState::Connected => Err(TransportError::AlreadyConnected),
            TransportState::Closed => Err(TransportError::NotConnected),
        }
    }

    /// Close the transport. Any state lands in `Closed`; the operation is
    /// idempotent and never fails, whatever triggered it (an explicit
    /// close, a disconnect, or an engine failure reported by the caller).
    pub fn close(&mut self)
        ensures
            final(self).state == TransportState::Closed,
    {
        self.state = TransportState::Closed;
    }
}

/// Closing is idempotent: a second close finds and leaves the same
/// terminal state as the first.
pub proof fn lemma_close_idempotent(s: TransportState)
    ensures
        spec_close(spec_close(s)) == spec_close(s),
        spec_close(s) == TransportState::Closed,
{
}

/// A closed transport can never re-enter `Connected`: neither `create`
/// nor `connect` moves it anywhere.
pub proof fn lemma_closed_is_terminal()
    ensures
        spec_create(TransportState::Closed) == TransportState::Closed,
        spec_connect(TransportState::Closed) == TransportState::Closed,
{
}

} // verus!
