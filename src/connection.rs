//! The life of one connection: `Connected`, then `Draining` once the read
//! side has ended, then `Closed` once the write side has ended. Leaving
//! `Connected` removes the client from the registry, so no later broadcast
//! targets it.
use vstd::prelude::*;
use crate::registry::{
    ClientRegistry, ClientState, broadcast_spec, client_index, has_client, unique_ids,
    unregister_spec,
};

verus! {

#[derive(Debug, Clone, Copy, PartialEq, Eq, Structural)]
pub enum ConnState {
    Connected,
    Draining,
    Closed,
}

/// What the read or write side of a connection observed.
#[derive(Debug, Clone, Copy, PartialEq, Eq, Structural)]
pub enum ConnEvent {
    /// Bytes arrived from the peer; they carry no meaning and are dropped.
    Received,
    /// A read returned no bytes: the peer closed its side.
    PeerClosed,
    ReadFailed,
    /// A frame was written in full.
    Written,
    WriteFailed,
    /// The outbound queue is gone.
    QueueClosed,
}

pub open spec fn next_state_spec(s: ConnState, e: ConnEvent) -> ConnState {
    match s {
        ConnState::Closed => ConnState::Closed,
        _ => match e {
            ConnEvent::WriteFailed | ConnEvent::QueueClosed => ConnState::Closed,
            ConnEvent::PeerClosed | ConnEvent::ReadFailed => ConnState::Draining,
            ConnEvent::Received | ConnEvent::Written => s,
        },
    }
}

/// The state that follows `s` on event `e`.
pub fn next_state(s: ConnState, e: ConnEvent) -> (r: ConnState)
    ensures
        r == next_state_spec(s, e),
{
    match s {
        ConnState::Closed => ConnState::Closed,
        _ => match e {
            ConnEvent::WriteFailed | ConnEvent::QueueClosed => ConnState::Closed,
            ConnEvent::PeerClosed | ConnEvent::ReadFailed => ConnState::Draining,
            ConnEvent::Received | ConnEvent::Written => s,
        },
    }
}

impl ClientRegistry {
    /// Advances the connection of `id` from `state` on `event`. Once the
    /// connection has left `Connected`, `id` is removed (removal is
    /// idempotent); while it stays connected the registry is untouched.
    pub fn on_connection_event(&mut self, id: &String, state: ConnState, event: ConnEvent) -> (r:
        ConnState)
        requires
            old(self).wf(),
        ensures
            final(self).wf(),
            r == next_state_spec(state, event),
            r == ConnState::Connected ==> final(self).clients() == old(self).clients(),
            r != ConnState::Connected ==> final(self).clients() == unregister_spec(
                old(self).clients(),
                id@,
            ),
    {
        let r = next_state(state, event);
        if r != ConnState::Connected {
            self.unregister(id);
        }
        r
    }
}

/// Once the peer has closed its side, the connection leaves `Connected`, its
/// identity is gone from the registry, and a later broadcast makes no
/// attempt for it.
pub proof fn lemma_disconnect_cleanup(
    cs: Seq<ClientState>,
    id: Seq<char>,
    state: ConnState,
    frame: Seq<u8>,
)
    requires
        unique_ids(cs),
    ensures
        next_state_spec(state, ConnEvent::PeerClosed) != ConnState::Connected,
        !has_client(unregister_spec(cs, id), id),
        forall|i: int|
            0 <= i < unregister_spec(cs, id).len() ==> #[trigger] broadcast_spec(
                unregister_spec(cs, id),
                frame,
            )[i].id != id,
{
    let rest = unregister_spec(cs, id);
    if has_client(cs, id) {
        let k = client_index(cs, id);
        assert forall|i: int| 0 <= i < rest.len() implies rest[i].id != id by {
            if i < k {
                assert(rest[i] == cs[i]);
            } else {
                assert(rest[i] == cs[i + 1]);
            }
        }
    }
    assert(!has_client(rest, id)) by {
        if has_client(rest, id) {
            let j = client_index(rest, id);
            assert(rest[j].id == id);
        }
    }
}

} // verus!
