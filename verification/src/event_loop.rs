//! The decisions of the network event loop. The loop itself waits on the
//! multiplexer and performs the socket calls; what it got from each call it
//! hands to the functions here, which change the registry and say what the
//! loop has to do next.

use crate::identity::{
    advanced, assigned, classify, source_of, IdentityCounter, Source, LISTENER_TOKEN,
};
use crate::model::{appended, removed, Record};
use crate::server::Server;
use crate::text::{decode_chunk, decoded};
use vstd::prelude::*;

verus! {

/// The port on the loopback interface that the listening socket is bound to.
pub const LISTEN_PORT: u16 = 13265;

/// The number of readiness events that one wait on the multiplexer takes.
pub const EVENT_CAPACITY: usize = 128;

/// What the loop does about one readiness event.
#[derive(Clone, Copy, Debug, PartialEq, Eq, Structural)]
pub enum Task {
    /// Accept the pending connections.
    Accept,
    /// Read from the socket of this connection.
    Read(usize),
    /// Nothing.
    Skip,
}

/// How one `accept` on the listening socket ended.
#[derive(Clone, Copy, Debug, PartialEq, Eq, Structural)]
pub enum AcceptOutcome {
    /// A connection was accepted.
    Accepted,
    /// No connection is pending.
    WouldBlock,
    /// The call failed.
    Failed,
}

/// What the loop does after one `accept`.
#[derive(Clone, Copy, Debug, PartialEq, Eq, Structural)]
pub enum AcceptAction {
    /// Register the new socket for readability under this identity, insert
    /// it into the registry, and accept again.
    Admit(usize),
    /// Every identity has been assigned: release the new socket, and accept
    /// again.
    Refuse,
    /// The listener is drained: go on with the next event.
    Done,
    /// Report the failed accept, and go on with the next event.
    Report,
}

/// How one read on a connection's socket ended.
#[derive(Debug)]
pub enum ReadOutcome {
    /// The call returned these bytes. No bytes at all mean that the peer has
    /// closed the connection.
    Received(Vec<u8>),
    /// The call failed.
    Failed,
    /// Nothing was there to read.
    WouldBlock,
}

/// What the loop does after one read.
#[derive(Debug)]
pub enum ReadAction<S> {
    /// The identity names no live connection: nothing to do.
    Unknown,
    /// The text has been entered in the connection's log.
    Recorded,
    /// The bytes were no valid text and have been dropped: report it.
    Discarded,
    /// The connection has been taken out of the registry: deregister its
    /// socket and release it.
    Closed(S),
    /// Nothing has changed.
    Idle,
}

/// What a readiness event with `token` asks for. `readable` says whether the
/// event reports that the socket can be read from.
pub open spec fn task_of(token: usize, readable: bool) -> Task {
    match source_of(token) {
        Source::Listener => Task::Accept,
        Source::Connection(id) => if readable {
            Task::Read(id)
        } else {
            Task::Skip
        },
    }
}

/// What an accept that ended as `outcome` leads to, with the counter at
/// `next`.
pub open spec fn accept_action(next: usize, outcome: AcceptOutcome) -> AcceptAction {
    match outcome {
        AcceptOutcome::Accepted => match assigned(next) {
            Some(id) => AcceptAction::Admit(id),
            None => AcceptAction::Refuse,
        },
        AcceptOutcome::WouldBlock => AcceptAction::Done,
        AcceptOutcome::Failed => AcceptAction::Report,
    }
}

/// Whether a read that ended as `outcome` shows that the connection is over:
/// it returned no bytes, or it failed.
pub open spec fn closes(outcome: ReadOutcome) -> bool {
    match outcome {
        ReadOutcome::Received(bytes) => bytes@.len() == 0,
        ReadOutcome::Failed => true,
        ReadOutcome::WouldBlock => false,
    }
}

/// The text that a read that ended as `outcome` adds to the log, if any.
pub open spec fn read_text(outcome: ReadOutcome) -> Option<Seq<char>> {
    match outcome {
        ReadOutcome::Received(bytes) => if bytes@.len() == 0 {
            None
        } else {
            decoded(bytes@)
        },
        _ => None,
    }
}

/// The registry after a read on the socket of `id` that ended as `outcome`.
/// A read without bytes or a failed one closes the connection; bytes that
/// decode are appended to its log; bytes that do not are dropped.
pub open spec fn after_read<S>(
    registry: Map<usize, Record<S>>,
    id: usize,
    outcome: ReadOutcome,
) -> Map<usize, Record<S>> {
    if closes(outcome) {
        removed(registry, id)
    } else {
        match read_text(outcome) {
            Some(text) => appended(registry, id, text),
            None => registry,
        }
    }
}

/// What a read on the socket of `id` that ended as `outcome` leads to.
pub open spec fn read_action<S>(
    registry: Map<usize, Record<S>>,
    id: usize,
    outcome: ReadOutcome,
) -> ReadAction<S> {
    if !registry.contains_key(id) {
        ReadAction::Unknown
    } else if closes(outcome) {
        ReadAction::Closed(registry[id].socket)
    } else if read_text(outcome) is Some {
        ReadAction::Recorded
    } else if outcome is Received {
        ReadAction::Discarded
    } else {
        ReadAction::Idle
    }
}

/// Decides what one readiness event asks for: an event on the listener's
/// token asks for the pending connections to be accepted, and an event on a
/// connection's token for a read, if the socket can be read from.
pub fn on_ready(token: usize, readable: bool) -> (task: Task)
    ensures
        task == task_of(token, readable),
{
    match classify(token) {
        Source::Listener => Task::Accept,
        Source::Connection(id) => if readable {
            Task::Read(id)
        } else {
            Task::Skip
        },
    }
}

/// Decides what follows one `accept` on the listening socket. Each accepted
/// connection takes the next identity of `identities`.
pub fn on_accept(identities: &mut IdentityCounter, outcome: AcceptOutcome) -> (action: AcceptAction)
    ensures
        action == accept_action(old(identities).position(), outcome),
        final(identities).position() == if outcome == AcceptOutcome::Accepted {
            advanced(old(identities).position())
        } else {
            old(identities).position()
        },
        action matches AcceptAction::Admit(id) ==> id != LISTENER_TOKEN,
{
    match outcome {
        AcceptOutcome::Accepted => match identities.allocate() {
            Some(id) => AcceptAction::Admit(id),
            None => AcceptAction::Refuse,
        },
        AcceptOutcome::WouldBlock => AcceptAction::Done,
        AcceptOutcome::Failed => AcceptAction::Report,
    }
}

/// Decides what follows one read on the socket of the connection `id`, and
/// changes the registry accordingly.
pub fn on_read<S>(server: &mut Server<S>, id: usize, outcome: ReadOutcome) -> (action: ReadAction<
    S,
>)
    ensures
        final(server)@ == after_read(old(server)@, id, outcome),
        action == read_action(old(server)@, id, outcome),
{
    if !server.contains(id) {
        assert(server@ =~= removed(server@, id));
        return ReadAction::Unknown;
    }
    match outcome {
        ReadOutcome::Received(bytes) => {
            if bytes.len() == 0 {
                close(server, id)
            } else {
                match decode_chunk(bytes.as_slice()) {
                    Ok(text) => {
                        server.record_inbound(id, text);
                        ReadAction::Recorded
                    },
                    Err(_) => ReadAction::Discarded,
                }
            }
        },
        ReadOutcome::Failed => close(server, id),
        ReadOutcome::WouldBlock => ReadAction::Idle,
    }
}

/// Takes a live connection out of the registry, and tells the loop so.
fn close<S>(server: &mut Server<S>, id: usize) -> (action: ReadAction<S>)
    requires
        old(server)@.contains_key(id),
    ensures
        final(server)@ == removed(old(server)@, id),
        action == ReadAction::Closed(old(server)@[id].socket),
{
    match server.remove(id) {
        Some(socket) => ReadAction::Closed(socket),
        None => ReadAction::Unknown,
    }
}

/// Where a counter at `next` stands after accepts that ended as `outcomes`
/// say, the first of them first.
pub open spec fn position_after(next: usize, outcomes: Seq<AcceptOutcome>) -> usize
    decreases outcomes.len(),
{
    if outcomes.len() == 0 {
        next
    } else if outcomes.last() == AcceptOutcome::Accepted {
        advanced(position_after(next, outcomes.drop_last()))
    } else {
        position_after(next, outcomes.drop_last())
    }
}

/// The identities that are admitted, in their order, in accepts that ended as
/// `outcomes` say, the counter standing at `next` before the first.
pub open spec fn admitted(next: usize, outcomes: Seq<AcceptOutcome>) -> Seq<usize>
    decreases outcomes.len(),
{
    if outcomes.len() == 0 {
        Seq::empty()
    } else {
        match accept_action(position_after(next, outcomes.drop_last()), outcomes.last()) {
            AcceptAction::Admit(id) => admitted(next, outcomes.drop_last()).push(id),
            _ => admitted(next, outcomes.drop_last()),
        }
    }
}

/// Whatever the accepts of a run end as, the identities admitted in it rise
/// from each to the next, so none is admitted twice. None is below the
/// position that the counter started at, and all are below the position that
/// it has reached: the identities to come are greater still.
pub proof fn lemma_admitted_identities_increase(next: usize, outcomes: Seq<AcceptOutcome>)
    ensures
        next <= position_after(next, outcomes),
        forall|i: int|
            0 <= i < admitted(next, outcomes).len() ==> next <= #[trigger] admitted(
                next,
                outcomes,
            )[i] < position_after(next, outcomes),
        forall|i: int, j: int|
            0 <= i < j < admitted(next, outcomes).len() ==> admitted(next, outcomes)[i] < admitted(
                next,
                outcomes,
            )[j],
    decreases outcomes.len(),
{
    if outcomes.len() > 0 {
        let before = outcomes.drop_last();
        lemma_admitted_identities_increase(next, before);
        let earlier = admitted(next, before);
        let now = admitted(next, outcomes);
        assert forall|i: int| 0 <= i < now.len() implies next <= #[trigger] now[i]
            < position_after(next, outcomes) by {
            if i < earlier.len() {
                assert(now[i] == earlier[i]);
            }
        }
        assert forall|i: int, j: int| 0 <= i < j < now.len() implies now[i] < now[j] by {
            assert(now[i] == earlier[i]);
            if j < earlier.len() {
                assert(now[j] == earlier[j]);
            }
        }
    }
}

} // verus!
