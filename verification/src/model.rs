//! The registry as mathematics: a map from identities to records, and the
//! transitions that the registry's operations perform on it.

use vstd::prelude::*;

verus! {

/// What the registry holds for one live connection.
pub struct Record<S> {
    /// The handle of the connection's socket.
    pub socket: S,
    /// Every message received from and sent to the peer, oldest first.
    pub log: Seq<Seq<char>>,
}

/// The texts of a log, in order.
pub open spec fn texts(log: Seq<String>) -> Seq<Seq<char>> {
    Seq::new(log.len(), |i: int| log[i]@)
}

/// The record of a connection that has just been accepted.
pub open spec fn fresh<S>(socket: S) -> Record<S> {
    Record { socket, log: Seq::empty() }
}

/// `record` with `text` added at the end of its log.
pub open spec fn extended<S>(record: Record<S>, text: Seq<char>) -> Record<S> {
    Record { socket: record.socket, log: record.log.push(text) }
}

/// The registry after `id` has been inserted with a fresh record.
pub open spec fn inserted<S>(registry: Map<usize, Record<S>>, id: usize, socket: S) -> Map<
    usize,
    Record<S>,
> {
    registry.insert(id, fresh(socket))
}

/// The registry after `id` has been removed.
pub open spec fn removed<S>(registry: Map<usize, Record<S>>, id: usize) -> Map<usize, Record<S>> {
    registry.remove(id)
}

/// The registry after `text` has been appended to the log of `id`. An
/// identity that is not live has no log, and the registry stays as it is.
pub open spec fn appended<S>(registry: Map<usize, Record<S>>, id: usize, text: Seq<char>) -> Map<
    usize,
    Record<S>,
> {
    if registry.contains_key(id) {
        registry.insert(id, extended(registry[id], text))
    } else {
        registry
    }
}

/// The registry after a send of `text` to `id` whose write ended as `written`
/// says. A send to an identity that is not live changes nothing. To a live
/// one, a write that succeeded appends the text to the log, and a write that
/// failed removes the record.
pub open spec fn sent<S>(
    registry: Map<usize, Record<S>>,
    id: usize,
    text: Seq<char>,
    written: bool,
) -> Map<usize, Record<S>> {
    if !registry.contains_key(id) {
        registry
    } else if written {
        appended(registry, id, text)
    } else {
        removed(registry, id)
    }
}

/// The log of `id`, where it is live.
pub open spec fn history<S>(registry: Map<usize, Record<S>>, id: usize) -> Option<Seq<Seq<char>>> {
    if registry.contains_key(id) {
        Some(registry[id].log)
    } else {
        None
    }
}

/// The number of live identities below `id`: the place of `id` when the live
/// identities are listed in ascending order, counted from 0.
pub open spec fn rank<S>(registry: Map<usize, Record<S>>, id: usize) -> nat {
    registry.dom().filter(|other: usize| other < id).len()
}

} // verus!
