//! The connection registry: every live connection's socket handle and
//! message log, under the identity it was accepted with.

use crate::model::{
    appended, extended, fresh, history, inserted, rank, removed, sent, texts, Record,
};
use crate::trusted::sorted;
use std::collections::HashMap;
use vstd::prelude::*;
use vstd::std_specs::hash::spec_keys_iter;
use vstd::std_specs::iter::IteratorSpec;

verus! {

broadcast use vstd::std_specs::hash::group_hash_axioms;

/// Why a send did not go through.
#[derive(Clone, Copy, Debug, PartialEq, Eq, Structural)]
pub enum SendError {
    /// No live connection has the identity.
    UnknownConnection,
    /// The write to the socket failed; the connection has been dropped.
    TransportError,
}

/// What a send to `id` returns, by the registry before it and by whether the
/// write succeeded.
pub open spec fn send_result<S>(
    registry: Map<usize, Record<S>>,
    id: usize,
    written: bool,
) -> Result<(), SendError> {
    if !registry.contains_key(id) {
        Err(SendError::UnknownConnection)
    } else if written {
        Ok(())
    } else {
        Err(SendError::TransportError)
    }
}

/// Whether the numbers rise from each to the next.
pub open spec fn strictly_ascending(ids: Seq<usize>) -> bool {
    forall|i: int, j: int| 0 <= i < j < ids.len() ==> ids[i] < ids[j]
}

/// One live connection.
struct Connection<S> {
    socket: S,
    log: Vec<String>,
}

impl<S> View for Connection<S> {
    type V = Record<S>;

    closed spec fn view(&self) -> Record<S> {
        Record { socket: self.socket, log: texts(self.log@) }
    }
}

/// The registry of live connections. `S` is the type of a socket handle; the
/// registry keeps the handles and never looks inside one.
pub struct Server<S> {
    connections: HashMap<usize, Connection<S>>,
}

impl<S> View for Server<S> {
    type V = Map<usize, Record<S>>;

    closed spec fn view(&self) -> Map<usize, Record<S>> {
        Map::new(
            |id: usize| self.connections@.contains_key(id),
            |id: usize| self.connections@[id]@,
        )
    }
}

impl<S> Server<S> {
    /// A registry without connections.
    pub fn new() -> (server: Self)
        ensures
            server@ == Map::<usize, Record<S>>::empty(),
    {
        let server = Server { connections: HashMap::new() };
        assert(server@ =~= Map::<usize, Record<S>>::empty());
        server
    }

    /// The number of live connections.
    pub fn number_of_connections(&self) -> (count: usize)
        ensures
            self@.dom().finite(),
            count == self@.dom().len(),
    {
        assert(self@.dom() =~= self.connections@.dom());
        self.connections.len()
    }

    /// Whether `id` names a live connection.
    pub fn contains(&self, id: usize) -> (live: bool)
        ensures
            live == self@.contains_key(id),
    {
        self.connections.contains_key(&id)
    }

    /// The identities of the live connections, each once, in no particular
    /// order.
    pub fn ids(&self) -> (ids: Vec<usize>)
        ensures
            ids@.no_duplicates(),
            ids@.to_set() == self@.dom(),
            ids@.len() == self@.dom().len(),
    {
        let mut ids: Vec<usize> = Vec::new();
        let ghost keys = spec_keys_iter(&self.connections).remaining();
        for id in it: self.connections.keys()
            invariant
                it.seq() == keys,
                ids@ == keys.take(it.index()).unref(),
        {
            ids.push(*id);
            assert(keys.take(it.index() + 1).unref() =~= keys.take(it.index()).unref().push(*id));
        }
        proof {
            assert(ids@ =~= keys.unref());
            assert(self@.dom() =~= self.connections@.dom());
            assert(ids@.no_duplicates()) by {
                assert forall|i: int, j: int| 0 <= i < ids@.len() && 0 <= j < ids@.len() && i != j
                    implies ids@[i] != ids@[j] by {
                    assert(keys[i] != keys[j]);
                }
            }
        }
        ids
    }

    /// The identities of the live connections, each once, in ascending
    /// order: the order in which the connections are listed for the operator.
    pub fn sorted_ids(&self) -> (ids: Vec<usize>)
        ensures
            strictly_ascending(ids@),
            ids@.to_set() == self@.dom(),
            ids@.len() == self@.dom().len(),
    {
        let unordered = self.ids();
        let ids = sorted(unordered);
        proof {
            let before = unordered@;
            let after = ids@;
            before.to_multiset_ensures();
            after.to_multiset_ensures();
            before.lemma_multiset_has_no_duplicates();
            after.lemma_multiset_has_no_duplicates_conv();
            assert(after.to_set() =~= before.to_set()) by {
                assert forall|id: usize| after.contains(id) == before.contains(id) by {
                    assert(after.to_multiset().count(id) == before.to_multiset().count(id));
                }
            }
            assert forall|i: int, j: int| 0 <= i < j < after.len() implies after[i] < after[j] by {
                assert(after[i] <= after[j]);
                assert(after[i] != after[j]);
            }
        }
        ids
    }

    /// The identity at `position` in the ascending list of the live
    /// identities, counted from 0: the live identity that has exactly
    /// `position` live identities below it.
    pub fn id_at(&self, position: usize) -> (id: Option<usize>)
        ensures
            match id {
                Some(id) => self@.contains_key(id) && rank(self@, id) == position,
                None => position >= self@.dom().len(),
            },
    {
        let ids = self.sorted_ids();
        if position < ids.len() {
            let id: usize = ids[position];
            proof {
                let below = ids@.take(position as int);
                assert(ids@.to_set().contains(id)) by {
                    assert(ids@[position as int] == id);
                }
                assert(self@.dom().filter(|other: usize| other < id) =~= below.to_set()) by {
                    assert forall|other: usize|
                        self@.dom().contains(other) && other < id implies below.contains(
                        other,
                    ) by {
                        assert(ids@.to_set().contains(other));
                        let j = choose|j: int| 0 <= j < ids@.len() && ids@[j] == other;
                        assert(j < position);
                        assert(below[j] == other);
                    }
                    assert forall|other: usize| below.contains(other) implies self@.dom().contains(
                        other,
                    ) && other < id by {
                        let j = choose|j: int| 0 <= j < below.len() && below[j] == other;
                        assert(ids@[j] == other);
                        assert(ids@.to_set().contains(other));
                    }
                }
                below.unique_seq_to_set();
            }
            Some(id)
        } else {
            None
        }
    }

    /// Enters a connection that has just been accepted, with an empty log.
    /// A record that `id` had before is replaced.
    pub fn insert(&mut self, id: usize, socket: S)
        ensures
            final(self)@ == inserted(old(self)@, id, socket),
    {
        let connection = Connection { socket, log: Vec::new() };
        assert(connection@ == fresh(socket)) by {
            assert(texts(connection.log@) =~= Seq::<Seq<char>>::empty());
        }
        self.connections.insert(id, connection);
        assert(self@ =~= inserted(old(self)@, id, socket));
    }

    /// Takes a connection out of the registry and hands back its socket, for
    /// the caller to release.
    pub fn remove(&mut self, id: usize) -> (socket: Option<S>)
        ensures
            final(self)@ == removed(old(self)@, id),
            match socket {
                Some(s) => old(self)@.contains_key(id) && s == old(self)@[id].socket,
                None => !old(self)@.contains_key(id),
            },
    {
        let taken = self.connections.remove(&id);
        assert(self@ =~= removed(old(self)@, id));
        match taken {
            Some(connection) => Some(connection.socket),
            None => None,
        }
    }

    /// The socket of a live connection, for the caller to read from or write
    /// to.
    pub fn socket(&self, id: usize) -> (socket: Option<&S>)
        ensures
            match socket {
                Some(s) => self@.contains_key(id) && *s == self@[id].socket,
                None => !self@.contains_key(id),
            },
    {
        match self.connections.get(&id) {
            Some(connection) => Some(&connection.socket),
            None => None,
        }
    }

    /// A copy of the message log of `chat_token`, oldest message first, or
    /// nothing where no live connection has that identity.
    pub fn get_messages(&self, chat_token: usize) -> (messages: Option<Vec<String>>)
        ensures
            match messages {
                Some(log) => history(self@, chat_token) == Some(texts(log@)),
                None => history(self@, chat_token) is None,
            },
    {
        match self.connections.get(&chat_token) {
            Some(connection) => {
                let log = connection.log.clone();
                assert(log@ =~= connection.log@);
                Some(log)
            },
            None => None,
        }
    }

    /// Appends a message received from the peer to the log of `id`. Returns
    /// whether `id` is live; where it is not, nothing changes.
    pub fn record_inbound(&mut self, id: usize, text: String) -> (recorded: bool)
        ensures
            recorded == old(self)@.contains_key(id),
            final(self)@ == appended(old(self)@, id, text@),
    {
        match self.connections.remove(&id) {
            Some(connection) => {
                let Connection { socket, mut log } = connection;
                log.push(text);
                let updated = Connection { socket, log };
                assert(updated@ == extended(old(self)@[id], text@)) by {
                    assert(texts(updated.log@) =~= texts(connection.log@).push(text@));
                }
                self.connections.insert(id, updated);
                assert(self@ =~= appended(old(self)@, id, text@));
                true
            },
            None => {
                assert(self@ =~= old(self)@);
                false
            },
        }
    }

    /// Concludes a send of `message` to `chat_token`, after the caller has
    /// written the message's bytes to the connection's socket; `written` says
    /// whether that write succeeded. A write that succeeded is entered in the
    /// log. One that failed shows that the peer is gone: the connection is
    /// dropped, and nothing is entered. Where no live connection has the
    /// identity, nothing changes, whatever `written` says.
    pub fn send_message(&mut self, chat_token: usize, message: &str, written: bool) -> (result:
        Result<(), SendError>)
        ensures
            result == send_result(old(self)@, chat_token, written),
            final(self)@ == sent(old(self)@, chat_token, message@, written),
    {
        if !self.contains(chat_token) {
            Err(SendError::UnknownConnection)
        } else if written {
            self.record_inbound(chat_token, message.to_owned());
            Ok(())
        } else {
            self.remove(chat_token);
            Err(SendError::TransportError)
        }
    }
}

} // verus!
