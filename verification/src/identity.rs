//! Multiplexer tokens and connection identities.

use vstd::prelude::*;

verus! {

/// The token under which the listening socket is registered.
pub const LISTENER_TOKEN: usize = 0;

/// The identity given to the first accepted connection.
pub const FIRST_IDENTITY: usize = 1;

/// What a readiness token names.
#[derive(Clone, Copy, Debug, PartialEq, Eq, Structural)]
pub enum Source {
    /// The listening socket.
    Listener,
    /// The connection with the given identity.
    Connection(usize),
}

/// The source that `token` names.
pub open spec fn source_of(token: usize) -> Source {
    if token == LISTENER_TOKEN {
        Source::Listener
    } else {
        Source::Connection(token)
    }
}

/// Tells the listening socket's token apart from a connection's identity.
pub fn classify(token: usize) -> (source: Source)
    ensures
        source == source_of(token),
{
    if token == LISTENER_TOKEN {
        Source::Listener
    } else {
        Source::Connection(token)
    }
}

/// The counter that connection identities come from. Identities are given out
/// in increasing order from `FIRST_IDENTITY` on, so none is given twice and
/// none is the listener's token.
pub struct IdentityCounter {
    next: usize,
}

/// The identity that a counter at `next` assigns: `next` itself, unless the
/// identities are used up.
pub open spec fn assigned(next: usize) -> Option<usize> {
    if next < usize::MAX {
        Some(next)
    } else {
        None
    }
}

/// Where a counter at `next` stands after one allocation.
pub open spec fn advanced(next: usize) -> usize {
    if next < usize::MAX {
        (next + 1) as usize
    } else {
        next
    }
}

impl IdentityCounter {
    #[verifier::type_invariant]
    spec fn well_formed(self) -> bool {
        self.next >= FIRST_IDENTITY
    }

    /// The identity that the next allocation would assign.
    pub closed spec fn position(&self) -> usize {
        self.next
    }

    /// A counter that has assigned no identity yet.
    pub fn new() -> (counter: Self)
        ensures
            counter.position() == FIRST_IDENTITY,
    {
        IdentityCounter { next: FIRST_IDENTITY }
    }

    /// Assigns the next identity, or none when every identity has been
    /// assigned.
    pub fn allocate(&mut self) -> (id: Option<usize>)
        ensures
            id == assigned(old(self).position()),
            final(self).position() == advanced(old(self).position()),
            id matches Some(identity) ==> identity >= FIRST_IDENTITY,
    {
        proof {
            use_type_invariant(&*self);
        }
        if self.next < usize::MAX {
            let id: usize = self.next;
            self.next = id + 1;
            Some(id)
        } else {
            None
        }
    }
}

/// Where a counter at `next` stands after `count` allocations.
pub open spec fn advanced_by(next: usize, count: nat) -> usize
    decreases count,
{
    if count == 0 {
        next
    } else {
        advanced(advanced_by(next, (count - 1) as nat))
    }
}

/// The identity that a counter at `next` assigns in the allocation that
/// follows `count` earlier ones.
pub open spec fn nth_assigned(next: usize, count: nat) -> Option<usize> {
    assigned(advanced_by(next, count))
}

/// A counter never moves back, and it moves by one with each allocation until
/// the identities are used up.
pub proof fn lemma_advanced_by(next: usize, count: nat)
    ensures
        advanced_by(next, count) == if next + count <= usize::MAX {
            (next + count) as usize
        } else {
            usize::MAX
        },
    decreases count,
{
    if count > 0 {
        lemma_advanced_by(next, (count - 1) as nat);
    }
}

/// The identities that a counter assigns are strictly increasing in the order
/// in which it assigns them, so no identity is ever assigned twice; and once
/// a counter has none left, it assigns none again. An identity is never below
/// the counter's position, so a counter that started at `FIRST_IDENTITY`
/// never assigns the listener's token.
pub proof fn lemma_identities_increase(next: usize, earlier: nat, later: nat)
    requires
        earlier < later,
    ensures
        nth_assigned(next, later) matches Some(second) ==> nth_assigned(next, earlier) matches Some(
            first,
        ) && next <= first < second,
        nth_assigned(next, earlier) is None ==> nth_assigned(next, later) is None,
{
    lemma_advanced_by(next, earlier);
    lemma_advanced_by(next, later);
}

} // verus!
