//! What holds of the registry after any sequence of operations.

use crate::event_loop::{after_read, closes, read_text, ReadOutcome};
use crate::identity::{advanced, assigned};
use crate::model::{appended, extended, history, inserted, removed, sent, Record};
use crate::server::{send_result, SendError};
use crate::text::decoded;
use vstd::prelude::*;

verus! {

/// One operation on the registry.
pub enum Event<S> {
    /// An accepted connection is inserted.
    Insert { id: usize, socket: S },
    /// A connection is removed.
    Remove { id: usize },
    /// A received text is recorded.
    Inbound { id: usize, text: Seq<char> },
    /// A send is concluded.
    Send { id: usize, text: Seq<char>, written: bool },
    /// The event loop handles the outcome of a read.
    Read { id: usize, outcome: ReadOutcome },
}

/// The registry after one operation.
pub open spec fn step<S>(registry: Map<usize, Record<S>>, event: Event<S>) -> Map<
    usize,
    Record<S>,
> {
    match event {
        Event::Insert { id, socket } => inserted(registry, id, socket),
        Event::Remove { id } => removed(registry, id),
        Event::Inbound { id, text } => appended(registry, id, text),
        Event::Send { id, text, written } => sent(registry, id, text, written),
        Event::Read { id, outcome } => after_read(registry, id, outcome),
    }
}

/// The registry after a sequence of operations, the first of them first.
pub open spec fn run<S>(registry: Map<usize, Record<S>>, events: Seq<Event<S>>) -> Map<
    usize,
    Record<S>,
>
    decreases events.len(),
{
    if events.len() == 0 {
        registry
    } else {
        step(run(registry, events.drop_last()), events.last())
    }
}

/// The connection that an operation is about.
pub open spec fn subject<S>(event: Event<S>) -> usize {
    match event {
        Event::Insert { id, .. } => id,
        Event::Remove { id } => id,
        Event::Inbound { id, .. } => id,
        Event::Send { id, .. } => id,
        Event::Read { id, .. } => id,
    }
}

/// Whether the operation makes `id` live.
pub open spec fn enters<S>(event: Event<S>, id: usize) -> bool {
    event is Insert && subject(event) == id
}

/// Whether `id` is not live after the operation, whatever it was before: the
/// operation removes it, or is a send to it whose write failed, or a read on
/// it that found the connection over.
pub open spec fn leaves<S>(event: Event<S>, id: usize) -> bool {
    subject(event) == id && match event {
        Event::Remove { .. } => true,
        Event::Send { written, .. } => !written,
        Event::Read { outcome, .. } => closes(outcome),
        _ => false,
    }
}

/// The text that the operation adds to the log of `id`, where `id` is live.
pub open spec fn entry<S>(event: Event<S>, id: usize) -> Option<Seq<char>> {
    if subject(event) != id {
        None
    } else {
        match event {
            Event::Inbound { text, .. } => Some(text),
            Event::Send { text, written, .. } => if written {
                Some(text)
            } else {
                None
            },
            Event::Read { outcome, .. } => read_text(outcome),
            _ => None,
        }
    }
}

/// The texts that the operations add to the log of `id`, in their order.
pub open spec fn entries<S>(events: Seq<Event<S>>, id: usize) -> Seq<Seq<char>>
    decreases events.len(),
{
    if events.len() == 0 {
        Seq::empty()
    } else {
        match entry(events.last(), id) {
            Some(text) => entries(events.drop_last(), id).push(text),
            None => entries(events.drop_last(), id),
        }
    }
}

/// Whether none of the operations from index `from` on takes `id` out.
pub open spec fn stays<S>(events: Seq<Event<S>>, from: int, id: usize) -> bool {
    forall|j: int| from <= j < events.len() ==> !leaves(#[trigger] events[j], id)
}

/// Whether `id` was live at the start or has been inserted, and has not been
/// taken out since.
pub open spec fn live_after<S>(
    registry: Map<usize, Record<S>>,
    events: Seq<Event<S>>,
    id: usize,
) -> bool {
    ||| registry.contains_key(id) && stays(events, 0, id)
    ||| exists|i: int|
        0 <= i < events.len() && enters(#[trigger] events[i], id) && stays(events, i + 1, id)
}

/// One operation decides about `id` alone whether it is live afterwards: an
/// insertion of `id` makes it live, an operation that takes `id` out makes it
/// not live, and any other operation leaves it as it was.
pub proof fn lemma_step_liveness<S>(registry: Map<usize, Record<S>>, event: Event<S>, id: usize)
    ensures
        step(registry, event).contains_key(id) == (enters(event, id) || (!leaves(event, id)
            && registry.contains_key(id))),
{
}

/// An operation about one connection changes no other connection's record.
pub proof fn lemma_step_is_isolated<S>(
    registry: Map<usize, Record<S>>,
    event: Event<S>,
    other: usize,
)
    requires
        subject(event) != other,
    ensures
        step(registry, event).contains_key(other) == registry.contains_key(other),
        step(registry, event)[other] == registry[other],
{
}

/// After any sequence of operations, the live connections are exactly those
/// that were live at the start or have been inserted, and have not been taken
/// out since.
pub proof fn lemma_live_connections<S>(
    registry: Map<usize, Record<S>>,
    events: Seq<Event<S>>,
    id: usize,
)
    ensures
        run(registry, events).contains_key(id) == live_after(registry, events, id),
    decreases events.len(),
{
    if events.len() == 0 {
    } else {
        let before = events.drop_last();
        let last = events.last();
        let n = before.len() as int;
        lemma_live_connections(registry, before, id);
        lemma_step_liveness(run(registry, before), last, id);
        assert forall|j: int| 0 <= j < n implies before[j] == events[j] by {}
        if enters(last, id) {
            assert(enters(events[n], id) && stays(events, n + 1, id));
        } else if leaves(last, id) {
            assert(leaves(events[n], id));
            assert(!stays(events, 0, id));
            assert forall|i: int| 0 <= i < events.len() && enters(#[trigger] events[i], id)
                implies !stays(events, i + 1, id) by {
                assert(i + 1 <= n);
            }
        } else {
            assert forall|from: int| 0 <= from <= n implies stays(events, from, id) == stays(
                before,
                from,
                id,
            ) by {
                if stays(before, from, id) {
                    assert forall|j: int| from <= j < events.len() implies !leaves(
                        #[trigger] events[j],
                        id,
                    ) by {
                        if j < n {
                            assert(!leaves(before[j], id));
                        }
                    }
                }
                if stays(events, from, id) {
                    assert forall|j: int| from <= j < before.len() implies !leaves(
                        #[trigger] before[j],
                        id,
                    ) by {
                        assert(!leaves(events[j], id));
                    }
                }
            }
            if live_after(registry, before, id) {
                if registry.contains_key(id) && stays(before, 0, id) {
                    assert(stays(events, 0, id));
                } else {
                    let i = choose|i: int|
                        0 <= i < before.len() && enters(#[trigger] before[i], id) && stays(
                            before,
                            i + 1,
                            id,
                        );
                    assert(enters(events[i], id) && stays(events, i + 1, id));
                }
            }
            if live_after(registry, events, id) {
                if registry.contains_key(id) && stays(events, 0, id) {
                    assert(stays(before, 0, id));
                } else {
                    let i = choose|i: int|
                        0 <= i < events.len() && enters(#[trigger] events[i], id) && stays(
                            events,
                            i + 1,
                            id,
                        );
                    assert(i < n);
                    assert(enters(before[i], id) && stays(before, i + 1, id));
                }
            }
        }
    }
}

/// Whether the operation is a successful append to the log of `id`: a
/// received text that is recorded, or a send whose write succeeded.
pub open spec fn appends_to<S>(event: Event<S>, id: usize) -> bool {
    subject(event) == id && match event {
        Event::Inbound { .. } => true,
        Event::Send { written, .. } => written,
        _ => false,
    }
}

/// The text of a recorded or sent message.
pub open spec fn text_of<S>(event: Event<S>) -> Seq<char> {
    match event {
        Event::Inbound { text, .. } => text,
        Event::Send { text, .. } => text,
        _ => Seq::empty(),
    }
}

/// An operation that neither inserts a live connection anew nor takes it out
/// keeps its socket, and adds to its log the operation's text for it, if
/// there is one, and nothing else.
pub proof fn lemma_step_log<S>(registry: Map<usize, Record<S>>, event: Event<S>, id: usize)
    requires
        registry.contains_key(id),
        !enters(event, id),
        !leaves(event, id),
    ensures
        step(registry, event).contains_key(id),
        step(registry, event)[id] == match entry(event, id) {
            Some(text) => extended(registry[id], text),
            None => registry[id],
        },
{
}

/// While a connection stays live, its log only grows: after any sequence of
/// operations that neither insert it anew nor take it out, the log is the log
/// from before, followed by the texts that the operations added for it, in the
/// order of the operations. Operations about other connections add nothing.
pub proof fn lemma_log_grows_in_order<S>(
    registry: Map<usize, Record<S>>,
    events: Seq<Event<S>>,
    id: usize,
)
    requires
        registry.contains_key(id),
        forall|j: int|
            0 <= j < events.len() ==> !enters(#[trigger] events[j], id) && !leaves(events[j], id),
    ensures
        run(registry, events).contains_key(id),
        run(registry, events)[id].socket == registry[id].socket,
        run(registry, events)[id].log == registry[id].log + entries(events, id),
    decreases events.len(),
{
    if events.len() == 0 {
        assert(registry[id].log + entries(events, id) =~= registry[id].log);
    } else {
        let before = events.drop_last();
        assert forall|j: int| 0 <= j < before.len() implies !enters(#[trigger] before[j], id)
            && !leaves(before[j], id) by {
            assert(before[j] == events[j]);
        }
        lemma_log_grows_in_order(registry, before, id);
        lemma_step_log(run(registry, before), events.last(), id);
        match entry(events.last(), id) {
            Some(text) => {
                assert((registry[id].log + entries(before, id)).push(text) =~= registry[id].log
                    + entries(before, id).push(text));
            },
            None => {},
        }
    }
}

/// A sequence of successful appends to one connection adds exactly their
/// texts, one entry for each, in their order.
pub proof fn lemma_entries_of_appends<S>(events: Seq<Event<S>>, id: usize)
    requires
        forall|j: int| 0 <= j < events.len() ==> appends_to(#[trigger] events[j], id),
    ensures
        entries(events, id) == Seq::new(events.len(), |j: int| text_of(events[j])),
    decreases events.len(),
{
    if events.len() == 0 {
        assert(entries(events, id) =~= Seq::new(events.len(), |j: int| text_of(events[j])));
    } else {
        let before = events.drop_last();
        assert forall|j: int| 0 <= j < before.len() implies appends_to(
            #[trigger] before[j],
            id,
        ) by {
            assert(before[j] == events[j]);
        }
        lemma_entries_of_appends(before, id);
        assert(appends_to(events[events.len() - 1], id));
        assert(entries(events, id) =~= Seq::new(events.len(), |j: int| text_of(events[j])));
    }
}

/// The log of a connection right after `n` successful calls that record a
/// received text or conclude a send, in any interleaving, since it was
/// inserted: it has exactly `n` entries, the texts of the calls in the order
/// of the calls.
pub proof fn lemma_history_after_appends<S>(
    registry: Map<usize, Record<S>>,
    id: usize,
    socket: S,
    events: Seq<Event<S>>,
)
    requires
        forall|j: int| 0 <= j < events.len() ==> appends_to(#[trigger] events[j], id),
    ensures
        history(run(inserted(registry, id, socket), events), id) == Some(
            Seq::new(events.len(), |j: int| text_of(events[j])),
        ),
{
    let start = inserted(registry, id, socket);
    assert forall|j: int| 0 <= j < events.len() implies !enters(#[trigger] events[j], id)
        && !leaves(events[j], id) by {
        assert(appends_to(events[j], id));
    }
    lemma_log_grows_in_order(start, events, id);
    lemma_entries_of_appends(events, id);
    assert(start[id].log + entries(events, id) =~= entries(events, id));
}

/// A send to an identity that is not live fails with `UnknownConnection` and
/// changes nothing.
pub proof fn lemma_send_to_unknown<S>(
    registry: Map<usize, Record<S>>,
    id: usize,
    text: Seq<char>,
    written: bool,
)
    requires
        !registry.contains_key(id),
    ensures
        send_result(registry, id, written) == Err::<(), SendError>(SendError::UnknownConnection),
        sent(registry, id, text, written) == registry,
{
}

/// A send to a live connection whose write fails takes the connection out of
/// the registry, and leaves every other connection as it was. Afterwards its
/// identity has no history, and a send to it fails with `UnknownConnection`
/// and changes nothing, however its write ended.
pub proof fn lemma_failed_send_forgets<S>(
    registry: Map<usize, Record<S>>,
    id: usize,
    text: Seq<char>,
    later: Seq<char>,
    written: bool,
)
    requires
        registry.contains_key(id),
    ensures
        send_result(registry, id, false) == Err::<(), SendError>(SendError::TransportError),
        sent(registry, id, text, false) == registry.remove(id),
        history(sent(registry, id, text, false), id) is None,
        send_result(sent(registry, id, text, false), id, written) == Err::<(), SendError>(
            SendError::UnknownConnection,
        ),
        sent(sent(registry, id, text, false), id, later, written) == sent(
            registry,
            id,
            text,
            false,
        ),
{
}

/// Bytes that are no valid text change nothing: the connection that they were
/// read from stays live, and its log and every other log stay as they were.
pub proof fn lemma_malformed_read_changes_nothing<S>(
    registry: Map<usize, Record<S>>,
    id: usize,
    bytes: Vec<u8>,
)
    requires
        bytes@.len() > 0,
        decoded(bytes@) is None,
    ensures
        after_read(registry, id, ReadOutcome::Received(bytes)) == registry,
{
}

/// Where a counter at `next` stands after the insertions among `events`, one
/// identity taken for each.
pub open spec fn position_after_insertions<S>(next: usize, events: Seq<Event<S>>) -> usize
    decreases events.len(),
{
    if events.len() == 0 {
        next
    } else if events.last() is Insert {
        advanced(position_after_insertions(next, events.drop_last()))
    } else {
        position_after_insertions(next, events.drop_last())
    }
}

/// Whether every insertion among `events` is made under the identity that a
/// counter assigns for it, the counter standing at `next` before the first:
/// this is how the event loop inserts.
pub open spec fn inserts_by_counter<S>(next: usize, events: Seq<Event<S>>) -> bool
    decreases events.len(),
{
    events.len() > 0 ==> inserts_by_counter(next, events.drop_last()) && (events.last() is Insert
        ==> assigned(position_after_insertions(next, events.drop_last())) == Some(
        subject(events.last()),
    ))
}

/// Whether every live connection has an identity below `next`.
pub open spec fn below<S>(registry: Map<usize, Record<S>>, next: usize) -> bool {
    forall|id: usize| registry.contains_key(id) ==> id < next
}

/// Where the identities come from a counter, every live connection has an
/// identity that the counter has passed.
pub proof fn lemma_live_identities_are_passed<S>(
    registry: Map<usize, Record<S>>,
    next: usize,
    events: Seq<Event<S>>,
)
    requires
        below(registry, next),
        inserts_by_counter(next, events),
    ensures
        next <= position_after_insertions(next, events),
        below(run(registry, events), position_after_insertions(next, events)),
    decreases events.len(),
{
    if events.len() > 0 {
        let before = events.drop_last();
        lemma_live_identities_are_passed(registry, next, before);
        assert forall|id: usize| run(registry, events).contains_key(id) implies id
            < position_after_insertions(next, events) by {
            lemma_step_liveness(run(registry, before), events.last(), id);
        }
    }
}

/// Where the identities come from a counter, an identity is given to one
/// connection only: the identity of an insertion is not live when the
/// insertion is made, so the insertion replaces no record, and no connection
/// before it, live or gone, had an identity as great.
pub proof fn lemma_identities_are_not_reused<S>(
    registry: Map<usize, Record<S>>,
    next: usize,
    events: Seq<Event<S>>,
    at: int,
)
    requires
        below(registry, next),
        inserts_by_counter(next, events),
        0 <= at < events.len(),
        events[at] is Insert,
    ensures
        below(run(registry, events.take(at)), subject(events[at])),
        !run(registry, events.take(at)).contains_key(subject(events[at])),
        forall|earlier: int|
            0 <= earlier < at && events[earlier] is Insert ==> subject(#[trigger] events[earlier])
                < subject(events[at]),
    decreases events.len(),
{
    let before = events.drop_last();
    if at == events.len() - 1 {
        assert(events.take(at) =~= before);
        lemma_live_identities_are_passed(registry, next, before);
        assert forall|earlier: int| 0 <= earlier < at && events[earlier] is Insert implies subject(
            #[trigger] events[earlier],
        ) < subject(events[at]) by {
            lemma_insertions_are_passed(next, before, earlier);
        }
    } else {
        assert(before.take(at) =~= events.take(at));
        assert(before[at] == events[at]);
        lemma_identities_are_not_reused(registry, next, before, at);
        assert forall|earlier: int| 0 <= earlier < at && events[earlier] is Insert implies subject(
            #[trigger] events[earlier],
        ) < subject(events[at]) by {
            assert(before[earlier] == events[earlier]);
        }
    }
}

/// The identity of every insertion is one that the counter has passed.
proof fn lemma_insertions_are_passed<S>(next: usize, events: Seq<Event<S>>, at: int)
    requires
        inserts_by_counter(next, events),
        0 <= at < events.len(),
        events[at] is Insert,
    ensures
        subject(events[at]) < position_after_insertions(next, events),
    decreases events.len(),
{
    let before = events.drop_last();
    lemma_position_never_falls(next, before);
    if at < events.len() - 1 {
        assert(before[at] == events[at]);
        lemma_insertions_are_passed(next, before, at);
    }
}

/// A counter never moves back.
proof fn lemma_position_never_falls<S>(next: usize, events: Seq<Event<S>>)
    ensures
        next <= position_after_insertions(next, events),
    decreases events.len(),
{
    if events.len() > 0 {
        lemma_position_never_falls(next, events.drop_last());
    }
}

} // verus!
