//! The envelope that the stream parser keeps where the upstream keeps its own
//! order.
use vstd::prelude::*;

use super::response::{event_events, event_state, held_after, nothing_held, usage_events, Held};
use super::wire::IncomingEvent;
use crate::canonical::MessageRole;
use crate::lifecycle::{lemma_observe_concat, nothing_seen, observe_all, Track};
use crate::stream::Event;

verus! {

/// What the upstream has announced so far.
#[verifier::ext_equal]
pub struct Upstream {
    pub started: bool,
    pub stopped: bool,
    pub open: Set<u32>,
}

/// Nothing announced.
pub open spec fn silent() -> Upstream {
    Upstream { started: false, stopped: false, open: Set::empty() }
}

/// The order that an upstream keeps: the message starts once and stops once,
/// with every block closed; a block opens inside it under a number that is not
/// in use, changes while it is open, and closes. There is no state after an
/// event out of order.
pub open spec fn orderly(upstream: Option<Upstream>, event: IncomingEvent) -> Option<Upstream> {
    match upstream {
        None => None,
        Some(u) => match event {
            IncomingEvent::MessageStart { .. } => if u.started {
                None
            } else {
                Some(Upstream { started: true, ..u })
            },
            IncomingEvent::ContentBlockStart { index, .. } => if !u.started || u.open.contains(
                index,
            ) {
                None
            } else {
                Some(Upstream { open: u.open.insert(index), ..u })
            },
            IncomingEvent::ContentBlockDelta { index, .. } => if u.started && u.open.contains(
                index,
            ) {
                Some(u)
            } else {
                None
            },
            IncomingEvent::ContentBlockStop { index } => if u.open.contains(index) {
                Some(Upstream { open: u.open.remove(index), ..u })
            } else {
                None
            },
            IncomingEvent::MessageStop => if u.stopped || u.open != Set::<u32>::empty() {
                None
            } else {
                Some(Upstream { stopped: true, ..u })
            },
            _ => Some(u),
        },
    }
}

/// What an observer of the canonical events knows.
pub open spec fn track_of(upstream: Upstream) -> Track {
    Track {
        responded: upstream.started,
        message_started: upstream.started,
        message_stopped: upstream.stopped,
        response_stopped: upstream.stopped,
        open: upstream.open,
    }
}

/// An event in order keeps the envelope, and only open blocks are remembered
/// as tool calls.
pub proof fn orderly_event_keeps_the_envelope(upstream: Upstream, held: Held, event: IncomingEvent)
    requires
        orderly(Some(upstream), event) is Some,
        held.open_tools.subset_of(upstream.open),
    ensures
        event_state(held, event).open_tools.subset_of(orderly(Some(upstream), event)->0.open),
        observe_all(Some(track_of(upstream)), event_events(held, event)) == Some(
            track_of(orderly(Some(upstream), event)->0),
        ),
{
    reveal_with_fuel(observe_all, 3);
    let out = event_events(held, event);
    if let IncomingEvent::MessageStart { message } = event {
        let head = seq![
            Event::ResponseStart { id: message.id@, model: message.model@, created_at_unix: 0 },
            Event::MessageStart { role: MessageRole::Assistant },
        ];
        let tail = usage_events(message.usage);
        assert(head.drop_last() =~= seq![head[0]]);
        assert(seq![head[0]].drop_last() =~= seq![]);
        if tail.len() == 1 {
            assert(tail.drop_last() =~= seq![]);
        }
        lemma_observe_concat(Some(track_of(upstream)), head, tail);
    } else if out.len() == 1 {
        assert(out.drop_last() =~= seq![]);
    } else if out.len() == 2 {
        assert(out.drop_last() =~= seq![out[0]]);
        assert(seq![out[0]].drop_last() =~= seq![]);
    }
}

/// The state of the upstream after events.
pub open spec fn orderly_all(incoming: Seq<IncomingEvent>) -> Option<Upstream>
    decreases incoming.len(),
{
    if incoming.len() == 0 {
        Some(silent())
    } else {
        orderly(orderly_all(incoming.drop_last()), incoming.last())
    }
}

/// The canonical events of events, starting with nothing held.
pub open spec fn all_events(incoming: Seq<IncomingEvent>) -> Seq<Event>
    decreases incoming.len(),
{
    if incoming.len() == 0 {
        seq![]
    } else {
        all_events(incoming.drop_last()) + event_events(
            held_after(nothing_held(), incoming.drop_last()),
            incoming.last(),
        )
    }
}

/// A stream whose upstream keeps its order keeps the envelope throughout, and
/// has ended with every block closed where the message stopped.
pub proof fn orderly_stream_keeps_the_envelope(incoming: Seq<IncomingEvent>)
    requires
        orderly_all(incoming) is Some,
    ensures
        observe_all(Some(nothing_seen()), all_events(incoming)) == Some(
            track_of(orderly_all(incoming)->0),
        ),
        held_after(nothing_held(), incoming).open_tools.subset_of(orderly_all(incoming)->0.open),
    decreases incoming.len(),
{
    if incoming.len() == 0 {
        assert(track_of(silent()) =~= nothing_seen());
    } else {
        let before = incoming.drop_last();
        let held = held_after(nothing_held(), before);
        orderly_stream_keeps_the_envelope(before);
        orderly_event_keeps_the_envelope(orderly_all(before)->0, held, incoming.last());
        lemma_observe_concat(
            Some(nothing_seen()),
            all_events(before),
            event_events(held, incoming.last()),
        );
    }
}

} // verus!
