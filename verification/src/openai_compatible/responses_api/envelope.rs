//! The envelope that the Responses parser keeps where the upstream keeps its
//! own order.
use vstd::prelude::*;

use super::parse_stream::{
    event_events, event_state, is_start, item_added, item_of, output_index, lemma_event_names_differ,
    ResponsesState,
};
use crate::canonical::MessageRole;
use crate::json::{str_member_or, Tree};
use crate::lifecycle::{lemma_observe_concat, nothing_seen, observe_all, Track};
use crate::stream::Event;

verus! {

/// What the upstream has announced so far.
#[verifier::ext_equal]
pub struct Upstream {
    pub created: bool,
    pub began: bool,
    pub ended: bool,
    pub open: Set<u32>,
}

/// Nothing announced.
pub open spec fn silent() -> Upstream {
    Upstream { created: false, began: false, ended: false, open: Set::empty() }
}

/// Whether an item becomes a block.
pub open spec fn is_block(data: Tree) -> bool {
    let item_type = str_member_or(item_of(data), "type"@, ""@);
    item_type == "message"@ || item_type == "function_call"@
}

/// The order that an upstream keeps: items are added to a created response
/// under numbers that are not in use, text goes to an added item, an item that
/// is done was added, and the response completes once, with every item done.
/// There is no state after an event out of order.
pub open spec fn orderly(upstream: Option<Upstream>, event_type: Seq<char>, data: Tree) -> Option<
    Upstream,
> {
    match upstream {
        None => None,
        Some(u) => {
            let index = output_index(data);
            let empty = str_member_or(data, "delta"@, ""@).len() == 0;
            if is_start(event_type) {
                Some(Upstream { created: true, ..u })
            } else if event_type == "response.output_item.added"@ {
                if !u.created || (is_block(data) && u.open.contains(index)) {
                    None
                } else if is_block(data) {
                    Some(Upstream { began: true, open: u.open.insert(index), ..u })
                } else {
                    Some(Upstream { began: true, ..u })
                }
            } else if event_type == "response.output_text.delta"@ {
                if empty || u.open.contains(index) {
                    Some(u)
                } else {
                    None
                }
            } else if event_type == "response.function_call_arguments.delta"@ {
                if empty || u.began {
                    Some(u)
                } else {
                    None
                }
            } else if event_type == "response.output_item.done"@ {
                if !is_block(data) {
                    Some(u)
                } else if u.open.contains(index) {
                    Some(Upstream { open: u.open.remove(index), ..u })
                } else {
                    None
                }
            } else if event_type == "response.completed"@ {
                if u.ended || u.open != Set::<u32>::empty() {
                    None
                } else {
                    Some(Upstream { ended: true, ..u })
                }
            } else {
                Some(u)
            }
        },
    }
}

/// What an observer of the canonical events knows.
pub open spec fn track_of(upstream: Upstream) -> Track {
    Track {
        responded: upstream.created,
        message_started: upstream.began,
        message_stopped: upstream.ended,
        response_stopped: upstream.ended,
        open: upstream.open,
    }
}

/// Whether the parser remembers what the upstream announced.
pub open spec fn agrees(state: ResponsesState, upstream: Upstream) -> bool {
    &&& state.emitted_response_start == upstream.created
    &&& state.emitted_message_start == upstream.began
    &&& upstream.began ==> upstream.created
}

/// An event in order keeps the envelope.
pub proof fn orderly_event_keeps_the_envelope(
    upstream: Upstream,
    state: ResponsesState,
    event_type: Seq<char>,
    data: Tree,
)
    requires
        agrees(state, upstream),
        orderly(Some(upstream), event_type, data) is Some,
    ensures
        agrees(
            event_state(state, event_type),
            orderly(Some(upstream), event_type, data)->0,
        ),
        observe_all(Some(track_of(upstream)), event_events(state, event_type, data)) == Some(
            track_of(orderly(Some(upstream), event_type, data)->0),
        ),
{
    lemma_event_names_differ();
    reveal_with_fuel(observe_all, 3);
    let from = Some(track_of(upstream));
    let out = event_events(state, event_type, data);
    if event_type == "response.output_item.added"@ {
        let head = if state.emitted_message_start {
            Seq::<Event>::empty()
        } else {
            seq![Event::MessageStart { role: MessageRole::Assistant }]
        };
        let tail = item_added(data);
        lemma_observe_concat(from, head, tail);
        if head.len() == 1 {
            assert(head.drop_last() =~= seq![]);
        }
        if tail.len() == 1 {
            assert(tail.drop_last() =~= seq![]);
        } else if tail.len() == 2 {
            assert(tail.drop_last() =~= seq![tail[0]]);
            assert(seq![tail[0]].drop_last() =~= seq![]);
        }
    } else if out.len() == 1 {
        assert(out.drop_last() =~= seq![]);
    } else if out.len() == 2 {
        assert(out.drop_last() =~= seq![out[0]]);
        assert(seq![out[0]].drop_last() =~= seq![]);
    }
}

/// The state of the upstream after events.
pub open spec fn orderly_all(incoming: Seq<(Seq<char>, Tree)>) -> Option<Upstream>
    decreases incoming.len(),
{
    if incoming.len() == 0 {
        Some(silent())
    } else {
        orderly(orderly_all(incoming.drop_last()), incoming.last().0, incoming.last().1)
    }
}

/// The state of the parser after events.
pub open spec fn state_after(incoming: Seq<(Seq<char>, Tree)>) -> ResponsesState
    decreases incoming.len(),
{
    if incoming.len() == 0 {
        ResponsesState {
            emitted_response_start: false,
            emitted_message_start: false,
            stream_completed: false,
        }
    } else {
        event_state(state_after(incoming.drop_last()), incoming.last().0)
    }
}

/// The canonical events of events.
pub open spec fn all_events(incoming: Seq<(Seq<char>, Tree)>) -> Seq<Event>
    decreases incoming.len(),
{
    if incoming.len() == 0 {
        seq![]
    } else {
        all_events(incoming.drop_last()) + event_events(
            state_after(incoming.drop_last()),
            incoming.last().0,
            incoming.last().1,
        )
    }
}

/// A stream whose upstream keeps its order keeps the envelope throughout, and
/// has ended with every block closed where the upstream completed.
pub proof fn orderly_stream_keeps_the_envelope(incoming: Seq<(Seq<char>, Tree)>)
    requires
        orderly_all(incoming) is Some,
    ensures
        agrees(state_after(incoming), orderly_all(incoming)->0),
        observe_all(Some(nothing_seen()), all_events(incoming)) == Some(
            track_of(orderly_all(incoming)->0),
        ),
    decreases incoming.len(),
{
    if incoming.len() == 0 {
        assert(track_of(silent()) =~= nothing_seen());
    } else {
        let before = incoming.drop_last();
        let last = incoming.last();
        orderly_stream_keeps_the_envelope(before);
        let u = orderly_all(before)->0;
        let state = state_after(before);
        orderly_event_keeps_the_envelope(u, state, last.0, last.1);
        lemma_observe_concat(
            Some(nothing_seen()),
            all_events(before),
            event_events(state, last.0, last.1),
        );
    }
}

} // verus!
