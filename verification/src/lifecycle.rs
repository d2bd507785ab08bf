//! The envelope of a canonical stream: the order in which a response, its
//! message and its blocks may be announced and ended.
use vstd::prelude::*;

use crate::stream::Event;

verus! {

/// What an observer of the events knows.
#[verifier::ext_equal]
pub struct Track {
    pub responded: bool,
    pub message_started: bool,
    pub message_stopped: bool,
    pub response_stopped: bool,
    pub open: Set<u32>,
}

/// Nothing has been seen.
pub open spec fn nothing_seen() -> Track {
    Track {
        responded: false,
        message_started: false,
        message_stopped: false,
        response_stopped: false,
        open: Set::empty(),
    }
}

/// The envelope rule for one event. The response and the message are each
/// announced once and ended once; a message is announced inside a response;
/// a block opens inside a message under a number that is not in use, and
/// closes under it; text, reasoning and tool-call starts belong to an open
/// block; the
/// message and the response end with every block closed, the response after
/// the message. There is no state after an event that breaks the rule.
pub open spec fn observe(track: Option<Track>, event: Event) -> Option<Track> {
    match track {
        None => None,
        Some(t) => match event {
            Event::ResponseStart { .. } => if t.responded {
                None
            } else {
                Some(Track { responded: true, ..t })
            },
            Event::MessageStart { .. } => if !t.responded || t.message_started {
                None
            } else {
                Some(Track { message_started: true, ..t })
            },
            Event::ContentBlockStart { index, .. } => if !t.message_started || t.open.contains(
                index,
            ) {
                None
            } else {
                Some(Track { open: t.open.insert(index), ..t })
            },
            Event::TextDelta { index, .. } => if t.open.contains(index) {
                Some(t)
            } else {
                None
            },
            Event::ReasoningDelta { index, .. } => if t.open.contains(index) {
                Some(t)
            } else {
                None
            },
            Event::ToolCallStart { index, .. } => if t.open.contains(index) {
                Some(t)
            } else {
                None
            },
            Event::ToolCallArgumentsDelta { .. } => if t.message_started {
                Some(t)
            } else {
                None
            },
            Event::ToolCallStop { index } => if t.open.contains(index) {
                Some(t)
            } else {
                None
            },
            Event::ContentBlockStop { index } => if t.open.contains(index) {
                Some(Track { open: t.open.remove(index), ..t })
            } else {
                None
            },
            Event::UsageDelta { .. } => Some(t),
            Event::MessageStop { .. } => if t.message_stopped || t.open != Set::<u32>::empty() {
                None
            } else {
                Some(Track { message_stopped: true, ..t })
            },
            Event::ResponseStop { .. } => if t.response_stopped || !t.message_stopped || t.open
                != Set::<u32>::empty() {
                None
            } else {
                Some(Track { response_stopped: true, ..t })
            },
            Event::RawProviderEvent { .. } => Some(t),
            Event::Error { .. } => Some(t),
        },
    }
}

/// The envelope rule for a sequence of events.
pub open spec fn observe_all(track: Option<Track>, out: Seq<Event>) -> Option<Track>
    decreases out.len(),
{
    if out.len() == 0 {
        track
    } else {
        observe(observe_all(track, out.drop_last()), out.last())
    }
}

/// A message is under way and no block is open.
pub open spec fn between_blocks() -> Track {
    Track {
        responded: true,
        message_started: true,
        message_stopped: false,
        response_stopped: false,
        open: Set::empty(),
    }
}

/// A response that was announced and ended, with its message and every block.
pub open spec fn all_ended() -> Track {
    Track {
        responded: true,
        message_started: true,
        message_stopped: true,
        response_stopped: true,
        open: Set::empty(),
    }
}

/// Observing one more event.
pub proof fn lemma_observe_push(track: Option<Track>, out: Seq<Event>, event: Event)
    ensures
        observe_all(track, out.push(event)) == observe(observe_all(track, out), event),
{
    assert(out.push(event).drop_last() =~= out);
}

/// Observing one sequence after another.
pub proof fn lemma_observe_concat(track: Option<Track>, a: Seq<Event>, b: Seq<Event>)
    ensures
        observe_all(track, a + b) == observe_all(observe_all(track, a), b),
    decreases b.len(),
{
    if b.len() == 0 {
        assert(a + b =~= a);
    } else {
        assert((a + b).drop_last() =~= a + b.drop_last());
        lemma_observe_concat(track, a, b.drop_last());
    }
}

/// The block rule alone, for one event: a block opens under a number that is
/// not in use and closes under it, and whatever belongs to a block comes while
/// it is open. There is no state after an event that breaks the rule.
pub open spec fn observe_block(open: Option<Set<u32>>, event: Event) -> Option<Set<u32>> {
    match open {
        None => None,
        Some(s) => match event {
            Event::ContentBlockStart { index, .. } => if s.contains(index) {
                None
            } else {
                Some(s.insert(index))
            },
            Event::ContentBlockStop { index } => if s.contains(index) {
                Some(s.remove(index))
            } else {
                None
            },
            Event::TextDelta { index, .. } | Event::ReasoningDelta { index, .. }
            | Event::ToolCallStart { index, .. } | Event::ToolCallArgumentsDelta { index, .. }
            | Event::ToolCallStop { index } => if s.contains(index) {
                Some(s)
            } else {
                None
            },
            _ => Some(s),
        },
    }
}

/// The block rule alone, for a sequence of events.
pub open spec fn observe_blocks(open: Option<Set<u32>>, out: Seq<Event>) -> Option<Set<u32>>
    decreases out.len(),
{
    if out.len() == 0 {
        open
    } else {
        observe_block(observe_blocks(open, out.drop_last()), out.last())
    }
}

/// Observing the blocks of one more event.
pub proof fn lemma_blocks_push(open: Option<Set<u32>>, out: Seq<Event>, event: Event)
    ensures
        observe_blocks(open, out.push(event)) == observe_block(observe_blocks(open, out), event),
{
    assert(out.push(event).drop_last() =~= out);
}

/// Observing the blocks of one sequence after another.
pub proof fn lemma_blocks_concat(open: Option<Set<u32>>, a: Seq<Event>, b: Seq<Event>)
    ensures
        observe_blocks(open, a + b) == observe_blocks(observe_blocks(open, a), b),
    decreases b.len(),
{
    if b.len() == 0 {
        assert(a + b =~= a);
    } else {
        assert((a + b).drop_last() =~= a + b.drop_last());
        lemma_blocks_concat(open, a, b.drop_last());
    }
}

/// How often a response and its message are announced and ended.
#[verifier::ext_equal]
pub struct Tally {
    pub response_starts: nat,
    pub message_starts: nat,
    pub message_stops: nat,
    pub response_stops: nat,
}

/// Nothing announced, nothing ended.
pub open spec fn no_marks() -> Tally {
    Tally { response_starts: 0, message_starts: 0, message_stops: 0, response_stops: 0 }
}

/// The announcements and ends among events.
pub open spec fn tally(out: Seq<Event>) -> Tally
    decreases out.len(),
{
    if out.len() == 0 {
        no_marks()
    } else {
        let t = tally(out.drop_last());
        match out.last() {
            Event::ResponseStart { .. } => Tally { response_starts: t.response_starts + 1, ..t },
            Event::MessageStart { .. } => Tally { message_starts: t.message_starts + 1, ..t },
            Event::MessageStop { .. } => Tally { message_stops: t.message_stops + 1, ..t },
            Event::ResponseStop { .. } => Tally { response_stops: t.response_stops + 1, ..t },
            _ => t,
        }
    }
}

/// One for what has happened, none for what has not.
pub open spec fn once(happened: bool) -> nat {
    if happened {
        1
    } else {
        0
    }
}

/// Events that keep the envelope announce and end the response and the message
/// at most once each: once where the observer knows of it, and never where not.
pub proof fn envelope_marks_happen_once(out: Seq<Event>)
    requires
        observe_all(Some(nothing_seen()), out) is Some,
    ensures
        ({
            let t = observe_all(Some(nothing_seen()), out)->0;
            tally(out) == Tally {
                response_starts: once(t.responded),
                message_starts: once(t.message_started),
                message_stops: once(t.message_stopped),
                response_stops: once(t.response_stopped),
            }
        }),
    decreases out.len(),
{
    if out.len() > 0 {
        envelope_marks_happen_once(out.drop_last());
    }
}

proof fn lemma_observed_before(out: Seq<Event>, n: int)
    requires
        0 <= n <= out.len(),
        observe_all(Some(nothing_seen()), out) is Some,
    ensures
        observe_all(Some(nothing_seen()), out.take(n)) is Some,
    decreases out.len() - n,
{
    if n == out.len() {
        assert(out.take(n) =~= out);
    } else {
        assert(out.take(n + 1).drop_last() =~= out.take(n));
        lemma_observed_before(out, n + 1);
    }
}

proof fn lemma_counted_start(out: Seq<Event>) -> (i: int)
    requires
        tally(out).message_starts > 0,
    ensures
        0 <= i < out.len(),
        out[i] is MessageStart,
    decreases out.len(),
{
    if out.last() is MessageStart {
        out.len() - 1
    } else {
        lemma_counted_start(out.drop_last())
    }
}

/// In events that keep the envelope, no block opens before the message is
/// announced.
pub proof fn blocks_open_inside_the_message(out: Seq<Event>, i: int)
    requires
        observe_all(Some(nothing_seen()), out) is Some,
        0 <= i < out.len(),
        out[i] is ContentBlockStart,
    ensures
        exists|j: int| 0 <= j < i && (#[trigger] out[j]) is MessageStart,
{
    lemma_observed_before(out, i + 1);
    lemma_observed_before(out, i);
    assert(out.take(i + 1).drop_last() =~= out.take(i));
    envelope_marks_happen_once(out.take(i));
    let j = lemma_counted_start(out.take(i));
    assert(out[j] == out.take(i)[j]);
}

/// Where blocks are numbered in order and only one is open at a time: the next
/// number and the open block.
#[verifier::ext_equal]
pub struct Row {
    pub next: int,
    pub open: Option<u32>,
}

/// The rule for one event of such a stream: a block opens under the next
/// number, while none is open, and closes under its own; the message ends with
/// none open. There is no state after an event that breaks the rule.
pub open spec fn in_row(row: Option<Row>, event: Event) -> Option<Row> {
    match row {
        None => None,
        Some(r) => match event {
            Event::ContentBlockStart { index, .. } => if r.open is None && index == r.next {
                Some(Row { next: r.next + 1, open: Some(index) })
            } else {
                None
            },
            Event::ContentBlockStop { index } => if r.open == Some(index) {
                Some(Row { open: None, ..r })
            } else {
                None
            },
            Event::MessageStop { .. } => if r.open is None {
                Some(r)
            } else {
                None
            },
            _ => Some(r),
        },
    }
}

/// The rule for a sequence of events.
pub open spec fn all_in_row(row: Option<Row>, out: Seq<Event>) -> Option<Row>
    decreases out.len(),
{
    if out.len() == 0 {
        row
    } else {
        in_row(all_in_row(row, out.drop_last()), out.last())
    }
}

/// One sequence after another.
pub proof fn lemma_row_concat(row: Option<Row>, a: Seq<Event>, b: Seq<Event>)
    ensures
        all_in_row(row, a + b) == all_in_row(all_in_row(row, a), b),
    decreases b.len(),
{
    if b.len() == 0 {
        assert(a + b =~= a);
    } else {
        assert((a + b).drop_last() =~= a + b.drop_last());
        lemma_row_concat(row, a, b.drop_last());
    }
}

/// The numbers under which blocks open, in order.
pub open spec fn block_numbers(out: Seq<Event>) -> Seq<u32>
    decreases out.len(),
{
    if out.len() == 0 {
        seq![]
    } else {
        let before = block_numbers(out.drop_last());
        match out.last() {
            Event::ContentBlockStart { index, .. } => before.push(index),
            _ => before,
        }
    }
}

/// Whether numbers count up from zero.
pub open spec fn counts_up(numbers: Seq<u32>) -> bool {
    forall|k: int| 0 <= k < numbers.len() ==> #[trigger] numbers[k] == k
}

/// A stream that keeps the rule from its start opens its blocks under the
/// numbers zero, one, two and so on.
pub proof fn blocks_in_a_row_count_up(out: Seq<Event>)
    requires
        all_in_row(Some(Row { next: 0, open: None }), out) is Some,
    ensures
        counts_up(block_numbers(out)),
        all_in_row(Some(Row { next: 0, open: None }), out)->0.next == block_numbers(out).len(),
    decreases out.len(),
{
    if out.len() > 0 {
        blocks_in_a_row_count_up(out.drop_last());
    }
}

} // verus!
