//! State machine that turns alternating text and reasoning deltas into
//! bracketed content blocks.
use vstd::prelude::*;

use crate::stream::{emit, events, ContentBlockKind, Event, StreamEvent};

verus! {

/// Whether a delta is regular assistant text or reasoning content.
#[derive(Clone, Copy, Debug, PartialEq, Eq, Structural)]
pub enum DeltaKind {
    Text,
    Reasoning,
}

impl Default for DeltaKind {
    fn default() -> (kind: DeltaKind)
        ensures
            kind == DeltaKind::Text,
    {
        DeltaKind::Text
    }
}

/// Which block is open, if any.
#[derive(Clone, Copy, Debug, PartialEq, Eq, Structural)]
enum State {
    Idle,
    InText { index: u32 },
    InReasoning { index: u32 },
}

/// Consumes (kind, text) deltas and emits bracketed blocks.
///
/// Blocks are numbered from 0, and every change of kind opens the next one.
/// Empty deltas are dropped and open no block.
#[derive(Debug)]
pub struct ReasoningInterleaver {
    state: State,
    next_index: u32,
}

/// The model of `ReasoningInterleaver`: the open block and the next number.
#[verifier::ext_equal]
pub struct Interleaving {
    pub open: Option<(DeltaKind, u32)>,
    pub next: u32,
}

/// Nothing open, nothing numbered.
pub open spec fn idle() -> Interleaving {
    Interleaving { open: None, next: 0 }
}

pub open spec fn block_kind(kind: DeltaKind) -> ContentBlockKind {
    match kind {
        DeltaKind::Text => ContentBlockKind::Text,
        DeltaKind::Reasoning => ContentBlockKind::Reasoning,
    }
}

/// A delta of the given kind.
pub open spec fn delta(kind: DeltaKind, index: u32, text: Seq<char>) -> Event {
    match kind {
        DeltaKind::Text => Event::TextDelta { index, text },
        DeltaKind::Reasoning => Event::ReasoningDelta { index, text },
    }
}

impl Interleaving {
    /// Whether a delta goes to a block that has to be opened for it.
    pub open spec fn opens(self, kind: DeltaKind, text: Seq<char>) -> bool {
        text.len() > 0 && match self.open {
            Some((k, _)) => k != kind,
            None => true,
        }
    }

    /// The state after a delta.
    pub open spec fn pushed(self, kind: DeltaKind, text: Seq<char>) -> Interleaving {
        if self.opens(kind, text) {
            Interleaving { open: Some((kind, self.next)), next: (self.next + 1) as u32 }
        } else {
            self
        }
    }

    /// The events of a delta.
    pub open spec fn push_events(self, kind: DeltaKind, text: Seq<char>) -> Seq<Event> {
        if text.len() == 0 {
            seq![]
        } else if self.opens(kind, text) {
            self.flush_events() + seq![
                Event::ContentBlockStart { index: self.next, kind: block_kind(kind) },
                delta(kind, self.next, text),
            ]
        } else {
            seq![delta(kind, (self.open->0).1, text)]
        }
    }

    /// The state after closing the open block.
    pub open spec fn flushed(self) -> Interleaving {
        Interleaving { open: None, ..self }
    }

    /// The events that close the open block.
    pub open spec fn flush_events(self) -> Seq<Event> {
        match self.open {
            Some((_, index)) => seq![Event::ContentBlockStop { index }],
            None => seq![],
        }
    }
}

impl ReasoningInterleaver {
    pub closed spec fn view(&self) -> Interleaving {
        Interleaving {
            open: match self.state {
                State::Idle => None,
                State::InText { index } => Some((DeltaKind::Text, index)),
                State::InReasoning { index } => Some((DeltaKind::Reasoning, index)),
            },
            next: self.next_index,
        }
    }

    pub fn new() -> (interleaver: ReasoningInterleaver)
        ensures
            interleaver@ == idle(),
    {
        ReasoningInterleaver { state: State::Idle, next_index: 0 }
    }

    /// The number that the next block will have.
    pub fn next_index(&self) -> (index: u32)
        ensures
            index == self@.next,
    {
        self.next_index
    }

    /// Handles a delta: closes a block of the other kind, opens a block where
    /// none of this kind is open, and emits the delta.
    pub fn push(&mut self, kind: DeltaKind, text: &str, out: &mut Vec<StreamEvent>)
        requires
            old(self)@.opens(kind, text@) ==> old(self)@.next < u32::MAX,
        ensures
            final(self)@ == old(self)@.pushed(kind, text@),
            events(final(out)@) == events(old(out)@) + old(self)@.push_events(kind, text@),
    {
        let ghost start = *self;
        let ghost before = events(out@);
        if text.is_empty() {
            assert(events(out@) =~= before + seq![]);
            return;
        }
        let same_kind = match self.state {
            State::Idle => None,
            State::InText { index } => match kind {
                DeltaKind::Text => Some(index),
                DeltaKind::Reasoning => None,
            },
            State::InReasoning { index } => match kind {
                DeltaKind::Text => None,
                DeltaKind::Reasoning => Some(index),
            },
        };
        match same_kind {
            Some(index) => {
                let event = match kind {
                    DeltaKind::Text => StreamEvent::TextDelta { index, text: text.to_owned() },
                    DeltaKind::Reasoning => StreamEvent::ReasoningDelta {
                        index,
                        text: text.to_owned(),
                    },
                };
                emit(out, event);
            },
            None => {
                self.flush(out);
                self.open_new_block(kind, text, out);
            },
        }
        assert(events(out@) =~= before + start@.push_events(kind, text@));
    }

    /// Closes the open block, if there is one.
    pub fn flush(&mut self, out: &mut Vec<StreamEvent>)
        ensures
            final(self)@ == old(self)@.flushed(),
            events(final(out)@) == events(old(out)@) + old(self)@.flush_events(),
    {
        let ghost before = events(out@);
        match self.state {
            State::Idle => {},
            State::InText { index } | State::InReasoning { index } => {
                emit(out, StreamEvent::ContentBlockStop { index });
                self.state = State::Idle;
            },
        }
        assert(events(out@) =~= before + old(self)@.flush_events());
    }

    fn open_new_block(&mut self, kind: DeltaKind, text: &str, out: &mut Vec<StreamEvent>)
        requires
            old(self)@.open is None,
            old(self)@.next < u32::MAX,
        ensures
            final(self)@.open == Some((kind, old(self)@.next)),
            final(self)@.next == old(self)@.next + 1,
            events(final(out)@) == events(old(out)@).push(
                Event::ContentBlockStart { index: old(self)@.next, kind: block_kind(kind) },
            ).push(delta(kind, old(self)@.next, text@)),
    {
        let index = self.next_index;
        self.next_index = self.next_index + 1;
        match kind {
            DeltaKind::Text => {
                emit(out, StreamEvent::ContentBlockStart { index, kind: ContentBlockKind::Text });
                emit(out, StreamEvent::TextDelta { index, text: text.to_owned() });
                self.state = State::InText { index };
            },
            DeltaKind::Reasoning => {
                emit(
                    out,
                    StreamEvent::ContentBlockStart { index, kind: ContentBlockKind::Reasoning },
                );
                emit(out, StreamEvent::ReasoningDelta { index, text: text.to_owned() });
                self.state = State::InReasoning { index };
            },
        }
    }
}

impl Default for ReasoningInterleaver {
    fn default() -> (interleaver: ReasoningInterleaver)
        ensures
            interleaver@ == idle(),
    {
        ReasoningInterleaver::new()
    }
}

// ---------------------------------------------------------------------------
// Laws
// ---------------------------------------------------------------------------

/// The state after a sequence of deltas.
pub open spec fn state_after(start: Interleaving, deltas: Seq<(DeltaKind, Seq<char>)>) -> Interleaving
    decreases deltas.len(),
{
    if deltas.len() == 0 {
        start
    } else {
        let d = deltas.last();
        state_after(start, deltas.drop_last()).pushed(d.0, d.1)
    }
}

/// The events of a sequence of deltas.
pub open spec fn events_of(start: Interleaving, deltas: Seq<(DeltaKind, Seq<char>)>) -> Seq<Event>
    decreases deltas.len(),
{
    if deltas.len() == 0 {
        seq![]
    } else {
        let d = deltas.last();
        events_of(start, deltas.drop_last()) + state_after(start, deltas.drop_last()).push_events(
            d.0,
            d.1,
        )
    }
}

/// Whether there is a number for every block that a sequence of deltas opens.
pub open spec fn numbers_fit(start: Interleaving, deltas: Seq<(DeltaKind, Seq<char>)>) -> bool
    decreases deltas.len(),
{
    deltas.len() == 0 || {
        let before = deltas.drop_last();
        let d = deltas.last();
        &&& numbers_fit(start, before)
        &&& state_after(start, before).opens(d.0, d.1) ==> state_after(start, before).next
            < u32::MAX
    }
}

/// The bracketing rule for one event: a block opens under the next number
/// when none is open, a delta belongs to the open block and has its kind, and
/// a block closes under its own number. There is no state after an event that
/// breaks the rule.
pub open spec fn bracket(state: Option<Interleaving>, event: Event) -> Option<Interleaving> {
    match state {
        None => None,
        Some(s) => match event {
            Event::ContentBlockStart { index, kind } => if s.open is None && index == s.next
                && index < u32::MAX {
                match kind {
                    ContentBlockKind::Text => Some(
                        Interleaving {
                            open: Some((DeltaKind::Text, index)),
                            next: (index + 1) as u32,
                        },
                    ),
                    ContentBlockKind::Reasoning => Some(
                        Interleaving {
                            open: Some((DeltaKind::Reasoning, index)),
                            next: (index + 1) as u32,
                        },
                    ),
                    _ => None,
                }
            } else {
                None
            },
            Event::TextDelta { index, .. } => if s.open == Some((DeltaKind::Text, index)) {
                Some(s)
            } else {
                None
            },
            Event::ReasoningDelta { index, .. } => if s.open == Some(
                (DeltaKind::Reasoning, index),
            ) {
                Some(s)
            } else {
                None
            },
            Event::ContentBlockStop { index } => match s.open {
                Some((_, i)) => if i == index {
                    Some(s.flushed())
                } else {
                    None
                },
                None => None,
            },
            _ => None,
        },
    }
}

/// The bracketing rule for a sequence of events.
pub open spec fn brackets(state: Option<Interleaving>, out: Seq<Event>) -> Option<Interleaving>
    decreases out.len(),
{
    if out.len() == 0 {
        state
    } else {
        bracket(brackets(state, out.drop_last()), out.last())
    }
}

/// The deltas that a sequence of events carries, in order.
pub open spec fn carried(out: Seq<Event>) -> Seq<(DeltaKind, Seq<char>)>
    decreases out.len(),
{
    if out.len() == 0 {
        seq![]
    } else {
        let before = carried(out.drop_last());
        match out.last() {
            Event::TextDelta { text, .. } => before.push((DeltaKind::Text, text)),
            Event::ReasoningDelta { text, .. } => before.push((DeltaKind::Reasoning, text)),
            _ => before,
        }
    }
}

/// The deltas that are not empty, in order.
pub open spec fn not_empty(deltas: Seq<(DeltaKind, Seq<char>)>) -> Seq<(DeltaKind, Seq<char>)>
    decreases deltas.len(),
{
    if deltas.len() == 0 {
        seq![]
    } else {
        let before = not_empty(deltas.drop_last());
        if deltas.last().1.len() > 0 {
            before.push(deltas.last())
        } else {
            before
        }
    }
}

proof fn lemma_brackets_concat(state: Option<Interleaving>, a: Seq<Event>, b: Seq<Event>)
    ensures
        brackets(state, a + b) == brackets(brackets(state, a), b),
    decreases b.len(),
{
    if b.len() == 0 {
        assert(a + b =~= a);
    } else {
        assert((a + b).drop_last() =~= a + b.drop_last());
        lemma_brackets_concat(state, a, b.drop_last());
    }
}

/// What one sequence after another carries.
pub proof fn lemma_carried_concat(a: Seq<Event>, b: Seq<Event>)
    ensures
        carried(a + b) == carried(a) + carried(b),
    decreases b.len(),
{
    if b.len() == 0 {
        assert(a + b =~= a);
        assert(carried(a) + carried(b) =~= carried(a));
    } else {
        assert((a + b).drop_last() =~= a + b.drop_last());
        lemma_carried_concat(a, b.drop_last());
        assert(carried(a + b) =~= carried(a) + carried(b));
    }
}

/// The events of one delta obey the bracketing rule and lead to the
/// interleaver's next state.
pub proof fn push_is_bracketed(state: Interleaving, kind: DeltaKind, text: Seq<char>)
    requires
        state.opens(kind, text) ==> state.next < u32::MAX,
    ensures
        brackets(Some(state), state.push_events(kind, text)) == Some(state.pushed(kind, text)),
        carried(state.push_events(kind, text)) == not_empty(seq![(kind, text)]),
{
    reveal_with_fuel(brackets, 4);
    reveal_with_fuel(carried, 4);
    reveal_with_fuel(not_empty, 2);
    let out = state.push_events(kind, text);
    assert(seq![(kind, text)].drop_last() =~= seq![]);
    if text.len() > 0 {
        if state.opens(kind, text) {
            let tail = seq![
                Event::ContentBlockStart { index: state.next, kind: block_kind(kind) },
                delta(kind, state.next, text),
            ];
            assert(tail.drop_last() =~= seq![tail[0]]);
            assert(seq![tail[0]].drop_last() =~= seq![]);
            lemma_brackets_concat(Some(state), state.flush_events(), tail);
            lemma_carried_concat(state.flush_events(), tail);
            if state.open is Some {
                assert(state.flush_events().drop_last() =~= seq![]);
            }
            assert(brackets(Some(state), state.flush_events()) == Some(state.flushed()));
            assert(carried(out) =~= seq![(kind, text)]);
        } else {
            assert(out.drop_last() =~= seq![]);
            assert(carried(out) =~= seq![(kind, text)]);
        }
    }
    assert(carried(out) =~= not_empty(seq![(kind, text)]));
}

/// Closing obeys the bracketing rule and leaves no block open.
pub proof fn flush_is_bracketed(state: Interleaving)
    ensures
        brackets(Some(state), state.flush_events()) == Some(state.flushed()),
        state.flushed().open is None,
{
    reveal_with_fuel(brackets, 2);
    if state.open is Some {
        assert(state.flush_events().drop_last() =~= seq![]);
    }
}

/// Whatever deltas arrive, in whatever order, the emitted events obey the
/// bracketing rule, and carry every non-empty delta once, in order.
pub proof fn interleaving_is_bracketed(start: Interleaving, deltas: Seq<(DeltaKind, Seq<char>)>)
    requires
        numbers_fit(start, deltas),
    ensures
        brackets(Some(start), events_of(start, deltas)) == Some(state_after(start, deltas)),
        carried(events_of(start, deltas)) == not_empty(deltas),
        start.next <= state_after(start, deltas).next <= start.next + deltas.len(),
    decreases deltas.len(),
{
    if deltas.len() > 0 {
        let before = deltas.drop_last();
        let d = deltas.last();
        interleaving_is_bracketed(start, before);
        let state = state_after(start, before);
        push_is_bracketed(state, d.0, d.1);
        lemma_brackets_concat(
            Some(start),
            events_of(start, before),
            state.push_events(d.0, d.1),
        );
        lemma_carried_concat(events_of(start, before), state.push_events(d.0, d.1));
        reveal_with_fuel(not_empty, 2);
        assert(seq![d].drop_last() =~= seq![]);
        assert(carried(events_of(start, deltas)) =~= not_empty(deltas));
    }
}

/// An empty delta changes nothing and emits nothing.
pub proof fn empty_delta_is_dropped(state: Interleaving, kind: DeltaKind)
    ensures
        state.pushed(kind, seq![]) == state,
        state.push_events(kind, seq![]) == Seq::<Event>::empty(),
{
}

/// Closing twice is closing once.
pub proof fn flushing_is_idempotent(state: Interleaving)
    ensures
        state.flushed().flushed() == state.flushed(),
        state.flushed().flush_events() == Seq::<Event>::empty(),
{
}

/// The kinds of the blocks that events open, in order.
pub open spec fn opened_kinds(out: Seq<Event>) -> Seq<ContentBlockKind>
    decreases out.len(),
{
    if out.len() == 0 {
        seq![]
    } else {
        let before = opened_kinds(out.drop_last());
        match out.last() {
            Event::ContentBlockStart { kind, .. } => before.push(kind),
            _ => before,
        }
    }
}

proof fn lemma_opened_concat(a: Seq<Event>, b: Seq<Event>)
    ensures
        opened_kinds(a + b) == opened_kinds(a) + opened_kinds(b),
    decreases b.len(),
{
    if b.len() == 0 {
        assert(a + b =~= a);
        assert(opened_kinds(a) + opened_kinds(b) =~= opened_kinds(a));
    } else {
        assert((a + b).drop_last() =~= a + b.drop_last());
        lemma_opened_concat(a, b.drop_last());
        assert(opened_kinds(a + b) =~= opened_kinds(a) + opened_kinds(b));
    }
}

proof fn lemma_push_opens(state: Interleaving, kind: DeltaKind, text: Seq<char>)
    ensures
        opened_kinds(state.push_events(kind, text)) == (if state.opens(kind, text) {
            seq![block_kind(kind)]
        } else {
            Seq::<ContentBlockKind>::empty()
        }),
{
    reveal_with_fuel(opened_kinds, 3);
    if state.opens(kind, text) {
        let tail = seq![
            Event::ContentBlockStart { index: state.next, kind: block_kind(kind) },
            delta(kind, state.next, text),
        ];
        assert(tail.drop_last() =~= seq![tail[0]]);
        assert(seq![tail[0]].drop_last() =~= seq![]);
        assert(opened_kinds(tail) =~= seq![block_kind(kind)]);
        if state.open is Some {
            assert(state.flush_events().drop_last() =~= seq![]);
        }
        assert(opened_kinds(state.flush_events()) =~= seq![]);
        lemma_opened_concat(state.flush_events(), tail);
        assert(opened_kinds(state.push_events(kind, text)) =~= seq![block_kind(kind)]);
    } else if text.len() > 0 {
        assert(state.push_events(kind, text).drop_last() =~= seq![]);
        assert(opened_kinds(state.push_events(kind, text)) =~= seq![]);
    }
}

/// Without a flush between them, neighbouring blocks differ in kind, and the
/// first block that is opened differs from the one that was open before. The
/// last one opened is the one that is open.
pub proof fn neighbouring_blocks_differ_in_kind(
    start: Interleaving,
    deltas: Seq<(DeltaKind, Seq<char>)>,
)
    ensures
        ({
            let kinds = opened_kinds(events_of(start, deltas));
            let end = state_after(start, deltas);
            &&& forall|i: int, j: int|
                0 <= i < kinds.len() && j == i + 1 && j < kinds.len() ==> #[trigger] kinds[i]
                    != #[trigger] kinds[j]
            &&& kinds.len() > 0 && start.open is Some ==> kinds[0] != block_kind((start.open->0).0)
            &&& if kinds.len() > 0 {
                end.open is Some && block_kind((end.open->0).0) == kinds.last()
            } else {
                end.open == start.open
            }
        }),
    decreases deltas.len(),
{
    if deltas.len() > 0 {
        let before = deltas.drop_last();
        let d = deltas.last();
        let state = state_after(start, before);
        neighbouring_blocks_differ_in_kind(start, before);
        lemma_push_opens(state, d.0, d.1);
        lemma_opened_concat(events_of(start, before), state.push_events(d.0, d.1));
        let earlier = opened_kinds(events_of(start, before));
        let kinds = opened_kinds(events_of(start, deltas));
        assert forall|i: int, j: int|
            0 <= i < kinds.len() && j == i + 1 && j < kinds.len() implies #[trigger] kinds[i]
            != #[trigger] kinds[j] by {
            if j < earlier.len() {
                assert(earlier[i] != earlier[j]);
            }
        }
    }
}

/// A block: its kind, and the texts of its deltas.
pub struct Block {
    pub kind: DeltaKind,
    pub texts: Seq<Seq<char>>,
}

/// The blocks of a sequence of deltas: a run of one kind is a block, and empty
/// deltas do not count.
pub open spec fn blocks_of(deltas: Seq<(DeltaKind, Seq<char>)>) -> Seq<Block>
    decreases deltas.len(),
{
    if deltas.len() == 0 {
        seq![]
    } else {
        let before = blocks_of(deltas.drop_last());
        let (kind, text) = deltas.last();
        if text.len() == 0 {
            before
        } else if before.len() > 0 && before.last().kind == kind {
            before.drop_last().push(Block { kind, texts: before.last().texts.push(text) })
        } else {
            before.push(Block { kind, texts: seq![text] })
        }
    }
}

/// The start of a block and its deltas.
pub open spec fn open_row(index: u32, block: Block) -> Seq<Event> {
    seq![Event::ContentBlockStart { index, kind: block_kind(block.kind) }] + Seq::new(
        block.texts.len(),
        |i: int| delta(block.kind, index, block.texts[i]),
    )
}

/// Blocks, each from its start to its stop, numbered by position.
pub open spec fn rows(blocks: Seq<Block>) -> Seq<Event>
    decreases blocks.len(),
{
    if blocks.len() == 0 {
        seq![]
    } else {
        let index = (blocks.len() - 1) as u32;
        (rows(blocks.drop_last()) + open_row(index, blocks.last())).push(
            Event::ContentBlockStop { index },
        )
    }
}

/// The deltas of blocks, in order.
pub open spec fn told(blocks: Seq<Block>) -> Seq<(DeltaKind, Seq<char>)>
    decreases blocks.len(),
{
    if blocks.len() == 0 {
        seq![]
    } else {
        let last = blocks.last();
        told(blocks.drop_last()) + Seq::new(last.texts.len(), |i: int| (last.kind, last.texts[i]))
    }
}

/// Blocks with the last one still open.
spec fn unclosed(blocks: Seq<Block>) -> Seq<Event> {
    if blocks.len() == 0 {
        seq![]
    } else {
        rows(blocks.drop_last()) + open_row((blocks.len() - 1) as u32, blocks.last())
    }
}

/// The state with the last of the blocks open.
spec fn at_blocks(blocks: Seq<Block>) -> Interleaving {
    Interleaving {
        open: if blocks.len() == 0 {
            None
        } else {
            Some((blocks.last().kind, (blocks.len() - 1) as u32))
        },
        next: blocks.len() as u32,
    }
}

/// Whether neighbouring blocks differ in kind.
pub open spec fn alternate(blocks: Seq<Block>) -> bool {
    forall|i: int, j: int|
        0 <= i < blocks.len() && j == i + 1 && j < blocks.len() ==> (#[trigger] blocks[i]).kind != (
        #[trigger] blocks[j]).kind
}

/// Whether every block has a delta.
pub open spec fn none_empty(blocks: Seq<Block>) -> bool {
    forall|i: int| 0 <= i < blocks.len() ==> (#[trigger] blocks[i]).texts.len() > 0
}

proof fn lemma_longer(index: u32, block: Block, text: Seq<char>)
    ensures
        open_row(index, Block { texts: block.texts.push(text), ..block }) == open_row(
            index,
            block,
        ).push(delta(block.kind, index, text)),
{
    assert(open_row(index, Block { texts: block.texts.push(text), ..block }) =~= open_row(
        index,
        block,
    ).push(delta(block.kind, index, text)));
}

proof fn lemma_fresh(index: u32, kind: DeltaKind, text: Seq<char>)
    ensures
        open_row(index, Block { kind, texts: seq![text] }) == seq![
            Event::ContentBlockStart { index, kind: block_kind(kind) },
            delta(kind, index, text),
        ],
{
    assert(open_row(index, Block { kind, texts: seq![text] }) =~= seq![
        Event::ContentBlockStart { index, kind: block_kind(kind) },
        delta(kind, index, text),
    ]);
}

proof fn lemma_closed(blocks: Seq<Block>)
    requires
        blocks.len() <= u32::MAX,
    ensures
        unclosed(blocks) + at_blocks(blocks).flush_events() == rows(blocks),
{
    assert(unclosed(blocks) + at_blocks(blocks).flush_events() =~= rows(blocks));
}

proof fn lemma_run(deltas: Seq<(DeltaKind, Seq<char>)>)
    requires
        numbers_fit(idle(), deltas),
    ensures
        blocks_of(deltas).len() <= u32::MAX,
        state_after(idle(), deltas) == at_blocks(blocks_of(deltas)),
        events_of(idle(), deltas) == unclosed(blocks_of(deltas)),
    decreases deltas.len(),
{
    if deltas.len() > 0 {
        let before = deltas.drop_last();
        lemma_run(before);
        let (kind, text) = deltas.last();
        let earlier = blocks_of(before);
        let blocks = blocks_of(deltas);
        let state = at_blocks(earlier);
        let out = state.push_events(kind, text);
        assert(events_of(idle(), deltas) == unclosed(earlier) + out);
        if text.len() == 0 {
            assert(unclosed(earlier) + out =~= unclosed(earlier));
        } else if earlier.len() > 0 && earlier.last().kind == kind {
            let index = (earlier.len() - 1) as u32;
            assert(blocks.drop_last() =~= earlier.drop_last());
            lemma_longer(index, earlier.last(), text);
            assert(unclosed(earlier) + out =~= unclosed(blocks));
        } else {
            let index = earlier.len() as u32;
            assert(blocks.drop_last() =~= earlier);
            lemma_fresh(index, kind, text);
            lemma_closed(earlier);
            let tail = open_row(index, blocks.last());
            assert(out == state.flush_events() + tail);
            assert(unclosed(earlier) + out =~= (unclosed(earlier) + state.flush_events()) + tail);
        }
    }
}

proof fn lemma_told(deltas: Seq<(DeltaKind, Seq<char>)>)
    ensures
        told(blocks_of(deltas)) == not_empty(deltas),
    decreases deltas.len(),
{
    if deltas.len() > 0 {
        let before = deltas.drop_last();
        lemma_told(before);
        let (kind, text) = deltas.last();
        let earlier = blocks_of(before);
        let blocks = blocks_of(deltas);
        let last = blocks.last();
        let all = Seq::new(last.texts.len(), |i: int| (last.kind, last.texts[i]));
        if text.len() > 0 {
            if earlier.len() > 0 && earlier.last().kind == kind {
                let old_last = earlier.last();
                let old_all = Seq::new(
                    old_last.texts.len(),
                    |i: int| (old_last.kind, old_last.texts[i]),
                );
                assert(blocks.drop_last() =~= earlier.drop_last());
                assert(all =~= old_all.push((kind, text)));
            } else {
                assert(blocks.drop_last() =~= earlier);
                assert(all =~= seq![(kind, text)]);
            }
            assert(told(blocks) =~= told(earlier).push((kind, text)));
        }
    }
}

proof fn lemma_shape(deltas: Seq<(DeltaKind, Seq<char>)>)
    ensures
        alternate(blocks_of(deltas)),
        none_empty(blocks_of(deltas)),
    decreases deltas.len(),
{
    if deltas.len() > 0 {
        let earlier = blocks_of(deltas.drop_last());
        let blocks = blocks_of(deltas);
        lemma_shape(deltas.drop_last());
        assert forall|i: int, j: int|
            0 <= i < blocks.len() && j == i + 1 && j < blocks.len() implies (
        #[trigger] blocks[i]).kind != (#[trigger] blocks[j]).kind by {
            assert(blocks[i].kind == earlier[i].kind);
            if j < earlier.len() {
                assert(earlier[i].kind != earlier[j].kind);
                assert(blocks[j].kind == earlier[j].kind);
            }
        }
        assert forall|i: int| 0 <= i < blocks.len() implies (#[trigger] blocks[i]).texts.len() > 0
            by {
            if i < earlier.len() {
                assert(earlier[i].texts.len() > 0);
            }
        }
    }
}

/// Pushes and a flush, from the start: the events are a row of blocks numbered
/// zero, one, two and so on, each with its start, one or more deltas of its kind
/// and its stop. Neighbouring blocks differ in kind, the deltas are the pushes
/// that were not empty, in order, and a second flush adds nothing.
pub proof fn pushes_and_a_flush_give_a_row_of_blocks(deltas: Seq<(DeltaKind, Seq<char>)>)
    requires
        numbers_fit(idle(), deltas),
    ensures
        ({
            let blocks = blocks_of(deltas);
            let end = state_after(idle(), deltas);
            &&& events_of(idle(), deltas) + end.flush_events() == rows(blocks)
            &&& none_empty(blocks)
            &&& alternate(blocks)
            &&& told(blocks) == not_empty(deltas)
            &&& end.flushed().flush_events() == Seq::<Event>::empty()
        }),
{
    lemma_run(deltas);
    lemma_told(deltas);
    lemma_shape(deltas);
    lemma_closed(blocks_of(deltas));
}

} // verus!
