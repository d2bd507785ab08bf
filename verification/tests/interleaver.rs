//! Alternating text and reasoning deltas.
use agent_shim_providers::oai_chat_wire::interleaved_reasoning::{
    DeltaKind, ReasoningInterleaver,
};
use agent_shim_providers::stream::{ContentBlockKind, StreamEvent};

fn run<F>(setup: F) -> Vec<StreamEvent>
where
    F: FnOnce(&mut ReasoningInterleaver, &mut Vec<StreamEvent>),
{
    let mut interleaver = ReasoningInterleaver::new();
    let mut out = Vec::new();
    setup(&mut interleaver, &mut out);
    out
}

#[test]
fn new_starts_idle_emits_nothing() {
    let out = run(|i, out| i.flush(out));
    assert_eq!(out, Vec::<StreamEvent>::new());
}

#[test]
fn single_text_delta_starts_block_at_index_0() {
    let out = run(|i, out| i.push(DeltaKind::Text, "hi", out));
    assert_eq!(
        out,
        vec![
            StreamEvent::ContentBlockStart {
                index: 0,
                kind: ContentBlockKind::Text,
            },
            StreamEvent::TextDelta {
                index: 0,
                text: "hi".into(),
            },
        ]
    );
}

#[test]
fn single_reasoning_delta_starts_block_at_index_0() {
    let out = run(|i, out| i.push(DeltaKind::Reasoning, "think", out));
    assert_eq!(
        out,
        vec![
            StreamEvent::ContentBlockStart {
                index: 0,
                kind: ContentBlockKind::Reasoning,
            },
            StreamEvent::ReasoningDelta {
                index: 0,
                text: "think".into(),
            },
        ]
    );
}

#[test]
fn multiple_text_deltas_share_index() {
    let out = run(|i, out| {
        i.push(DeltaKind::Text, "a", out);
        i.push(DeltaKind::Text, "b", out);
    });
    assert_eq!(
        out,
        vec![
            StreamEvent::ContentBlockStart {
                index: 0,
                kind: ContentBlockKind::Text,
            },
            StreamEvent::TextDelta {
                index: 0,
                text: "a".into(),
            },
            StreamEvent::TextDelta {
                index: 0,
                text: "b".into(),
            },
        ]
    );
}

#[test]
fn multiple_reasoning_deltas_share_index() {
    let out = run(|i, out| {
        i.push(DeltaKind::Reasoning, "x", out);
        i.push(DeltaKind::Reasoning, "y", out);
    });
    assert_eq!(
        out,
        vec![
            StreamEvent::ContentBlockStart {
                index: 0,
                kind: ContentBlockKind::Reasoning,
            },
            StreamEvent::ReasoningDelta {
                index: 0,
                text: "x".into(),
            },
            StreamEvent::ReasoningDelta {
                index: 0,
                text: "y".into(),
            },
        ]
    );
}

#[test]
fn text_to_reasoning_transition_closes_and_opens() {
    let out = run(|i, out| {
        i.push(DeltaKind::Text, "a", out);
        i.push(DeltaKind::Reasoning, "b", out);
    });
    assert_eq!(
        out,
        vec![
            StreamEvent::ContentBlockStart {
                index: 0,
                kind: ContentBlockKind::Text,
            },
            StreamEvent::TextDelta {
                index: 0,
                text: "a".into(),
            },
            StreamEvent::ContentBlockStop { index: 0 },
            StreamEvent::ContentBlockStart {
                index: 1,
                kind: ContentBlockKind::Reasoning,
            },
            StreamEvent::ReasoningDelta {
                index: 1,
                text: "b".into(),
            },
        ]
    );
}

#[test]
fn reasoning_to_text_transition_closes_and_opens() {
    let out = run(|i, out| {
        i.push(DeltaKind::Reasoning, "a", out);
        i.push(DeltaKind::Text, "b", out);
    });
    assert_eq!(
        out,
        vec![
            StreamEvent::ContentBlockStart {
                index: 0,
                kind: ContentBlockKind::Reasoning,
            },
            StreamEvent::ReasoningDelta {
                index: 0,
                text: "a".into(),
            },
            StreamEvent::ContentBlockStop { index: 0 },
            StreamEvent::ContentBlockStart {
                index: 1,
                kind: ContentBlockKind::Text,
            },
            StreamEvent::TextDelta {
                index: 1,
                text: "b".into(),
            },
        ]
    );
}

#[test]
fn three_transitions_increment_index() {
    let out = run(|i, out| {
        i.push(DeltaKind::Text, "a", out);
        i.push(DeltaKind::Reasoning, "b", out);
        i.push(DeltaKind::Text, "c", out);
    });
    assert_eq!(
        out,
        vec![
            StreamEvent::ContentBlockStart {
                index: 0,
                kind: ContentBlockKind::Text,
            },
            StreamEvent::TextDelta {
                index: 0,
                text: "a".into(),
            },
            StreamEvent::ContentBlockStop { index: 0 },
            StreamEvent::ContentBlockStart {
                index: 1,
                kind: ContentBlockKind::Reasoning,
            },
            StreamEvent::ReasoningDelta {
                index: 1,
                text: "b".into(),
            },
            StreamEvent::ContentBlockStop { index: 1 },
            StreamEvent::ContentBlockStart {
                index: 2,
                kind: ContentBlockKind::Text,
            },
            StreamEvent::TextDelta {
                index: 2,
                text: "c".into(),
            },
        ]
    );
}

#[test]
fn flush_closes_open_text_block() {
    let out = run(|i, out| {
        i.push(DeltaKind::Text, "a", out);
        i.flush(out);
    });
    assert_eq!(
        out,
        vec![
            StreamEvent::ContentBlockStart {
                index: 0,
                kind: ContentBlockKind::Text,
            },
            StreamEvent::TextDelta {
                index: 0,
                text: "a".into(),
            },
            StreamEvent::ContentBlockStop { index: 0 },
        ]
    );
}

#[test]
fn flush_closes_open_reasoning_block() {
    let out = run(|i, out| {
        i.push(DeltaKind::Reasoning, "a", out);
        i.flush(out);
    });
    assert_eq!(
        out,
        vec![
            StreamEvent::ContentBlockStart {
                index: 0,
                kind: ContentBlockKind::Reasoning,
            },
            StreamEvent::ReasoningDelta {
                index: 0,
                text: "a".into(),
            },
            StreamEvent::ContentBlockStop { index: 0 },
        ]
    );
}

#[test]
fn flush_after_flush_is_noop() {
    let out = run(|i, out| {
        i.flush(out);
        i.flush(out);
    });
    assert_eq!(out, Vec::<StreamEvent>::new());
}

#[test]
fn flush_after_close_is_noop() {
    let out = run(|i, out| {
        i.push(DeltaKind::Text, "a", out);
        i.flush(out);
        let len_before = out.len();
        i.flush(out);
        assert_eq!(out.len(), len_before);
    });
    assert_eq!(
        out.last(),
        Some(&StreamEvent::ContentBlockStop { index: 0 })
    );
}

#[test]
fn empty_delta_is_dropped() {
    let mut interleaver = ReasoningInterleaver::new();
    let mut out = Vec::new();
    interleaver.push(DeltaKind::Text, "", &mut out);
    assert_eq!(out, Vec::<StreamEvent>::new());
    interleaver.push(DeltaKind::Reasoning, "real", &mut out);
    assert_eq!(
        out,
        vec![
            StreamEvent::ContentBlockStart {
                index: 0,
                kind: ContentBlockKind::Reasoning,
            },
            StreamEvent::ReasoningDelta {
                index: 0,
                text: "real".into(),
            },
        ]
    );
}

#[test]
fn empty_delta_inside_open_block_does_not_emit() {
    let out = run(|i, out| {
        i.push(DeltaKind::Text, "hello", out);
        i.push(DeltaKind::Text, "", out);
        i.push(DeltaKind::Reasoning, "", out);
        i.push(DeltaKind::Text, "world", out);
    });
    assert_eq!(
        out,
        vec![
            StreamEvent::ContentBlockStart {
                index: 0,
                kind: ContentBlockKind::Text,
            },
            StreamEvent::TextDelta {
                index: 0,
                text: "hello".into(),
            },
            StreamEvent::TextDelta {
                index: 0,
                text: "world".into(),
            },
        ]
    );
}

#[test]
fn next_index_counts_the_blocks() {
    let mut interleaver = ReasoningInterleaver::default();
    let mut out = Vec::new();
    assert_eq!(interleaver.next_index(), 0);
    interleaver.push(DeltaKind::default(), "a", &mut out);
    assert_eq!(interleaver.next_index(), 1);
    interleaver.flush(&mut out);
    assert_eq!(interleaver.next_index(), 1);
    interleaver.push(DeltaKind::Text, "b", &mut out);
    assert_eq!(interleaver.next_index(), 2);
}
