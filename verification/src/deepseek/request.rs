//! Builds the DeepSeek request body: a chat-completions body without cache
//! markers, which the upstream rejects.
use vstd::prelude::*;

use crate::canonical::{BackendTarget, CanonicalRequest};
use crate::json::{
    append, distinct_names, lemma_position, member, members, no_values, put, removed_member_is_gone,
    set_member_is_read_back, setting_keeps_names_distinct, take_out, trees, with_member,
    without_member, Json, Tree,
};
use crate::oai_chat_wire::canonical_to_chat;
use crate::oai_chat_wire::canonical_to_chat::chat_body;

verus! {

// ---------------------------------------------------------------------------
// Model
// ---------------------------------------------------------------------------

/// An object without its cache marker. Anything else stays as it is.
pub open spec fn unmarked(value: Tree) -> Tree {
    match value {
        Tree::Object(m) => Tree::Object(without_member(m, "cache_control"@)),
        _ => value,
    }
}

/// Whether a value is an object with a cache marker.
pub open spec fn is_marked(value: Tree) -> bool {
    value.get("cache_control"@) is Some
}

/// How many of the values are marked.
pub open spec fn marked_count(values: Seq<Tree>) -> nat
    decreases values.len(),
{
    if values.len() == 0 {
        0
    } else {
        marked_count(values.drop_last()) + (if is_marked(values.last()) {
            1nat
        } else {
            0nat
        })
    }
}

/// A message without its own cache marker and those of its content blocks.
pub open spec fn stripped_message(message: Tree) -> Tree {
    match message {
        Tree::Object(m) => {
            let rest = without_member(m, "cache_control"@);
            match member(rest, "content"@) {
                Some(Tree::Array(blocks)) => Tree::Object(
                    with_member(
                        rest,
                        "content"@,
                        Tree::Array(Seq::new(blocks.len(), |i: int| unmarked(blocks[i]))),
                    ),
                ),
                _ => Tree::Object(rest),
            }
        },
        _ => message,
    }
}

/// How many cache markers a message has.
pub open spec fn message_marks(message: Tree) -> nat {
    match message {
        Tree::Object(m) => {
            let rest = without_member(m, "cache_control"@);
            (if is_marked(message) {
                1nat
            } else {
                0nat
            }) + (match member(rest, "content"@) {
                Some(Tree::Array(blocks)) => marked_count(blocks),
                _ => 0nat,
            })
        },
        _ => 0,
    }
}

/// How many cache markers the messages have.
pub open spec fn total_marks(messages: Seq<Tree>) -> nat
    decreases messages.len(),
{
    if messages.len() == 0 {
        0
    } else {
        total_marks(messages.drop_last()) + message_marks(messages.last())
    }
}

/// A body without the cache markers of its messages.
pub open spec fn stripped(body: Tree) -> Tree {
    match body {
        Tree::Object(m) => match member(m, "messages"@) {
            Some(Tree::Array(messages)) => Tree::Object(
                with_member(
                    m,
                    "messages"@,
                    Tree::Array(Seq::new(messages.len(), |i: int| stripped_message(messages[i]))),
                ),
            ),
            _ => body,
        },
        _ => body,
    }
}

/// How many cache markers are taken out of a body.
pub open spec fn body_marks(body: Tree) -> nat {
    match body.get("messages"@) {
        Some(Tree::Array(messages)) => total_marks(messages),
        _ => 0,
    }
}

// ---------------------------------------------------------------------------
// Operations
// ---------------------------------------------------------------------------

/// Builds the body of a request.
pub fn build(req: &CanonicalRequest, target: &BackendTarget) -> (body: Json)
    ensures
        body@ == stripped(chat_body(*req, *target, false)),
{
    let mut body = canonical_to_chat::build(req, target, false);
    let _count: u128 = strip_cache_control(&mut body);
    body
}

fn copy_entries(entries: &Vec<(String, Json)>) -> (copy: Vec<(String, Json)>)
    ensures
        members(copy@) == members(entries@),
{
    let mut copy: Vec<(String, Json)> = Vec::new();
    let mut i: usize = 0;
    assert(members(copy@) =~= members(entries@).take(0));
    while i < entries.len()
        invariant
            i <= entries@.len(),
            members(copy@) == members(entries@).take(i as int),
        decreases entries.len() - i,
    {
        let entry = &entries[i];
        let pair = (entry.0.clone(), entry.1.duplicate());
        proof {
            crate::json::lemma_members_push(copy@, pair);
            assert(members(entries@).take(i + 1) =~= members(entries@).take(i as int).push(
                (entry.0@, entry.1@),
            ));
        }
        copy.push(pair);
        i = i + 1;
    }
    assert(members(entries@).take(i as int) =~= members(entries@));
    copy
}

fn strip_block(block: &Json) -> (result: (Json, bool))
    ensures
        result.0@ == unmarked(block@),
        result.1 == is_marked(block@),
{
    match block {
        Json::Object(entries) => {
            let mut rest = copy_entries(entries);
            let found = take_out(&mut rest, "cache_control");
            (Json::Object(rest), found)
        },
        _ => (block.duplicate(), false),
    }
}

fn strip_blocks(blocks: &Vec<Json>) -> (result: (Vec<Json>, u128))
    ensures
        trees(result.0@) == Seq::new(
            trees(blocks@).len(),
            |i: int| unmarked(trees(blocks@)[i]),
        ),
        result.1 == marked_count(trees(blocks@)),
        result.1 <= usize::MAX,
{
    let ghost all = trees(blocks@);
    let ghost wanted = Seq::new(all.len(), |i: int| unmarked(all[i]));
    let mut out = no_values();
    let mut count: u128 = 0;
    let mut i: usize = 0;
    assert(wanted.take(0) =~= seq![]);
    while i < blocks.len()
        invariant
            i <= blocks@.len(),
            all == trees(blocks@),
            wanted == Seq::new(all.len(), |i: int| unmarked(all[i])),
            trees(out@) == wanted.take(i as int),
            count == marked_count(all.take(i as int)),
            count <= i,
        decreases blocks.len() - i,
    {
        assert(all[i as int] == blocks@[i as int]@);
        let (block, found) = strip_block(&blocks[i]);
        append(&mut out, block);
        proof {
            assert(all.take(i + 1).drop_last() =~= all.take(i as int));
            assert(wanted.take(i + 1) =~= wanted.take(i as int).push(wanted[i as int]));
        }
        if found {
            count = count + 1;
        }
        i = i + 1;
    }
    proof {
        assert(all.take(i as int) =~= all);
        assert(wanted.take(i as int) =~= wanted);
    }
    (out, count)
}

fn strip_message(message: &Json) -> (result: (Json, u128))
    ensures
        result.0@ == stripped_message(message@),
        result.1 == message_marks(message@),
        result.1 <= usize::MAX as nat + 1,
{
    match message {
        Json::Object(entries) => {
            let mut rest = copy_entries(entries);
            let found = take_out(&mut rest, "cache_control");
            let mut count: u128 = if found {
                1
            } else {
                0
            };
            let ghost before = members(rest@);
            let whole = Json::Object(rest);
            let content = match whole.get("content") {
                Some(Json::Array(blocks)) => Some(strip_blocks(blocks)),
                _ => None,
            };
            match content {
                Some((blocks, more)) => {
                    count = count + more;
                    match whole {
                        Json::Object(entries2) => {
                            let mut rest2 = entries2;
                            put(&mut rest2, "content", Json::Array(blocks));
                            (Json::Object(rest2), count)
                        },
                        other => (other, count),
                    }
                },
                None => (whole, count),
            }
        },
        _ => (message.duplicate(), 0),
    }
}

fn strip_body(body: &Json) -> (result: (Json, u128))
    ensures
        result.0@ == stripped(body@),
        result.1 == body_marks(body@),
{
    let messages = match body.get("messages") {
        Some(Json::Array(messages)) => messages,
        _ => {
            return (body.duplicate(), 0);
        },
    };
    let ghost all = trees(messages@);
    let ghost wanted = Seq::new(all.len(), |i: int| stripped_message(all[i]));
    let mut out = no_values();
    let mut count: u128 = 0;
    let mut i: usize = 0;
    assert(wanted.take(0) =~= seq![]);
    while i < messages.len()
        invariant
            i <= messages@.len(),
            all == trees(messages@),
            wanted == Seq::new(all.len(), |i: int| stripped_message(all[i])),
            trees(out@) == wanted.take(i as int),
            count == total_marks(all.take(i as int)),
            count <= i * (usize::MAX as nat + 1),
        decreases messages.len() - i,
    {
        assert(all[i as int] == messages@[i as int]@);
        let (message, more) = strip_message(&messages[i]);
        append(&mut out, message);
        proof {
            assert(all.take(i + 1).drop_last() =~= all.take(i as int));
            assert(wanted.take(i + 1) =~= wanted.take(i as int).push(wanted[i as int]));
            let unit = usize::MAX as nat + 1;
            assert(i * unit + unit == (i + 1) * unit) by (nonlinear_arith);
            assert((i + 1) * unit <= usize::MAX * unit) by (nonlinear_arith)
                requires
                    i + 1 <= usize::MAX,
            ;
            assert(usize::MAX * unit <= u128::MAX) by (nonlinear_arith)
                requires
                    unit == usize::MAX as nat + 1,
                    usize::MAX <= 0xffff_ffff_ffff_ffff,
            ;
        }
        count = count + more;
        i = i + 1;
    }
    proof {
        assert(all.take(i as int) =~= all);
        assert(wanted.take(i as int) =~= wanted);
    }
    match body {
        Json::Object(entries) => {
            let mut rest = copy_entries(entries);
            put(&mut rest, "messages", Json::Array(out));
            (Json::Object(rest), count)
        },
        other => (other.duplicate(), count),
    }
}

/// Takes the cache markers out of a body and counts them.
pub fn strip_cache_control(body: &mut Json) -> (count: u128)
    ensures
        final(body)@ == stripped(old(body)@),
        count == body_marks(old(body)@),
{
    let (rest, count) = strip_body(body);
    *body = rest;
    count
}

// ---------------------------------------------------------------------------
// Laws
// ---------------------------------------------------------------------------

/// Where no name occurs twice in a message, it has no cache marker after the
/// strip, and its members other than the marker and the content read as
/// before.
pub proof fn stripped_message_has_no_marker(m: Seq<(Seq<char>, Tree)>, other: Seq<char>)
    requires
        distinct_names(m),
    ensures
        stripped_message(Tree::Object(m)).get("cache_control"@) is None,
        other != "cache_control"@ && other != "content"@ ==> stripped_message(
            Tree::Object(m),
        ).get(other) == member(m, other),
{
    reveal_strlit("cache_control");
    reveal_strlit("content");
    assert("cache_control"@.len() != "content"@.len());
    let rest = without_member(m, "cache_control"@);
    removed_member_is_gone(m, "cache_control"@, other);
    removed_member_is_gone(m, "cache_control"@, "content"@);
    if let Some(Tree::Array(blocks)) = member(rest, "content"@) {
        let content = Tree::Array(Seq::new(blocks.len(), |i: int| unmarked(blocks[i])));
        set_member_is_read_back(rest, "content"@, content, "cache_control"@);
        set_member_is_read_back(rest, "content"@, content, other);
    }
}

/// Where no name occurs twice in a block, it has no cache marker after the
/// strip, and its other members read as before.
pub proof fn unmarked_block_has_no_marker(m: Seq<(Seq<char>, Tree)>, other: Seq<char>)
    requires
        distinct_names(m),
    ensures
        !is_marked(unmarked(Tree::Object(m))),
        other != "cache_control"@ ==> unmarked(Tree::Object(m)).get(other) == member(m, other),
{
    removed_member_is_gone(m, "cache_control"@, other);
}

/// Whether no name occurs twice in an object.
pub open spec fn well_named(value: Tree) -> bool {
    match value {
        Tree::Object(m) => distinct_names(m),
        _ => true,
    }
}

/// Whether no name occurs twice in the body, its messages and their content
/// blocks, as in every value that a JSON parser gives.
pub open spec fn names_once(body: Tree) -> bool {
    &&& well_named(body)
    &&& match body.get("messages"@) {
        Some(Tree::Array(messages)) => forall|i: int|
            0 <= i < messages.len() ==> well_named(#[trigger] messages[i]) && blocks_named(
                messages[i],
            ),
        _ => true,
    }
}

/// Whether no name occurs twice in the content blocks of a message.
pub open spec fn blocks_named(message: Tree) -> bool {
    match message.get("content"@) {
        Some(Tree::Array(blocks)) => forall|i: int|
            0 <= i < blocks.len() ==> well_named(#[trigger] blocks[i]),
        _ => true,
    }
}

proof fn lemma_no_marked(values: Seq<Tree>)
    requires
        forall|i: int| 0 <= i < values.len() ==> !is_marked(#[trigger] values[i]),
    ensures
        marked_count(values) == 0,
    decreases values.len(),
{
    if values.len() > 0 {
        assert(!is_marked(values[values.len() - 1]));
        lemma_no_marked(values.drop_last());
    }
}

proof fn lemma_stripped_message_is_clean(message: Tree)
    requires
        well_named(message),
        blocks_named(message),
    ensures
        message_marks(stripped_message(message)) == 0,
{
    if let Tree::Object(m) = message {
        reveal_strlit("cache_control");
        reveal_strlit("content");
        assert("cache_control"@.len() != "content"@.len());
        stripped_message_has_no_marker(m, "content"@);
        removed_member_is_gone(m, "cache_control"@, "content"@);
        let rest = without_member(m, "cache_control"@);
        if let Some(Tree::Array(blocks)) = member(rest, "content"@) {
            let clean = Seq::new(blocks.len(), |i: int| unmarked(blocks[i]));
            set_member_is_read_back(rest, "content"@, Tree::Array(clean), "cache_control"@);
            setting_keeps_names_distinct(rest, "content"@, Tree::Array(clean));
            let after = with_member(rest, "content"@, Tree::Array(clean));
            removed_member_is_gone(after, "cache_control"@, "content"@);
            assert forall|i: int| 0 <= i < clean.len() implies !is_marked(#[trigger] clean[i]) by {
                assert(well_named(blocks[i]));
                if let Tree::Object(b) = blocks[i] {
                    unmarked_block_has_no_marker(b, "cache_control"@);
                }
            }
            lemma_no_marked(clean);
        } else {
            removed_member_is_gone(rest, "cache_control"@, "content"@);
        }
    }
}

proof fn lemma_no_marks(messages: Seq<Tree>)
    requires
        forall|i: int| 0 <= i < messages.len() ==> message_marks(#[trigger] messages[i]) == 0,
    ensures
        total_marks(messages) == 0,
    decreases messages.len(),
{
    if messages.len() > 0 {
        assert(message_marks(messages[messages.len() - 1]) == 0);
        lemma_no_marks(messages.drop_last());
    }
}

/// After the strip a body has no cache marker, in its messages or in their
/// content blocks.
pub proof fn strip_leaves_no_marker(body: Tree)
    requires
        names_once(body),
    ensures
        body_marks(stripped(body)) == 0,
{
    if let Tree::Object(m) = body {
        if let Some(Tree::Array(messages)) = member(m, "messages"@) {
            let clean = Seq::new(messages.len(), |i: int| stripped_message(messages[i]));
            set_member_is_read_back(m, "messages"@, Tree::Array(clean), "messages"@);
            assert forall|i: int| 0 <= i < clean.len() implies message_marks(#[trigger] clean[i])
                == 0 by {
                assert(well_named(messages[i]) && blocks_named(messages[i]));
                lemma_stripped_message_is_clean(messages[i]);
            }
            lemma_no_marks(clean);
        }
    }
}

proof fn lemma_each_unmarked(values: Seq<Tree>, i: int)
    requires
        marked_count(values) == 0,
        0 <= i < values.len(),
    ensures
        !is_marked(values[i]),
    decreases values.len(),
{
    if i < values.len() - 1 {
        lemma_each_unmarked(values.drop_last(), i);
    }
}

proof fn lemma_each_clean(messages: Seq<Tree>, i: int)
    requires
        total_marks(messages) == 0,
        0 <= i < messages.len(),
    ensures
        message_marks(messages[i]) == 0,
    decreases messages.len(),
{
    if i < messages.len() - 1 {
        lemma_each_clean(messages.drop_last(), i);
    }
}

/// Giving a member the value that it has changes nothing.
proof fn lemma_same_member(m: Seq<(Seq<char>, Tree)>, key: Seq<char>, value: Tree)
    requires
        member(m, key) == Some(value),
    ensures
        with_member(m, key, value) == m,
{
    lemma_position(m, key, 0);
    assert(with_member(m, key, value) =~= m);
}

proof fn lemma_clean_message_stays(message: Tree)
    requires
        message_marks(message) == 0,
    ensures
        stripped_message(message) == message,
{
    if let Tree::Object(m) = message {
        lemma_position(m, "cache_control"@, 0);
        let rest = without_member(m, "cache_control"@);
        assert(rest == m);
        if let Some(Tree::Array(blocks)) = member(rest, "content"@) {
            let clean = Seq::new(blocks.len(), |i: int| unmarked(blocks[i]));
            assert forall|i: int| 0 <= i < blocks.len() implies clean[i] == blocks[i] by {
                lemma_each_unmarked(blocks, i);
            }
            assert(clean =~= blocks);
            lemma_same_member(rest, "content"@, Tree::Array(blocks));
        }
    }
}

/// A body without cache markers is left as it is, and so a second strip changes
/// nothing.
pub proof fn second_strip_changes_nothing(body: Tree)
    ensures
        body_marks(body) == 0 ==> stripped(body) == body,
        names_once(body) ==> stripped(stripped(body)) == stripped(body),
{
    lemma_clean_body_stays(body);
    lemma_clean_body_stays(stripped(body));
    if names_once(body) {
        strip_leaves_no_marker(body);
    }
}

proof fn lemma_clean_body_stays(body: Tree)
    ensures
        body_marks(body) == 0 ==> stripped(body) == body,
{
    if let Tree::Object(m) = body {
        if let Some(Tree::Array(messages)) = member(m, "messages"@) {
            if body_marks(body) == 0 {
                let clean = Seq::new(messages.len(), |i: int| stripped_message(messages[i]));
                assert forall|i: int| 0 <= i < messages.len() implies clean[i] == messages[i] by {
                    lemma_each_clean(messages, i);
                    lemma_clean_message_stays(messages[i]);
                }
                assert(clean =~= messages);
                lemma_same_member(m, "messages"@, Tree::Array(messages));
            }
        }
    }
}

} // verus!
