//! Rewrites the model name of a request body that is otherwise forwarded byte
//! for byte.
use vstd::prelude::*;
use vstd::slice::slice_subrange;
use vstd::string::*;

use crate::error::{remodelled, set_model, ProviderError};
use crate::grammar::{false_bytes, is_space, null_bytes, true_bytes};
use crate::json::{parsed_bytes, Json, Tree};
use crate::text::same_text;

verus! {

// ---------------------------------------------------------------------------
// Model
// ---------------------------------------------------------------------------

/// The position and the end of a string value, its quotes included.
#[derive(Clone, Copy, Debug, PartialEq, Eq, Structural)]
pub struct Span {
    pub start: usize,
    pub end: usize,
}

/// Whether a byte can stand between JSON quotes as it is.
pub open spec fn plain_byte(b: u8) -> bool {
    0x20 <= b <= 0x7E && b != 0x22 && b != 0x5C
}

/// Whether every byte can stand between JSON quotes as it is.
pub open spec fn plain(bytes: Seq<u8>) -> bool {
    forall|i: int| 0 <= i < bytes.len() ==> plain_byte(#[trigger] bytes[i])
}

/// The first position at or after `i` that holds no white space.
pub open spec fn after_space(body: Seq<u8>, i: int) -> int
    decreases body.len() - i,
{
    if 0 <= i < body.len() && is_space(body[i]) {
        after_space(body, i + 1)
    } else {
        i
    }
}

/// The position of the quote that ends the string whose content starts at
/// `i`. A backslash takes the byte after it along.
pub open spec fn string_end(body: Seq<u8>, i: int) -> Option<int>
    decreases body.len() + 1 - i,
{
    if i < 0 || i >= body.len() {
        None
    } else if body[i] == 0x5C {
        string_end(body, i + 2)
    } else if body[i] == 0x22 {
        Some(i)
    } else {
        string_end(body, i + 1)
    }
}

/// The end of a bracketed value, seen from `i` inside `depth` open brackets
/// of its kind. Brackets inside strings do not count.
pub open spec fn bracket_end(body: Seq<u8>, i: int, depth: int, open: u8, close: u8) -> Option<int>
    decreases body.len() - i,
{
    if i < 0 || i >= body.len() {
        None
    } else if body[i] == open {
        bracket_end(body, i + 1, depth + 1, open, close)
    } else if body[i] == close {
        if depth == 1 {
            Some(i + 1)
        } else {
            bracket_end(body, i + 1, depth - 1, open, close)
        }
    } else if body[i] == 0x22 {
        proof {
            lemma_string_end(body, i + 1);
        }
        match string_end(body, i + 1) {
            Some(end) => bracket_end(body, end + 1, depth, open, close),
            None => None,
        }
    } else {
        bracket_end(body, i + 1, depth, open, close)
    }
}

pub open spec fn number_byte(b: u8) -> bool {
    0x30 <= b <= 0x39 || b == 0x2D || b == 0x2B || b == 0x2E || b == 0x65 || b == 0x45
}

/// The first position at or after `i` that cannot belong to a number.
pub open spec fn number_end(body: Seq<u8>, i: int) -> int
    decreases body.len() - i,
{
    if 0 <= i < body.len() && number_byte(body[i]) {
        number_end(body, i + 1)
    } else {
        i
    }
}

/// The end of a word that stands at `i`.
pub open spec fn word_end(body: Seq<u8>, i: int, word: Seq<u8>) -> Option<int> {
    if 0 <= i && i + word.len() <= body.len() && body.subrange(i, i + word.len()) == word {
        Some(i + word.len())
    } else {
        None
    }
}

/// The end of the value that starts at `i`, told from its first byte.
pub open spec fn value_end(body: Seq<u8>, i: int) -> Option<int> {
    if i < 0 || i >= body.len() {
        None
    } else if body[i] == 0x22 {
        match string_end(body, i + 1) {
            Some(end) => Some(end + 1),
            None => None,
        }
    } else if body[i] == 0x7B {
        bracket_end(body, i, 0, 0x7B, 0x7D)
    } else if body[i] == 0x5B {
        bracket_end(body, i, 0, 0x5B, 0x5D)
    } else if body[i] == 0x74 {
        word_end(body, i, true_bytes())
    } else if body[i] == 0x66 {
        word_end(body, i, false_bytes())
    } else if body[i] == 0x6E {
        word_end(body, i, null_bytes())
    } else if body[i] == 0x2D || 0x30 <= body[i] <= 0x39 {
        Some(number_end(body, i))
    } else {
        None
    }
}

/// One member of an object: where its name, its value and what follows the
/// value lie.
pub struct MemberAt {
    pub name_start: int,
    pub name_end: int,
    pub value_start: int,
    pub value_end: int,
}

/// The member whose name starts at or, after white space, behind `i`.
pub open spec fn member_at(body: Seq<u8>, i: int) -> Option<MemberAt> {
    let quote = after_space(body, i);
    if quote < 0 || quote >= body.len() || body[quote] != 0x22 {
        None
    } else {
        match string_end(body, quote + 1) {
            None => None,
            Some(name_end) => {
                let colon = after_space(body, name_end + 1);
                if colon < 0 || colon >= body.len() || body[colon] != 0x3A {
                    None
                } else {
                    let value_start = after_space(body, colon + 1);
                    match value_end(body, value_start) {
                        None => None,
                        Some(value_end) => Some(
                            MemberAt { name_start: quote + 1, name_end, value_start, value_end },
                        ),
                    }
                }
            },
        }
    }
}

/// The members from `i` to the end of the object, which is the end of the body
/// but for white space.
pub open spec fn members_from(body: Seq<u8>, i: int) -> Option<Seq<MemberAt>>
    decreases body.len() - i,
{
    if i < 0 {
        None
    } else {
        match member_at(body, i) {
            None => None,
            Some(m) => {
                let next = after_space(body, m.value_end);
                proof {
                    lemma_member_at(body, i);
                    lemma_after_space(body, m.value_end);
                }
                if next >= body.len() {
                    None
                } else if body[next] == 0x2C {
                    match members_from(body, next + 1) {
                        Some(rest) => Some(seq![m] + rest),
                        None => None,
                    }
                } else if body[next] == 0x7D && after_space(body, next + 1) == body.len() {
                    Some(seq![m])
                } else {
                    None
                }
            },
        }
    }
}

/// The members of the object that a body is. One without members gives none.
pub open spec fn object_members(body: Seq<u8>) -> Option<Seq<MemberAt>> {
    let brace = after_space(body, 0);
    if 0 <= brace < body.len() && body[brace] == 0x7B {
        members_from(body, brace + 1)
    } else {
        None
    }
}

/// Whether a name, in the quotes that stand around it, is `name`. One without
/// escapes is read as it stands.
pub open spec fn spells(quoted: Seq<u8>, name: Seq<char>) -> bool {
    let raw = quoted.subrange(1, quoted.len() - 1);
    if raw.contains(0x5C) {
        parsed_bytes(quoted) == Ok::<Tree, Seq<char>>(Tree::Text(name))
    } else {
        raw == vstd::utf8::encode_utf8(name)
    }
}

/// Whether a member is named `name`.
pub open spec fn is_named(body: Seq<u8>, m: MemberAt, name: Seq<char>) -> bool {
    spells(body.subrange(m.name_start - 1, m.name_end + 1), name)
}

/// The members named `name`.
pub open spec fn named(body: Seq<u8>, members: Seq<MemberAt>, name: Seq<char>) -> Seq<MemberAt>
    decreases members.len(),
{
    if members.len() == 0 {
        seq![]
    } else {
        let rest = named(body, members.drop_first(), name);
        if is_named(body, members[0], name) {
            seq![members[0]] + rest
        } else {
            rest
        }
    }
}

/// Whether the name of a member is written as `name` itself, without escapes.
pub open spec fn is_written(body: Seq<u8>, m: MemberAt, name: Seq<char>) -> bool {
    body.subrange(m.name_start, m.name_end) == vstd::utf8::encode_utf8(name)
}

/// The value of the only member named `name` of an object, if it is a string
/// and the name is written without escapes. Names with escapes count where
/// they mean the same.
pub open spec fn only_string_span(body: Seq<u8>, name: Seq<char>) -> Option<(int, int)> {
    match object_members(body) {
        None => None,
        Some(members) => {
            let found = named(body, members, name);
            if found.len() == 1 && body[found[0].value_start] == 0x22 && is_written(
                body,
                found[0],
                name,
            ) {
                Some((found[0].value_start, found[0].value_end))
            } else {
                None
            }
        },
    }
}

/// The string value of the top-level member `name` of a body that is a JSON
/// object and has one such member, its name written without escapes.
pub open spec fn top_level_span(body: Seq<u8>, name: Seq<char>) -> Option<(int, int)> {
    match parsed_bytes(body) {
        Ok(Tree::Object(_)) => only_string_span(body, name),
        _ => None,
    }
}

/// The body with a string value replaced.
pub open spec fn spliced(body: Seq<u8>, span: (int, int), value: Seq<u8>) -> Seq<u8> {
    body.subrange(0, span.0) + seq![0x22u8] + value + seq![0x22u8] + body.subrange(
        span.1,
        body.len() as int,
    )
}

/// What a body is rewritten to. Where the body is a JSON object with one member
/// of that name, written as it is and with a string as its value, and the new
/// name needs no escapes, every byte outside the old value stays; elsewhere the
/// body is parsed and printed again.
pub open spec fn rewritten(body: Seq<u8>, model: Seq<char>) -> Result<Seq<u8>, Seq<char>> {
    let bytes = vstd::utf8::encode_utf8(model);
    match top_level_span(body, "model"@) {
        Some(span) if plain(bytes) => Ok(spliced(body, span, bytes)),
        _ => remodelled(
            body,
            model,
            "Anthropic Messages request body must be a JSON object"@,
        ),
    }
}

// ---------------------------------------------------------------------------
// Lemmas
// ---------------------------------------------------------------------------

/// White space ends at or after where the search starts.
pub proof fn lemma_after_space(body: Seq<u8>, i: int)
    ensures
        i <= after_space(body, i),
        i <= body.len() ==> after_space(body, i) <= body.len(),
    decreases body.len() - i,
{
    if 0 <= i < body.len() && is_space(body[i]) {
        lemma_after_space(body, i + 1);
    }
}

/// A string ends at or after where its content starts, with a quote.
pub proof fn lemma_string_end(body: Seq<u8>, i: int)
    ensures
        match string_end(body, i) {
            Some(end) => i <= end < body.len() && body[end] == 0x22,
            None => true,
        },
    decreases body.len() + 1 - i,
{
    if 0 <= i < body.len() {
        if body[i] == 0x5C {
            lemma_string_end(body, i + 2);
        } else if body[i] != 0x22 {
            lemma_string_end(body, i + 1);
        }
    }
}

/// A bracketed value ends behind where it is looked at.
pub proof fn lemma_bracket_end(body: Seq<u8>, i: int, depth: int, open: u8, close: u8)
    ensures
        match bracket_end(body, i, depth, open, close) {
            Some(end) => i < end <= body.len(),
            None => true,
        },
    decreases body.len() - i,
{
    if 0 <= i < body.len() {
        if body[i] == open {
            lemma_bracket_end(body, i + 1, depth + 1, open, close);
        } else if body[i] == close {
            lemma_bracket_end(body, i + 1, depth - 1, open, close);
        } else if body[i] == 0x22 {
            lemma_string_end(body, i + 1);
            if let Some(end) = string_end(body, i + 1) {
                lemma_bracket_end(body, end + 1, depth, open, close);
            }
        } else {
            lemma_bracket_end(body, i + 1, depth, open, close);
        }
    }
}

/// A number ends at or after where the search starts.
pub proof fn lemma_number_end(body: Seq<u8>, i: int)
    ensures
        i <= number_end(body, i),
        i <= body.len() ==> number_end(body, i) <= body.len(),
        0 <= i < body.len() && number_byte(body[i]) ==> i < number_end(body, i),
    decreases body.len() - i,
{
    if 0 <= i < body.len() && number_byte(body[i]) {
        lemma_number_end(body, i + 1);
    }
}

/// A value ends inside the body, behind its start; a string ends with a quote.
pub proof fn lemma_value_end(body: Seq<u8>, i: int)
    ensures
        match value_end(body, i) {
            Some(end) => 0 <= i < body.len() && i < end <= body.len(),
            None => true,
        },
        match value_end(body, i) {
            Some(end) => body[i] == 0x22 ==> i + 1 < end <= body.len() && body[end - 1] == 0x22,
            None => true,
        },
{
    lemma_string_end(body, i + 1);
    lemma_bracket_end(body, i, 0, 0x7B, 0x7D);
    lemma_bracket_end(body, i, 0, 0x5B, 0x5D);
    lemma_number_end(body, i);
}

/// The parts of a member lie behind one another.
pub proof fn lemma_member_at(body: Seq<u8>, i: int)
    requires
        0 <= i,
    ensures
        match member_at(body, i) {
            Some(m) => i < m.name_start <= m.name_end < m.value_start < m.value_end <= body.len(),
            None => true,
        },
{
    let quote = after_space(body, i);
    lemma_after_space(body, i);
    lemma_string_end(body, quote + 1);
    if let Some(name_end) = string_end(body, quote + 1) {
        let colon = after_space(body, name_end + 1);
        lemma_after_space(body, name_end + 1);
        lemma_after_space(body, colon + 1);
        lemma_value_end(body, after_space(body, colon + 1));
    }
}

proof fn lemma_named_first(body: Seq<u8>, m: MemberAt, name: Seq<char>)
    ensures
        named(body, seq![m], name) == (if is_named(body, m, name) {
            seq![m]
        } else {
            Seq::<MemberAt>::empty()
        }),
{
    reveal_with_fuel(named, 2);
    assert(seq![m].drop_first() =~= Seq::<MemberAt>::empty());
    assert(seq![m] + Seq::<MemberAt>::empty() =~= seq![m]);
}

// ---------------------------------------------------------------------------
// Operations
// ---------------------------------------------------------------------------

/// Whether `s` can stand between JSON quotes as it is.
pub fn needs_no_json_escape(s: &str) -> (safe: bool)
    ensures
        safe == plain(s.spec_bytes()),
{
    let bytes = s.as_bytes();
    let mut i: usize = 0;
    while i < bytes.len()
        invariant
            i <= bytes@.len(),
            bytes@ == s.spec_bytes(),
            forall|k: int| 0 <= k < i ==> plain_byte(#[trigger] bytes@[k]),
        decreases bytes.len() - i,
    {
        let b = bytes[i];
        if !(0x20 <= b && b <= 0x7E && b != 0x22 && b != 0x5C) {
            assert(!plain_byte(bytes@[i as int]));
            return false;
        }
        i = i + 1;
    }
    true
}

/// The first position at or after `i` that holds no white space.
pub fn skip_whitespace(body: &[u8], i: usize) -> (end: usize)
    ensures
        end == after_space(body@, i as int),
{
    let mut at: usize = i;
    while at < body.len() && (body[at] == 0x20 || body[at] == 0x09 || body[at] == 0x0A || body[at]
        == 0x0D)
        invariant
            i <= at,
            after_space(body@, i as int) == after_space(body@, at as int),
        decreases body.len() - at,
    {
        at = at + 1;
    }
    at
}

/// The position of the quote that ends the string whose content starts at
/// `i`.
pub fn scan_string_end(body: &[u8], i: usize) -> (end: Option<usize>)
    ensures
        match end {
            Some(e) => string_end(body@, i as int) == Some(e as int) && i <= e < body@.len(),
            None => string_end(body@, i as int) is None,
        },
{
    let mut at: usize = i;
    while at < body.len()
        invariant
            i <= at,
            string_end(body@, i as int) == string_end(body@, at as int),
        decreases body.len() - at,
    {
        let b = body[at];
        if b == 0x5C {
            if body.len() - at <= 2 {
                reveal_with_fuel(string_end, 2);
                return None;
            }
            at = at + 2;
        } else if b == 0x22 {
            return Some(at);
        } else {
            at = at + 1;
        }
    }
    None
}

/// The end of a word that stands at `i`.
fn scan_word(body: &[u8], i: usize, word: &[u8]) -> (end: Option<usize>)
    requires
        i < body@.len(),
    ensures
        match end {
            Some(e) => word_end(body@, i as int, word@) == Some(e as int),
            None => word_end(body@, i as int, word@) is None,
        },
{
    if body.len() - i < word.len() {
        return None;
    }
    if same_bytes(body, i, i + word.len(), word) {
        Some(i + word.len())
    } else {
        None
    }
}

/// The end of the value that starts at `i`.
pub fn scan_value_end(body: &[u8], i: usize) -> (end: Option<usize>)
    requires
        body@.len() <= isize::MAX,
    ensures
        match end {
            Some(e) => value_end(body@, i as int) == Some(e as int),
            None => value_end(body@, i as int) is None,
        },
{
    if i >= body.len() {
        return None;
    }
    let first = body[i];
    if first == 0x22 {
        match scan_string_end(body, i + 1) {
            Some(end) => Some(end + 1),
            None => None,
        }
    } else if first == 0x7B {
        scan_balanced(body, i, 0x7B, 0x7D)
    } else if first == 0x5B {
        scan_balanced(body, i, 0x5B, 0x5D)
    } else if first == 0x74 {
        scan_word(body, i, &[0x74, 0x72, 0x75, 0x65])
    } else if first == 0x66 {
        scan_word(body, i, &[0x66, 0x61, 0x6C, 0x73, 0x65])
    } else if first == 0x6E {
        scan_word(body, i, &[0x6E, 0x75, 0x6C, 0x6C])
    } else if first == 0x2D || (0x30 <= first && first <= 0x39) {
        let mut at: usize = i;
        while at < body.len() && ((0x30 <= body[at] && body[at] <= 0x39) || body[at] == 0x2D
            || body[at] == 0x2B || body[at] == 0x2E || body[at] == 0x65 || body[at] == 0x45)
            invariant
                i <= at,
                number_end(body@, i as int) == number_end(body@, at as int),
            decreases body.len() - at,
        {
            at = at + 1;
        }
        Some(at)
    } else {
        None
    }
}

/// The end of the bracketed value that starts at `start`.
pub fn scan_balanced(body: &[u8], start: usize, open: u8, close: u8) -> (end: Option<usize>)
    requires
        start < body@.len(),
        body@[start as int] == open,
        open != close,
        open != 0x22,
        close != 0x22,
    ensures
        match end {
            Some(e) => bracket_end(body@, start as int, 0, open, close) == Some(e as int),
            None => bracket_end(body@, start as int, 0, open, close) is None,
        },
{
    let mut depth: usize = 0;
    let mut i: usize = start;
    while i < body.len()
        invariant
            start <= i,
            depth <= i - start,
            i == start ==> body@[start as int] == open,
            i > start ==> depth >= 1,
            open != close,
            bracket_end(body@, start as int, 0, open, close) == bracket_end(
                body@,
                i as int,
                depth as int,
                open,
                close,
            ),
        decreases body.len() - i,
    {
        let b = body[i];
        if b == open {
            depth = depth + 1;
            i = i + 1;
        } else if b == close {
            if depth == 1 {
                return Some(i + 1);
            }
            depth = depth - 1;
            i = i + 1;
        } else if b == 0x22 {
            match scan_string_end(body, i + 1) {
                Some(end) => {
                    i = end + 1;
                },
                None => {
                    return None;
                },
            }
        } else {
            i = i + 1;
        }
    }
    None
}

fn same_bytes(a: &[u8], start: usize, end: usize, b: &[u8]) -> (same: bool)
    requires
        start <= end <= a@.len(),
    ensures
        same == (a@.subrange(start as int, end as int) == b@),
{
    if end - start != b.len() {
        return false;
    }
    let mut i: usize = 0;
    while i < b.len()
        invariant
            i <= b@.len(),
            end - start == b@.len(),
            start <= end <= a@.len(),
            forall|k: int| 0 <= k < i ==> a@[start + k] == #[trigger] b@[k],
        decreases b.len() - i,
    {
        if a[start + i] != b[i] {
            assert(a@.subrange(start as int, end as int)[i as int] != b@[i as int]);
            return false;
        }
        i = i + 1;
    }
    assert(a@.subrange(start as int, end as int) =~= b@);
    true
}

/// Whether a name, in its quotes, is `field`.
fn key_spells(quoted: &[u8], field: &str) -> (same: bool)
    requires
        quoted@.len() >= 2,
    ensures
        same == spells(quoted@, field@),
{
    let ghost raw = quoted@.subrange(1, quoted@.len() - 1);
    let mut i: usize = 1;
    while i < quoted.len() - 1
        invariant
            1 <= i <= quoted@.len() - 1,
            raw == quoted@.subrange(1, quoted@.len() - 1),
            forall|k: int| 0 <= k < i - 1 ==> #[trigger] raw[k] != 0x5C,
        decreases quoted.len() - i,
    {
        assert(raw[i - 1] == quoted@[i as int]);
        if quoted[i] == 0x5C {
            assert(raw.contains(0x5C));
            return match Json::parse_bytes(quoted) {
                Ok(Json::Text(text)) => same_text(text.as_str(), field),
                _ => false,
            };
        }
        i = i + 1;
    }
    assert(!raw.contains(0x5C));
    same_bytes(quoted, 1, quoted.len() - 1, field.as_bytes())
}

/// The value span of the only member named `field` of an object, if it is a
/// string and the name is written without escapes.
pub fn find_only_string_span(body: &[u8], field: &str) -> (span: Option<Span>)
    requires
        body@.len() <= isize::MAX,
    ensures
        match span {
            Some(s) => only_string_span(body@, field@) == Some((s.start as int, s.end as int))
                && s.start < s.end <= body@.len(),
            None => only_string_span(body@, field@) is None,
        },
{
    let ghost name = field@;
    let brace = skip_whitespace(body, 0);
    if brace >= body.len() || body[brace] != 0x7B {
        return None;
    }
    let mut i: usize = brace + 1;
    let mut found: Option<Span> = None;
    let mut several = false;
    let mut written = false;
    let ghost mut before: Seq<MemberAt> = seq![];
    proof {
        if let Some(all) = object_members(body@) {
            assert(seq![] + named(body@, all, name) =~= named(body@, all, name));
        }
    }
    loop
        invariant
            body@.len() <= isize::MAX,
            name == field@,
            i <= body@.len(),
            match members_from(body@, i as int) {
                Some(rest) => object_members(body@) is Some && named(
                    body@,
                    object_members(body@)->0,
                    name,
                ) == before + named(body@, rest, name),
                None => object_members(body@) is None,
            },
            several == (before.len() >= 2),
            match found {
                Some(s) => {
                    &&& before.len() > 0
                    &&& before[0].value_start == s.start
                    &&& before[0].value_end == s.end
                    &&& s.start < s.end <= body@.len()
                    &&& written == is_written(body@, before[0], name)
                },
                None => before.len() == 0,
            },
        decreases body@.len() - i,
    {
        proof {
            lemma_member_at(body@, i as int);
        }
        let quote = skip_whitespace(body, i);
        if quote >= body.len() || body[quote] != 0x22 {
            return None;
        }
        let name_end = match scan_string_end(body, quote + 1) {
            Some(end) => end,
            None => {
                return None;
            },
        };
        let colon = skip_whitespace(body, name_end + 1);
        if colon >= body.len() || body[colon] != 0x3A {
            return None;
        }
        let value_start = skip_whitespace(body, colon + 1);
        let value_end = match scan_value_end(body, value_start) {
            Some(end) => end,
            None => {
                return None;
            },
        };
        let next = skip_whitespace(body, value_end);
        let ghost m = member_at(body@, i as int)->0;
        let ghost rest: Option<Seq<MemberAt>> = members_from(body@, next + 1);
        proof {
            lemma_after_space(body@, value_end as int);
        }
        if next >= body.len() {
            return None;
        }
        proof {
            lemma_named_first(body@, m, name);
            if let Some(rest) = rest {
                assert((seq![m] + rest).drop_first() =~= rest);
            }
        }
        let ghost earlier = before;
        if key_spells(slice_subrange(body, quote, name_end + 1), field) {
            if found.is_none() {
                found = Some(Span { start: value_start, end: value_end });
                written = same_bytes(body, quote + 1, name_end, field.as_bytes());
            } else {
                several = true;
            }
            proof {
                before = before.push(m);
            }
        }
        if body[next] == 0x2C {
            proof {
                if let Some(rest) = rest {
                    assert(before + named(body@, rest, name) =~= earlier + named(
                        body@,
                        seq![m] + rest,
                        name,
                    ));
                }
            }
            i = next + 1;
            continue;
        }
        if body[next] != 0x7D || skip_whitespace(body, next + 1) != body.len() {
            return None;
        }
        assert(before =~= earlier + named(body@, seq![m], name));
        if several {
            return None;
        }
        if let Some(span) = found {
            if written && body[span.start] == 0x22 {
                return Some(span);
            }
        }
        return None;
    }
}

/// The value span of a top-level string member of a body that is a JSON
/// object and has one member of that name, written without escapes.
pub fn find_top_level_string_value_span(body: &[u8], field: &str) -> (span: Option<Span>)
    requires
        body@.len() <= isize::MAX,
    ensures
        match span {
            Some(s) => top_level_span(body@, field@) == Some((s.start as int, s.end as int))
                && s.start < s.end <= body@.len(),
            None => top_level_span(body@, field@) is None,
        },
{
    match Json::parse_bytes(body) {
        Ok(Json::Object(_)) => find_only_string_span(body, field),
        _ => None,
    }
}

fn extend(out: &mut Vec<u8>, bytes: &[u8], start: usize, end: usize)
    requires
        start <= end <= bytes@.len(),
    ensures
        final(out)@ == old(out)@ + bytes@.subrange(start as int, end as int),
{
    let ghost before = out@;
    let mut i: usize = start;
    assert(before + bytes@.subrange(start as int, start as int) =~= before);
    while i < end
        invariant
            start <= i <= end <= bytes@.len(),
            out@ == before + bytes@.subrange(start as int, i as int),
        decreases end - i,
    {
        out.push(bytes[i]);
        i = i + 1;
        assert(out@ =~= before + bytes@.subrange(start as int, i as int));
    }
}

/// Replaces the top-level `model` member of a request body.
pub fn rewrite_model(body: &[u8], upstream_model: &str) -> (result: Result<Vec<u8>, ProviderError>)
    requires
        body@.len() <= isize::MAX,
    ensures
        match rewritten(body@, upstream_model@) {
            Ok(bytes) => match result {
                Ok(out) => out@ == bytes,
                Err(_) => false,
            },
            Err(message) => match result {
                Err(ProviderError::Decode(text)) => text@ == message,
                _ => false,
            },
        },
{
    if needs_no_json_escape(upstream_model) {
        if let Some(span) = find_top_level_string_value_span(body, "model") {
            let model = upstream_model.as_bytes();
            let mut out: Vec<u8> = Vec::new();
            extend(&mut out, body, 0, span.start);
            out.push(0x22);
            extend(&mut out, model, 0, model.len());
            out.push(0x22);
            extend(&mut out, body, span.end, body.len());
            proof {
                assert(model@.subrange(0, model@.len() as int) =~= model@);
                assert(out@ =~= spliced(
                    body@,
                    (span.start as int, span.end as int),
                    upstream_model.spec_bytes(),
                ));
            }
            return Ok(out);
        }
    }
    set_model(
        body,
        upstream_model,
        "Anthropic Messages request body must be a JSON object",
    )
}

} // verus!
