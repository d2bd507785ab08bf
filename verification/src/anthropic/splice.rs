//! The laws of splicing a string value into a body.
use vstd::prelude::*;

use super::passthrough::{
    after_space, bracket_end, is_named, lemma_after_space, lemma_bracket_end, lemma_member_at,
    lemma_number_end, lemma_string_end, lemma_value_end, member_at, members_from, named,
    number_byte, number_end, object_members, only_string_span, plain, plain_byte, rewritten, spliced, string_end,
    value_end, word_end, MemberAt,
};
use crate::grammar::{false_bytes, is_blank, is_space, null_bytes, true_bytes};
use crate::json::{parsed_bytes, Tree};

verus! {

// ---------------------------------------------------------------------------
// Before the splice
// ---------------------------------------------------------------------------

/// Two bodies that agree up to a quote at `s`.
pub open spec fn agree_to(a: Seq<u8>, b: Seq<u8>, s: int) -> bool {
    &&& 0 <= s < a.len()
    &&& s < b.len()
    &&& a[s] == 0x22
    &&& b[s] == 0x22
    &&& forall|i: int| 0 <= i < s ==> #[trigger] a[i] == #[trigger] b[i]
}

proof fn lemma_agree_space(a: Seq<u8>, b: Seq<u8>, s: int, i: int)
    requires
        agree_to(a, b, s),
        0 <= i,
        after_space(a, i) <= s,
    ensures
        after_space(b, i) == after_space(a, i),
    decreases s - i,
{
    lemma_after_space(a, i);
    if i < s {
        assert(a[i] == b[i]);
        if is_space(a[i]) {
            lemma_agree_space(a, b, s, i + 1);
        }
    }
}

proof fn lemma_agree_string(a: Seq<u8>, b: Seq<u8>, s: int, i: int)
    requires
        agree_to(a, b, s),
        0 <= i,
        string_end(a, i) is Some,
        string_end(a, i)->0 < s,
    ensures
        string_end(b, i) == string_end(a, i),
    decreases a.len() + 1 - i,
{
    lemma_string_end(a, i);
    assert(a[i] == b[i]);
    if a[i] == 0x5C {
        lemma_agree_string(a, b, s, i + 2);
    } else if a[i] != 0x22 {
        lemma_agree_string(a, b, s, i + 1);
    }
}

proof fn lemma_agree_bracket(
    a: Seq<u8>,
    b: Seq<u8>,
    s: int,
    i: int,
    depth: int,
    open: u8,
    close: u8,
)
    requires
        agree_to(a, b, s),
        0 <= i,
        bracket_end(a, i, depth, open, close) is Some,
        bracket_end(a, i, depth, open, close)->0 <= s,
    ensures
        bracket_end(b, i, depth, open, close) == bracket_end(a, i, depth, open, close),
    decreases a.len() - i,
{
    lemma_bracket_end(a, i, depth, open, close);
    assert(a[i] == b[i]);
    if a[i] == open {
        lemma_agree_bracket(a, b, s, i + 1, depth + 1, open, close);
    } else if a[i] == close {
        if depth != 1 {
            lemma_agree_bracket(a, b, s, i + 1, depth - 1, open, close);
        }
    } else if a[i] == 0x22 {
        let end = string_end(a, i + 1)->0;
        lemma_string_end(a, i + 1);
        lemma_bracket_end(a, end + 1, depth, open, close);
        lemma_agree_string(a, b, s, i + 1);
        lemma_agree_bracket(a, b, s, end + 1, depth, open, close);
    } else {
        lemma_agree_bracket(a, b, s, i + 1, depth, open, close);
    }
}

proof fn lemma_agree_number(a: Seq<u8>, b: Seq<u8>, s: int, i: int)
    requires
        agree_to(a, b, s),
        0 <= i,
        number_end(a, i) <= s,
    ensures
        number_end(b, i) == number_end(a, i),
    decreases s - i,
{
    lemma_number_end(a, i);
    if i < s {
        assert(a[i] == b[i]);
        if number_byte(a[i]) {
            lemma_agree_number(a, b, s, i + 1);
        }
    }
}

proof fn lemma_agree_word(a: Seq<u8>, b: Seq<u8>, s: int, i: int, word: Seq<u8>)
    requires
        agree_to(a, b, s),
        0 <= i,
        word_end(a, i, word) is Some,
        word_end(a, i, word)->0 <= s,
    ensures
        word_end(b, i, word) == word_end(a, i, word),
{
    assert(a.subrange(i, i + word.len()) =~= b.subrange(i, i + word.len()));
}

proof fn lemma_agree_value(a: Seq<u8>, b: Seq<u8>, s: int, i: int)
    requires
        agree_to(a, b, s),
        0 <= i < s,
        value_end(a, i) is Some,
        value_end(a, i)->0 <= s,
    ensures
        value_end(b, i) == value_end(a, i),
{
    assert(a[i] == b[i]);
    lemma_value_end(a, i);
    if a[i] == 0x22 {
        lemma_agree_string(a, b, s, i + 1);
    } else if a[i] == 0x7B {
        lemma_agree_bracket(a, b, s, i, 0, 0x7B, 0x7D);
    } else if a[i] == 0x5B {
        lemma_agree_bracket(a, b, s, i, 0, 0x5B, 0x5D);
    } else if a[i] == 0x74 {
        lemma_agree_word(a, b, s, i, true_bytes());
    } else if a[i] == 0x66 {
        lemma_agree_word(a, b, s, i, false_bytes());
    } else if a[i] == 0x6E {
        lemma_agree_word(a, b, s, i, null_bytes());
    } else if a[i] == 0x2D || 0x30 <= a[i] <= 0x39 {
        lemma_agree_number(a, b, s, i);
    }
}

// ---------------------------------------------------------------------------
// Behind the splice
// ---------------------------------------------------------------------------

/// Two bodies where what stands at `e` or behind it in the first stands `d`
/// further on in the second.
spec fn shifted(a: Seq<u8>, b: Seq<u8>, e: int, d: int) -> bool {
    &&& 0 <= e <= a.len()
    &&& 0 <= e + d
    &&& b.len() == a.len() + d
    &&& forall|k: int| e <= k < a.len() ==> #[trigger] a[k] == b[k + d]
}

/// A position moved by `d`.
spec fn moved(at: Option<int>, d: int) -> Option<int> {
    match at {
        Some(i) => Some(i + d),
        None => None,
    }
}

/// A member moved by `d`.
spec fn moved_member(m: MemberAt, d: int) -> MemberAt {
    MemberAt {
        name_start: m.name_start + d,
        name_end: m.name_end + d,
        value_start: m.value_start + d,
        value_end: m.value_end + d,
    }
}

proof fn lemma_shift_space(a: Seq<u8>, b: Seq<u8>, e: int, d: int, i: int)
    requires
        shifted(a, b, e, d),
        e <= i,
    ensures
        after_space(b, i + d) == after_space(a, i) + d,
    decreases a.len() - i,
{
    if i < a.len() {
        assert(a[i] == b[i + d]);
        if is_space(a[i]) {
            lemma_shift_space(a, b, e, d, i + 1);
        }
    }
}

proof fn lemma_shift_string(a: Seq<u8>, b: Seq<u8>, e: int, d: int, i: int)
    requires
        shifted(a, b, e, d),
        e <= i,
    ensures
        string_end(b, i + d) == moved(string_end(a, i), d),
    decreases a.len() + 1 - i,
{
    if i < a.len() {
        assert(a[i] == b[i + d]);
        if a[i] == 0x5C {
            lemma_shift_string(a, b, e, d, i + 2);
        } else if a[i] != 0x22 {
            lemma_shift_string(a, b, e, d, i + 1);
        }
    }
}

proof fn lemma_shift_bracket(
    a: Seq<u8>,
    b: Seq<u8>,
    e: int,
    d: int,
    i: int,
    depth: int,
    open: u8,
    close: u8,
)
    requires
        shifted(a, b, e, d),
        e <= i,
    ensures
        bracket_end(b, i + d, depth, open, close) == moved(
            bracket_end(a, i, depth, open, close),
            d,
        ),
    decreases a.len() - i,
{
    if i < a.len() {
        assert(a[i] == b[i + d]);
        if a[i] == open {
            lemma_shift_bracket(a, b, e, d, i + 1, depth + 1, open, close);
        } else if a[i] == close {
            if depth != 1 {
                lemma_shift_bracket(a, b, e, d, i + 1, depth - 1, open, close);
            }
        } else if a[i] == 0x22 {
            lemma_string_end(a, i + 1);
            lemma_shift_string(a, b, e, d, i + 1);
            if let Some(end) = string_end(a, i + 1) {
                lemma_shift_bracket(a, b, e, d, end + 1, depth, open, close);
            }
        } else {
            lemma_shift_bracket(a, b, e, d, i + 1, depth, open, close);
        }
    }
}

proof fn lemma_shift_number(a: Seq<u8>, b: Seq<u8>, e: int, d: int, i: int)
    requires
        shifted(a, b, e, d),
        e <= i,
    ensures
        number_end(b, i + d) == number_end(a, i) + d,
    decreases a.len() - i,
{
    if i < a.len() {
        assert(a[i] == b[i + d]);
        if number_byte(a[i]) {
            lemma_shift_number(a, b, e, d, i + 1);
        }
    }
}

proof fn lemma_shift_part(a: Seq<u8>, b: Seq<u8>, e: int, d: int, i: int, j: int)
    requires
        shifted(a, b, e, d),
        e <= i <= j <= a.len(),
    ensures
        b.subrange(i + d, j + d) == a.subrange(i, j),
{
    assert forall|k: int| 0 <= k < j - i implies b.subrange(i + d, j + d)[k] == a.subrange(i, j)[k]
        by {
        assert(a[i + k] == b[i + k + d]);
    }
    assert(b.subrange(i + d, j + d) =~= a.subrange(i, j));
}

proof fn lemma_shift_word(a: Seq<u8>, b: Seq<u8>, e: int, d: int, i: int, word: Seq<u8>)
    requires
        shifted(a, b, e, d),
        e <= i,
    ensures
        word_end(b, i + d, word) == moved(word_end(a, i, word), d),
{
    if i + word.len() <= a.len() {
        lemma_shift_part(a, b, e, d, i, i + word.len());
        assert(i + word.len() + d == i + d + word.len());
    }
}

proof fn lemma_shift_value(a: Seq<u8>, b: Seq<u8>, e: int, d: int, i: int)
    requires
        shifted(a, b, e, d),
        e <= i,
    ensures
        value_end(b, i + d) == moved(value_end(a, i), d),
{
    if i < a.len() {
        assert(a[i] == b[i + d]);
        lemma_shift_string(a, b, e, d, i + 1);
        lemma_shift_bracket(a, b, e, d, i, 0, 0x7B, 0x7D);
        lemma_shift_bracket(a, b, e, d, i, 0, 0x5B, 0x5D);
        lemma_shift_word(a, b, e, d, i, true_bytes());
        lemma_shift_word(a, b, e, d, i, false_bytes());
        lemma_shift_word(a, b, e, d, i, null_bytes());
        lemma_shift_number(a, b, e, d, i);
    }
}

proof fn lemma_shift_member(a: Seq<u8>, b: Seq<u8>, e: int, d: int, i: int)
    requires
        shifted(a, b, e, d),
        e <= i,
    ensures
        member_at(b, i + d) == (match member_at(a, i) {
            Some(m) => Some(moved_member(m, d)),
            None => None,
        }),
{
    let quote = after_space(a, i);
    lemma_after_space(a, i);
    lemma_shift_space(a, b, e, d, i);
    if quote < a.len() {
        assert(a[quote] == b[quote + d]);
        lemma_string_end(a, quote + 1);
        lemma_shift_string(a, b, e, d, quote + 1);
        if let Some(name_end) = string_end(a, quote + 1) {
            let colon = after_space(a, name_end + 1);
            lemma_after_space(a, name_end + 1);
            lemma_shift_space(a, b, e, d, name_end + 1);
            if colon < a.len() {
                assert(a[colon] == b[colon + d]);
                lemma_after_space(a, colon + 1);
                lemma_shift_space(a, b, e, d, colon + 1);
                lemma_shift_value(a, b, e, d, after_space(a, colon + 1));
            }
        }
    }
}

proof fn lemma_named_split(body: Seq<u8>, m: MemberAt, rest: Seq<MemberAt>, name: Seq<char>)
    ensures
        named(body, seq![m] + rest, name) == (if is_named(body, m, name) {
            seq![m] + named(body, rest, name)
        } else {
            named(body, rest, name)
        }),
{
    assert((seq![m] + rest).drop_first() =~= rest);
}

proof fn lemma_named_alone(body: Seq<u8>, m: MemberAt, name: Seq<char>)
    ensures
        named(body, seq![m], name) == (if is_named(body, m, name) {
            seq![m]
        } else {
            Seq::<MemberAt>::empty()
        }),
{
    assert(seq![m] =~= seq![m] + Seq::<MemberAt>::empty());
    lemma_named_split(body, m, Seq::empty(), name);
}

proof fn lemma_shift_members(a: Seq<u8>, b: Seq<u8>, e: int, d: int, i: int, name: Seq<char>)
    requires
        shifted(a, b, e, d),
        e <= i,
    ensures
        match members_from(a, i) {
            Some(members) => {
                &&& members_from(b, i + d) is Some
                &&& named(b, members_from(b, i + d)->0, name).len() == named(
                    a,
                    members,
                    name,
                ).len()
            },
            None => members_from(b, i + d) is None,
        },
    decreases a.len() - i,
{
    lemma_shift_member(a, b, e, d, i);
    lemma_member_at(a, i);
    if let Some(m) = member_at(a, i) {
        let n = moved_member(m, d);
        let next = after_space(a, m.value_end);
        lemma_after_space(a, m.value_end);
        lemma_shift_space(a, b, e, d, m.value_end);
        lemma_shift_part(a, b, e, d, m.name_start - 1, m.name_end + 1);
        assert(is_named(b, n, name) == is_named(a, m, name));
        lemma_named_alone(a, m, name);
        lemma_named_alone(b, n, name);
        if next < a.len() {
            assert(a[next] == b[next + d]);
            lemma_shift_space(a, b, e, d, next + 1);
            if a[next] == 0x2C {
                lemma_shift_members(a, b, e, d, next + 1, name);
                if let Some(rest) = members_from(a, next + 1) {
                    lemma_named_split(a, m, rest, name);
                    lemma_named_split(b, n, members_from(b, next + 1 + d)->0, name);
                }
            }
        }
    }
}

// ---------------------------------------------------------------------------
// Laws
// ---------------------------------------------------------------------------

/// Whether the parts of a member stand where they are said to: the name in its
/// quotes, the colon and the value, with white space between.
pub open spec fn is_placed(body: Seq<u8>, m: MemberAt) -> bool {
    let colon = after_space(body, m.name_end + 1);
    &&& 0 < m.name_start <= m.name_end < colon < m.value_start < m.value_end <= body.len()
    &&& body[m.name_start - 1] == 0x22
    &&& string_end(body, m.name_start) == Some(m.name_end)
    &&& body[colon] == 0x3A
    &&& after_space(body, colon + 1) == m.value_start
    &&& value_end(body, m.value_start) == Some(m.value_end)
}

proof fn lemma_placed(body: Seq<u8>, i: int)
    requires
        0 <= i,
        member_at(body, i) is Some,
    ensures
        is_placed(body, member_at(body, i)->0),
{
    let m = member_at(body, i)->0;
    lemma_member_at(body, i);
    lemma_after_space(body, i);
    lemma_string_end(body, m.name_start);
    lemma_after_space(body, m.name_end + 1);
    lemma_after_space(body, after_space(body, m.name_end + 1) + 1);
}

proof fn lemma_named_behind(body: Seq<u8>, i: int, name: Seq<char>, k: int)
    requires
        0 <= i,
        members_from(body, i) is Some,
        0 <= k < named(body, members_from(body, i)->0, name).len(),
    ensures
        ({
            let m = named(body, members_from(body, i)->0, name)[k];
            &&& i < m.name_start <= m.name_end < m.value_start
            &&& is_placed(body, m)
        }),
    decreases body.len() - i,
{
    let m = member_at(body, i)->0;
    lemma_member_at(body, i);
    lemma_placed(body, i);
    let next = after_space(body, m.value_end);
    lemma_after_space(body, m.value_end);
    lemma_named_alone(body, m, name);
    if body[next] == 0x2C {
        let rest = members_from(body, next + 1)->0;
        lemma_named_split(body, m, rest, name);
        if is_named(body, m, name) {
            if k > 0 {
                lemma_named_behind(body, next + 1, name, k - 1);
            }
        } else {
            lemma_named_behind(body, next + 1, name, k);
        }
    }
}

proof fn lemma_space_is_blank(body: Seq<u8>, i: int)
    requires
        0 <= i <= body.len(),
    ensures
        is_blank(body.subrange(i, after_space(body, i))),
    decreases body.len() - i,
{
    lemma_after_space(body, i);
    if i < body.len() && is_space(body[i]) {
        lemma_space_is_blank(body, i + 1);
        let end = after_space(body, i);
        let s = body.subrange(i, end);
        assert forall|k: int| 0 <= k < s.len() implies is_space(#[trigger] s[k]) by {
            if k > 0 {
                assert(s[k] == body.subrange(i + 1, end)[k - 1]);
            }
        }
    }
}

/// Before a found value stand, from right to left, a colon and the name itself
/// in quotes, with nothing but white space between. The value is a string whose
/// closing quote is the first one behind its opening quote that is not escaped.
pub proof fn found_value_stands_behind_its_name(body: Seq<u8>, name: Seq<char>)
    requires
        only_string_span(body, name) is Some,
    ensures
        ({
            let span = only_string_span(body, name)->0;
            let field = seq![0x22u8] + vstd::utf8::encode_utf8(name) + seq![0x22u8];
            &&& exists|q: int, c: int|
                {
                    &&& 0 <= q
                    &&& q + field.len() <= c < span.0
                    &&& #[trigger] body.subrange(q, q + field.len()) == field
                    &&& is_blank(body.subrange(q + field.len(), c))
                    &&& #[trigger] body[c] == 0x3A
                    &&& is_blank(body.subrange(c + 1, span.0))
                }
            &&& string_end(body, span.0 + 1) == Some(span.1 - 1)
        }),
{
    let brace = after_space(body, 0);
    lemma_after_space(body, 0);
    let m = named(body, object_members(body)->0, name)[0];
    lemma_named_behind(body, brace + 1, name, 0);
    lemma_string_end(body, m.name_start);
    let bytes = vstd::utf8::encode_utf8(name);
    let field = seq![0x22u8] + bytes + seq![0x22u8];
    let q = m.name_start - 1;
    let c = after_space(body, m.name_end + 1);
    assert(body.subrange(m.name_start, m.name_end) == bytes);
    assert(q + field.len() == m.name_end + 1);
    assert(body.subrange(q, q + field.len()) =~= field) by {
        assert forall|k: int| 0 <= k < field.len() implies #[trigger] body.subrange(
            q,
            q + field.len(),
        )[k] == field[k] by {
            if 0 < k < field.len() - 1 {
                assert(body.subrange(m.name_start, m.name_end)[k - 1] == bytes[k - 1]);
            }
        }
    }
    lemma_space_is_blank(body, m.name_end + 1);
    lemma_space_is_blank(body, c + 1);
    assert(body[c] == 0x3A);
}

/// The found value is a string inside the body.
pub proof fn found_value_is_a_string(body: Seq<u8>, name: Seq<char>)
    requires
        only_string_span(body, name) is Some,
    ensures
        ({
            let span = only_string_span(body, name)->0;
            &&& 0 < span.0
            &&& span.0 + 1 < span.1 <= body.len()
            &&& body[span.0] == 0x22
            &&& body[span.1 - 1] == 0x22
            &&& value_end(body, span.0) == Some(span.1)
        }),
{
    let brace = after_space(body, 0);
    lemma_after_space(body, 0);
    lemma_named_behind(body, brace + 1, name, 0);
    lemma_value_end(body, (only_string_span(body, name)->0).0);
}

proof fn lemma_respliced(
    a: Seq<u8>,
    b: Seq<u8>,
    s: int,
    e: int,
    end: int,
    i: int,
    name: Seq<char>,
)
    requires
        agree_to(a, b, s),
        s < e,
        shifted(a, b, e, end - e),
        value_end(a, s) == Some(e),
        value_end(b, s) == Some(end),
        0 <= i,
        members_from(a, i) is Some,
        named(a, members_from(a, i)->0, name).len() == 1,
        named(a, members_from(a, i)->0, name)[0].value_start == s,
    ensures
        members_from(b, i) is Some,
        ({
            let found = named(b, members_from(b, i)->0, name);
            &&& found.len() == 1
            &&& found[0] == MemberAt {
                value_end: end,
                ..named(a, members_from(a, i)->0, name)[0]
            }
        }),
    decreases a.len() - i,
{
    let d = end - e;
    let m = member_at(a, i)->0;
    lemma_member_at(a, i);
    let quote = after_space(a, i);
    lemma_after_space(a, i);
    lemma_string_end(a, quote + 1);
    let colon = after_space(a, m.name_end + 1);
    lemma_after_space(a, m.name_end + 1);
    lemma_after_space(a, colon + 1);
    let next = after_space(a, m.value_end);
    lemma_after_space(a, m.value_end);
    lemma_named_behind(a, i, name, 0);
    lemma_named_alone(a, m, name);
    if a[next] == 0x2C {
        lemma_named_split(a, m, members_from(a, next + 1)->0, name);
        if !is_named(a, m, name) {
            lemma_named_behind(a, next + 1, name, 0);
        }
    }
    assert(m.value_start <= s);
    lemma_agree_space(a, b, s, i);
    lemma_agree_string(a, b, s, quote + 1);
    lemma_agree_space(a, b, s, m.name_end + 1);
    lemma_agree_space(a, b, s, colon + 1);
    assert(a[quote] == b[quote]);
    assert(a[colon] == b[colon]);
    assert(a.subrange(m.name_start - 1, m.name_end + 1) =~= b.subrange(
        m.name_start - 1,
        m.name_end + 1,
    ));
    if is_named(a, m, name) {
        assert(m.value_start == s);
        let n = MemberAt { value_end: end, ..m };
        assert(member_at(b, i) == Some(n));
        lemma_member_at(b, i);
        lemma_shift_space(a, b, e, d, e);
        lemma_after_space(b, end);
        assert(a[next] == b[next + d]);
        lemma_named_alone(b, n, name);
        if a[next] == 0x2C {
            lemma_shift_members(a, b, e, d, next + 1, name);
            assert(next + 1 + d == next + d + 1);
            lemma_named_split(b, n, members_from(b, next + d + 1)->0, name);
        } else {
            lemma_shift_space(a, b, e, d, next + 1);
            assert(next + 1 + d == next + d + 1);
        }
    } else {
        assert(a[next] == 0x2C);
        lemma_agree_value(a, b, s, m.value_start);
        lemma_agree_space(a, b, s, m.value_end);
        assert(a[next] == b[next]);
        assert(member_at(b, i) == Some(m));
        lemma_member_at(b, i);
        lemma_after_space(b, m.value_end);
        lemma_respliced(a, b, s, e, end, next + 1, name);
        lemma_named_split(b, m, members_from(b, next + 1)->0, name);
    }
}

proof fn lemma_plain_string(body: Seq<u8>, i: int, end: int)
    requires
        0 <= i <= end < body.len(),
        body[end] == 0x22,
        forall|k: int| i <= k < end ==> plain_byte(#[trigger] body[k]),
    ensures
        string_end(body, i) == Some(end),
    decreases end - i,
{
    if i < end {
        assert(plain_byte(body[i]));
        lemma_plain_string(body, i + 1, end);
    }
}

/// The new value is found where the old one was: after a value was replaced
/// by plain bytes, it is still the only value of that name, it has exactly
/// those bytes between its quotes, and the bytes before and after it are those
/// of the old body.
pub proof fn spliced_value_is_found_again(body: Seq<u8>, name: Seq<char>, value: Seq<u8>)
    requires
        only_string_span(body, name) is Some,
        plain(value),
    ensures
        ({
            let span = only_string_span(body, name)->0;
            let out = spliced(body, span, value);
            let end = span.0 + value.len() + 2;
            &&& only_string_span(out, name) == Some((span.0, end))
            &&& out.subrange(span.0 + 1, end - 1) == value
            &&& out.subrange(0, span.0) == body.subrange(0, span.0)
            &&& out.subrange(end, out.len() as int) == body.subrange(span.1, body.len() as int)
        }),
{
    let span = only_string_span(body, name)->0;
    let s = span.0;
    let out = spliced(body, span, value);
    let brace = after_space(body, 0);
    lemma_after_space(body, 0);
    found_value_is_a_string(body, name);
    lemma_named_behind(body, brace + 1, name, 0);
    assert(out[s] == 0x22);
    assert forall|i: int| 0 <= i < s implies #[trigger] body[i] == #[trigger] out[i] by {}
    assert(agree_to(body, out, s));
    let last = s + 1 + value.len();
    let end = last + 1;
    assert(out[last] == 0x22);
    assert forall|k: int| s + 1 <= k < last implies plain_byte(#[trigger] out[k]) by {
        assert(out[k] == value[k - s - 1]);
    }
    lemma_plain_string(out, s + 1, last);
    assert forall|k: int| span.1 <= k < body.len() implies #[trigger] body[k] == out[k + (end
        - span.1)] by {}
    lemma_agree_space(body, out, s, 0);
    assert(body[brace] == out[brace]);
    lemma_respliced(body, out, s, span.1, end, brace + 1, name);
    let m = named(body, object_members(body)->0, name)[0];
    assert(body.subrange(m.name_start, m.name_end) =~= out.subrange(m.name_start, m.name_end));
    assert(out.subrange(s + 1, end - 1) =~= value);
    assert(out.subrange(0, s) =~= body.subrange(0, s));
    assert(out.subrange(end, out.len() as int) =~= body.subrange(span.1, body.len() as int));
}

/// Replacing a value twice is replacing it once, by the second value.
pub proof fn last_splice_wins(body: Seq<u8>, name: Seq<char>, first: Seq<u8>, second: Seq<u8>)
    requires
        only_string_span(body, name) is Some,
        plain(first),
    ensures
        ({
            let span = only_string_span(body, name)->0;
            let once = spliced(body, span, first);
            &&& only_string_span(once, name) is Some
            &&& spliced(once, only_string_span(once, name)->0, second) == spliced(
                body,
                span,
                second,
            )
        }),
{
    let span = only_string_span(body, name)->0;
    let once = spliced(body, span, first);
    spliced_value_is_found_again(body, name, first);
    found_value_is_a_string(body, name);
    let again = only_string_span(once, name)->0;
    assert(spliced(once, again, second) =~= spliced(body, span, second));
}

/// A body is rewritten if and only if it is a JSON object. For one that is no
/// JSON text the error is the parser's.
pub proof fn only_objects_are_rewritten(body: Seq<u8>, model: Seq<char>)
    ensures
        rewritten(body, model) is Ok <==> parsed_bytes(body) matches Ok(Tree::Object(_)),
        parsed_bytes(body) is Err ==> rewritten(body, model) == Err::<Seq<u8>, Seq<char>>(
            parsed_bytes(body)->Err_0,
        ),
{
}

} // verus!
