//! The scanner finds the end of a complete JSON value.
use vstd::prelude::*;

use super::passthrough::{bracket_end, number_byte, number_end, string_end, value_end};
use crate::grammar::{
    false_bytes, is_blank, is_string_content, is_digit, is_items, is_member, is_members, is_number,
    number_parts, is_padded, is_padded_text, is_text, is_value, null_bytes, true_bytes,
};

verus! {

// ---------------------------------------------------------------------------
// Strings and numbers
// ---------------------------------------------------------------------------

/// A part of a body, cut at `k` of its own bytes.
proof fn lemma_cut(body: Seq<u8>, i: int, j: int, k: int)
    requires
        0 <= i <= j <= body.len(),
        0 <= k <= j - i,
    ensures
        body.subrange(i, j).take(k) == body.subrange(i, i + k),
        body.subrange(i, j).skip(k) == body.subrange(i + k, j),
{
    assert(body.subrange(i, j).take(k) =~= body.subrange(i, i + k));
    assert(body.subrange(i, j).skip(k) =~= body.subrange(i + k, j));
}

proof fn lemma_characters(body: Seq<u8>, i: int, j: int)
    requires
        0 <= i <= j < body.len(),
        is_string_content(body.subrange(i, j)),
        body[j] == 0x22,
    ensures
        string_end(body, i) == Some(j),
    decreases j - i,
{
    let s = body.subrange(i, j);
    if i < j {
        assert(s[0] == body[i]);
        if s[0] == 0x5C {
            if s.len() >= 6 && s[1] == 0x75 {
                lemma_cut(body, i, j, 6);
                lemma_characters(body, i + 6, j);
                assert(s[2] == body[i + 2]);
                assert(s[3] == body[i + 3]);
                assert(s[4] == body[i + 4]);
                assert(s[5] == body[i + 5]);
                reveal_with_fuel(string_end, 6);
            } else {
                lemma_cut(body, i, j, 2);
                lemma_characters(body, i + 2, j);
            }
        } else {
            lemma_cut(body, i, j, 1);
            lemma_characters(body, i + 1, j);
        }
    }
}

/// The end of a string.
pub proof fn lemma_text(body: Seq<u8>, i: int, j: int)
    requires
        0 <= i <= j <= body.len(),
        is_text(body.subrange(i, j)),
    ensures
        i + 2 <= j,
        body[i] == 0x22,
        string_end(body, i + 1) == Some(j - 1),
{
    let s = body.subrange(i, j);
    assert(s[0] == body[i]);
    assert(s.last() == body[j - 1]);
    assert(s.subrange(1, s.len() - 1) =~= body.subrange(i + 1, j - 1));
    lemma_characters(body, i + 1, j - 1);
}

/// A number starts with a sign or a digit, and holds no byte that is not of a
/// number.
pub proof fn lemma_number_bytes(s: Seq<u8>)
    requires
        is_number(s),
    ensures
        s.len() > 0,
        s[0] == 0x2D || is_digit(s[0]),
        forall|n: int| 0 <= n < s.len() ==> number_byte(#[trigger] s[n]),
{
    let (i, j, k) = choose|i: int, j: int, k: int| number_parts(s, i, j, k);
    assert forall|n: int| 0 <= n < s.len() implies number_byte(#[trigger] s[n]) by {
        if n < i {
            assert(s[n] == s.take(i)[n]);
            assert(s.take(i).len() == 1);
            assert(number_byte(s[n]));
        } else if n < j {
            assert(s[n] == s.subrange(i, j)[n - i]);
            assert(is_digit(s[n]));
        } else if n < k {
            let f = s.subrange(j, k);
            assert(s[n] == f[n - j]);
            if n > j {
                assert(f[n - j] == f.skip(1)[n - j - 1]);
                assert(is_digit(s[n]));
            }
            assert(number_byte(s[n]));
        } else {
            let e = s.skip(k);
            assert(s[n] == e[n - k]);
            if n > k {
                assert(e[n - k] == e.skip(1)[n - k - 1]);
                if n > k + 1 {
                    assert(e[n - k] == e.skip(2)[n - k - 2]);
                }
            }
        }
    }
    assert(s.subrange(i, j).len() > 0);
    if i > 0 {
        assert(s[0] == s.take(i)[0]);
    } else {
        assert(s[0] == s.subrange(i, j)[0]);
    }
}

proof fn lemma_number_stops(body: Seq<u8>, i: int, j: int)
    requires
        0 <= i <= j <= body.len(),
        forall|n: int| i <= n < j ==> number_byte(#[trigger] body[n]),
        j == body.len() || !number_byte(body[j]),
    ensures
        number_end(body, i) == j,
    decreases j - i,
{
    if i < j {
        lemma_number_stops(body, i + 1, j);
    }
}

// ---------------------------------------------------------------------------
// Nesting
// ---------------------------------------------------------------------------

/// Whether two bytes are the brackets of an array or those of an object.
pub open spec fn brackets(open: u8, close: u8) -> bool {
    (open == 0x5B && close == 0x5D) || (open == 0x7B && close == 0x7D)
}

/// Seen inside brackets, what stands between two positions does not matter.
spec fn passed(body: Seq<u8>, i: int, j: int, depth: int, open: u8, close: u8) -> bool {
    bracket_end(body, i, depth, open, close) == bracket_end(body, j, depth, open, close)
}

/// Bytes that are neither quotes nor brackets are passed.
proof fn lemma_pass_bytes(body: Seq<u8>, i: int, j: int, depth: int, open: u8, close: u8)
    requires
        0 <= i <= j <= body.len(),
        forall|n: int|
            i <= n < j ==> (#[trigger] body[n]) != 0x22 && body[n] != open && body[n] != close,
    ensures
        passed(body, i, j, depth, open, close),
    decreases j - i,
{
    if i < j {
        lemma_pass_bytes(body, i + 1, j, depth, open, close);
    }
}

proof fn lemma_pass_blank(body: Seq<u8>, i: int, j: int, depth: int, open: u8, close: u8)
    requires
        0 <= i <= j <= body.len(),
        is_blank(body.subrange(i, j)),
        brackets(open, close),
    ensures
        passed(body, i, j, depth, open, close),
{
    let s = body.subrange(i, j);
    assert forall|n: int| i <= n < j implies (#[trigger] body[n]) != 0x22 && body[n] != open
        && body[n] != close by {
        assert(body[n] == s[n - i]);
    }
    lemma_pass_bytes(body, i, j, depth, open, close);
}

proof fn lemma_pass_text(body: Seq<u8>, i: int, j: int, depth: int, open: u8, close: u8)
    requires
        0 <= i <= j <= body.len(),
        is_text(body.subrange(i, j)),
        brackets(open, close),
    ensures
        passed(body, i, j, depth, open, close),
{
    lemma_text(body, i, j);
}

proof fn lemma_pass_value(body: Seq<u8>, i: int, j: int, depth: int, open: u8, close: u8)
    requires
        0 <= i <= j <= body.len(),
        is_value(body.subrange(i, j)),
        brackets(open, close),
        depth >= 1,
    ensures
        passed(body, i, j, depth, open, close),
    decreases j - i, 0int,
{
    let s = body.subrange(i, j);
    if s == true_bytes() || s == false_bytes() || s == null_bytes() {
        assert forall|n: int| i <= n < j implies (#[trigger] body[n]) != 0x22 && body[n] != open
            && body[n] != close by {
            assert(body[n] == s[n - i]);
        }
        lemma_pass_bytes(body, i, j, depth, open, close);
    } else if is_number(s) {
        lemma_number_bytes(s);
        assert forall|n: int| i <= n < j implies (#[trigger] body[n]) != 0x22 && body[n] != open
            && body[n] != close by {
            assert(body[n] == s[n - i]);
        }
        lemma_pass_bytes(body, i, j, depth, open, close);
    } else if is_text(s) {
        lemma_pass_text(body, i, j, depth, open, close);
    } else {
        assert(s[0] == body[i]);
        assert(s.last() == body[j - 1]);
        let inner = if body[i] == open {
            depth + 1
        } else {
            depth
        };
        lemma_pass_inside(body, i, j, inner, open, close);
        assert(bracket_end(body, i, depth, open, close) == bracket_end(
            body,
            i + 1,
            inner,
            open,
            close,
        ));
        assert(bracket_end(body, j - 1, inner, open, close) == bracket_end(
            body,
            j,
            depth,
            open,
            close,
        ));
    }
}

/// What stands inside the brackets of an array or an object is passed.
proof fn lemma_pass_inside(body: Seq<u8>, i: int, j: int, depth: int, open: u8, close: u8)
    requires
        0 <= i <= j <= body.len(),
        is_value(body.subrange(i, j)),
        body.subrange(i, j)[0] == 0x5B || body.subrange(i, j)[0] == 0x7B,
        brackets(open, close),
        depth >= 1,
    ensures
        i + 2 <= j,
        body[i] == 0x5B ==> body[j - 1] == 0x5D,
        body[i] == 0x7B ==> body[j - 1] == 0x7D,
        passed(body, i + 1, j - 1, depth, open, close),
    decreases j - i - 1, 3int,
{
    let s = body.subrange(i, j);
    if is_number(s) {
        lemma_number_bytes(s);
    }
    assert(s != true_bytes() && s != false_bytes() && s != null_bytes());
    assert(s[0] == body[i]);
    assert(s.last() == body[j - 1]);
    let t = s.subrange(1, s.len() - 1);
    assert(t =~= body.subrange(i + 1, j - 1));
    if is_blank(t) {
        lemma_pass_blank(body, i + 1, j - 1, depth, open, close);
    } else if s[0] == 0x5B {
        lemma_pass_items(body, i + 1, j - 1, depth, open, close);
    } else {
        lemma_pass_members(body, i + 1, j - 1, depth, open, close);
    }
}

proof fn lemma_pass_padded(body: Seq<u8>, i: int, j: int, depth: int, open: u8, close: u8)
    requires
        0 <= i <= j <= body.len(),
        is_padded(body.subrange(i, j)),
        brackets(open, close),
        depth >= 1,
    ensures
        passed(body, i, j, depth, open, close),
    decreases j - i, 1int,
{
    let s = body.subrange(i, j);
    let (p, q) = choose|p: int, q: int|
        {
            &&& 0 <= p <= q <= s.len()
            &&& is_blank(s.take(p))
            &&& is_blank(s.skip(q))
            &&& is_value(#[trigger] s.subrange(p, q))
        };
    lemma_cut(body, i, j, p);
    lemma_cut(body, i, j, q);
    assert(s.subrange(p, q) =~= body.subrange(i + p, i + q));
    lemma_pass_blank(body, i, i + p, depth, open, close);
    lemma_pass_value(body, i + p, i + q, depth, open, close);
    lemma_pass_blank(body, i + q, j, depth, open, close);
}

proof fn lemma_pass_items(body: Seq<u8>, i: int, j: int, depth: int, open: u8, close: u8)
    requires
        0 <= i <= j <= body.len(),
        is_items(body.subrange(i, j)),
        brackets(open, close),
        depth >= 1,
    ensures
        passed(body, i, j, depth, open, close),
    decreases j - i, 2int,
{
    let s = body.subrange(i, j);
    if is_padded(s) {
        lemma_pass_padded(body, i, j, depth, open, close);
    } else {
        let k = choose|k: int|
            {
                &&& 0 <= k < s.len()
                &&& #[trigger] s[k] == 0x2C
                &&& is_padded(s.take(k))
                &&& is_items(s.skip(k + 1))
            };
        lemma_cut(body, i, j, k);
        lemma_cut(body, i, j, k + 1);
        assert(body[i + k] == s[k]);
        lemma_pass_padded(body, i, i + k, depth, open, close);
        lemma_pass_items(body, i + k + 1, j, depth, open, close);
    }
}

proof fn lemma_pass_member(body: Seq<u8>, i: int, j: int, depth: int, open: u8, close: u8)
    requires
        0 <= i <= j <= body.len(),
        is_member(body.subrange(i, j)),
        brackets(open, close),
        depth >= 1,
    ensures
        passed(body, i, j, depth, open, close),
    decreases j - i, 1int,
{
    let s = body.subrange(i, j);
    let k = choose|k: int|
        {
            &&& 0 <= k < s.len()
            &&& #[trigger] s[k] == 0x3A
            &&& is_padded_text(s.take(k))
            &&& is_padded(s.skip(k + 1))
        };
    lemma_cut(body, i, j, k);
    lemma_cut(body, i, j, k + 1);
    assert(body[i + k] == s[k]);
    let name = s.take(k);
    let (p, q) = choose|p: int, q: int|
        {
            &&& 0 <= p <= q <= name.len()
            &&& is_blank(name.take(p))
            &&& is_blank(name.skip(q))
            &&& is_text(#[trigger] name.subrange(p, q))
        };
    lemma_cut(body, i, i + k, p);
    lemma_cut(body, i, i + k, q);
    assert(name.subrange(p, q) =~= body.subrange(i + p, i + q));
    lemma_pass_blank(body, i, i + p, depth, open, close);
    lemma_pass_text(body, i + p, i + q, depth, open, close);
    lemma_pass_blank(body, i + q, i + k, depth, open, close);
    lemma_pass_padded(body, i + k + 1, j, depth, open, close);
}

proof fn lemma_pass_members(body: Seq<u8>, i: int, j: int, depth: int, open: u8, close: u8)
    requires
        0 <= i <= j <= body.len(),
        is_members(body.subrange(i, j)),
        brackets(open, close),
        depth >= 1,
    ensures
        passed(body, i, j, depth, open, close),
    decreases j - i, 2int,
{
    let s = body.subrange(i, j);
    if is_member(s) {
        lemma_pass_member(body, i, j, depth, open, close);
    } else {
        let k = choose|k: int|
            {
                &&& 0 <= k < s.len()
                &&& #[trigger] s[k] == 0x2C
                &&& is_member(s.take(k))
                &&& is_members(s.skip(k + 1))
            };
        lemma_cut(body, i, j, k);
        lemma_cut(body, i, j, k + 1);
        assert(body[i + k] == s[k]);
        lemma_pass_member(body, i, i + k, depth, open, close);
        lemma_pass_members(body, i + k + 1, j, depth, open, close);
    }
}

// ---------------------------------------------------------------------------
// The law
// ---------------------------------------------------------------------------

/// The end of a complete JSON value is found, whatever follows it; a number
/// must not be followed by a byte that could belong to it.
pub proof fn end_of_a_value_is_found(body: Seq<u8>, i: int, j: int)
    requires
        0 <= i <= j <= body.len(),
        is_value(body.subrange(i, j)),
        is_number(body.subrange(i, j)) ==> j == body.len() || !number_byte(body[j]),
    ensures
        value_end(body, i) == Some(j),
{
    let s = body.subrange(i, j);
    if s == true_bytes() || s == false_bytes() || s == null_bytes() {
        assert(s[0] == body[i]);
    } else if is_number(s) {
        lemma_number_bytes(s);
        assert(s[0] == body[i]);
        assert forall|n: int| i <= n < j implies number_byte(#[trigger] body[n]) by {
            assert(body[n] == s[n - i]);
        }
        lemma_number_stops(body, i, j);
    } else if is_text(s) {
        lemma_text(body, i, j);
    } else {
        let open = s[0];
        let close = s.last();
        assert(open == body[i]);
        assert(close == body[j - 1]);
        lemma_pass_inside(body, i, j, 1, open, close);
    }
}

} // verus!
