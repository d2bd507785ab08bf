//! The scanner on a body that is a JSON object, as it is written down.
use vstd::prelude::*;

use super::passthrough::{
    after_space, is_named, lemma_member_at, member_at, members_from, named, number_byte,
    object_members, only_string_span, plain, plain_byte, rewritten, spells, spliced, MemberAt,
};
use super::scanning::{end_of_a_value_is_found, lemma_text};
use crate::error::remodelled;
use crate::grammar::{is_blank, is_space, is_string_content, is_text, is_value};

verus! {

/// A value between quotes.
pub open spec fn quoted(value: Seq<u8>) -> Seq<u8> {
    seq![0x22u8] + value + seq![0x22u8]
}

/// A member as it is written: a name in quotes and a value, with white space
/// before and behind each.
pub struct WrittenMember {
    pub lead: Seq<u8>,
    pub name: Seq<u8>,
    pub before_colon: Seq<u8>,
    pub after_colon: Seq<u8>,
    pub value: Seq<u8>,
    pub tail: Seq<u8>,
}

impl WrittenMember {
    #[verifier::opaque]
    pub open spec fn valid(self) -> bool {
        &&& is_blank(self.lead)
        &&& is_text(self.name)
        &&& is_blank(self.before_colon)
        &&& is_blank(self.after_colon)
        &&& is_value(self.value)
        &&& is_blank(self.tail)
    }

    /// The bytes up to the value.
    pub open spec fn head(self) -> Seq<u8> {
        self.lead + self.name + self.before_colon + seq![0x3Au8] + self.after_colon
    }

    pub open spec fn bytes(self) -> Seq<u8> {
        self.head() + self.value + self.tail
    }

    /// Where the parts of the member lie, where it is written at `at`.
    pub open spec fn placed(self, at: int) -> MemberAt {
        MemberAt {
            name_start: at + self.lead.len() + 1,
            name_end: at + self.lead.len() + self.name.len() - 1,
            value_start: at + self.head().len(),
            value_end: at + self.head().len() + self.value.len(),
        }
    }
}

/// A JSON object as it is written: its members in braces, with white space
/// before and behind.
pub struct WrittenObject {
    pub lead: Seq<u8>,
    pub members: Seq<WrittenMember>,
    pub tail: Seq<u8>,
}

impl WrittenObject {
    /// Whether this is an object with at least one member.
    pub open spec fn valid(self) -> bool {
        &&& is_blank(self.lead)
        &&& is_blank(self.tail)
        &&& self.members.len() > 0
        &&& forall|k: int| 0 <= k < self.members.len() ==> (#[trigger] self.members[k]).valid()
    }

    /// What stands before the member `k`: the brace, and each earlier member
    /// with its comma.
    pub open spec fn up_to(self, k: nat) -> Seq<u8>
        decreases k,
    {
        if k == 0 {
            self.lead + seq![0x7Bu8]
        } else {
            self.up_to((k - 1) as nat) + self.members[k - 1].bytes() + seq![0x2Cu8]
        }
    }

    /// The body.
    pub open spec fn bytes(self) -> Seq<u8> {
        self.up_to((self.members.len() - 1) as nat) + self.members.last().bytes() + seq![0x7Du8]
            + self.tail
    }

    /// Where the members lie in the body.
    pub open spec fn placed(self) -> Seq<MemberAt> {
        Seq::new(
            self.members.len(),
            |k: int| self.members[k].placed(self.up_to(k as nat).len() as int),
        )
    }
}

proof fn lemma_skip_blank(body: Seq<u8>, i: int, j: int)
    requires
        0 <= i <= j < body.len(),
        is_blank(body.subrange(i, j)),
        !is_space(body[j]),
    ensures
        after_space(body, i) == j,
    decreases j - i,
{
    if i < j {
        let s = body.subrange(i, j);
        assert(s[0] == body[i]);
        assert forall|k: int| 0 <= k < j - i - 1 implies is_space(
            #[trigger] body.subrange(i + 1, j)[k],
        ) by {
            assert(body.subrange(i + 1, j)[k] == s[k + 1]);
        }
        lemma_skip_blank(body, i + 1, j);
    }
}

proof fn lemma_skip_to_end(body: Seq<u8>, i: int)
    requires
        0 <= i <= body.len(),
        is_blank(body.subrange(i, body.len() as int)),
    ensures
        after_space(body, i) == body.len(),
    decreases body.len() - i,
{
    if i < body.len() {
        let s = body.subrange(i, body.len() as int);
        assert(s[0] == body[i]);
        let t = body.subrange(i + 1, body.len() as int);
        assert forall|k: int| 0 <= k < t.len() implies is_space(#[trigger] t[k]) by {
            assert(t[k] == s[k + 1]);
        }
        lemma_skip_to_end(body, i + 1);
    }
}

/// A value starts with no white space, and only a string with a quote.
proof fn lemma_value_start(s: Seq<u8>)
    requires
        is_value(s),
    ensures
        s.len() > 0,
        !is_space(s[0]),
        s[0] == 0x22 <==> is_text(s),
{
    if crate::grammar::is_number(s) {
        super::scanning::lemma_number_bytes(s);
    }
}

/// A member is found where it is written.
proof fn lemma_member(body: Seq<u8>, at: int, m: WrittenMember)
    requires
        m.valid(),
        0 <= at,
        at + m.bytes().len() < body.len(),
        body.subrange(at, at + m.bytes().len()) == m.bytes(),
        body[at + m.bytes().len()] == 0x2C || body[at + m.bytes().len()] == 0x7D,
    ensures
        member_at(body, at) == Some(m.placed(at)),
        after_space(body, m.placed(at).value_end) == at + m.bytes().len(),
        body.subrange(m.placed(at).name_start - 1, m.placed(at).name_end + 1) == m.name,
        body.subrange(m.placed(at).value_start, m.placed(at).value_end) == m.value,
{
    reveal(WrittenMember::valid);
    let s = m.bytes();
    let p = m.placed(at);
    let quote = at + m.lead.len();
    let colon = quote + m.name.len() + m.before_colon.len();
    let end = at + s.len();
    let n = m.name.len() as int;
    lemma_part(body, at, s, 0, m.lead.len() as int);
    assert(s.subrange(0, m.lead.len() as int) =~= m.lead);
    lemma_part(body, at, s, m.lead.len() as int, m.lead.len() + n);
    assert(s.subrange(m.lead.len() as int, m.lead.len() + n) =~= m.name);
    lemma_text(body, quote, quote + n);
    lemma_skip_blank(body, at, quote);
    lemma_part(body, at, s, m.lead.len() + n, colon - at);
    assert(s.subrange(m.lead.len() + n, colon - at) =~= m.before_colon);
    assert(body[colon] == s[colon - at]);
    lemma_skip_blank(body, quote + n, colon);
    lemma_value_start(m.value);
    lemma_part(body, at, s, colon + 1 - at, p.value_start - at);
    assert(s.subrange(colon + 1 - at, p.value_start - at) =~= m.after_colon);
    lemma_part(body, at, s, p.value_start - at, p.value_end - at);
    assert(s.subrange(p.value_start - at, p.value_end - at) =~= m.value);
    assert(body[p.value_start] == m.value[0]) by {
        assert(body.subrange(p.value_start, p.value_end)[0] == body[p.value_start]);
    }
    lemma_skip_blank(body, colon + 1, p.value_start);
    lemma_part(body, at, s, p.value_end - at, s.len() as int);
    assert(s.subrange(p.value_end - at, s.len() as int) =~= m.tail);
    if m.tail.len() > 0 {
        assert(is_space(m.tail[0]));
        assert(body.subrange(p.value_end, end)[0] == body[p.value_end]);
    }
    assert(!number_byte(body[p.value_end]));
    end_of_a_value_is_found(body, p.value_start, p.value_end);
    lemma_skip_blank(body, p.value_end, end);
}

/// A part of what is written at `at`.
proof fn lemma_part(body: Seq<u8>, at: int, s: Seq<u8>, i: int, j: int)
    requires
        0 <= at,
        at + s.len() <= body.len(),
        body.subrange(at, at + s.len()) == s,
        0 <= i <= j <= s.len(),
    ensures
        body.subrange(at + i, at + j) == s.subrange(i, j),
        forall|k: int| 0 <= k < s.len() ==> body[at + k] == #[trigger] s[k],
{
    assert forall|k: int| 0 <= k < s.len() implies body[at + k] == #[trigger] s[k] by {
        assert(body.subrange(at, at + s.len())[k] == body[at + k]);
    }
    assert(body.subrange(at + i, at + j) =~= s.subrange(i, j));
}

/// The body begins with what stands before each member, and the member and its
/// comma or brace follow.
proof fn lemma_layout(o: WrittenObject, k: nat)
    requires
        o.valid(),
        k < o.members.len(),
    ensures
        ({
            let body = o.bytes();
            let at = o.up_to(k).len() as int;
            let m = o.members[k as int].bytes();
            &&& at + m.len() < body.len()
            &&& body.take(at) == o.up_to(k)
            &&& body.subrange(at, at + m.len()) == m
            &&& body[at + m.len()] == (if k + 1 < o.members.len() {
                0x2Cu8
            } else {
                0x7Du8
            })
        }),
    decreases o.members.len() - k,
{
    let body = o.bytes();
    let at = o.up_to(k).len() as int;
    let m = o.members[k as int].bytes();
    if k + 1 == o.members.len() {
        assert(body.take(at) =~= o.up_to(k));
        assert(body.subrange(at, at + m.len()) =~= m);
    } else {
        lemma_layout(o, k + 1);
        let next = o.up_to(k + 1);
        assert(next =~= o.up_to(k) + m + seq![0x2Cu8]);
        assert(body.take(at) =~= next.take(at));
        assert(next.take(at) =~= o.up_to(k));
        assert(body.subrange(at, at + m.len()) =~= next.subrange(at, at + m.len()));
        assert(next.subrange(at, at + m.len()) =~= m);
        assert(body[at + m.len()] == body.take(next.len() as int)[at + m.len()]);
    }
}

/// One step from a member to the next.
proof fn lemma_step(body: Seq<u8>, at: int, p: MemberAt, end: int)
    requires
        0 <= at,
        member_at(body, at) == Some(p),
        after_space(body, p.value_end) == end,
        end < body.len(),
    ensures
        body[end] == 0x2C ==> members_from(body, at) == (match members_from(body, end + 1) {
            Some(rest) => Some(seq![p] + rest),
            None => None,
        }),
        body[end] == 0x7D && after_space(body, end + 1) == body.len() ==> members_from(body, at)
            == Some(seq![p]),
{
}

proof fn lemma_placed(o: WrittenObject, k: int)
    requires
        0 <= k < o.members.len(),
    ensures
        o.placed().skip(k) == seq![o.members[k].placed(o.up_to(k as nat).len() as int)]
            + o.placed().skip(k + 1),
        k + 1 == o.members.len() ==> o.placed().skip(k) == seq![
            o.members[k].placed(o.up_to(k as nat).len() as int),
        ],
{
    let p = o.members[k].placed(o.up_to(k as nat).len() as int);
    assert(o.placed()[k] == p);
    assert(o.placed().skip(k) =~= seq![p] + o.placed().skip(k + 1));
    if k + 1 == o.members.len() {
        assert(o.placed().skip(k) =~= seq![p]);
    }
}

proof fn lemma_tail(o: WrittenObject)
    requires
        o.valid(),
    ensures
        ({
            let last = (o.members.len() - 1) as nat;
            let end = o.up_to(last).len() as int + o.members[last as int].bytes().len();
            after_space(o.bytes(), end + 1) == o.bytes().len()
        }),
{
    let last = (o.members.len() - 1) as nat;
    let end = o.up_to(last).len() as int + o.members[last as int].bytes().len();
    let body = o.bytes();
    assert(body.subrange(end + 1, body.len() as int) =~= o.tail);
    lemma_skip_to_end(body, end + 1);
}

/// One step from the member `k` to what follows it.
proof fn lemma_next(o: WrittenObject, k: nat)
    requires
        o.valid(),
        k < o.members.len(),
    ensures
        ({
            let at = o.up_to(k).len() as int;
            let p = o.members[k as int].placed(at);
            if k + 1 < o.members.len() {
                members_from(o.bytes(), at) == (match members_from(
                    o.bytes(),
                    o.up_to(k + 1).len() as int,
                ) {
                    Some(rest) => Some(seq![p] + rest),
                    None => None,
                })
            } else {
                members_from(o.bytes(), at) == Some(seq![p])
            }
        }),
{
    let body = o.bytes();
    let at = o.up_to(k).len() as int;
    let m = o.members[k as int];
    let end = at + m.bytes().len();
    lemma_layout(o, k);
    lemma_member(body, at, m);
    lemma_step(body, at, m.placed(at), end);
    if k + 1 < o.members.len() {
        assert(o.up_to(k + 1).len() == end + 1);
    } else {
        lemma_tail(o);
    }
}

proof fn lemma_members(o: WrittenObject, k: nat)
    requires
        o.valid(),
        k < o.members.len(),
    ensures
        members_from(o.bytes(), o.up_to(k).len() as int) == Some(o.placed().skip(k as int)),
    decreases o.members.len() - k,
{
    lemma_next(o, k);
    lemma_placed(o, k as int);
    if k + 1 < o.members.len() {
        lemma_members(o, k + 1);
    }
}

/// The members of a written object are found where they are written: each with
/// its name in quotes and its value, and no others.
pub proof fn members_are_found_where_they_are_written(o: WrittenObject)
    requires
        o.valid(),
    ensures
        object_members(o.bytes()) == Some(o.placed()),
        forall|k: int|
            0 <= k < o.members.len() ==> {
                let p = #[trigger] o.placed()[k];
                &&& 0 < p.name_start <= p.name_end < p.value_start < p.value_end <= o.bytes().len()
                &&& o.bytes().subrange(p.name_start - 1, p.name_end + 1) == o.members[k].name
                &&& o.bytes().subrange(p.value_start, p.value_end) == o.members[k].value
            },
{
    let body = o.bytes();
    lemma_layout(o, 0);
    lemma_members(o, 0);
    let brace = o.lead.len() as int;
    let first = o.up_to(0);
    assert(first.len() == brace + 1);
    assert(body[brace] == body.take(brace + 1)[brace]);
    assert(body.subrange(0, brace) =~= body.take(brace + 1).take(brace));
    assert(first.take(brace) =~= o.lead);
    lemma_skip_blank(body, 0, brace);
    assert(o.placed().skip(0) =~= o.placed());
    assert forall|k: int| 0 <= k < o.members.len() implies ({
        let p = #[trigger] o.placed()[k];
        &&& 0 < p.name_start <= p.name_end < p.value_start < p.value_end <= body.len()
        &&& body.subrange(p.name_start - 1, p.name_end + 1) == o.members[k].name
        &&& body.subrange(p.value_start, p.value_end) == o.members[k].value
    }) by {
        lemma_layout(o, k as nat);
        lemma_member(body, o.up_to(k as nat).len() as int, o.members[k]);
        lemma_member_at(body, o.up_to(k as nat).len() as int);
    }
}

proof fn lemma_one_named(body: Seq<u8>, placed: Seq<MemberAt>, name: Seq<char>, k: int)
    requires
        0 <= k < placed.len(),
        forall|j: int|
            0 <= j < placed.len() ==> is_named(body, #[trigger] placed[j], name) == (j == k),
    ensures
        named(body, placed, name) == seq![placed[k]],
    decreases placed.len(),
{
    let rest = placed.drop_first();
    assert(is_named(body, placed[0], name) == (0 == k));
    if k == 0 {
        assert forall|j: int| 0 <= j < rest.len() implies !is_named(
            body,
            #[trigger] rest[j],
            name,
        ) by {
            assert(rest[j] == placed[j + 1]);
        }
        lemma_none_named(body, rest, name);
        assert(named(body, placed, name) =~= seq![placed[k]]);
    } else {
        assert forall|j: int| 0 <= j < rest.len() implies is_named(body, #[trigger] rest[j], name)
            == (j == k - 1) by {
            assert(rest[j] == placed[j + 1]);
        }
        lemma_one_named(body, rest, name, k - 1);
    }
}

proof fn lemma_none_named(body: Seq<u8>, placed: Seq<MemberAt>, name: Seq<char>)
    requires
        forall|j: int| 0 <= j < placed.len() ==> !is_named(body, #[trigger] placed[j], name),
    ensures
        named(body, placed, name) == Seq::<MemberAt>::empty(),
    decreases placed.len(),
{
    if placed.len() > 0 {
        let rest = placed.drop_first();
        assert forall|j: int| 0 <= j < rest.len() implies !is_named(
            body,
            #[trigger] rest[j],
            name,
        ) by {
            assert(rest[j] == placed[j + 1]);
        }
        lemma_none_named(body, rest, name);
    }
}

/// In a written object where only the member `k` spells `name`, its value is
/// found if it is a string and the name is written without escapes, and nothing
/// is found if not.
pub proof fn only_string_of_the_name_is_found(o: WrittenObject, name: Seq<char>, k: int)
    requires
        o.valid(),
        0 <= k < o.members.len(),
        forall|j: int|
            0 <= j < o.members.len() ==> spells(
                (#[trigger] o.members[j]).name,
                name,
            ) == (j == k),
    ensures
        only_string_span(o.bytes(), name) == (if is_text(o.members[k].value) && o.members[k].name
            == quoted(vstd::utf8::encode_utf8(name)) {
            Some((o.placed()[k].value_start, o.placed()[k].value_end))
        } else {
            None
        }),
        o.bytes().subrange(o.placed()[k].value_start, o.placed()[k].value_end)
            == o.members[k].value,
{
    let names = Seq::new(o.members.len(), |j: int| o.members[j].name);
    members_are_found_where_they_are_written(o);
    assert forall|j: int| 0 <= j < names.len() implies spells(
        #[trigger] names[j],
        name,
    ) == (j == k) by {
        assert(names[j] == o.members[j].name);
    }
    assert forall|j: int| 0 <= j < names.len() implies ({
        let p = #[trigger] o.placed()[j];
        o.bytes().subrange(p.name_start - 1, p.name_end + 1) == names[j]
    }) by {
        assert(names[j] == o.members[j].name);
    }
    assert(is_text(names[k]) && is_value(o.members[k].value)) by {
        reveal(WrittenMember::valid);
        assert(o.members[k].valid());
    }
    lemma_found(o.bytes(), o.placed(), names, name, k, o.members[k].value);
}

proof fn lemma_found(
    body: Seq<u8>,
    placed: Seq<MemberAt>,
    names: Seq<Seq<u8>>,
    name: Seq<char>,
    k: int,
    value: Seq<u8>,
)
    requires
        object_members(body) == Some(placed),
        names.len() == placed.len(),
        0 <= k < placed.len(),
        forall|j: int|
            0 <= j < names.len() ==> {
                let p = #[trigger] placed[j];
                body.subrange(p.name_start - 1, p.name_end + 1) == names[j]
            },
        forall|j: int|
            0 <= j < names.len() ==> spells(#[trigger] names[j], name) == (j
                == k),
        0 < placed[k].name_start <= placed[k].name_end < placed[k].value_start
            < placed[k].value_end <= body.len(),
        is_text(names[k]),
        body.subrange(placed[k].value_start, placed[k].value_end) == value,
        is_value(value),
    ensures
        only_string_span(body, name) == (if is_text(value) && names[k] == quoted(
            vstd::utf8::encode_utf8(name),
        ) {
            Some((placed[k].value_start, placed[k].value_end))
        } else {
            None
        }),
{
    assert forall|j: int| 0 <= j < placed.len() implies is_named(body, #[trigger] placed[j], name)
        == (j == k) by {
        assert(spells(names[j], name) == (j == k));
    }
    lemma_one_named(body, placed, name, k);
    lemma_value_start(value);
    assert(value[0] == body[placed[k].value_start]);
    let p = placed[k];
    let bytes = vstd::utf8::encode_utf8(name);
    let raw = body.subrange(p.name_start, p.name_end);
    assert(raw =~= names[k].subrange(1, names[k].len() - 1));
    assert(names[k] =~= quoted(raw));
    assert(quoted(bytes).subrange(1, quoted(bytes).len() - 1) =~= bytes);
}

proof fn lemma_some_named(body: Seq<u8>, placed: Seq<MemberAt>, name: Seq<char>, k: int)
    requires
        0 <= k < placed.len(),
        is_named(body, placed[k], name),
    ensures
        named(body, placed, name).len() >= 1,
    decreases placed.len(),
{
    if k > 0 {
        assert(placed.drop_first()[k - 1] == placed[k]);
        lemma_some_named(body, placed.drop_first(), name, k - 1);
    }
}

proof fn lemma_two_named(body: Seq<u8>, placed: Seq<MemberAt>, name: Seq<char>, j: int, k: int)
    requires
        0 <= j < k < placed.len(),
        is_named(body, placed[j], name),
        is_named(body, placed[k], name),
    ensures
        named(body, placed, name).len() >= 2,
    decreases placed.len(),
{
    let rest = placed.drop_first();
    assert(rest[k - 1] == placed[k]);
    if j == 0 {
        lemma_some_named(body, rest, name, k - 1);
    } else {
        assert(rest[j - 1] == placed[j]);
        lemma_two_named(body, rest, name, j - 1, k - 1);
    }
}

/// Where two members of a written object spell the same name, with escapes or
/// without, nothing is found under it.
pub proof fn doubled_name_is_not_found(o: WrittenObject, name: Seq<char>, j: int, k: int)
    requires
        o.valid(),
        0 <= j < k < o.members.len(),
        spells(o.members[j].name, name),
        spells(o.members[k].name, name),
    ensures
        only_string_span(o.bytes(), name) is None,
{
    members_are_found_where_they_are_written(o);
    let body = o.bytes();
    let placed = o.placed();
    let a = placed[j];
    let b = placed[k];
    assert(body.subrange(a.name_start - 1, a.name_end + 1) == o.members[j].name);
    assert(body.subrange(b.name_start - 1, b.name_end + 1) == o.members[k].name);
    lemma_two_named(body, placed, name, j, k);
}

/// Where no member of a written object spells a name, nothing is found under
/// it.
pub proof fn absent_name_is_not_found(o: WrittenObject, name: Seq<char>)
    requires
        o.valid(),
        forall|j: int|
            0 <= j < o.members.len() ==> !spells((#[trigger] o.members[j]).name, name),
    ensures
        only_string_span(o.bytes(), name) is None,
{
    members_are_found_where_they_are_written(o);
    let body = o.bytes();
    let placed = o.placed();
    assert forall|j: int| 0 <= j < placed.len() implies !is_named(
        body,
        #[trigger] placed[j],
        name,
    ) by {
        assert(body.subrange(placed[j].name_start - 1, placed[j].name_end + 1)
            == o.members[j].name);
    }
    lemma_none_named(body, placed, name);
}

/// A body whose only `model` is written with escapes in its name is parsed and
/// printed again.
pub proof fn escaped_name_is_printed_again(o: WrittenObject, k: int, model: Seq<char>)
    requires
        o.valid(),
        0 <= k < o.members.len(),
        forall|j: int|
            0 <= j < o.members.len() ==> spells((#[trigger] o.members[j]).name, "model"@) == (j
                == k),
        o.members[k].name != quoted(vstd::utf8::encode_utf8("model"@)),
    ensures
        rewritten(o.bytes(), model) == remodelled(
            o.bytes(),
            model,
            "Anthropic Messages request body must be a JSON object"@,
        ),
{
    only_string_of_the_name_is_found(o, "model"@, k);
}

// ---------------------------------------------------------------------------
// Splicing
// ---------------------------------------------------------------------------

impl WrittenObject {
    /// What stands behind the member `k`.
    pub open spec fn behind(self, k: int) -> Seq<u8>
        decreases self.members.len() - k,
    {
        if k + 1 >= self.members.len() {
            seq![0x7Du8] + self.tail
        } else {
            seq![0x2Cu8] + self.members[k + 1].bytes() + self.behind(k + 1)
        }
    }

    /// The object with another value of the member `k`.
    pub open spec fn with_value(self, k: int, value: Seq<u8>) -> WrittenObject {
        WrittenObject {
            members: self.members.update(k, WrittenMember { value, ..self.members[k] }),
            ..self
        }
    }
}

/// The body around a member.
proof fn lemma_around(o: WrittenObject, k: int)
    requires
        0 <= k < o.members.len(),
    ensures
        o.bytes() == o.up_to(k as nat) + o.members[k].bytes() + o.behind(k),
    decreases o.members.len() - k,
{
    if k + 1 == o.members.len() {
        assert(o.bytes() =~= o.up_to(k as nat) + o.members[k].bytes() + o.behind(k));
    } else {
        lemma_around(o, k + 1);
        assert(o.up_to((k + 1) as nat) == o.up_to(k as nat) + o.members[k].bytes() + seq![0x2Cu8]);
        assert(o.bytes() =~= o.up_to(k as nat) + o.members[k].bytes() + o.behind(k));
    }
}

proof fn lemma_same_before(o: WrittenObject, k: int, value: Seq<u8>, j: nat)
    requires
        j <= k < o.members.len(),
    ensures
        o.with_value(k, value).up_to(j) == o.up_to(j),
    decreases j,
{
    if j > 0 {
        lemma_same_before(o, k, value, (j - 1) as nat);
        assert(o.with_value(k, value).members[j - 1] == o.members[j - 1]);
    }
}

proof fn lemma_same_behind(o: WrittenObject, k: int, value: Seq<u8>, j: int)
    requires
        0 <= k <= j < o.members.len(),
    ensures
        o.with_value(k, value).behind(j) == o.behind(j),
    decreases o.members.len() - j,
{
    if j + 1 < o.members.len() {
        lemma_same_behind(o, k, value, j + 1);
        assert(o.with_value(k, value).members[j + 1] == o.members[j + 1]);
    }
}

proof fn lemma_plain_content(value: Seq<u8>)
    requires
        plain(value),
    ensures
        is_string_content(value),
    decreases value.len(),
{
    if value.len() > 0 {
        let rest = value.skip(1);
        assert(plain_byte(value[0]));
        assert forall|i: int| 0 <= i < rest.len() implies plain_byte(#[trigger] rest[i]) by {
            assert(rest[i] == value[i + 1]);
        }
        lemma_plain_content(rest);
    }
}

/// Plain bytes between quotes are a string.
proof fn lemma_plain_text(value: Seq<u8>)
    requires
        plain(value),
    ensures
        is_text(quoted(value)),
        is_value(quoted(value)),
{
    lemma_plain_content(value);
    assert(quoted(value).subrange(1, quoted(value).len() - 1) =~= value);
}

/// Splicing plain bytes into a written object gives a written object again: the
/// same one, with that one value changed.
pub proof fn splice_changes_one_value(o: WrittenObject, k: int, value: Seq<u8>)
    requires
        o.valid(),
        0 <= k < o.members.len(),
        plain(value),
    ensures
        o.with_value(k, quoted(value)).valid(),
        spliced(o.bytes(), (o.placed()[k].value_start, o.placed()[k].value_end), value)
            == o.with_value(k, quoted(value)).bytes(),
{
    let new = o.with_value(k, quoted(value));
    let m = o.members[k];
    lemma_plain_text(value);
    assert forall|j: int| 0 <= j < new.members.len() implies (#[trigger] new.members[j]).valid() by {
        assert(m.valid());
        if j != k {
            assert(new.members[j] == o.members[j]);
        } else {
            reveal(WrittenMember::valid);
        }
    }
    lemma_around(o, k);
    lemma_around(new, k);
    lemma_same_before(o, k, quoted(value), k as nat);
    lemma_same_behind(o, k, quoted(value), k);
    lemma_spliced_between(
        o.bytes(),
        o.up_to(k as nat) + m.head(),
        m.value,
        m.tail + o.behind(k),
        value,
    );
    assert(o.up_to(k as nat) + m.bytes() + o.behind(k) =~= (o.up_to(k as nat) + m.head()) + m.value
        + (m.tail + o.behind(k)));
    assert(new.members[k].head() == m.head());
    assert(o.up_to(k as nat) + new.members[k].bytes() + o.behind(k) =~= (o.up_to(k as nat)
        + m.head()) + quoted(value) + (m.tail + o.behind(k)));
}

proof fn lemma_spliced_between(
    body: Seq<u8>,
    before: Seq<u8>,
    old_value: Seq<u8>,
    behind: Seq<u8>,
    value: Seq<u8>,
)
    ensures
        body == before + old_value + behind ==> spliced(
            body,
            (before.len() as int, before.len() as int + old_value.len()),
            value,
        ) == before + quoted(value) + behind,
{
    if body == before + old_value + behind {
        let start = before.len() as int;
        let end = start + old_value.len();
        assert(body.subrange(0, start) =~= before);
        assert(body.subrange(end, body.len() as int) =~= behind);
        assert(spliced(body, (start, end), value) =~= before + quoted(value) + behind);
    }
}

} // verus!
