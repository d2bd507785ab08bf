//! The scanner on the text of an array of objects, whole or cut off anywhere.
use vstd::prelude::*;

use super::stream::{
    bytes_after_the_end_are_ignored, chunk_boundaries_do_not_matter, frames, nothing_scanned,
    scan, scanning_keeps_validity, step, step_frames, Framed, Scan,
};
use crate::anthropic::passthrough::{bracket_end, lemma_bracket_end, lemma_string_end, string_end};
use crate::anthropic::scanning::end_of_a_value_is_found;
use crate::grammar::{is_blank, is_space, is_value};

verus! {

/// White space with one comma in it.
pub open spec fn separates(gap: Seq<u8>) -> bool {
    exists|c: int|
        {
            &&& 0 <= c < gap.len()
            &&& #[trigger] gap[c] == 0x2C
            &&& is_blank(gap.take(c))
            &&& is_blank(gap.skip(c + 1))
        }
}

/// The text of a JSON array of objects: what stands before the bracket, the
/// objects, and what stands before, between and behind them.
pub struct Listing {
    pub lead: Seq<u8>,
    pub objects: Seq<Seq<u8>>,
    pub gaps: Seq<Seq<u8>>,
}

impl Listing {
    /// Each object is a complete JSON value; commas stand between objects, and
    /// white space anywhere around them.
    pub open spec fn valid(self) -> bool {
        &&& is_blank(self.lead)
        &&& self.gaps.len() == self.objects.len() + 1
        &&& forall|k: int|
            0 <= k < self.objects.len() ==> (#[trigger] self.objects[k]).len() > 0
                && self.objects[k][0] == 0x7B && is_value(self.objects[k])
        &&& is_blank(self.gaps[0])
        &&& is_blank(self.gaps[self.objects.len() as int])
        &&& forall|k: int| 0 < k < self.objects.len() ==> separates(#[trigger] self.gaps[k])
    }

    /// What stands between the opening bracket and the object `k`, or the
    /// closing bracket where there is no such object.
    pub open spec fn up_to(self, k: nat) -> Seq<u8>
        decreases k,
    {
        if k == 0 {
            self.gaps[0]
        } else {
            self.up_to((k - 1) as nat) + self.objects[k - 1] + self.gaps[k as int]
        }
    }

    /// The whole text.
    pub open spec fn text(self) -> Seq<u8> {
        self.lead + seq![0x5Bu8] + self.up_to(self.objects.len()) + seq![0x5Du8]
    }

    /// Where the object `k` starts in the text.
    pub open spec fn start_of(self, k: int) -> int {
        self.lead.len() as int + 1 + self.up_to(k as nat).len()
    }

    /// Whether the first `n` bytes of the text end inside the object `k`.
    pub open spec fn cuts(self, k: int, n: int) -> bool {
        self.start_of(k) < n < self.start_of(k) + self.objects[k].len()
    }

    /// Whether the first `n` bytes of the text end inside an object.
    pub open spec fn ends_inside(self, n: int) -> bool {
        exists|k: int| 0 <= k < self.objects.len() && #[trigger] self.cuts(k, n)
    }

    /// What comes out of the scanner for the first `k` objects.
    pub open spec fn framed_objects(self, k: nat) -> Seq<Framed> {
        Seq::new(k, |i: int| Framed::Object(self.objects[i]))
    }
}

/// Whether the end of the stream is an error in a state.
pub open spec fn is_inside(s: Scan) -> bool {
    s.depth > 0 || s.in_string
}

/// The state between objects.
spec fn between() -> Scan {
    Scan { started: true, ..nothing_scanned() }
}

proof fn lemma_first(s: Scan, o: Seq<u8>, i: int, m: int)
    requires
        0 <= i < m <= o.len(),
    ensures
        scan(s, o.subrange(i, m)) == scan(step(s, o[i]), o.subrange(i + 1, m)),
        frames(s, o.subrange(i, m)) == step_frames(s, o[i]) + frames(
            step(s, o[i]),
            o.subrange(i + 1, m),
        ),
{
    let one = seq![o[i]];
    reveal_with_fuel(scan, 2);
    reveal_with_fuel(frames, 2);
    assert(one.drop_last() =~= seq![]);
    assert(frames(s, one) =~= step_frames(s, o[i]));
    assert(o.subrange(i, m) =~= one + o.subrange(i + 1, m));
    chunk_boundaries_do_not_matter(s, one, o.subrange(i + 1, m));
}

/// The state of a scanner that has also taken in the bytes of an object.
spec fn holding(s: Scan, more: Seq<u8>) -> Scan {
    Scan { buf: s.buf + more, ..s }
}

proof fn lemma_holding(s: Scan, b: u8, more: Seq<u8>)
    ensures
        holding(holding(s, seq![b]), more) == holding(s, seq![b] + more),
        s.buf.push(b) == s.buf + seq![b],
{
    assert(s.buf + seq![b] + more =~= s.buf + (seq![b] + more));
    assert(s.buf.push(b) =~= s.buf + seq![b]);
}

proof fn lemma_string(s: Scan, o: Seq<u8>, i: int, m: int)
    requires
        s.started && !s.finished && s.depth > 0 && s.in_string && !s.escape_pending,
        0 <= i <= m,
        string_end(o, i) is Some,
        m <= string_end(o, i)->0 + 1,
    ensures
        m <= o.len(),
        frames(s, o.subrange(i, m)) == Seq::<Framed>::empty(),
        scan(s, o.subrange(i, m)).depth == s.depth,
        m == string_end(o, i)->0 + 1 ==> scan(s, o.subrange(i, m)) == (Scan {
            in_string: false,
            ..holding(s, o.subrange(i, m))
        }),
    decreases o.len() + 1 - i,
{
    lemma_string_end(o, i);
    let end = string_end(o, i)->0;
    if i == m {
        assert(o.subrange(i, m) =~= seq![]);
    } else {
        let b = o[i];
        let t = step(s, b);
        lemma_first(s, o, i, m);
        lemma_holding(s, b, o.subrange(i + 1, m));
        assert(o.subrange(i, m) =~= seq![b] + o.subrange(i + 1, m));
        if b == 0x5C {
            lemma_string_end(o, i + 2);
            if m == i + 1 {
                assert(o.subrange(i + 1, m) =~= seq![]);
            } else {
                let c = o[i + 1];
                lemma_first(t, o, i + 1, m);
                lemma_holding(t, c, o.subrange(i + 2, m));
                assert(o.subrange(i + 1, m) =~= seq![c] + o.subrange(i + 2, m));
                lemma_string(step(t, c), o, i + 2, m);
                assert(s.buf.push(b).push(c) + o.subrange(i + 2, m) =~= s.buf + o.subrange(i, m));
                assert(frames(s, o.subrange(i, m)) =~= Seq::<Framed>::empty());
            }
        } else if b == 0x22 {
            assert(m == i + 1);
            assert(o.subrange(i + 1, m) =~= seq![]);
            assert(s.buf.push(b) =~= s.buf + o.subrange(i, m));
        } else {
            lemma_string(t, o, i + 1, m);
            assert(s.buf.push(b) + o.subrange(i + 1, m) =~= s.buf + o.subrange(i, m));
        }
        assert(frames(s, o.subrange(i, m)) =~= Seq::<Framed>::empty());
    }
}

proof fn lemma_braces(s: Scan, o: Seq<u8>, i: int, m: int)
    requires
        s.started && !s.finished && s.depth > 0 && !s.in_string && !s.escape_pending,
        0 <= i <= m,
        bracket_end(o, i, s.depth as int, 0x7B, 0x7D) is Some,
        m <= bracket_end(o, i, s.depth as int, 0x7B, 0x7D)->0,
    ensures
        m <= o.len(),
        m < bracket_end(o, i, s.depth as int, 0x7B, 0x7D)->0 ==> scan(
            s,
            o.subrange(i, m),
        ).depth > 0 && frames(s, o.subrange(i, m)) == Seq::<Framed>::empty(),
        m == bracket_end(o, i, s.depth as int, 0x7B, 0x7D)->0 ==> scan(s, o.subrange(i, m)) == (
        Scan { depth: 0, buf: seq![], ..s }) && frames(s, o.subrange(i, m)) == seq![
            Framed::Object(s.buf + o.subrange(i, m)),
        ],
    decreases o.len() - i,
{
    let depth = s.depth as int;
    lemma_bracket_end(o, i, depth, 0x7B, 0x7D);
    let end = bracket_end(o, i, depth, 0x7B, 0x7D)->0;
    if i == m {
        assert(o.subrange(i, m) =~= seq![]);
    } else {
        let b = o[i];
        let t = step(s, b);
        lemma_first(s, o, i, m);
        assert(o.subrange(i, m) =~= seq![b] + o.subrange(i + 1, m));
        if b == 0x7D && depth == 1 {
            assert(m == i + 1);
            assert(o.subrange(i + 1, m) =~= seq![]);
            assert(s.buf.push(b) =~= s.buf + o.subrange(i, m));
            assert(frames(s, o.subrange(i, m)) =~= seq![Framed::Object(s.buf + o.subrange(i, m))]);
        } else if b == 0x22 {
            lemma_string_end(o, i + 1);
            let quote = string_end(o, i + 1)->0;
            lemma_bracket_end(o, quote + 1, depth, 0x7B, 0x7D);
            if m <= quote + 1 {
                lemma_string(t, o, i + 1, m);
            } else {
                lemma_string(t, o, i + 1, quote + 1);
                let u = scan(t, o.subrange(i + 1, quote + 1));
                assert(o.subrange(i + 1, m) =~= o.subrange(i + 1, quote + 1) + o.subrange(
                    quote + 1,
                    m,
                ));
                chunk_boundaries_do_not_matter(
                    t,
                    o.subrange(i + 1, quote + 1),
                    o.subrange(quote + 1, m),
                );
                lemma_braces(u, o, quote + 1, m);
                assert(u.buf + o.subrange(quote + 1, m) =~= s.buf + o.subrange(i, m));
                assert(frames(t, o.subrange(i + 1, m)) =~= frames(u, o.subrange(quote + 1, m)));
            }
        } else {
            lemma_bracket_end(o, i + 1, t.depth as int, 0x7B, 0x7D);
            lemma_braces(t, o, i + 1, m);
            assert(t.buf + o.subrange(i + 1, m) =~= s.buf + o.subrange(i, m));
        }
        assert(step_frames(s, b) + frames(t, o.subrange(i + 1, m)) =~= frames(
            s,
            o.subrange(i, m),
        ));
        if !(b == 0x7D && depth == 1) {
            assert(frames(s, o.subrange(i, m)) =~= frames(t, o.subrange(i + 1, m)));
        }
    }
}

/// An object is inside until its last byte, and then comes out.
proof fn lemma_object(o: Seq<u8>, m: int)
    requires
        0 < m <= o.len(),
        o[0] == 0x7B,
        is_value(o),
    ensures
        m < o.len() ==> scan(between(), o.take(m)).depth > 0 && frames(between(), o.take(m))
            == Seq::<Framed>::empty(),
        m == o.len() ==> scan(between(), o.take(m)) == between() && frames(between(), o.take(m))
            == seq![Framed::Object(o)],
{
    assert(o.subrange(0, o.len() as int) =~= o);
    end_of_a_value_is_found(o, 0, o.len() as int);
    assert(o.take(m) =~= o.subrange(0, m));
    lemma_first(between(), o, 0, m);
    let t = step(between(), o[0]);
    lemma_braces(t, o, 1, m);
    assert(t.buf + o.subrange(1, m) =~= o.take(m));
    assert(o.take(o.len() as int) =~= o);
    assert(step_frames(between(), o[0]) + frames(t, o.subrange(1, m)) =~= frames(
        t,
        o.subrange(1, m),
    ));
}

proof fn lemma_spaces(s: Scan, gap: Seq<u8>)
    requires
        !s.finished && s.depth == 0,
        is_blank(gap) || (s.started && forall|i: int|
            0 <= i < gap.len() ==> is_space(#[trigger] gap[i]) || gap[i] == 0x2C),
    ensures
        scan(s, gap) == s,
        frames(s, gap) == Seq::<Framed>::empty(),
    decreases gap.len(),
{
    if gap.len() > 0 {
        let before = gap.drop_last();
        assert(gap.last() == gap[gap.len() - 1]);
        if is_blank(gap) {
            assert(is_blank(before));
        } else {
            assert forall|i: int| 0 <= i < before.len() implies is_space(#[trigger] before[i])
                || before[i] == 0x2C by {
                assert(before[i] == gap[i]);
            }
        }
        lemma_spaces(s, before);
        assert(frames(s, gap) =~= Seq::<Framed>::empty());
    }
}

proof fn lemma_gap(l: Listing, k: int, m: int)
    requires
        l.valid(),
        0 <= k <= l.objects.len(),
        0 <= m <= l.gaps[k].len(),
    ensures
        scan(between(), l.gaps[k].take(m)) == between(),
        frames(between(), l.gaps[k].take(m)) == Seq::<Framed>::empty(),
{
    let gap = l.gaps[k];
    assert forall|i: int| 0 <= i < gap.len() implies is_space(#[trigger] gap[i]) || gap[i] == 0x2C
        by {
        if k > 0 && k < l.objects.len() {
            assert(separates(l.gaps[k]));
            let c = choose|c: int|
                {
                    &&& 0 <= c < gap.len()
                    &&& #[trigger] gap[c] == 0x2C
                    &&& is_blank(gap.take(c))
                    &&& is_blank(gap.skip(c + 1))
                };
            if i < c {
                assert(gap[i] == gap.take(c)[i]);
            } else if i > c {
                assert(gap[i] == gap.skip(c + 1)[i - c - 1]);
            }
        }
    }
    lemma_spaces(between(), gap.take(m));
}

proof fn lemma_order(l: Listing, j: int, k: int)
    requires
        l.valid(),
        0 <= j < k <= l.objects.len(),
    ensures
        l.start_of(j) + l.objects[j].len() <= l.start_of(k),
    decreases k,
{
    if j < k - 1 {
        lemma_order(l, j, k - 1);
    }
}

proof fn lemma_up_to(l: Listing, k: nat, m: int)
    requires
        l.valid(),
        k <= l.objects.len(),
        0 <= m <= l.up_to(k).len(),
    ensures
        ({
            let s = scan(between(), l.up_to(k).take(m));
            &&& s.depth > 0 <==> exists|j: int|
                0 <= j < k && #[trigger] l.cuts(j, l.lead.len() + 1 + m)
            &&& m == l.up_to(k).len() ==> s == between() && frames(between(), l.up_to(k))
                == l.framed_objects(k)
        }),
    decreases k,
{
    let n = l.lead.len() as int + 1 + m;
    if k == 0 {
        lemma_gap(l, 0, m);
        assert(l.gaps[0].take(l.gaps[0].len() as int) =~= l.gaps[0]);
        assert(l.framed_objects(0) =~= seq![]);
    } else {
        let i = (k - 1) as nat;
        let before = l.up_to(i);
        let object = l.objects[i as int];
        let gap = l.gaps[k as int];
        let whole = l.up_to(k);
        assert(object.len() > 0 && object[0] == 0x7B && is_value(object));
        if m <= before.len() {
            assert(whole.take(m) =~= before.take(m));
            lemma_up_to(l, i, m);
            assert(!l.cuts(i as int, n));
        } else {
            lemma_up_to(l, i, before.len() as int);
            assert(before.take(before.len() as int) =~= before);
            assert forall|j: int| 0 <= j < i implies !#[trigger] l.cuts(j, n) by {
                lemma_order(l, j, i as int);
            }
            let p = m - before.len();
            assert(object.take(object.len() as int) =~= object);
            assert(gap.take(gap.len() as int) =~= gap);
            if p <= object.len() {
                assert(whole.take(m) =~= before + object.take(p));
                chunk_boundaries_do_not_matter(between(), before, object.take(p));
                lemma_object(object, p);
                assert(l.cuts(i as int, n) == (p < object.len()));
            } else {
                let q = p - object.len();
                assert(whole.take(m) =~= (before + object) + gap.take(q));
                chunk_boundaries_do_not_matter(between(), before, object);
                chunk_boundaries_do_not_matter(between(), before + object, gap.take(q));
                lemma_object(object, object.len() as int);
                lemma_gap(l, k as int, q);
                assert(!l.cuts(i as int, n));
            }
            if m == whole.len() {
                lemma_object(object, object.len() as int);
                lemma_gap(l, k as int, gap.len() as int);
                chunk_boundaries_do_not_matter(between(), before, object);
                chunk_boundaries_do_not_matter(between(), before + object, gap);
                assert(whole.take(m) =~= whole);
                assert(frames(between(), whole) =~= l.framed_objects(k));
            }
        }
    }
}

/// A stream that is the text of an array of objects, cut off after `n` bytes,
/// ends in an error if and only if it ends inside an object that is not yet
/// closed. That the closing bracket is missing is no error.
pub proof fn only_a_cut_object_is_an_error(l: Listing, n: int)
    requires
        l.valid(),
        0 <= n <= l.text().len(),
    ensures
        is_inside(scan(nothing_scanned(), l.text().take(n))) <==> l.ends_inside(n),
{
    let text = l.text();
    let body = l.up_to(l.objects.len());
    let lead = l.lead.len() as int;
    let count = l.objects.len();
    scanning_keeps_validity(nothing_scanned(), text.take(n));
    assert forall|k: int| 0 <= k < count && n <= lead + 1 implies !#[trigger] l.cuts(k, n) by {}
    if n <= lead {
        assert(text.take(n) =~= l.lead.take(n));
        assert(is_blank(l.lead.take(n)));
        lemma_spaces(nothing_scanned(), l.lead.take(n));
    } else {
        lemma_lead(l);
        let m = n - lead - 1;
        if m <= body.len() {
            assert(text.take(n) =~= (l.lead + seq![0x5Bu8]) + body.take(m));
            chunk_boundaries_do_not_matter(
                nothing_scanned(),
                l.lead + seq![0x5Bu8],
                body.take(m),
            );
            lemma_up_to(l, count, m);
        } else {
            assert(text.take(n) =~= text);
            lemma_text(l);
            assert forall|k: int| 0 <= k < count implies !#[trigger] l.cuts(k, n) by {
                lemma_order(l, k, count as int);
            }
        }
    }
}

proof fn lemma_lead(l: Listing)
    requires
        l.valid(),
    ensures
        scan(nothing_scanned(), l.lead + seq![0x5Bu8]) == between(),
        frames(nothing_scanned(), l.lead + seq![0x5Bu8]) == Seq::<Framed>::empty(),
{
    lemma_spaces(nothing_scanned(), l.lead);
    assert((l.lead + seq![0x5Bu8]).drop_last() =~= l.lead);
    assert(frames(nothing_scanned(), l.lead + seq![0x5Bu8]) =~= Seq::<Framed>::empty());
}

proof fn lemma_text(l: Listing)
    requires
        l.valid(),
    ensures
        scan(nothing_scanned(), l.text()) == (Scan { finished: true, ..between() }),
        frames(nothing_scanned(), l.text()) == l.framed_objects(l.objects.len()),
{
    let count = l.objects.len();
    let body = l.up_to(count);
    lemma_lead(l);
    lemma_up_to(l, count, body.len() as int);
    assert(body.take(body.len() as int) =~= body);
    let open = l.lead + seq![0x5Bu8];
    chunk_boundaries_do_not_matter(nothing_scanned(), open, body);
    assert(l.text().drop_last() =~= open + body);
    assert(frames(nothing_scanned(), l.text()) =~= l.framed_objects(count));
}

/// From the whole text of an array of objects, whatever follows it, exactly its
/// objects come out, in order and byte for byte, and its end is no error.
pub proof fn whole_array_gives_its_objects(l: Listing, rest: Seq<u8>)
    requires
        l.valid(),
    ensures
        frames(nothing_scanned(), l.text() + rest) == l.framed_objects(l.objects.len()),
        !is_inside(scan(nothing_scanned(), l.text() + rest)),
{
    lemma_text(l);
    chunk_boundaries_do_not_matter(nothing_scanned(), l.text(), rest);
    bytes_after_the_end_are_ignored(scan(nothing_scanned(), l.text()), rest);
    assert(frames(nothing_scanned(), l.text() + rest) =~= l.framed_objects(l.objects.len()));
}

} // verus!
