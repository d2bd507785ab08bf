//! A map from names to values that is walked in the order of the names.
use vstd::prelude::*;
use vstd::string::*;

use crate::text::same_text;

verus! {

// ---------------------------------------------------------------------------
// The order of names
// ---------------------------------------------------------------------------

/// Whether one text comes before another: by the first character in which
/// they differ, and a text after what it begins with.
pub open spec fn precedes(a: Seq<char>, b: Seq<char>) -> bool
    decreases a.len(),
{
    if b.len() == 0 {
        false
    } else if a.len() == 0 {
        true
    } else if a[0] != b[0] {
        (a[0] as int) < (b[0] as int)
    } else {
        precedes(a.drop_first(), b.drop_first())
    }
}

/// Whether `a` comes before `b`.
pub fn text_precedes(a: &str, b: &str) -> (before: bool)
    ensures
        before == precedes(a@, b@),
{
    let n = a.unicode_len();
    let m = b.unicode_len();
    let mut i: usize = 0;
    assert(a@.skip(0) =~= a@);
    assert(b@.skip(0) =~= b@);
    while i < n && i < m
        invariant
            i <= n,
            i <= m,
            n == a@.len(),
            m == b@.len(),
            precedes(a@, b@) == precedes(a@.skip(i as int), b@.skip(i as int)),
        decreases n - i,
    {
        let x = a.get_char(i);
        let y = b.get_char(i);
        if x != y {
            return x < y;
        }
        assert(a@.skip(i as int).drop_first() =~= a@.skip(i + 1));
        assert(b@.skip(i as int).drop_first() =~= b@.skip(i + 1));
        i = i + 1;
    }
    i < m
}

/// Nothing comes before itself, and of two different texts exactly one comes
/// first.
pub proof fn order_is_total(a: Seq<char>, b: Seq<char>)
    ensures
        !precedes(a, a),
        a != b ==> (precedes(a, b) <==> !precedes(b, a)),
    decreases a.len(),
{
    if a.len() > 0 {
        order_is_total(a.drop_first(), a.drop_first());
    }
    if a.len() > 0 && b.len() > 0 && a[0] == b[0] {
        order_is_total(a.drop_first(), b.drop_first());
        if a.drop_first() == b.drop_first() {
            assert(a =~= b) by {
                assert forall|i: int| 0 <= i < a.len() && a.len() == b.len() implies a[i]
                    == b[i] by {
                    if i > 0 {
                        assert(a[i] == a.drop_first()[i - 1]);
                        assert(b[i] == b.drop_first()[i - 1]);
                    }
                }
                assert(a.len() == a.drop_first().len() + 1);
                assert(b.len() == b.drop_first().len() + 1);
            }
        }
    }
    if a.len() == 0 && b.len() == 0 {
        assert(a =~= b);
    }
}

/// What comes before something comes before all that follows it.
pub proof fn order_is_transitive(a: Seq<char>, b: Seq<char>, c: Seq<char>)
    requires
        precedes(a, b),
        precedes(b, c),
    ensures
        precedes(a, c),
    decreases a.len(),
{
    if a.len() > 0 && b.len() > 0 && c.len() > 0 && a[0] == b[0] && b[0] == c[0] {
        order_is_transitive(a.drop_first(), b.drop_first(), c.drop_first());
    }
}

// ---------------------------------------------------------------------------
// The map
// ---------------------------------------------------------------------------

/// Values under names, each name once, in the order of the names.
#[derive(Debug)]
pub struct SortedMap<V> {
    entries: Vec<(String, V)>,
}

/// The names and values of entries.
pub open spec fn named<V>(entries: Seq<(String, V)>) -> Seq<(Seq<char>, V)> {
    Seq::new(entries.len(), |i: int| (entries[i].0@, entries[i].1))
}

/// Each name comes before all later ones.
pub open spec fn in_order<V>(entries: Seq<(Seq<char>, V)>) -> bool {
    forall|i: int, j: int|
        0 <= i < j < entries.len() ==> precedes(
            (#[trigger] entries[i]).0,
            (#[trigger] entries[j]).0,
        )
}

/// The first place from `i` on whose name does not come before `name`.
pub open spec fn place_from<V>(entries: Seq<(Seq<char>, V)>, name: Seq<char>, i: int) -> int
    decreases entries.len() - i,
{
    if i < 0 || i >= entries.len() || !precedes(entries[i].0, name) {
        i
    } else {
        place_from(entries, name, i + 1)
    }
}

/// Whether `name` stands at the place found for it.
pub open spec fn stands<V>(entries: Seq<(Seq<char>, V)>, name: Seq<char>) -> bool {
    let at = place_from(entries, name, 0);
    at < entries.len() && entries[at].0 == name
}

/// The value under `name`.
pub open spec fn found<V>(entries: Seq<(Seq<char>, V)>, name: Seq<char>) -> Option<V> {
    if stands(entries, name) {
        Some(entries[place_from(entries, name, 0)].1)
    } else {
        None
    }
}

/// The entries with `value` under `name`.
pub open spec fn inserted<V>(entries: Seq<(Seq<char>, V)>, name: Seq<char>, value: V) -> Seq<
    (Seq<char>, V),
> {
    let at = place_from(entries, name, 0);
    if stands(entries, name) {
        entries.update(at, (name, value))
    } else {
        entries.insert(at, (name, value))
    }
}

impl<V> SortedMap<V> {
    pub closed spec fn view(&self) -> Seq<(Seq<char>, V)> {
        named(self.entries@)
    }

    /// Each name occurs once, in order.
    pub open spec fn well_formed(&self) -> bool {
        in_order(self@)
    }

    pub fn new() -> (map: SortedMap<V>)
        ensures
            map.well_formed(),
            map@ == Seq::<(Seq<char>, V)>::empty(),
    {
        let map = SortedMap { entries: Vec::new() };
        assert(map@ =~= Seq::<(Seq<char>, V)>::empty());
        map
    }

    pub fn len(&self) -> (n: usize)
        ensures
            n == self@.len(),
    {
        self.entries.len()
    }

    pub fn is_empty(&self) -> (empty: bool)
        ensures
            empty == (self@.len() == 0),
    {
        self.entries.len() == 0
    }

    /// The name at a place.
    pub fn name_at(&self, i: usize) -> (name: &str)
        requires
            i < self@.len(),
        ensures
            name@ == self@[i as int].0,
    {
        self.entries[i].0.as_str()
    }

    /// The value at a place.
    pub fn value_at(&self, i: usize) -> (value: &V)
        requires
            i < self@.len(),
        ensures
            *value == self@[i as int].1,
    {
        &self.entries[i].1
    }

    fn place(&self, name: &str) -> (at: usize)
        ensures
            at == place_from(self@, name@, 0),
            at <= self@.len(),
    {
        let mut i: usize = 0;
        while i < self.entries.len() && text_precedes(self.entries[i].0.as_str(), name)
            invariant
                i <= self.entries@.len(),
                self@.len() == self.entries@.len(),
                place_from(self@, name@, 0) == place_from(self@, name@, i as int),
            decreases self.entries.len() - i,
        {
            assert(self@[i as int].0 == self.entries@[i as int].0@);
            i = i + 1;
        }
        assert(i < self.entries@.len() ==> self@[i as int].0 == self.entries@[i as int].0@);
        i
    }

    /// The value under a name.
    pub fn get(&self, name: &str) -> (value: Option<&V>)
        ensures
            match value {
                Some(v) => found(self@, name@) == Some(*v),
                None => found(self@, name@) is None,
            },
    {
        let at = self.place(name);
        if at < self.entries.len() && same_text(self.entries[at].0.as_str(), name) {
            Some(&self.entries[at].1)
        } else {
            None
        }
    }

    /// Puts a value under a name, in place of the one that is there.
    pub fn insert(&mut self, name: String, value: V)
        requires
            old(self).well_formed(),
        ensures
            final(self)@ == inserted(old(self)@, name@, value),
            final(self).well_formed(),
    {
        let at = self.place(name.as_str());
        let ghost before = self@;
        let ghost text = name@;
        if at < self.entries.len() && same_text(self.entries[at].0.as_str(), name.as_str()) {
            self.entries.set(at, (name, value));
        } else {
            self.entries.insert(at, (name, value));
        }
        proof {
            assert(self@ =~= inserted(before, text, value));
            insertion_keeps_the_order(before, text, value);
        }
    }
}

impl<V> Default for SortedMap<V> {
    fn default() -> (map: SortedMap<V>)
        ensures
            map.well_formed(),
            map@ == Seq::<(Seq<char>, V)>::empty(),
    {
        SortedMap::new()
    }
}

// ---------------------------------------------------------------------------
// Laws
// ---------------------------------------------------------------------------

proof fn lemma_place<V>(entries: Seq<(Seq<char>, V)>, name: Seq<char>, i: int)
    requires
        in_order(entries),
        0 <= i <= entries.len(),
    ensures
        i <= place_from(entries, name, i) <= entries.len(),
        forall|k: int|
            i <= k < place_from(entries, name, i) ==> precedes((#[trigger] entries[k]).0, name),
        forall|k: int|
            place_from(entries, name, i) <= k < entries.len() ==> {
                ||| (#[trigger] entries[k]).0 == name && k == place_from(entries, name, i)
                ||| precedes(name, entries[k].0)
            },
    decreases entries.len() - i,
{
    if i < entries.len() {
        if precedes(entries[i].0, name) {
            lemma_place(entries, name, i + 1);
        } else {
            order_is_total(entries[i].0, name);
            assert forall|k: int| i < k < entries.len() implies precedes(
                name,
                (#[trigger] entries[k]).0,
            ) by {
                assert(precedes(entries[i].0, entries[k].0));
                if entries[i].0 != name {
                    order_is_transitive(name, entries[i].0, entries[k].0);
                }
            }
        }
    }
}

/// Putting in a value keeps each name once and in order.
pub proof fn insertion_keeps_the_order<V>(
    entries: Seq<(Seq<char>, V)>,
    name: Seq<char>,
    value: V,
)
    requires
        in_order(entries),
    ensures
        in_order(inserted(entries, name, value)),
{
    lemma_place(entries, name, 0);
    let at = place_from(entries, name, 0);
    let after = inserted(entries, name, value);
    assert forall|i: int, j: int| 0 <= i < j < after.len() implies precedes(
        (#[trigger] after[i]).0,
        (#[trigger] after[j]).0,
    ) by {
        if stands(entries, name) {
            assert(after[i].0 == entries[i].0);
            assert(after[j].0 == entries[j].0);
        } else {
            if j < at {
                assert(after[i] == entries[i] && after[j] == entries[j]);
            } else if j == at {
                assert(after[i] == entries[i]);
            } else if i < at {
                assert(after[i] == entries[i] && after[j] == entries[j - 1]);
            } else if i == at {
                assert(after[j] == entries[j - 1]);
            } else {
                assert(after[i] == entries[i - 1] && after[j] == entries[j - 1]);
            }
        }
    }
}

proof fn lemma_found<V>(entries: Seq<(Seq<char>, V)>, name: Seq<char>, k: int)
    requires
        in_order(entries),
        0 <= k < entries.len(),
        entries[k].0 == name,
    ensures
        found(entries, name) == Some(entries[k].1),
{
    lemma_place(entries, name, 0);
    order_is_total(name, name);
}

proof fn lemma_not_found<V>(entries: Seq<(Seq<char>, V)>, name: Seq<char>)
    requires
        forall|k: int| 0 <= k < entries.len() ==> (#[trigger] entries[k]).0 != name,
        in_order(entries),
    ensures
        found(entries, name) is None,
{
    lemma_place(entries, name, 0);
}

/// What was put under a name is found there.
pub proof fn inserted_value_is_found<V>(entries: Seq<(Seq<char>, V)>, name: Seq<char>, value: V)
    requires
        in_order(entries),
    ensures
        found(inserted(entries, name, value), name) == Some(value),
{
    lemma_place(entries, name, 0);
    insertion_keeps_the_order(entries, name, value);
    lemma_found(inserted(entries, name, value), name, place_from(entries, name, 0));
}

/// Putting in a value changes nothing under another name.
pub proof fn insertion_keeps_other_names<V>(
    entries: Seq<(Seq<char>, V)>,
    name: Seq<char>,
    value: V,
    other: Seq<char>,
)
    requires
        in_order(entries),
        other != name,
    ensures
        found(inserted(entries, name, value), other) == found(entries, other),
{
    lemma_place(entries, name, 0);
    lemma_place(entries, other, 0);
    insertion_keeps_the_order(entries, name, value);
    let at = place_from(entries, name, 0);
    let after = inserted(entries, name, value);
    if exists|k: int| 0 <= k < entries.len() && (#[trigger] entries[k]).0 == other {
        let k = choose|k: int| 0 <= k < entries.len() && (#[trigger] entries[k]).0 == other;
        lemma_found(entries, other, k);
        if stands(entries, name) {
            assert(after[k] == entries[k]);
            lemma_found(after, other, k);
        } else if k < at {
            assert(after[k] == entries[k]);
            lemma_found(after, other, k);
        } else {
            assert(after[k + 1] == entries[k]);
            lemma_found(after, other, k + 1);
        }
    } else {
        lemma_not_found(entries, other);
        assert forall|k: int| 0 <= k < after.len() implies (#[trigger] after[k]).0 != other by {
            if stands(entries, name) {
                if k != at {
                    assert(after[k] == entries[k]);
                }
            } else if k < at {
                assert(after[k] == entries[k]);
            } else if k > at {
                assert(after[k] == entries[k - 1]);
            }
        }
        lemma_not_found(after, other);
    }
}

} // verus!
