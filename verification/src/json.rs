//! JSON values: the library's own tree, its mathematical model, and the calls
//! into `serde_json` that parse and print it.
use vstd::prelude::*;

use crate::text::{decimal, same_text, signed_decimal};

verus! {

/// What a JSON value is, mathematically. Numbers are known by their printed
/// form; an object is the sequence of its members in insertion order.
#[verifier::ext_equal]
pub enum Tree {
    Null,
    Bool(bool),
    Number(Seq<char>),
    Text(Seq<char>),
    Array(Seq<Tree>),
    Object(Seq<(Seq<char>, Tree)>),
}

/// A JSON value.
#[derive(Debug, PartialEq)]
pub enum Json {
    Null,
    Bool(bool),
    Number(serde_json::Number),
    Text(String),
    Array(Vec<Json>),
    Object(Vec<(String, Json)>),
}

// ---------------------------------------------------------------------------
// Model
// ---------------------------------------------------------------------------

/// The number that a string of decimal digits stands for.
pub open spec fn digits_value(s: Seq<char>) -> nat
    decreases s.len(),
{
    if s.len() == 0 {
        0
    } else {
        digits_value(s.drop_last()) * 10 + (s.last() as nat - '0' as nat) as nat
    }
}

/// Whether every character is a decimal digit, and there is at least one.
pub open spec fn all_digits(s: Seq<char>) -> bool {
    s.len() > 0 && forall|i: int| 0 <= i < s.len() ==> '0' <= #[trigger] s[i] <= '9'
}

/// The unsigned 64-bit integer that a number's printed form denotes, if any:
/// integers print as plain digits, negative numbers start with `-`, and every
/// other number holds a `.` or an `e`.
pub open spec fn unsigned(text: Seq<char>) -> Option<u64> {
    if all_digits(text) && digits_value(text) <= u64::MAX {
        Some(digits_value(text) as u64)
    } else {
        None
    }
}

/// The position of the first member named `key` at or after `from`; the
/// number of members if there is none.
pub open spec fn position_from(
    members: Seq<(Seq<char>, Tree)>,
    key: Seq<char>,
    from: int,
) -> int
    decreases members.len() - from,
{
    if from < 0 || from >= members.len() {
        members.len() as int
    } else if members[from].0 == key {
        from
    } else {
        position_from(members, key, from + 1)
    }
}

/// The value of the member named `key`.
pub open spec fn member(members: Seq<(Seq<char>, Tree)>, key: Seq<char>) -> Option<Tree> {
    let i = position_from(members, key, 0);
    if 0 <= i < members.len() {
        Some(members[i].1)
    } else {
        None
    }
}

/// The members after `key` was given the value `value`: in place where the
/// name is present, at the end where it is not.
pub open spec fn with_member(
    members: Seq<(Seq<char>, Tree)>,
    key: Seq<char>,
    value: Tree,
) -> Seq<(Seq<char>, Tree)> {
    let i = position_from(members, key, 0);
    if 0 <= i < members.len() {
        members.update(i, (key, value))
    } else {
        members.push((key, value))
    }
}

/// The members after the one named `key` was taken out: the last member takes
/// its place.
pub open spec fn without_member(
    members: Seq<(Seq<char>, Tree)>,
    key: Seq<char>,
) -> Seq<(Seq<char>, Tree)> {
    let i = position_from(members, key, 0);
    if 0 <= i < members.len() {
        members.update(i, members.last()).drop_last()
    } else {
        members
    }
}

/// The members after an optional value was given to `key`, if there is one.
pub open spec fn with_optional(
    members: Seq<(Seq<char>, Tree)>,
    key: Seq<char>,
    value: Option<Tree>,
) -> Seq<(Seq<char>, Tree)> {
    match value {
        Some(v) => with_member(members, key, v),
        None => members,
    }
}

/// The members that result from inserting the given ones one after another.
pub open spec fn collected(members: Seq<(Seq<char>, Tree)>) -> Seq<(Seq<char>, Tree)>
    decreases members.len(),
{
    if members.len() == 0 {
        members
    } else {
        with_member(collected(members.drop_last()), members.last().0, members.last().1)
    }
}

/// The members of an object with one member.
pub open spec fn object1(key: Seq<char>, value: Tree) -> Seq<(Seq<char>, Tree)> {
    with_member(seq![], key, value)
}

/// The members of an object built from two members.
pub open spec fn object2(
    key1: Seq<char>,
    value1: Tree,
    key2: Seq<char>,
    value2: Tree,
) -> Seq<(Seq<char>, Tree)> {
    with_member(object1(key1, value1), key2, value2)
}

/// The trees of a sequence of values.
pub open spec fn trees(values: Seq<Json>) -> Seq<Tree>
    decreases values,
{
    Seq::new(
        values.len(),
        |i: int|
            if 0 <= i < values.len() {
                values[i].view()
            } else {
                Tree::Null
            },
    )
}

/// The members that a sequence of entries stands for.
pub open spec fn members(entries: Seq<(String, Json)>) -> Seq<(Seq<char>, Tree)>
    decreases entries,
{
    Seq::new(
        entries.len(),
        |i: int|
            if 0 <= i < entries.len() {
                (entries[i].0@, entries[i].1.view())
            } else {
                (seq![], Tree::Null)
            },
    )
}

/// The normal forms of a sequence of trees.
pub open spec fn normal_items(items: Seq<Tree>) -> Seq<Tree>
    decreases items,
{
    Seq::new(
        items.len(),
        |i: int|
            if 0 <= i < items.len() {
                items[i].normal()
            } else {
                Tree::Null
            },
    )
}

/// A sequence of members with the value of each in normal form.
pub open spec fn normal_members(m: Seq<(Seq<char>, Tree)>) -> Seq<(Seq<char>, Tree)>
    decreases m,
{
    Seq::new(
        m.len(),
        |i: int|
            if 0 <= i < m.len() {
                (m[i].0, m[i].1.normal())
            } else {
                (seq![], Tree::Null)
            },
    )
}

impl Tree {
    /// The member named `key`, where this is an object that has one.
    pub open spec fn get(self, key: Seq<char>) -> Option<Tree> {
        match self {
            Tree::Object(m) => member(m, key),
            _ => None,
        }
    }

    /// The characters, where this is a string.
    pub open spec fn as_str(self) -> Option<Seq<char>> {
        match self {
            Tree::Text(s) => Some(s),
            _ => None,
        }
    }

    /// The unsigned integer, where this is one.
    pub open spec fn as_u64(self) -> Option<u64> {
        match self {
            Tree::Number(text) => unsigned(text),
            _ => None,
        }
    }

    /// The truth value, where this is one.
    pub open spec fn as_bool(self) -> Option<bool> {
        match self {
            Tree::Bool(b) => Some(b),
            _ => None,
        }
    }

    /// The items, where this is an array.
    pub open spec fn as_array(self) -> Option<Seq<Tree>> {
        match self {
            Tree::Array(items) => Some(items),
            _ => None,
        }
    }

    /// This tree with every object rebuilt by inserting its members in order,
    /// so that no name occurs twice.
    pub open spec fn normal(self) -> Tree
        decreases self,
    {
        match self {
            Tree::Array(items) => Tree::Array(normal_items(items)),
            Tree::Object(m) => Tree::Object(collected(normal_members(m))),
            _ => self,
        }
    }

    /// The compact JSON text of this tree.
    pub open spec fn compact(self) -> Seq<char> {
        printed(self.normal())
    }
}

/// The string member `key` of `v`.
pub open spec fn str_member(v: Tree, key: Seq<char>) -> Option<Seq<char>> {
    match v.get(key) {
        Some(x) => x.as_str(),
        None => None,
    }
}

/// The string member `key` of `v`, or `default`.
pub open spec fn str_member_or(v: Tree, key: Seq<char>, default: Seq<char>) -> Seq<char> {
    match str_member(v, key) {
        Some(s) => s,
        None => default,
    }
}

/// The unsigned integer member `key` of `v`.
pub open spec fn u64_member(v: Tree, key: Seq<char>) -> Option<u64> {
    match v.get(key) {
        Some(x) => x.as_u64(),
        None => None,
    }
}

/// The array member `key` of `v`.
pub open spec fn array_member(v: Tree, key: Seq<char>) -> Option<Seq<Tree>> {
    match v.get(key) {
        Some(x) => x.as_array(),
        None => None,
    }
}

/// The characters of an optional string.
pub open spec fn opt_text(s: Option<String>) -> Option<Seq<char>> {
    match s {
        Some(s) => Some(s@),
        None => None,
    }
}

/// The tree of an optional value.
pub open spec fn opt_tree(v: Option<Json>) -> Option<Tree> {
    match v {
        Some(v) => Some(v@),
        None => None,
    }
}

/// A string value, if there is one.
pub open spec fn text_tree(text: Option<Seq<char>>) -> Option<Tree> {
    match text {
        Some(s) => Some(Tree::Text(s)),
        None => None,
    }
}

/// An array value, if there is one.
pub open spec fn array_tree(items: Option<Seq<Tree>>) -> Option<Tree> {
    match items {
        Some(s) => Some(Tree::Array(s)),
        None => None,
    }
}

/// An integer value, if there is one.
pub open spec fn number_tree(n: Option<nat>) -> Option<Tree> {
    match n {
        Some(n) => Some(Tree::Number(decimal(n))),
        None => None,
    }
}

/// A 32-bit number as a natural number, if there is one.
pub open spec fn opt_nat32(n: Option<u32>) -> Option<nat> {
    match n {
        Some(n) => Some(n as nat),
        None => None,
    }
}

/// A 64-bit number as a natural number, if there is one.
pub open spec fn opt_nat64(n: Option<u64>) -> Option<nat> {
    match n {
        Some(n) => Some(n as nat),
        None => None,
    }
}

/// The low 32 bits of a count.
pub open spec fn low32(n: u64) -> u32 {
    (n % 0x1_0000_0000) as u32
}

/// The unsigned integer member `key` of `v`, cut to 32 bits.
pub open spec fn u32_member(v: Tree, key: Seq<char>) -> Option<u32> {
    match u64_member(v, key) {
        Some(n) => Some(low32(n)),
        None => None,
    }
}

impl Json {
    /// The tree that this value stands for.
    pub open spec fn view(&self) -> Tree
        decreases self,
    {
        match self {
            Json::Null => Tree::Null,
            Json::Bool(b) => Tree::Bool(*b),
            Json::Number(n) => Tree::Number(number_text(*n)),
            Json::Text(s) => Tree::Text(s@),
            Json::Array(values) => Tree::Array(trees(values@)),
            Json::Object(entries) => Tree::Object(members(entries@)),
        }
    }
}

// ---------------------------------------------------------------------------
// Outside items
// ---------------------------------------------------------------------------

/// The number type of `serde_json`, carried through unread.
#[verifier::external_type_specification]
#[verifier::external_body]
pub struct ExNumber(serde_json::Number);

/// The value type of `serde_json`.
#[verifier::external_type_specification]
#[verifier::external_body]
pub struct ExValue(serde_json::Value);

/// The printed form of a number: what its `Display` writes.
pub uninterp spec fn number_text(number: serde_json::Number) -> Seq<char>;

/// What a `serde_json` value holds.
pub uninterp spec fn value_tree(value: serde_json::Value) -> Tree;

/// What `serde_json::from_str` makes of a text: the tree of the value it
/// returns, or the message of its error.
pub uninterp spec fn parsed_text(text: Seq<char>) -> Result<Tree, Seq<char>>;

/// What `serde_json::from_slice` makes of bytes: the tree of the value it
/// returns, or the message of its error.
pub uninterp spec fn parsed_bytes(bytes: Seq<u8>) -> Result<Tree, Seq<char>>;

/// The text that `Display` writes for a `serde_json` value that holds `tree`.
pub uninterp spec fn printed(tree: Tree) -> Seq<char>;

/// One level of a `serde_json` value.
pub enum Node {
    Null,
    Bool(bool),
    Number(serde_json::Number),
    Text(String),
    Array(Vec<serde_json::Value>),
    Object(Vec<(String, serde_json::Value)>),
}

/// The members of one level of an object.
pub open spec fn value_members(
    entries: Seq<(String, serde_json::Value)>,
) -> Seq<(Seq<char>, Tree)> {
    Seq::new(entries.len(), |i: int| (entries[i].0@, value_tree(entries[i].1)))
}

/// The tree of a level whose members are taken as they stand.
pub open spec fn node_tree(node: Node) -> Tree {
    match node {
        Node::Null => Tree::Null,
        Node::Bool(b) => Tree::Bool(b),
        Node::Number(n) => Tree::Number(number_text(n)),
        Node::Text(s) => Tree::Text(s@),
        Node::Array(items) => Tree::Array(
            Seq::new(items@.len(), |i: int| value_tree(items@[i])),
        ),
        Node::Object(entries) => Tree::Object(value_members(entries@)),
    }
}

/// The tree of a level whose members are inserted one after another.
pub open spec fn built_tree(node: Node) -> Tree {
    match node {
        Node::Object(entries) => Tree::Object(collected(value_members(entries@))),
        _ => node_tree(node),
    }
}

/// Tells the variants of `serde_json::Value` apart. The variant and its
/// content are what the value holds, the members of an object in the order in
/// which its map yields them.
#[verifier::external_body]
pub(crate) fn open_value(value: serde_json::Value) -> (node: Node)
    ensures
        node_tree(node) == value_tree(value),
{
    match value {
        serde_json::Value::Null => Node::Null,
        serde_json::Value::Bool(b) => Node::Bool(b),
        serde_json::Value::Number(n) => Node::Number(n),
        serde_json::Value::String(s) => Node::Text(s),
        serde_json::Value::Array(items) => Node::Array(items),
        serde_json::Value::Object(map) => Node::Object(map.into_iter().collect()),
    }
}

/// Builds a `serde_json::Value` from one level of it. An object is collected
/// into `serde_json::Map`, which keeps insertion order and lets a later member
/// of the same name replace the value of the earlier one in place.
#[verifier::external_body]
pub(crate) fn close_value(node: Node) -> (value: serde_json::Value)
    ensures
        value_tree(value) == built_tree(node),
{
    match node {
        Node::Null => serde_json::Value::Null,
        Node::Bool(b) => serde_json::Value::Bool(b),
        Node::Number(n) => serde_json::Value::Number(n),
        Node::Text(s) => serde_json::Value::String(s),
        Node::Array(items) => serde_json::Value::Array(items),
        Node::Object(entries) => serde_json::Value::Object(entries.into_iter().collect()),
    }
}

/// Calls `serde_json::from_str` for a `serde_json::Value`. The result is a
/// function of the text; the error is kept as its message.
#[verifier::external_body]
pub(crate) fn value_from_str(text: &str) -> (result: Result<serde_json::Value, String>)
    ensures
        match result {
            Ok(value) => parsed_text(text@) == Ok::<Tree, Seq<char>>(value_tree(value)),
            Err(message) => parsed_text(text@) == Err::<Tree, Seq<char>>(message@),
        },
{
    serde_json::from_str(text).map_err(|e| e.to_string())
}

/// Calls `serde_json::from_slice` for a `serde_json::Value`. The result is a
/// function of the bytes; the error is kept as its message.
#[verifier::external_body]
pub(crate) fn value_from_slice(bytes: &[u8]) -> (result: Result<serde_json::Value, String>)
    ensures
        match result {
            Ok(value) => parsed_bytes(bytes@) == Ok::<Tree, Seq<char>>(value_tree(value)),
            Err(message) => parsed_bytes(bytes@) == Err::<Tree, Seq<char>>(message@),
        },
{
    serde_json::from_slice(bytes).map_err(|e| e.to_string())
}

/// Calls `to_string` (`Display`) on a `serde_json::Value`: its compact JSON
/// text, a function of what the value holds.
#[verifier::external_body]
pub(crate) fn value_to_string(value: &serde_json::Value) -> (text: String)
    ensures
        text@ == printed(value_tree(*value)),
{
    value.to_string()
}

/// Calls `serde_json::to_vec` on a `serde_json::Value`. Printing a value into
/// memory does not fail, and gives the UTF-8 bytes of its compact text.
#[verifier::external_body]
pub(crate) fn value_to_vec(value: &serde_json::Value) -> (result: Result<Vec<u8>, String>)
    ensures
        match result {
            Ok(bytes) => bytes@ == vstd::utf8::encode_utf8(printed(value_tree(*value))),
            Err(_) => false,
        },
{
    serde_json::to_vec(value).map_err(|e| e.to_string())
}

/// Calls `serde_json::Number::as_u64`: the unsigned integer that the number's
/// printed form denotes, and `None` for negative and fractional numbers.
#[verifier::external_body]
pub(crate) fn number_as_u64(number: &serde_json::Number) -> (value: Option<u64>)
    ensures
        value == unsigned(number_text(*number)),
{
    number.as_u64()
}

/// Calls `serde_json::Number::from` on a `u64`, which prints as its decimal
/// digits.
#[verifier::external_body]
pub(crate) fn number_from_u64(value: u64) -> (number: serde_json::Number)
    ensures
        number_text(number) == decimal(value as nat),
{
    serde_json::Number::from(value)
}

/// Calls `serde_json::Number::from` on an `i64`, which prints as its decimal
/// digits, behind a `-` where it is negative.
#[verifier::external_body]
pub(crate) fn number_from_i64(value: i64) -> (number: serde_json::Number)
    ensures
        number_text(number) == signed_decimal(value as int),
{
    serde_json::Number::from(value)
}

/// The clone of a `serde_json::Number` prints as the number does.
pub assume_specification[ <serde_json::Number as Clone>::clone ](
    number: &serde_json::Number,
) -> (copy: serde_json::Number)
    ensures
        number_text(copy) == number_text(*number),
;

// ---------------------------------------------------------------------------
// Lemmas
// ---------------------------------------------------------------------------

/// An array is larger than its items.
pub proof fn lemma_item_decreases(value: Json, i: int)
    requires
        value is Array,
        0 <= i < value->Array_0@.len(),
    ensures
        decreases_to!(value => value->Array_0@[i]),
{
    assert(decreases_to!(value => value->Array_0));
    assert(decreases_to!(value->Array_0 => value->Array_0@));
    assert(decreases_to!(value->Array_0@ => value->Array_0@[i]));
}

/// An object is larger than the values of its members.
pub proof fn lemma_entry_decreases(value: Json, i: int)
    requires
        value is Object,
        0 <= i < value->Object_0@.len(),
    ensures
        decreases_to!(value => value->Object_0@[i].1),
{
    assert(decreases_to!(value => value->Object_0));
    assert(decreases_to!(value->Object_0 => value->Object_0@));
    assert(decreases_to!(value->Object_0@ => value->Object_0@[i]));
    assert(decreases_to!(value->Object_0@[i] => value->Object_0@[i].1));
}

/// The trees of a sequence with one more value.
pub proof fn lemma_trees_push(values: Seq<Json>, value: Json)
    ensures
        trees(values.push(value)) == trees(values).push(value@),
{
    assert(trees(values.push(value)) =~= trees(values).push(value@));
}

/// The members of a sequence with one more entry.
pub proof fn lemma_members_push(entries: Seq<(String, Json)>, entry: (String, Json))
    ensures
        members(entries.push(entry)) == members(entries).push((entry.0@, entry.1@)),
{
    assert(members(entries.push(entry)) =~= members(entries).push((entry.0@, entry.1@)));
}

// ---------------------------------------------------------------------------
// Laws
// ---------------------------------------------------------------------------

/// Whether no name occurs twice.
pub open spec fn distinct_names(members: Seq<(Seq<char>, Tree)>) -> bool {
    forall|i: int, j: int|
        0 <= i < j < members.len() ==> (#[trigger] members[i]).0 != (#[trigger] members[j]).0
}

/// A position that was found holds the first member of the name; where none
/// was found there is none.
pub proof fn lemma_position(members: Seq<(Seq<char>, Tree)>, key: Seq<char>, from: int)
    requires
        0 <= from <= members.len(),
    ensures
        from <= position_from(members, key, from) <= members.len(),
        position_from(members, key, from) < members.len() ==> members[position_from(
            members,
            key,
            from,
        )].0 == key,
        forall|i: int|
            from <= i < position_from(members, key, from) ==> (#[trigger] members[i]).0 != key,
    decreases members.len() - from,
{
    if from < members.len() && members[from].0 != key {
        lemma_position(members, key, from + 1);
    }
}

/// The only position of a name, where no name occurs twice, is the one found.
pub proof fn lemma_only_position(members: Seq<(Seq<char>, Tree)>, key: Seq<char>, i: int)
    requires
        0 <= i < members.len(),
        members[i].0 == key,
        forall|j: int| 0 <= j < i ==> (#[trigger] members[j]).0 != key,
    ensures
        position_from(members, key, 0) == i,
{
    lemma_position(members, key, 0);
    let p = position_from(members, key, 0);
    if p < i {
        assert(members[p].0 != key);
    } else if p > i {
        assert(members[i].0 != key);
    }
}

/// A member that was set is read back, and every other member reads as
/// before.
pub proof fn set_member_is_read_back(
    members: Seq<(Seq<char>, Tree)>,
    key: Seq<char>,
    value: Tree,
    other: Seq<char>,
)
    ensures
        member(with_member(members, key, value), key) == Some(value),
        other != key ==> member(with_member(members, key, value), other) == member(
            members,
            other,
        ),
{
    let after = with_member(members, key, value);
    lemma_position(members, key, 0);
    lemma_position(members, other, 0);
    let p = position_from(members, key, 0);
    assert forall|j: int| 0 <= j < p implies (#[trigger] after[j]).0 != key by {
        assert(members[j].0 != key);
    }
    lemma_only_position(after, key, p);
    if other != key {
        let q = position_from(members, other, 0);
        if q < members.len() {
            assert(after[q] == members[q]);
            assert forall|j: int| 0 <= j < q implies (#[trigger] after[j]).0 != other by {
                assert(members[j].0 != other);
            }
            lemma_only_position(after, other, q);
        } else {
            lemma_position(after, other, 0);
            let r = position_from(after, other, 0);
            if r < after.len() {
                if r < members.len() && r != p {
                    assert(members[r].0 != other);
                }
                assert(false);
            }
        }
    }
}

/// A number by which names are told apart: equal names have equal numbers.
pub open spec fn tag(name: Seq<char>) -> int {
    name.len() * 1000000 + name[0] as int * 10000 + name[name.len() as int / 2] as int * 100
        + name[name.len() - 1] as int
}

/// Reading a member after one was set.
pub broadcast proof fn member_after_set(
    members: Seq<(Seq<char>, Tree)>,
    key: Seq<char>,
    value: Tree,
    other: Seq<char>,
)
    ensures
        #[trigger] member(with_member(members, key, value), other) == (if other == key {
            Some(value)
        } else {
            member(members, other)
        }),
{
    set_member_is_read_back(members, key, value, other);
}

/// Reading a member after one was set that may have no value.
pub broadcast proof fn member_after_optional(
    members: Seq<(Seq<char>, Tree)>,
    key: Seq<char>,
    value: Option<Tree>,
    other: Seq<char>,
)
    ensures
        #[trigger] member(with_optional(members, key, value), other) == (if other == key && value
            is Some {
            value
        } else {
            member(members, other)
        }),
{
    if let Some(v) = value {
        set_member_is_read_back(members, key, v, other);
    }
}

/// Reading a member of an object without members.
pub broadcast proof fn member_of_nothing(key: Seq<char>)
    ensures
        #[trigger] member(Seq::<(Seq<char>, Tree)>::empty(), key) is None,
{
}

/// Typed members are read as what they are: a string member is a string, an
/// array member an array, and a member of another sort counts as missing. A
/// count is the member's number, in the low 32 bits where it is longer.
pub proof fn typed_members_are_read(v: Tree, key: Seq<char>, default: Seq<char>)
    ensures
        str_member(v, key) == (match v.get(key) {
            Some(Tree::Text(s)) => Some(s),
            _ => None,
        }),
        str_member_or(v, key, default) == (match v.get(key) {
            Some(Tree::Text(s)) => s,
            _ => default,
        }),
        array_member(v, key) == (match v.get(key) {
            Some(Tree::Array(items)) => Some(items),
            _ => None,
        }),
        u64_member(v, key) == (match v.get(key) {
            Some(Tree::Number(text)) => unsigned(text),
            _ => None,
        }),
        match (u64_member(v, key), u32_member(v, key)) {
            (Some(n), Some(m)) => {
                &&& n <= u32::MAX ==> m == n
                &&& (n - m) % 0x1_0000_0000 == 0
            },
            (None, None) => true,
            _ => false,
        },
        !(v is Object) ==> v.get(key) is None,
{
}

/// Setting a member keeps every name from occurring twice.
pub proof fn setting_keeps_names_distinct(
    members: Seq<(Seq<char>, Tree)>,
    key: Seq<char>,
    value: Tree,
)
    requires
        distinct_names(members),
    ensures
        distinct_names(with_member(members, key, value)),
{
    lemma_position(members, key, 0);
    let p = position_from(members, key, 0);
    let after = with_member(members, key, value);
    assert forall|i: int, j: int| 0 <= i < j < after.len() implies (#[trigger] after[i]).0 != (
    #[trigger] after[j]).0 by {
        if j < members.len() {
            assert(members[i].0 != members[j].0);
            assert(after[i].0 == members[i].0);
            assert(after[j].0 == members[j].0);
        } else {
            assert(members[i].0 != key);
        }
    }
}

/// Where no name occurs twice, a member that was taken out is gone, every
/// other member reads as before, and still no name occurs twice.
pub proof fn removed_member_is_gone(
    members: Seq<(Seq<char>, Tree)>,
    key: Seq<char>,
    other: Seq<char>,
)
    requires
        distinct_names(members),
    ensures
        member(without_member(members, key), key) is None,
        other != key ==> member(without_member(members, key), other) == member(members, other),
        distinct_names(without_member(members, key)),
{
    let after = without_member(members, key);
    let p = position_from(members, key, 0);
    lemma_position(members, key, 0);
    lemma_position(after, key, 0);
    if p < members.len() {
        let last = members.len() - 1;
        assert forall|j: int| 0 <= j < after.len() implies #[trigger] after[j] == members[if j == p {
            last
        } else {
            j
        }] by {}
        assert forall|j: int| 0 <= j < after.len() implies (#[trigger] after[j]).0 != key by {
            if j == p {
                assert(members[last].0 != members[p].0);
            } else if j < p {
                assert(members[j].0 != key);
            } else {
                assert(members[p].0 != members[j].0);
            }
        }
        assert forall|i: int, j: int| 0 <= i < j < after.len() implies (#[trigger] after[i]).0 != (
        #[trigger] after[j]).0 by {
            let a = if i == p {
                last
            } else {
                i
            };
            let b = if j == p {
                last
            } else {
                j
            };
            if a < b {
                assert(members[a].0 != members[b].0);
            } else {
                assert(members[b].0 != members[a].0);
            }
        }
        if other != key {
            lemma_position(members, other, 0);
            lemma_position(after, other, 0);
            let q = position_from(members, other, 0);
            if q < members.len() {
                let r = if q == last {
                    p
                } else {
                    q
                };
                assert(after[r].0 == other);
                assert forall|j: int| 0 <= j < r implies (#[trigger] after[j]).0 != other by {
                    assert(after[j].0 != after[r].0);
                }
                lemma_only_position(after, other, r);
            } else {
                let r = position_from(after, other, 0);
                if r < after.len() {
                    let a = if r == p {
                        last
                    } else {
                        r
                    };
                    assert(members[a].0 != other);
                    assert(false);
                }
            }
        }
    } else {
        assert(after == members);
    }
}

// ---------------------------------------------------------------------------
// Operations
// ---------------------------------------------------------------------------

/// The position of the first entry named `key`; the number of entries if none.
fn find(entries: &Vec<(String, Json)>, key: &str) -> (index: usize)
    ensures
        index == position_from(members(entries@), key@, 0),
        index <= entries@.len(),
        index < entries@.len() ==> members(entries@)[index as int].0 == key@,
{
    let mut i: usize = 0;
    while i < entries.len()
        invariant
            i <= entries.len(),
            position_from(members(entries@), key@, 0) == position_from(
                members(entries@),
                key@,
                i as int,
            ),
        decreases entries.len() - i,
    {
        assert(members(entries@)[i as int].0 == entries@[i as int].0@);
        if same_text(entries[i].0.as_str(), key) {
            return i;
        }
        i = i + 1;
    }
    i
}

/// Gives the member `key` the value `value`: in place where the name is
/// present, at the end where it is not.
pub fn put(entries: &mut Vec<(String, Json)>, key: &str, value: Json)
    ensures
        members(final(entries)@) == with_member(members(old(entries)@), key@, value@),
{
    let i = find(entries, key);
    if i < entries.len() {
        entries.set(i, (key.to_owned(), value));
        assert(members(entries@) =~= members(old(entries)@).update(i as int, (key@, value@)));
    } else {
        entries.push((key.to_owned(), value));
        assert(members(entries@) =~= members(old(entries)@).push((key@, value@)));
    }
}

/// Gives the member `key` the value, if there is one.
pub fn put_optional(entries: &mut Vec<(String, Json)>, key: &str, value: Option<Json>)
    ensures
        members(final(entries)@) == with_optional(
            members(old(entries)@),
            key@,
            match value {
                Some(v) => Some(v@),
                None => None,
            },
        ),
{
    if let Some(v) = value {
        put(entries, key, v);
    }
}

/// No members.
pub fn no_members() -> (entries: Vec<(String, Json)>)
    ensures
        members(entries@) == Seq::<(Seq<char>, Tree)>::empty(),
{
    let entries: Vec<(String, Json)> = Vec::new();
    assert(members(entries@) =~= Seq::<(Seq<char>, Tree)>::empty());
    entries
}

/// No values.
pub fn no_values() -> (values: Vec<Json>)
    ensures
        trees(values@) == Seq::<Tree>::empty(),
{
    let values: Vec<Json> = Vec::new();
    assert(trees(values@) =~= Seq::<Tree>::empty());
    values
}

/// Appends one value.
pub fn append(values: &mut Vec<Json>, value: Json)
    ensures
        trees(final(values)@) == trees(old(values)@).push(value@),
{
    proof {
        lemma_trees_push(values@, value);
    }
    values.push(value);
}

/// Takes the member `key` out, the last member taking its place, and says
/// whether there was one.
pub fn take_out(entries: &mut Vec<(String, Json)>, key: &str) -> (found: bool)
    ensures
        members(final(entries)@) == without_member(members(old(entries)@), key@),
        found == (member(members(old(entries)@), key@) is Some),
{
    let i = find(entries, key);
    if i < entries.len() {
        let _gone = entries.swap_remove(i);
        assert(members(entries@) =~= members(old(entries)@).update(
            i as int,
            members(old(entries)@).last(),
        ).drop_last());
        true
    } else {
        false
    }
}

impl Json {
    /// The member named `key`, where this is an object that has one.
    pub fn get(&self, key: &str) -> (value: Option<&Json>)
        ensures
            match value {
                Some(v) => self@.get(key@) == Some(v@),
                None => self@.get(key@) is None,
            },
            value matches Some(v) ==> decreases_to!(self => v),
    {
        match self {
            Json::Object(entries) => {
                let i = find(entries, key);
                if i < entries.len() {
                    let entry = &entries[i];
                    Some(&entry.1)
                } else {
                    None
                }
            },
            _ => None,
        }
    }

    /// The characters, where this is a string.
    pub fn as_str(&self) -> (text: Option<&str>)
        ensures
            match text {
                Some(s) => self@.as_str() == Some(s@),
                None => self@.as_str() is None,
            },
    {
        match self {
            Json::Text(s) => Some(s.as_str()),
            _ => None,
        }
    }

    /// The unsigned integer, where this is one.
    pub fn as_u64(&self) -> (value: Option<u64>)
        ensures
            value == self@.as_u64(),
    {
        match self {
            Json::Number(n) => number_as_u64(n),
            _ => None,
        }
    }

    /// The truth value, where this is one.
    pub fn as_bool(&self) -> (value: Option<bool>)
        ensures
            value == self@.as_bool(),
    {
        match self {
            Json::Bool(b) => Some(*b),
            _ => None,
        }
    }

    /// The items, where this is an array.
    pub fn as_array(&self) -> (items: Option<&Vec<Json>>)
        ensures
            match items {
                Some(v) => self@.as_array() == Some(trees(v@)),
                None => self@.as_array() is None,
            },
    {
        match self {
            Json::Array(values) => Some(values),
            _ => None,
        }
    }

    /// Whether this is `null`.
    pub fn is_null(&self) -> (null: bool)
        ensures
            null == (self@ == Tree::Null),
    {
        match self {
            Json::Null => true,
            _ => false,
        }
    }

    /// A string value.
    pub fn text(s: &str) -> (value: Json)
        ensures
            value@ == Tree::Text(s@),
    {
        Json::Text(s.to_owned())
    }

    /// An integer value.
    pub fn unsigned(n: u64) -> (value: Json)
        ensures
            value@ == Tree::Number(decimal(n as nat)),
    {
        Json::Number(number_from_u64(n))
    }

    /// An integer value, negative or not.
    pub fn signed(n: i64) -> (value: Json)
        ensures
            value@ == Tree::Number(signed_decimal(n as int)),
    {
        Json::Number(number_from_i64(n))
    }

    /// An object with one member.
    pub fn object1(key: &str, value: Json) -> (object: Json)
        ensures
            object@ == Tree::Object(object1(key@, value@)),
    {
        let mut entries = no_members();
        put(&mut entries, key, value);
        Json::Object(entries)
    }

    /// An object with two members, the second inserted after the first.
    pub fn object2(key1: &str, value1: Json, key2: &str, value2: Json) -> (object: Json)
        ensures
            object@ == Tree::Object(object2(key1@, value1@, key2@, value2@)),
    {
        let mut entries = no_members();
        put(&mut entries, key1, value1);
        put(&mut entries, key2, value2);
        Json::Object(entries)
    }

    /// A value equal to this one.
    pub fn duplicate(&self) -> (copy: Json)
        ensures
            copy@ == self@,
        decreases self,
    {
        match self {
            Json::Null => Json::Null,
            Json::Bool(b) => Json::Bool(*b),
            Json::Number(n) => Json::Number(n.clone()),
            Json::Text(s) => Json::Text(s.clone()),
            Json::Array(values) => {
                let mut out: Vec<Json> = Vec::new();
                let mut i: usize = 0;
                while i < values.len()
                    invariant
                        self == Json::Array(*values),
                        i <= values.len(),
                        trees(out@) == trees(values@).take(i as int),
                    decreases values.len() - i,
                {
                    proof {
                        lemma_item_decreases(*self, i as int);
                        assert(trees(values@).take(i + 1) =~= trees(values@).take(i as int).push(
                            values@[i as int]@,
                        ));
                    }
                    let copy = values[i].duplicate();
                    proof {
                        lemma_trees_push(out@, copy);
                    }
                    out.push(copy);
                    i = i + 1;
                }
                assert(trees(values@).take(i as int) =~= trees(values@));
                Json::Array(out)
            },
            Json::Object(entries) => {
                let mut out: Vec<(String, Json)> = Vec::new();
                let mut i: usize = 0;
                while i < entries.len()
                    invariant
                        self == Json::Object(*entries),
                        i <= entries.len(),
                        members(out@) == members(entries@).take(i as int),
                    decreases entries.len() - i,
                {
                    let entry = &entries[i];
                    proof {
                        lemma_entry_decreases(*self, i as int);
                        assert(members(entries@).take(i + 1) =~= members(entries@).take(
                            i as int,
                        ).push((entry.0@, entry.1@)));
                    }
                    let copy = (entry.0.clone(), entry.1.duplicate());
                    proof {
                        lemma_members_push(out@, copy);
                    }
                    out.push(copy);
                    i = i + 1;
                }
                assert(members(entries@).take(i as int) =~= members(entries@));
                Json::Object(out)
            },
        }
    }

    /// The `serde_json` value with the same content.
    pub fn to_value(&self) -> (value: serde_json::Value)
        ensures
            value_tree(value) == self@.normal(),
        decreases self,
    {
        match self {
            Json::Null => close_value(Node::Null),
            Json::Bool(b) => close_value(Node::Bool(*b)),
            Json::Number(n) => close_value(Node::Number(n.clone())),
            Json::Text(s) => close_value(Node::Text(s.clone())),
            Json::Array(values) => {
                let mut out: Vec<serde_json::Value> = Vec::new();
                let mut i: usize = 0;
                while i < values.len()
                    invariant
                        self == Json::Array(*values),
                        i <= values.len(),
                        out.len() == i,
                        forall|k: int|
                            0 <= k < i ==> value_tree(#[trigger] out@[k]) == values@[k]@.normal(),
                    decreases values.len() - i,
                {
                    proof {
                        lemma_item_decreases(*self, i as int);
                    }
                    out.push(values[i].to_value());
                    i = i + 1;
                }
                assert(Seq::new(out@.len(), |i: int| value_tree(out@[i])) =~= normal_items(
                    trees(values@),
                ));
                close_value(Node::Array(out))
            },
            Json::Object(entries) => {
                let mut out: Vec<(String, serde_json::Value)> = Vec::new();
                let mut i: usize = 0;
                while i < entries.len()
                    invariant
                        self == Json::Object(*entries),
                        i <= entries.len(),
                        out.len() == i,
                        forall|k: int|
                            0 <= k < i ==> {
                                &&& value_tree((#[trigger] out@[k]).1) == entries@[k].1@.normal()
                                &&& out@[k].0@ == entries@[k].0@
                            },
                    decreases entries.len() - i,
                {
                    let entry = &entries[i];
                    proof {
                        lemma_entry_decreases(*self, i as int);
                    }
                    out.push((entry.0.clone(), entry.1.to_value()));
                    i = i + 1;
                }
                assert(value_members(out@) =~= normal_members(members(entries@)));
                close_value(Node::Object(out))
            },
        }
    }

    /// The library's form of a `serde_json` value.
    pub fn from_value(value: serde_json::Value) -> (json: Json)
        ensures
            json@ == value_tree(value),
        decreases value_tree(value),
    {
        match open_value(value) {
            Node::Null => Json::Null,
            Node::Bool(b) => Json::Bool(b),
            Node::Number(n) => Json::Number(n),
            Node::Text(s) => Json::Text(s),
            Node::Array(items) => {
                let mut items = items;
                let ghost all = items@;
                let mut out: Vec<Json> = Vec::new();
                let ghost tree = value_tree(value);
                proof {
                    assert(tree == Tree::Array(Seq::new(all.len(), |i: int| value_tree(all[i]))));
                }
                while items.len() > 0
                    invariant
                        items@.len() + out@.len() == all.len(),
                        items@ == all.skip(out@.len() as int),
                        tree == Tree::Array(Seq::new(all.len(), |i: int| value_tree(all[i]))),
                        tree == value_tree(value),
                        forall|k: int| 0 <= k < out@.len() ==> (#[trigger] out@[k])@ == value_tree(all[k]),
                    decreases items.len(),
                {
                    let first = items.remove(0);
                    proof {
                        let k = out@.len() as int;
                        assert(first == all[k]);
                        assert(tree->Array_0[k] == value_tree(first));
                        assert(decreases_to!(tree => tree->Array_0));
                        assert(decreases_to!(tree->Array_0 => tree->Array_0[k]));
                    }
                    out.push(Json::from_value(first));
                    assert(items@ =~= all.skip(out@.len() as int));
                }
                assert(trees(out@) =~= tree->Array_0);
                Json::Array(out)
            },
            Node::Object(entries) => {
                let mut entries = entries;
                let ghost all = entries@;
                let mut out: Vec<(String, Json)> = Vec::new();
                let ghost tree = value_tree(value);
                while entries.len() > 0
                    invariant
                        entries@.len() + out@.len() == all.len(),
                        entries@ == all.skip(out@.len() as int),
                        tree == Tree::Object(value_members(all)),
                        tree == value_tree(value),
                        forall|k: int|
                            0 <= k < out@.len() ==> {
                                &&& (#[trigger] out@[k]).1@ == value_tree(all[k].1)
                                &&& out@[k].0@ == all[k].0@
                            },
                    decreases entries.len(),
                {
                    let (name, first) = entries.remove(0);
                    proof {
                        let k = out@.len() as int;
                        assert(tree->Object_0[k] == (name@, value_tree(first)));
                        assert(decreases_to!(tree => tree->Object_0));
                        assert(decreases_to!(tree->Object_0 => tree->Object_0[k]));
                        assert(decreases_to!(tree->Object_0[k] => tree->Object_0[k].1));
                    }
                    out.push((name, Json::from_value(first)));
                    assert(entries@ =~= all.skip(out@.len() as int));
                }
                assert(members(out@) =~= tree->Object_0);
                Json::Object(out)
            },
        }
    }

    /// Parses a JSON text.
    pub fn parse(text: &str) -> (result: Result<Json, String>)
        ensures
            match result {
                Ok(json) => parsed_text(text@) == Ok::<Tree, Seq<char>>(json@),
                Err(message) => parsed_text(text@) == Err::<Tree, Seq<char>>(message@),
            },
    {
        match value_from_str(text) {
            Ok(value) => Ok(Json::from_value(value)),
            Err(message) => Err(message),
        }
    }

    /// Parses the bytes of a JSON text.
    pub fn parse_bytes(bytes: &[u8]) -> (result: Result<Json, String>)
        ensures
            match result {
                Ok(json) => parsed_bytes(bytes@) == Ok::<Tree, Seq<char>>(json@),
                Err(message) => parsed_bytes(bytes@) == Err::<Tree, Seq<char>>(message@),
            },
    {
        match value_from_slice(bytes) {
            Ok(value) => Ok(Json::from_value(value)),
            Err(message) => Err(message),
        }
    }

    /// The compact JSON text of this value.
    pub fn to_text(&self) -> (text: String)
        ensures
            text@ == self@.compact(),
    {
        value_to_string(&self.to_value())
    }

    /// The bytes of the compact JSON text of this value.
    pub fn to_bytes(&self) -> (result: Result<Vec<u8>, String>)
        ensures
            result matches Ok(bytes) && bytes@ == vstd::utf8::encode_utf8(self@.compact()),
    {
        value_to_vec(&self.to_value())
    }

    /// The string member `key`.
    pub fn str_member(&self, key: &str) -> (text: Option<&str>)
        ensures
            match text {
                Some(s) => str_member(self@, key@) == Some(s@),
                None => str_member(self@, key@) is None,
            },
    {
        match self.get(key) {
            Some(v) => v.as_str(),
            None => None,
        }
    }

    /// The string member `key`, or `default`.
    pub fn str_member_or(&self, key: &str, default: &str) -> (text: String)
        ensures
            text@ == str_member_or(self@, key@, default@),
    {
        match self.str_member(key) {
            Some(s) => s.to_owned(),
            None => default.to_owned(),
        }
    }

    /// The unsigned integer member `key`.
    pub fn u64_member(&self, key: &str) -> (value: Option<u64>)
        ensures
            value == u64_member(self@, key@),
    {
        match self.get(key) {
            Some(v) => v.as_u64(),
            None => None,
        }
    }

    /// The unsigned integer member `key`, cut to 32 bits.
    pub fn u32_member(&self, key: &str) -> (value: Option<u32>)
        ensures
            value == u32_member(self@, key@),
    {
        match self.u64_member(key) {
            Some(n) => Some(cut32(n)),
            None => None,
        }
    }

    /// The array member `key`.
    pub fn array_member(&self, key: &str) -> (items: Option<&Vec<Json>>)
        ensures
            match items {
                Some(v) => array_member(self@, key@) == Some(trees(v@)),
                None => array_member(self@, key@) is None,
            },
    {
        match self.get(key) {
            Some(v) => v.as_array(),
            None => None,
        }
    }
}

/// Cuts a count to its low 32 bits.
pub(crate) fn cut32(n: u64) -> (low: u32)
    ensures
        low == low32(n),
{
    assert(n as u32 == n % 0x1_0000_0000) by (bit_vector);
    #[verifier::truncate]
    (n as u32)
}

/// An integer value, if there is one.
pub(crate) fn number32(n: Option<u32>) -> (value: Option<Json>)
    ensures
        opt_tree(value) == number_tree(opt_nat32(n)),
{
    match n {
        Some(n) => Some(Json::unsigned(n as u64)),
        None => None,
    }
}

/// A copy of a value, if there is one.
pub(crate) fn copied(value: &Option<Json>) -> (copy: Option<Json>)
    ensures
        opt_tree(copy) == opt_tree(*value),
{
    match value {
        Some(v) => Some(v.duplicate()),
        None => None,
    }
}

/// A string value, if there is one.
pub(crate) fn optional_text(text: &Option<String>) -> (value: Option<Json>)
    ensures
        opt_tree(value) == text_tree(opt_text(*text)),
{
    match text {
        Some(s) => Some(Json::text(s.as_str())),
        None => None,
    }
}

impl Clone for Json {
    fn clone(&self) -> (copy: Json)
        ensures
            copy@ == self@,
    {
        self.duplicate()
    }
}

} // verus!
