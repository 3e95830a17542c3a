//! JSON trees: the library's own tree type, its mathematical model, the
//! operations the patch synthesizer needs on it, and the conversion into
//! `serde_json` values.

use vstd::prelude::*;

verus! {

#[verifier::external_type_specification]
#[verifier::external_body]
pub struct ExValue(serde_json::Value);

#[verifier::external_type_specification]
#[verifier::external_body]
pub struct ExNumber(serde_json::Number);

/// A JSON tree. An object is a list of entries; where a key occurs more than
/// once, its last entry counts.
#[derive(Debug)]
pub enum Json {
    Null,
    Bool(bool),
    Number(serde_json::Number),
    String(String),
    Array(Vec<Json>),
    Object(Vec<(String, Json)>),
}

/// Mathematical model of a JSON tree.
pub enum JsonView {
    Null,
    Bool(bool),
    Number(serde_json::Number),
    String(Seq<char>),
    Array(Seq<JsonView>),
    Object(Map<Seq<char>, JsonView>),
}

/// The map that a list of entries stands for: a later entry replaces an
/// earlier one of the same key.
pub open spec fn assoc<V>(entries: Seq<(Seq<char>, V)>) -> Map<Seq<char>, V>
    decreases entries.len(),
{
    if entries.len() == 0 {
        Map::empty()
    } else {
        assoc(entries.drop_last()).insert(entries.last().0, entries.last().1)
    }
}

/// The tree that `j` stands for.
pub open spec fn tree_of(j: Json) -> JsonView
    decreases j,
{
    match j {
        Json::Null => JsonView::Null,
        Json::Bool(b) => JsonView::Bool(b),
        Json::Number(n) => JsonView::Number(n),
        Json::String(s) => JsonView::String(s@),
        Json::Array(items) => JsonView::Array(items_of(items@)),
        Json::Object(entries) => JsonView::Object(assoc(entries_of(entries@))),
    }
}

/// The trees of a list of items, in order.
pub open spec fn items_of(items: Seq<Json>) -> Seq<JsonView>
    decreases items,
{
    if items.len() == 0 {
        Seq::empty()
    } else {
        items_of(items.drop_last()).push(tree_of(items.last()))
    }
}

/// The keys and trees of a list of entries, in order.
pub open spec fn entries_of(entries: Seq<(String, Json)>) -> Seq<(Seq<char>, JsonView)>
    decreases entries,
{
    if entries.len() == 0 {
        Seq::empty()
    } else {
        entries_of(entries.drop_last()).push((entries.last().0@, tree_of(entries.last().1)))
    }
}

impl View for Json {
    type V = JsonView;

    open spec fn view(&self) -> JsonView {
        tree_of(*self)
    }
}

/// The entries of an object; of any other tree, none.
pub open spec fn members(tree: JsonView) -> Map<Seq<char>, JsonView> {
    match tree {
        JsonView::Object(m) => m,
        _ => Map::empty(),
    }
}

/// What reading `key` in `tree` gives: the member, or null where `tree` is no
/// object or has no such member.
pub open spec fn member(tree: JsonView, key: Seq<char>) -> JsonView {
    if members(tree).contains_key(key) {
        members(tree)[key]
    } else {
        JsonView::Null
    }
}

/// Whether a member can be written into `tree`: into an object, and into
/// null, which then counts as an object without members.
pub open spec fn takes_members(tree: JsonView) -> bool {
    tree is Null || tree is Object
}

/// `tree` as an object in which `key` leads to `value`.
pub open spec fn with_member(tree: JsonView, key: Seq<char>, value: JsonView) -> JsonView {
    JsonView::Object(members(tree).insert(key, value))
}

/// The tree that an absent or present tree stands for: null where absent.
pub open spec fn tree_or_null(tree: Option<&Json>) -> JsonView {
    match tree {
        Some(j) => j@,
        None => JsonView::Null,
    }
}

/// `entries_of` keeps length and positions.
pub proof fn lemma_entries_of(entries: Seq<(String, Json)>)
    ensures
        entries_of(entries).len() == entries.len(),
        forall|i: int|
            0 <= i < entries.len() ==> #[trigger] entries_of(entries)[i] == (
                entries[i].0@,
                tree_of(entries[i].1),
            ),
    decreases entries.len(),
{
    if entries.len() > 0 {
        lemma_entries_of(entries.drop_last());
    }
}

/// Appending an item appends its tree.
pub proof fn lemma_items_push(items: Seq<Json>, item: Json)
    ensures
        items_of(items.push(item)) == items_of(items).push(tree_of(item)),
{
    assert(items.push(item).drop_last() == items);
}

/// Appending an entry appends its key and tree.
pub proof fn lemma_entries_push(entries: Seq<(String, Json)>, entry: (String, Json))
    ensures
        entries_of(entries.push(entry)) == entries_of(entries).push((entry.0@, tree_of(entry.1))),
{
    assert(entries.push(entry).drop_last() == entries);
}

/// Appending an entry is an insertion into the map.
pub proof fn lemma_assoc_push<V>(entries: Seq<(Seq<char>, V)>, key: Seq<char>, value: V)
    ensures
        assoc(entries.push((key, value))) == assoc(entries).insert(key, value),
{
    assert(entries.push((key, value)).drop_last() == entries);
}

/// A key that no entry carries is not in the map.
pub proof fn lemma_assoc_absent<V>(entries: Seq<(Seq<char>, V)>, key: Seq<char>)
    requires
        forall|i: int| 0 <= i < entries.len() ==> (#[trigger] entries[i]).0 != key,
    ensures
        !assoc(entries).contains_key(key),
    decreases entries.len(),
{
    if entries.len() > 0 {
        assert(entries.last() == entries[entries.len() - 1]);
        lemma_assoc_absent(entries.drop_last(), key);
    }
}

/// The last entry of a key is the one the map holds.
pub proof fn lemma_assoc_last<V>(entries: Seq<(Seq<char>, V)>, at: int)
    requires
        0 <= at < entries.len(),
        forall|i: int| at < i < entries.len() ==> (#[trigger] entries[i]).0 != entries[at].0,
    ensures
        assoc(entries).contains_key(entries[at].0),
        assoc(entries)[entries[at].0] == entries[at].1,
    decreases entries.len(),
{
    if at < entries.len() - 1 {
        assert(entries.last() == entries[entries.len() - 1]);
        lemma_assoc_last(entries.drop_last(), at);
    }
}

/// Replacing the last entry of a key is an insertion into the map.
pub proof fn lemma_assoc_update<V>(entries: Seq<(Seq<char>, V)>, at: int, value: V)
    requires
        0 <= at < entries.len(),
        forall|i: int| at < i < entries.len() ==> (#[trigger] entries[i]).0 != entries[at].0,
    ensures
        assoc(entries.update(at, (entries[at].0, value))) == assoc(entries).insert(
            entries[at].0,
            value,
        ),
    decreases entries.len(),
{
    let key = entries[at].0;
    let updated = entries.update(at, (key, value));
    if at == entries.len() - 1 {
        assert(updated.drop_last() == entries.drop_last());
        assert(assoc(updated) == assoc(entries).insert(key, value));
    } else {
        assert(entries.last() == entries[entries.len() - 1]);
        lemma_assoc_update(entries.drop_last(), at, value);
        assert(updated.drop_last() == entries.drop_last().update(at, (key, value)));
        assert(updated.last() == entries.last());
        assert(assoc(updated) == assoc(entries).insert(key, value));
    }
}

/// Position of the last entry under `key`, if there is one.
pub fn find_entry(entries: &Vec<(String, Json)>, key: &str) -> (found: Option<usize>)
    ensures
        match found {
            Some(at) => {
                &&& at < entries.len()
                &&& entries[at as int].0@ == key@
                &&& forall|i: int| at < i < entries.len() ==> (#[trigger] entries[i]).0@ != key@
            },
            None => forall|i: int| 0 <= i < entries.len() ==> (#[trigger] entries[i]).0@ != key@,
        },
{
    let wanted = key.to_owned();
    let mut at = entries.len();
    while at > 0
        invariant
            at <= entries.len(),
            wanted@ == key@,
            forall|i: int| at <= i < entries.len() ==> (#[trigger] entries[i]).0@ != key@,
        decreases at,
    {
        at -= 1;
        if entries[at].0 == wanted {
            return Some(at);
        }
    }
    None
}

impl Json {
    /// The member under `key`: `None` where `self` is no object or has no such
    /// member.
    pub fn member(&self, key: &str) -> (found: Option<&Json>)
        ensures
            found is Some <==> members(self@).contains_key(key@),
            found matches Some(j) ==> j@ == members(self@)[key@],
            tree_or_null(found) == member(self@, key@),
    {
        match self {
            Json::Object(entries) => {
                proof {
                    lemma_entries_of(entries@);
                }
                match find_entry(entries, key) {
                    Some(at) => {
                        proof {
                            lemma_assoc_last(entries_of(entries@), at as int);
                        }
                        Some(&entries[at].1)
                    },
                    None => {
                        proof {
                            lemma_assoc_absent(entries_of(entries@), key@);
                        }
                        None
                    },
                }
            },
            _ => None,
        }
    }

    /// A copy of the tree.
    pub fn duplicate(&self) -> (copy: Json)
        ensures
            copy@ == self@,
        decreases self,
    {
        match self {
            Json::Null => Json::Null,
            Json::Bool(b) => Json::Bool(*b),
            Json::Number(n) => Json::Number(n.clone()),
            Json::String(s) => Json::String(s.clone()),
            Json::Array(items) => {
                let mut copies: Vec<Json> = Vec::new();
                let mut i: usize = 0;
                while i < items.len()
                    invariant
                        i <= items.len(),
                        *self == Json::Array(*items),
                        items_of(copies@) == items_of(items@.take(i as int)),
                    decreases items.len() - i,
                {
                    proof {
                        assert(decreases_to!(self => self->Array_0));
                        assert(decreases_to!(items => items[i as int]));
                    }
                    let copy = items[i].duplicate();
                    proof {
                        assert(items@.take(i + 1).drop_last() == items@.take(i as int));
                        assert(copies@.push(copy).drop_last() == copies@);
                    }
                    copies.push(copy);
                    i += 1;
                }
                proof {
                    assert(items@.take(i as int) == items@);
                }
                Json::Array(copies)
            },
            Json::Object(entries) => {
                let mut copies: Vec<(String, Json)> = Vec::new();
                let mut i: usize = 0;
                while i < entries.len()
                    invariant
                        i <= entries.len(),
                        *self == Json::Object(*entries),
                        entries_of(copies@) == entries_of(entries@.take(i as int)),
                    decreases entries.len() - i,
                {
                    proof {
                        assert(decreases_to!(self => self->Object_0));
                        assert(decreases_to!(entries => entries[i as int]));
                        assert(decreases_to!(entries[i as int] => entries[i as int].1));
                    }
                    let copy = (entries[i].0.clone(), entries[i].1.duplicate());
                    proof {
                        assert(entries@.take(i + 1).drop_last() == entries@.take(i as int));
                        assert(copies@.push(copy).drop_last() == copies@);
                    }
                    copies.push(copy);
                    i += 1;
                }
                proof {
                    assert(entries@.take(i as int) == entries@);
                }
                Json::Object(copies)
            },
        }
    }
}

/// Appends the entry `key`, `value` to the entries of an object under
/// construction: `key` then leads to `value`.
pub fn put(entries: &mut Vec<(String, Json)>, key: &str, value: Json)
    ensures
        final(entries)@.len() == old(entries)@.len() + 1,
        entries_of(final(entries)@) == entries_of(old(entries)@).push((key@, value@)),
        assoc(entries_of(final(entries)@)) == assoc(entries_of(old(entries)@)).insert(
            key@,
            value@,
        ),
{
    let entry = (key.to_owned(), value);
    proof {
        lemma_entries_push(entries@, entry);
        lemma_assoc_push(entries_of(entries@), key@, value@);
    }
    entries.push(entry);
}

/// Appends copies of the entries `from..to` of `entries` to `out`.
fn copy_entries(entries: &Vec<(String, Json)>, from: usize, to: usize, out: &mut Vec<(String, Json)>)
    requires
        from <= to <= entries.len(),
    ensures
        entries_of(final(out)@) == entries_of(old(out)@) + entries_of(entries@).subrange(
            from as int,
            to as int,
        ),
{
    proof {
        lemma_entries_of(entries@);
        assert(entries_of(entries@).subrange(from as int, from as int) == Seq::<
            (Seq<char>, JsonView),
        >::empty());
    }
    let mut i: usize = from;
    while i < to
        invariant
            from <= i <= to <= entries.len(),
            entries_of(entries@).len() == entries.len(),
            forall|k: int|
                0 <= k < entries.len() ==> #[trigger] entries_of(entries@)[k] == (
                    entries[k].0@,
                    tree_of(entries[k].1),
                ),
            entries_of(out@) == entries_of(old(out)@) + entries_of(entries@).subrange(
                from as int,
                i as int,
            ),
        decreases to - i,
    {
        let copy = (entries[i].0.clone(), entries[i].1.duplicate());
        proof {
            assert(out@.push(copy).drop_last() == out@);
            assert(entries_of(entries@).subrange(from as int, i + 1) == entries_of(
                entries@,
            ).subrange(from as int, i as int).push(entries_of(entries@)[i as int]));
        }
        out.push(copy);
        i += 1;
    }
}

/// The entries of an object with `key` leading to `value`: in the place of the
/// entry that counted for `key` so far, or at the end where there was none.
pub fn entries_with(entries: &Vec<(String, Json)>, key: &str, value: Json) -> (out: Vec<
    (String, Json),
>)
    ensures
        assoc(entries_of(out@)) == assoc(entries_of(entries@)).insert(key@, value@),
{
    let mut out: Vec<(String, Json)> = Vec::new();
    let ghost before = entries_of(entries@);
    proof {
        lemma_entries_of(entries@);
    }
    match find_entry(entries, key) {
        Some(at) => {
            copy_entries(entries, 0, at, &mut out);
            let ghost head = out@;
            let entry = (key.to_owned(), value);
            proof {
                assert(out@.push(entry).drop_last() == out@);
            }
            out.push(entry);
            copy_entries(entries, at + 1, entries.len(), &mut out);
            proof {
                assert(entries_of(out@) == before.update(at as int, (key@, value@)));
                lemma_assoc_update(before, at as int, value@);
            }
        },
        None => {
            copy_entries(entries, 0, entries.len(), &mut out);
            let entry = (key.to_owned(), value);
            proof {
                assert(out@.push(entry).drop_last() == out@);
                assert(before.subrange(0, entries.len() as int) == before);
                assert(entries_of(out@.push(entry)).drop_last() == before);
            }
            out.push(entry);
        },
    }
    out
}

/// Writes `value` under `key` into a copy of `tree`, or into a new object where
/// `tree` is absent or null. `None` where `tree` is neither: nothing can be
/// written into a scalar or an array by key.
pub fn set_member(tree: Option<&Json>, key: &str, value: Json) -> (out: Option<Json>)
    ensures
        out is Some <==> takes_members(tree_or_null(tree)),
        out matches Some(j) ==> j@ == with_member(tree_or_null(tree), key@, value@),
{
    match tree {
        None => Some(Json::Object(entries_with(&Vec::new(), key, value))),
        Some(Json::Null) => Some(Json::Object(entries_with(&Vec::new(), key, value))),
        Some(Json::Object(entries)) => Some(Json::Object(entries_with(entries, key, value))),
        Some(_) => None,
    }
}

/// The tree that a `serde_json` value holds.
pub uninterp spec fn value_tree(v: serde_json::Value) -> JsonView;

/// `serde_json::Value::Null`: the value that holds the null tree.
#[verifier::external_body]
fn value_null() -> (v: serde_json::Value)
    ensures
        value_tree(v) == JsonView::Null,
{
    serde_json::Value::Null
}

/// `serde_json::Value::Bool`: the value that holds the boolean `b`.
#[verifier::external_body]
fn value_bool(b: bool) -> (v: serde_json::Value)
    ensures
        value_tree(v) == JsonView::Bool(b),
{
    serde_json::Value::Bool(b)
}

/// `serde_json::Value::Number`: the value that holds the number `n`.
#[verifier::external_body]
fn value_number(n: serde_json::Number) -> (v: serde_json::Value)
    ensures
        value_tree(v) == JsonView::Number(n),
{
    serde_json::Value::Number(n)
}

/// `serde_json::Value::String`: the value that holds the text of `s`.
#[verifier::external_body]
fn value_string(s: String) -> (v: serde_json::Value)
    ensures
        value_tree(v) == JsonView::String(s@),
{
    serde_json::Value::String(s)
}

/// `Clone` of `serde_json::Number`: the same number again.
pub assume_specification[ <serde_json::Number as Clone>::clone ](n: &serde_json::Number) -> (r:
    serde_json::Number)
    ensures
        r == *n,
;

/// `serde_json::Value::Array`: the value that holds the trees of `items`, in
/// order.
#[verifier::external_body]
fn value_array(items: Vec<serde_json::Value>) -> (v: serde_json::Value)
    ensures
        value_tree(v) == JsonView::Array(items@.map_values(|x: serde_json::Value| value_tree(x))),
{
    serde_json::Value::Array(items)
}

/// An object value without entries: `serde_json::Value::Object` of
/// `serde_json::Map::new`.
#[verifier::external_body]
fn value_empty_object() -> (v: serde_json::Value)
    ensures
        value_tree(v) == JsonView::Object(Map::empty()),
{
    serde_json::Value::Object(serde_json::Map::new())
}

/// Assignment through `serde_json::Value`'s index operator with a string key:
/// in an object, `key` now leads to `value`, whether or not the object held
/// the key before, and the other entries stay. The operator panics on a value
/// that is neither an object nor null.
#[verifier::external_body]
fn value_insert(object: &mut serde_json::Value, key: &str, value: serde_json::Value)
    requires
        value_tree(*old(object)) is Object,
    ensures
        value_tree(*final(object)) == JsonView::Object(
            value_tree(*old(object))->Object_0.insert(key@, value_tree(value)),
        ),
{
    object[key] = value;
}

/// Converts a tree into the `serde_json` value that holds it.
pub fn to_value(j: &Json) -> (v: serde_json::Value)
    ensures
        value_tree(v) == j@,
    decreases j,
{
    match j {
        Json::Null => value_null(),
        Json::Bool(b) => value_bool(*b),
        Json::Number(n) => value_number(n.clone()),
        Json::String(s) => value_string(s.clone()),
        Json::Array(items) => {
            let mut values: Vec<serde_json::Value> = Vec::new();
            let mut i: usize = 0;
            while i < items.len()
                invariant
                    i <= items.len(),
                    *j == Json::Array(*items),
                    values@.map_values(|x: serde_json::Value| value_tree(x)) == items_of(
                        items@.take(i as int),
                    ),
                decreases items.len() - i,
            {
                proof {
                    assert(decreases_to!(j => j->Array_0));
                    assert(decreases_to!(items => items[i as int]));
                }
                let v = to_value(&items[i]);
                proof {
                    assert(items@.take(i + 1).drop_last() == items@.take(i as int));
                }
                values.push(v);
                i += 1;
            }
            proof {
                assert(items@.take(i as int) == items@);
            }
            value_array(values)
        },
        Json::Object(entries) => {
            let mut object = value_empty_object();
            let mut i: usize = 0;
            while i < entries.len()
                invariant
                    i <= entries.len(),
                    *j == Json::Object(*entries),
                    value_tree(object) == JsonView::Object(
                        assoc(entries_of(entries@.take(i as int))),
                    ),
                decreases entries.len() - i,
            {
                proof {
                    assert(decreases_to!(j => j->Object_0));
                    assert(decreases_to!(entries => entries[i as int]));
                    assert(decreases_to!(entries[i as int] => entries[i as int].1));
                }
                let v = to_value(&entries[i].1);
                proof {
                    assert(entries@.take(i + 1).drop_last() == entries@.take(i as int));
                    assert(entries_of(entries@.take(i + 1)).drop_last() == entries_of(
                        entries@.take(i as int),
                    ));
                }
                value_insert(&mut object, entries[i].0.as_str(), v);
                i += 1;
            }
            proof {
                assert(entries@.take(i as int) == entries@);
            }
            object
        },
    }
}

} // verus!
