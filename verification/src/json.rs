//! JSON trees and their deep union.

use crate::assoc::{assoc_map, lemma_assoc_index, lemma_assoc_push, lemma_assoc_update};
use crate::encode::{
    item_views, member_keys, member_views, value_array, value_bool, value_null, value_number,
    value_object, value_string, value_view,
};
use vstd::prelude::*;
use vstd::std_specs::cmp::PartialEqSpecImpl;

verus! {

/// A JSON tree.
#[derive(Debug)]
pub enum Json {
    Null,
    Bool(bool),
    Number(i64),
    String(String),
    Array(Vec<Json>),
    Object(JsonMap),
}

/// The members of a JSON object. Each key is held once.
#[derive(Debug)]
pub struct JsonMap {
    entries: Vec<(String, Json)>,
}

/// The mathematical value of a JSON tree: an object is a map from keys to trees.
pub enum JsonView {
    Null,
    Bool(bool),
    Number(int),
    String(Seq<char>),
    Array(Seq<JsonView>),
    Object(Map<Seq<char>, JsonView>),
}

/// The keys of a list of members, in its order.
spec fn keys_of(entries: Seq<(String, Json)>) -> Seq<Seq<char>> {
    Seq::new(entries.len(), |i: int| entries[i].0@)
}

impl View for Json {
    type V = JsonView;

    open spec fn view(&self) -> JsonView
        decreases self,
    {
        match self {
            Json::Null => JsonView::Null,
            Json::Bool(b) => JsonView::Bool(*b),
            Json::Number(n) => JsonView::Number(*n as int),
            Json::String(s) => JsonView::String(s@),
            Json::Array(items) => JsonView::Array(
                Seq::new(
                    items.len() as nat,
                    |i: int| if 0 <= i < items.len() { items[i].view() } else { JsonView::Null },
                ),
            ),
            Json::Object(members) => JsonView::Object(members.view()),
        }
    }
}

impl View for JsonMap {
    type V = Map<Seq<char>, JsonView>;

    closed spec fn view(&self) -> Map<Seq<char>, JsonView>
        decreases self,
    {
        Map::new(
            |k: Seq<char>| keys_of(self.entries@).contains(k),
            |k: Seq<char>|
                {
                    let i = keys_of(self.entries@).index_of(k);
                    if 0 <= i < self.entries.len() {
                        self.entries[i].1.view()
                    } else {
                        JsonView::Null
                    }
                },
        )
    }
}

/// The values of a list of members, in its order.
spec fn values_of(entries: Seq<(String, Json)>) -> Seq<JsonView> {
    Seq::new(entries.len(), |i: int| entries[i].1@)
}

/// The map that a list of members stands for.
spec fn entries_map(entries: Seq<(String, Json)>) -> Map<Seq<char>, JsonView> {
    assoc_map(keys_of(entries), values_of(entries))
}

/// The deep union of two trees. Where both are objects, the result holds each key of
/// either, with the members under a key of both merged; anywhere else `b` replaces `a`.
pub open spec fn merged(a: JsonView, b: JsonView) -> JsonView
    decreases b,
{
    match (a, b) {
        (JsonView::Object(ma), JsonView::Object(mb)) => JsonView::Object(
            Map::new(
                |k: Seq<char>| ma.contains_key(k) || mb.contains_key(k),
                |k: Seq<char>|
                    if mb.contains_key(k) {
                        if ma.contains_key(k) {
                            merged(ma[k], mb[k])
                        } else {
                            mb[k]
                        }
                    } else {
                        ma[k]
                    },
            ),
        ),
        _ => b,
    }
}

/// The deep union of the members of two objects.
pub open spec fn merged_members(a: Map<Seq<char>, JsonView>, b: Map<Seq<char>, JsonView>) -> Map<
    Seq<char>,
    JsonView,
> {
    merged(JsonView::Object(a), JsonView::Object(b))->Object_0
}

proof fn lemma_push(entries: Seq<(String, Json)>, entry: (String, Json))
    requires
        keys_of(entries).no_duplicates(),
        !keys_of(entries).contains(entry.0@),
    ensures
        keys_of(entries.push(entry)).no_duplicates(),
        entries_map(entries.push(entry)) == entries_map(entries).insert(entry.0@, entry.1@),
{
    assert(keys_of(entries.push(entry)) =~= keys_of(entries).push(entry.0@));
    lemma_assoc_push(keys_of(entries), values_of(entries), entry.0@, entry.1@);
}

proof fn lemma_update(entries: Seq<(String, Json)>, i: int, entry: (String, Json))
    requires
        keys_of(entries).no_duplicates(),
        0 <= i < entries.len(),
        entries[i].0@ == entry.0@,
    ensures
        keys_of(entries.update(i, entry)) == keys_of(entries),
        entries_map(entries.update(i, entry)) == entries_map(entries).insert(entry.0@, entry.1@),
{
    lemma_assoc_update(keys_of(entries), values_of(entries), i, entry.1@);
}

/// What the members `target` have become when the first `n` members of `source` have been
/// merged into them.
spec fn merged_prefix(
    target: Map<Seq<char>, JsonView>,
    source: Seq<(String, Json)>,
    n: int,
) -> Map<Seq<char>, JsonView> {
    merged_members(target, entries_map(source.take(n)))
}

proof fn lemma_merged_prefix_step(
    target: Map<Seq<char>, JsonView>,
    source: Seq<(String, Json)>,
    n: int,
)
    requires
        keys_of(source).no_duplicates(),
        0 <= n < source.len(),
    ensures
        !keys_of(source.take(n)).contains(source[n].0@),
        merged_prefix(target, source, n + 1) == merged_prefix(target, source, n).insert(
            source[n].0@,
            if target.contains_key(source[n].0@) {
                merged(target[source[n].0@], source[n].1@)
            } else {
                source[n].1@
            },
        ),
{
    let before = source.take(n);
    assert(keys_of(before) =~= keys_of(source).take(n));
    assert(keys_of(source)[n] == source[n].0@);
    assert(source.take(n + 1) =~= before.push(source[n]));
    lemma_push(before, source[n]);
}

/// The place in `entries` of the member under `key`, where there is one.
fn find(entries: &Vec<(String, Json)>, key: &String) -> (place: Option<usize>)
    ensures
        match place {
            Some(i) => i < entries.len() && entries[i as int].0@ == key@,
            None => !keys_of(entries@).contains(key@),
        },
{
    let mut i: usize = 0;
    while i < entries.len()
        invariant
            i <= entries.len(),
            forall|j: int| 0 <= j < i ==> keys_of(entries@)[j] != key@,
        decreases entries.len() - i,
    {
        if entries[i].0 == *key {
            return Some(i);
        }
        i += 1;
    }
    None
}

impl JsonMap {
    #[verifier::type_invariant]
    spec fn inv(&self) -> bool {
        keys_of(self.entries@).no_duplicates()
    }

    /// The keys of the members, in the order in which the members are held.
    pub closed spec fn keys(&self) -> Seq<Seq<char>> {
        keys_of(self.entries@)
    }

    proof fn lemma_view(&self)
        ensures
            self@ == entries_map(self.entries@),
    {
    }

    /// An object without members.
    pub fn new() -> (members: JsonMap)
        ensures
            members@ == Map::<Seq<char>, JsonView>::empty(),
            members.keys() == Seq::<Seq<char>>::empty(),
    {
        let members = JsonMap { entries: Vec::new() };
        members
    }

    /// The number of members.
    pub fn len(&self) -> (n: usize)
        ensures
            n == self.keys().len(),
            self.keys().no_duplicates(),
            forall|k: Seq<char>| self.keys().contains(k) <==> self@.contains_key(k),
    {
        proof {
            use_type_invariant(self);
        }
        self.entries.len()
    }

    /// Whether there is no member.
    pub fn is_empty(&self) -> (empty: bool)
        ensures
            empty == (self@ == Map::<Seq<char>, JsonView>::empty()),
            empty == (self.keys().len() == 0),
    {
        proof {
            if self.entries.len() == 0 {
                assert(self@ =~= Map::<Seq<char>, JsonView>::empty());
            } else {
                assert(keys_of(self.entries@)[0] == self.entries[0].0@);
                assert(self@.contains_key(self.entries[0].0@));
            }
        }
        self.entries.len() == 0
    }

    /// The member at place `i` in the order of the members: its key and its value.
    pub fn entry(&self, i: usize) -> (member: Option<(&String, &Json)>)
        ensures
            member is Some == (i < self.keys().len()),
            member matches Some((key, value)) ==> {
                &&& key@ == self.keys()[i as int]
                &&& self@.contains_key(key@)
                &&& self@[key@] == value@
            },
    {
        if i < self.entries.len() {
            proof {
                use_type_invariant(self);
                self.lemma_view();
                lemma_assoc_index(keys_of(self.entries@), values_of(self.entries@), i as int);
            }
            Some((&self.entries[i].0, &self.entries[i].1))
        } else {
            None
        }
    }

    /// The member under `key`, where there is one.
    pub fn get(&self, key: &str) -> (member: Option<&Json>)
        ensures
            member is Some == self@.contains_key(key@),
            member matches Some(value) ==> value@ == self@[key@],
    {
        let owned = key.to_owned();
        proof {
            use_type_invariant(self);
            self.lemma_view();
        }
        match find(&self.entries, &owned) {
            Some(i) => {
                proof {
                    lemma_assoc_index(
                        keys_of(self.entries@),
                        values_of(self.entries@),
                        i as int,
                    );
                }
                Some(&self.entries[i].1)
            },
            None => None,
        }
    }

    /// Puts `value` under `key`, in place of what was there. A new key comes last.
    pub fn insert(&mut self, key: String, value: Json)
        ensures
            final(self)@ == old(self)@.insert(key@, value@),
            final(self).keys() == if old(self)@.contains_key(key@) {
                old(self).keys()
            } else {
                old(self).keys().push(key@)
            },
    {
        proof {
            use_type_invariant(&*self);
            self.lemma_view();
        }
        let mut entries: Vec<(String, Json)> = Vec::new();
        core::mem::swap(&mut self.entries, &mut entries);
        match find(&entries, &key) {
            Some(i) => {
                proof {
                    lemma_update(entries@, i as int, (key, value));
                    assert(keys_of(entries@)[i as int] == key@);
                }
                entries[i] = (key, value);
            },
            None => {
                proof {
                    lemma_push(entries@, (key, value));
                }
                entries.push((key, value));
            },
        }
        self.entries = entries;
        proof {
            self.lemma_view();
        }
    }

    /// Merges the members of `source` into these, key by key.
    fn merge_from(&mut self, source: &JsonMap)
        ensures
            final(self)@ == merged_members(old(self)@, source@),
        decreases source,
    {
        proof {
            use_type_invariant(&*self);
            use_type_invariant(source);
            self.lemma_view();
            source.lemma_view();
        }
        let ghost target = self@;
        let mut entries: Vec<(String, Json)> = Vec::new();
        core::mem::swap(&mut self.entries, &mut entries);
        let mut i: usize = 0;
        while i < source.entries.len()
            invariant
                i <= source.entries.len(),
                keys_of(entries@).no_duplicates(),
                keys_of(source.entries@).no_duplicates(),
                entries_map(entries@) == merged_prefix(target, source.entries@, i as int),
            decreases source.entries.len() - i,
        {
            let key = &source.entries[i].0;
            let value = &source.entries[i].1;
            proof {
                lemma_merged_prefix_step(target, source.entries@, i as int);
            }
            match find(&entries, key) {
                Some(j) => {
                    let ghost before = entries@;
                    merge(&mut entries[j].1, value);
                    proof {
                        lemma_assoc_index(keys_of(before), values_of(before), j as int);
                        lemma_update(before, j as int, entries@[j as int]);
                    }
                },
                None => {
                    let entry = (key.clone(), value.clone());
                    proof {
                        assert(!merged_prefix(target, source.entries@, i as int).contains_key(
                            key@,
                        ));
                        lemma_push(entries@, entry);
                    }
                    entries.push(entry);
                },
            }
            i += 1;
        }
        assert(source.entries@.take(i as int) =~= source.entries@);
        self.entries = entries;
        proof {
            self.lemma_view();
        }
    }
}

/// Merges `b` into `a`: afterwards `a` is the deep union of the two.
pub fn merge(a: &mut Json, b: &Json)
    ensures
        final(a)@ == merged(old(a)@, b@),
    decreases b,
{
    match b {
        Json::Object(source) => {
            match a {
                Json::Object(target) => {
                    target.merge_from(source);
                },
                _ => {
                    *a = b.clone();
                },
            }
        },
        _ => {
            *a = b.clone();
        },
    }
}

impl Clone for Json {
    /// A copy of the tree.
    fn clone(&self) -> (copy: Json)
        ensures
            copy@ == self@,
        decreases self,
    {
        match self {
            Json::Null => Json::Null,
            Json::Bool(b) => Json::Bool(*b),
            Json::Number(n) => Json::Number(*n),
            Json::String(s) => Json::String(s.clone()),
            Json::Array(items) => {
                let copy = Json::Array(clone_items(items));
                assert(copy@->Array_0 =~= self@->Array_0);
                copy
            },
            Json::Object(members) => Json::Object(members.clone()),
        }
    }
}

/// Copies of the trees in `items`, in their order.
fn clone_items(items: &Vec<Json>) -> (copies: Vec<Json>)
    ensures
        copies.len() == items.len(),
        forall|i: int| 0 <= i < items.len() ==> (#[trigger] copies[i])@ == items[i]@,
    decreases items,
{
    let mut copies: Vec<Json> = Vec::new();
    let mut i: usize = 0;
    while i < items.len()
        invariant
            i <= items.len(),
            copies.len() == i,
            forall|j: int| 0 <= j < i ==> (#[trigger] copies[j])@ == items[j]@,
        decreases items.len() - i,
    {
        copies.push(items[i].clone());
        i += 1;
    }
    copies
}

impl Clone for JsonMap {
    /// A copy of the members, in the same order.
    fn clone(&self) -> (copy: JsonMap)
        ensures
            copy@ == self@,
            copy.keys() == self.keys(),
        decreases self,
    {
        let mut entries: Vec<(String, Json)> = Vec::new();
        let mut i: usize = 0;
        while i < self.entries.len()
            invariant
                i <= self.entries.len(),
                entries.len() == i,
                forall|j: int|
                    0 <= j < i ==> (#[trigger] entries[j]).0@ == self.entries[j].0@ && entries[j].1@
                        == self.entries[j].1@,
            decreases self.entries.len() - i,
        {
            let key = self.entries[i].0.clone();
            let value = self.entries[i].1.clone();
            entries.push((key, value));
            i += 1;
        }
        proof {
            use_type_invariant(self);
            self.lemma_view();
            assert(keys_of(entries@) =~= keys_of(self.entries@));
        }
        let copy = JsonMap { entries };
        proof {
            copy.lemma_view();
        }
        copy
    }
}

/// Whether `a` and `b` are the same tree.
fn same_tree(a: &Json, b: &Json) -> (same: bool)
    ensures
        same == (a@ == b@),
    decreases a,
{
    match (a, b) {
        (Json::Null, Json::Null) => true,
        (Json::Bool(x), Json::Bool(y)) => *x == *y,
        (Json::Number(x), Json::Number(y)) => *x == *y,
        (Json::String(x), Json::String(y)) => *x == *y,
        (Json::Array(x), Json::Array(y)) => same_items(x, y),
        (Json::Object(x), Json::Object(y)) => x.same_members(y),
        _ => false,
    }
}

/// Whether `a` and `b` hold the same trees in the same order.
fn same_items(a: &Vec<Json>, b: &Vec<Json>) -> (same: bool)
    ensures
        same == (Json::Array(*a)@ == Json::Array(*b)@),
    decreases a,
{
    let ghost va = Json::Array(*a)@->Array_0;
    let ghost vb = Json::Array(*b)@->Array_0;
    if a.len() != b.len() {
        assert(va.len() != vb.len());
        return false;
    }
    let mut i: usize = 0;
    while i < a.len()
        invariant
            i <= a.len() == b.len(),
            va == Json::Array(*a)@->Array_0,
            vb == Json::Array(*b)@->Array_0,
            forall|j: int| 0 <= j < i ==> va[j] == vb[j],
        decreases a.len() - i,
    {
        if !same_tree(&a[i], &b[i]) {
            assert(va[i as int] != vb[i as int]);
            return false;
        }
        i += 1;
    }
    assert(va =~= vb);
    true
}

impl JsonMap {
    /// Whether these members and `other` are the same keys with the same trees under them.
    fn same_members(&self, other: &JsonMap) -> (same: bool)
        ensures
            same == (self@ == other@),
        decreases self,
    {
        proof {
            use_type_invariant(self);
            use_type_invariant(other);
            self.lemma_view();
            other.lemma_view();
        }
        let mut i: usize = 0;
        while i < self.entries.len()
            invariant
                i <= self.entries.len(),
                keys_of(self.entries@).no_duplicates(),
                keys_of(other.entries@).no_duplicates(),
                self@ == entries_map(self.entries@),
                other@ == entries_map(other.entries@),
                forall|j: int|
                    0 <= j < i ==> other@.contains_key(#[trigger] keys_of(self.entries@)[j])
                        && other@[keys_of(self.entries@)[j]] == self@[keys_of(self.entries@)[j]],
            decreases self.entries.len() - i,
        {
            proof {
                lemma_assoc_index(keys_of(self.entries@), values_of(self.entries@), i as int);
            }
            match find(&other.entries, &self.entries[i].0) {
                Some(j) => {
                    proof {
                        lemma_assoc_index(
                            keys_of(other.entries@),
                            values_of(other.entries@),
                            j as int,
                        );
                    }
                    if !same_tree(&self.entries[i].1, &other.entries[j].1) {
                        return false;
                    }
                },
                None => {
                    return false;
                },
            }
            i += 1;
        }
        let mut k: usize = 0;
        while k < other.entries.len()
            invariant
                k <= other.entries.len(),
                keys_of(other.entries@).no_duplicates(),
                self@ == entries_map(self.entries@),
                other@ == entries_map(other.entries@),
                forall|j: int|
                    0 <= j < k ==> self@.contains_key(#[trigger] keys_of(other.entries@)[j]),
            decreases other.entries.len() - k,
        {
            proof {
                lemma_assoc_index(keys_of(other.entries@), values_of(other.entries@), k as int);
            }
            match find(&self.entries, &other.entries[k].0) {
                Some(j) => {
                    assert(keys_of(self.entries@)[j as int] == other.entries[k as int].0@);
                },
                None => {
                    return false;
                },
            }
            k += 1;
        }
        proof {
            assert forall|key: Seq<char>| self@.contains_key(key) implies other@.contains_key(key)
                && other@[key] == self@[key] by {
                let j = keys_of(self.entries@).index_of(key);
                assert(keys_of(self.entries@)[j] == key);
            }
            assert forall|key: Seq<char>| other@.contains_key(key) implies self@.contains_key(
                key,
            ) by {
                let j = keys_of(other.entries@).index_of(key);
                assert(keys_of(other.entries@)[j] == key);
            }
            assert(self@ =~= other@);
        }
        true
    }
}

impl PartialEq for Json {
    /// Two trees are equal where they are the same tree: the order in which an object holds
    /// its members does not count.
    fn eq(&self, other: &Json) -> (equal: bool) {
        same_tree(self, other)
    }
}

impl PartialEqSpecImpl for Json {
    open spec fn obeys_eq_spec() -> bool {
        true
    }

    open spec fn eq_spec(&self, other: &Json) -> bool {
        self@ == other@
    }
}

impl PartialEq for JsonMap {
    /// Two objects are equal where they hold the same trees under the same keys.
    fn eq(&self, other: &JsonMap) -> (equal: bool) {
        self.same_members(other)
    }
}

impl PartialEqSpecImpl for JsonMap {
    open spec fn obeys_eq_spec() -> bool {
        true
    }

    open spec fn eq_spec(&self, other: &JsonMap) -> bool {
        self@ == other@
    }
}

impl Json {
    /// The members of the tree, where it is an object.
    pub fn as_object(&self) -> (members: Option<&JsonMap>)
        ensures
            members is Some == self@ is Object,
            members matches Some(map) ==> self@ == JsonView::Object(map@),
    {
        match self {
            Json::Object(map) => Some(map),
            _ => None,
        }
    }

    /// The same tree as a value that the serializer takes.
    pub(crate) fn to_value(&self) -> (value: serde_json::Value)
        ensures
            value_view(value) == self@,
        decreases self,
    {
        match self {
            Json::Null => value_null(),
            Json::Bool(b) => value_bool(*b),
            Json::Number(n) => value_number(*n),
            Json::String(s) => value_string(s.clone()),
            Json::Array(items) => {
                let values = items_to_values(items);
                assert(item_views(values@) =~= self@->Array_0);
                value_array(values)
            },
            Json::Object(members) => members.to_value(),
        }
    }
}

/// The trees in `items` as values that the serializer takes, in their order.
fn items_to_values(items: &Vec<Json>) -> (values: Vec<serde_json::Value>)
    ensures
        values.len() == items.len(),
        forall|i: int| 0 <= i < items.len() ==> value_view(#[trigger] values[i]) == items[i]@,
    decreases items,
{
    let mut values: Vec<serde_json::Value> = Vec::new();
    let mut i: usize = 0;
    while i < items.len()
        invariant
            i <= items.len(),
            values.len() == i,
            forall|j: int| 0 <= j < i ==> value_view(#[trigger] values[j]) == items[j]@,
        decreases items.len() - i,
    {
        values.push(items[i].to_value());
        i += 1;
    }
    values
}

impl JsonMap {
    /// The object of these members as a value that the serializer takes.
    pub(crate) fn to_value(&self) -> (value: serde_json::Value)
        ensures
            value_view(value) == JsonView::Object(self@),
        decreases self,
    {
        let mut members: Vec<(String, serde_json::Value)> = Vec::new();
        let mut i: usize = 0;
        while i < self.entries.len()
            invariant
                i <= self.entries.len(),
                members.len() == i,
                forall|j: int|
                    0 <= j < i ==> (#[trigger] members[j]).0@ == self.entries[j].0@ && value_view(
                        members[j].1,
                    ) == self.entries[j].1@,
            decreases self.entries.len() - i,
        {
            let key = self.entries[i].0.clone();
            let value = self.entries[i].1.to_value();
            members.push((key, value));
            i += 1;
        }
        proof {
            use_type_invariant(self);
            self.lemma_view();
            assert(member_keys(members@) =~= keys_of(self.entries@));
            assert(member_views(members@) =~= values_of(self.entries@));
        }
        value_object(members)
    }
}

/// Merging a tree into itself leaves it as it is.
pub proof fn lemma_merge_self(tree: JsonView)
    ensures
        merged(tree, tree) == tree,
    decreases tree,
{
    match tree {
        JsonView::Object(members) => {
            assert forall|k: Seq<char>| members.contains_key(k) implies merged(
                members[k],
                members[k],
            ) == members[k] by {
                lemma_merge_self(members[k]);
            }
            assert(merged(tree, tree)->Object_0 =~= members);
        },
        _ => {},
    }
}

/// Merging the same tree in a second time changes nothing.
pub proof fn lemma_merge_idempotent(a: JsonView, b: JsonView)
    ensures
        merged(merged(a, b), b) == merged(a, b),
    decreases b,
{
    match (a, b) {
        (JsonView::Object(ma), JsonView::Object(mb)) => {
            assert forall|k: Seq<char>| mb.contains_key(k) implies merged(
                merged(ma[k], mb[k]),
                mb[k],
            ) == merged(ma[k], mb[k]) && merged(mb[k], mb[k]) == mb[k] by {
                lemma_merge_idempotent(ma[k], mb[k]);
                lemma_merge_self(mb[k]);
            }
            assert(merged(merged(a, b), b)->Object_0 =~= merged(a, b)->Object_0);
        },
        _ => {
            lemma_merge_self(b);
        },
    }
}

/// Where two objects share no key, their deep union holds the members of both as they are.
pub proof fn lemma_merge_disjoint(a: Map<Seq<char>, JsonView>, b: Map<Seq<char>, JsonView>)
    requires
        a.dom().disjoint(b.dom()),
    ensures
        merged(JsonView::Object(a), JsonView::Object(b)) == JsonView::Object(
            a.union_prefer_right(b),
        ),
{
    assert(merged_members(a, b) =~= a.union_prefer_right(b));
}

} // verus!
