//! A map from strings to values, with at most one value for each key.

use vstd::prelude::*;
use vstd::std_specs::cmp::PartialEqSpec;
use crate::text::{opt_view, same_text};

verus! {

/// A tag or a key with its value, as a section that is not typed keeps it:
/// `(key, Some(value))` or `(tag, None)`.
pub type Entry = (String, Option<String>);

/// The model of an [`Entry`].
pub type EntryView = (Seq<char>, Option<Seq<char>>);

/// The model of one entry.
pub open spec fn entry_view(e: Entry) -> EntryView {
    (e.0@, opt_view(e.1))
}

/// The model of a list of entries.
pub open spec fn entries_view(v: Seq<Entry>) -> Seq<EntryView> {
    v.map_values(|e: Entry| entry_view(e))
}

/// A map from strings to values. Its model is a map from texts to values.
#[derive(Debug)]
pub struct StringMap<V> {
    entries: Vec<(String, V)>,
}

/// Whether no two of the entries have the same key.
pub open spec fn distinct_keys<V>(entries: Seq<(String, V)>) -> bool {
    forall|i: int, j: int|
        0 <= i < entries.len() && 0 <= j < entries.len() && (#[trigger] entries[i]).0@ == (
        #[trigger] entries[j]).0@ ==> i == j
}

/// Whether one of the entries has the given key.
pub open spec fn has_key<V>(entries: Seq<(String, V)>, key: Seq<char>) -> bool {
    exists|i: int| 0 <= i < entries.len() && (#[trigger] entries[i]).0@ == key
}

/// The map that a list of entries with distinct keys stands for.
pub open spec fn map_of<V>(entries: Seq<(String, V)>) -> Map<Seq<char>, V> {
    Map::new(
        |k: Seq<char>| has_key(entries, k),
        |k: Seq<char>|
            entries[choose|i: int| 0 <= i < entries.len() && (#[trigger] entries[i]).0@ == k].1,
    )
}

impl<V> View for StringMap<V> {
    type V = Map<Seq<char>, V>;

    closed spec fn view(&self) -> Map<Seq<char>, V> {
        map_of(self.entries@)
    }
}

impl StringMap<String> {
    /// The map with the texts of its values.
    pub open spec fn texts(&self) -> Map<Seq<char>, Seq<char>> {
        self@.map_values(|s: String| s@)
    }
}

impl StringMap<Vec<Entry>> {
    /// The map with the models of its lists of entries.
    pub open spec fn lists(&self) -> Map<Seq<char>, Seq<EntryView>> {
        self@.map_values(|v: Vec<Entry>| entries_view(v@))
    }
}

impl<V> StringMap<V> {
    #[verifier::type_invariant]
    spec fn well_formed(self) -> bool {
        distinct_keys(self.entries@)
    }

    /// A map without entries.
    pub fn new() -> (r: Self)
        ensures
            r@ == Map::<Seq<char>, V>::empty(),
    {
        let r = StringMap { entries: Vec::new() };
        assert(r@ =~= Map::<Seq<char>, V>::empty());
        r
    }

    /// The entries, each key once, in no particular order.
    pub fn entries(&self) -> (r: &Vec<(String, V)>)
        ensures
            distinct_keys(r@),
            self@ == map_of(r@),
            forall|i: int|
                0 <= i < r@.len() ==> self@.contains_key((#[trigger] r@[i]).0@)
                    && self@[r@[i].0@] == r@[i].1,
            forall|k: Seq<char>| #[trigger]
                self@.contains_key(k) ==> exists|i: int|
                    0 <= i < r@.len() && (#[trigger] r@[i]).0@ == k,
            forall|i: int, j: int|
                0 <= i < j < r@.len() ==> (#[trigger] r@[i]).0@ != (#[trigger] r@[j]).0@,
    {
        proof {
            use_type_invariant(self);
            assert forall|i: int| 0 <= i < self.entries@.len() implies self@.contains_key(
                (#[trigger] self.entries@[i]).0@,
            ) && self@[self.entries@[i].0@] == self.entries@[i].1 by {
                lemma_map_at(self.entries@, i);
            }
        }
        &self.entries
    }

    /// The number of keys.
    pub fn len(&self) -> (r: usize)
        ensures
            self@.dom().finite(),
            r == self@.len(),
    {
        proof {
            use_type_invariant(self);
            lemma_map_len(self.entries@);
        }
        self.entries.len()
    }

    /// Whether the map has no keys.
    pub fn is_empty(&self) -> (r: bool)
        ensures
            r == (self@ == Map::<Seq<char>, V>::empty()),
    {
        if self.entries.len() == 0 {
            assert(self@ =~= Map::<Seq<char>, V>::empty());
            true
        } else {
            assert(has_key(self.entries@, self.entries@[0].0@));
            assert(self@.contains_key(self.entries@[0].0@));
            false
        }
    }

    fn position(&self, key: &str) -> (r: Option<usize>)
        ensures
            match r {
                Some(i) => i < self.entries@.len() && self.entries@[i as int].0@ == key@,
                None => !has_key(self.entries@, key@),
            },
    {
        for i in 0..self.entries.len()
            invariant
                forall|k: int| 0 <= k < i ==> (#[trigger] self.entries@[k]).0@ != key@,
        {
            if same_text(self.entries[i].0.as_str(), key) {
                return Some(i);
            }
        }
        None
    }

    /// The value for `key`.
    pub fn get(&self, key: &str) -> (r: Option<&V>)
        ensures
            match r {
                Some(v) => self@.contains_key(key@) && *v == self@[key@],
                None => !self@.contains_key(key@),
            },
    {
        proof {
            use_type_invariant(self);
        }
        match self.position(key) {
            Some(i) => {
                assert(has_key(self.entries@, key@));
                Some(&self.entries[i].1)
            },
            None => None,
        }
    }

    /// Whether there is a value for `key`.
    pub fn contains_key(&self, key: &str) -> (r: bool)
        ensures
            r == self@.contains_key(key@),
    {
        self.get(key).is_some()
    }

    /// Gives `key` the value `value`; a value that it had before is lost.
    pub fn insert(&mut self, key: String, value: V)
        ensures
            final(self)@ == old(self)@.insert(key@, value),
    {
        proof {
            use_type_invariant(&*self);
        }
        let ghost before = self.entries@;
        let found = self.position(key.as_str());
        let mut entries: Vec<(String, V)> = Vec::new();
        core::mem::swap(&mut entries, &mut self.entries);
        match found {
            Some(i) => {
                let ghost text = key@;
                entries.set(i, (key, value));
                proof {
                    assert(has_key(before, text));
                    lemma_update(before, i as int, entries@[i as int]);
                }
            },
            None => {
                let ghost entry = (key, value);
                entries.push((key, value));
                proof {
                    lemma_push(before, entry);
                }
            },
        }
        self.entries = entries;
    }

    /// Takes the value for `key` out of the map.
    pub fn remove(&mut self, key: &str) -> (r: Option<V>)
        ensures
            final(self)@ == old(self)@.remove(key@),
            match r {
                Some(v) => old(self)@.contains_key(key@) && v == old(self)@[key@],
                None => !old(self)@.contains_key(key@),
            },
    {
        proof {
            use_type_invariant(&*self);
        }
        let ghost before = self.entries@;
        match self.position(key) {
            Some(i) => {
                let mut entries: Vec<(String, V)> = Vec::new();
                core::mem::swap(&mut entries, &mut self.entries);
                assert(has_key(before, key@));
                let (_, value) = entries.remove(i);
                proof {
                    lemma_remove(before, i as int);
                }
                self.entries = entries;
                Some(value)
            },
            None => {
                assert(map_of(before).remove(key@) =~= map_of(before));
                None
            },
        }
    }
}

impl<V> Default for StringMap<V> {
    fn default() -> (r: Self)
        ensures
            r@ == Map::<Seq<char>, V>::empty(),
    {
        StringMap::new()
    }
}

impl<V: Clone> Clone for StringMap<V> {
    fn clone(&self) -> (r: Self)
        ensures
            r@.dom() == self@.dom(),
            forall|k: Seq<char>| #[trigger]
                self@.contains_key(k) ==> cloned::<V>(self@[k], r@[k]),
    {
        proof {
            use_type_invariant(self);
        }
        let mut entries: Vec<(String, V)> = Vec::new();
        for i in 0..self.entries.len()
            invariant
                entries@.len() == i,
                forall|k: int|
                    0 <= k < i ==> (#[trigger] entries@[k]).0@ == self.entries@[k].0@ && cloned::<
                        V,
                    >(self.entries@[k].1, entries@[k].1),
        {
            entries.push((self.entries[i].0.clone(), self.entries[i].1.clone()));
        }
        proof {
            assert forall|a: int, b: int|
                0 <= a < entries@.len() && 0 <= b < entries@.len() && (#[trigger] entries@[a]).0@
                    == (#[trigger] entries@[b]).0@ implies a == b by {
                assert(self.entries@[a].0@ == self.entries@[b].0@);
            }
            assert forall|k: Seq<char>| has_key(entries@, k) == has_key(self.entries@, k) by {
                if has_key(entries@, k) {
                    let j = choose|j: int| 0 <= j < entries@.len() && (#[trigger] entries@[j]).0@ == k;
                    assert(self.entries@[j].0@ == k);
                }
                if has_key(self.entries@, k) {
                    let j = choose|j: int|
                        0 <= j < self.entries@.len() && (#[trigger] self.entries@[j]).0@ == k;
                    assert(entries@[j].0@ == k);
                }
            }
            assert forall|k: Seq<char>| #[trigger] self@.contains_key(k) implies cloned::<V>(
                self@[k],
                map_of(entries@)[k],
            ) by {
                let j = choose|j: int| 0 <= j < entries@.len() && (#[trigger] entries@[j]).0@ == k;
                let l = choose|l: int|
                    0 <= l < self.entries@.len() && (#[trigger] self.entries@[l]).0@ == k;
                assert(has_key(self.entries@, k));
                assert(has_key(entries@, k));
                assert(self.entries@[j].0@ == k);
            }
        }
        let r = StringMap { entries };
        assert(r@.dom() =~= self@.dom());
        r
    }
}

/// Whether two optional strings are the same.
fn same_option(a: &Option<String>, b: &Option<String>) -> (r: bool)
    ensures
        r == (opt_view(*a) == opt_view(*b)),
{
    match (a, b) {
        (Some(x), Some(y)) => same_text(x.as_str(), y.as_str()),
        (None, None) => true,
        _ => false,
    }
}

/// Whether two lists of entries are the same.
fn same_entries(a: &Vec<Entry>, b: &Vec<Entry>) -> (r: bool)
    ensures
        r == (entries_view(a@) == entries_view(b@)),
{
    if a.len() != b.len() {
        assert(entries_view(a@).len() != entries_view(b@).len());
        return false;
    }
    for i in 0..a.len()
        invariant
            a@.len() == b@.len(),
            forall|k: int| 0 <= k < i ==> entry_view(#[trigger] a@[k]) == entry_view(b@[k]),
    {
        let same = same_text(a[i].0.as_str(), b[i].0.as_str()) && same_option(&a[i].1, &b[i].1);
        if !same {
            assert(entries_view(a@)[i as int] != entries_view(b@)[i as int]);
            return false;
        }
    }
    assert(entries_view(a@) =~= entries_view(b@));
    true
}

impl StringMap<String> {
    /// Whether `other` has every entry of this map.
    fn within(&self, other: &Self) -> (r: bool)
        ensures
            r == self.texts().submap_of(other.texts()),
    {
        proof {
            use_type_invariant(self);
        }
        for i in 0..self.entries.len()
            invariant
                distinct_keys(self.entries@),
                forall|k: int|
                    0 <= k < i ==> other@.contains_key((#[trigger] self.entries@[k]).0@)
                        && other@[self.entries@[k].0@]@ == self.entries@[k].1@,
        {
            let ghost key = self.entries@[i as int].0@;
            proof {
                lemma_map_at(self.entries@, i as int);
                assert(other.texts().dom().contains(key) == other@.contains_key(key));
                assert(self.texts().dom().contains(key));
                assert(self.texts()[key] == self.entries@[i as int].1@);
            }
            match other.get(self.entries[i].0.as_str()) {
                Some(v) => {
                    assert(other.texts()[key] == v@);
                    if !same_text(v.as_str(), self.entries[i].1.as_str()) {
                        return false;
                    }
                },
                None => {
                    return false;
                },
            }
        }
        proof {
            assert forall|k: Seq<char>| #[trigger]
                self.texts().contains_key(k) implies other.texts().contains_key(k)
                && self.texts()[k] == other.texts()[k] by {
                let j = choose|j: int|
                    0 <= j < self.entries@.len() && (#[trigger] self.entries@[j]).0@ == k;
                assert(has_key(self.entries@, k));
                assert(self.entries@[j].0@ == k);
            }
            assert(self.texts().submap_of(other.texts()));
        }
        true
    }
}

impl PartialEq for StringMap<String> {
    fn eq(&self, other: &Self) -> (r: bool) {
        let r = self.within(other) && other.within(self);
        proof {
            if r {
                assert(self.texts() =~= other.texts());
            }
        }
        r
    }
}

impl vstd::std_specs::cmp::PartialEqSpecImpl for StringMap<String> {
    open spec fn obeys_eq_spec() -> bool {
        true
    }

    open spec fn eq_spec(&self, other: &Self) -> bool {
        self.texts() == other.texts()
    }
}

impl Eq for StringMap<String> {

}

impl StringMap<Vec<Entry>> {
    /// Whether `other` has every list of this map.
    fn within(&self, other: &Self) -> (r: bool)
        ensures
            r == self.lists().submap_of(other.lists()),
    {
        proof {
            use_type_invariant(self);
        }
        for i in 0..self.entries.len()
            invariant
                distinct_keys(self.entries@),
                forall|k: int|
                    0 <= k < i ==> other@.contains_key((#[trigger] self.entries@[k]).0@)
                        && entries_view(other@[self.entries@[k].0@]@) == entries_view(
                        self.entries@[k].1@,
                    ),
        {
            let ghost key = self.entries@[i as int].0@;
            proof {
                lemma_map_at(self.entries@, i as int);
                assert(other.lists().dom().contains(key) == other@.contains_key(key));
                assert(self.lists().dom().contains(key));
                assert(self.lists()[key] == entries_view(self.entries@[i as int].1@));
            }
            match other.get(self.entries[i].0.as_str()) {
                Some(v) => {
                    assert(other.lists()[key] == entries_view(v@));
                    if !same_entries(v, &self.entries[i].1) {
                        return false;
                    }
                },
                None => {
                    return false;
                },
            }
        }
        proof {
            assert forall|k: Seq<char>| #[trigger]
                self.lists().contains_key(k) implies other.lists().contains_key(k)
                && self.lists()[k] == other.lists()[k] by {
                let j = choose|j: int|
                    0 <= j < self.entries@.len() && (#[trigger] self.entries@[j]).0@ == k;
                assert(has_key(self.entries@, k));
                assert(self.entries@[j].0@ == k);
            }
            assert(self.lists().submap_of(other.lists()));
        }
        true
    }
}

impl PartialEq for StringMap<Vec<Entry>> {
    fn eq(&self, other: &Self) -> (r: bool) {
        let r = self.within(other) && other.within(self);
        proof {
            if r {
                assert(self.lists() =~= other.lists());
            }
        }
        r
    }
}

impl vstd::std_specs::cmp::PartialEqSpecImpl for StringMap<Vec<Entry>> {
    open spec fn obeys_eq_spec() -> bool {
        true
    }

    open spec fn eq_spec(&self, other: &Self) -> bool {
        self.lists() == other.lists()
    }
}

impl Eq for StringMap<Vec<Entry>> {

}

proof fn lemma_map_at<V>(entries: Seq<(String, V)>, i: int)
    requires
        distinct_keys(entries),
        0 <= i < entries.len(),
    ensures
        map_of(entries).contains_key(entries[i].0@),
        map_of(entries)[entries[i].0@] == entries[i].1,
{
    assert(has_key(entries, entries[i].0@));
}

proof fn lemma_update<V>(entries: Seq<(String, V)>, i: int, entry: (String, V))
    requires
        distinct_keys(entries),
        0 <= i < entries.len(),
        entries[i].0@ == entry.0@,
    ensures
        distinct_keys(entries.update(i, entry)),
        map_of(entries.update(i, entry)) == map_of(entries).insert(entry.0@, entry.1),
{
    let after = entries.update(i, entry);
    assert forall|a: int, b: int|
        0 <= a < after.len() && 0 <= b < after.len() && (#[trigger] after[a]).0@ == (
        #[trigger] after[b]).0@ implies a == b by {
        assert(entries[a].0@ == entries[b].0@);
    }
    assert forall|k: Seq<char>| has_key(after, k) == has_key(entries, k) by {
        if has_key(entries, k) {
            let j = choose|j: int| 0 <= j < entries.len() && (#[trigger] entries[j]).0@ == k;
            assert(after[j].0@ == k);
        }
        if has_key(after, k) {
            let j = choose|j: int| 0 <= j < after.len() && (#[trigger] after[j]).0@ == k;
            assert(entries[j].0@ == k);
        }
    }
    assert(has_key(entries, entry.0@));
    assert(after[i].0@ == entry.0@);
    assert forall|k: Seq<char>| has_key(entries, k) implies map_of(after)[k] == map_of(
        entries,
    ).insert(entry.0@, entry.1)[k] by {
        let j = choose|j: int| 0 <= j < entries.len() && (#[trigger] entries[j]).0@ == k;
        let l = choose|l: int| 0 <= l < after.len() && (#[trigger] after[l]).0@ == k;
        assert(after[j].0@ == k);
    }
    assert(map_of(after) =~= map_of(entries).insert(entry.0@, entry.1));
}

proof fn lemma_push<V>(entries: Seq<(String, V)>, entry: (String, V))
    requires
        distinct_keys(entries),
        !has_key(entries, entry.0@),
    ensures
        distinct_keys(entries.push(entry)),
        map_of(entries.push(entry)) == map_of(entries).insert(entry.0@, entry.1),
{
    let after = entries.push(entry);
    assert forall|k: Seq<char>| #[trigger] has_key(after, k) == (has_key(entries, k) || k
        == entry.0@) by {
        if has_key(entries, k) {
            let j = choose|j: int| 0 <= j < entries.len() && (#[trigger] entries[j]).0@ == k;
            assert(after[j].0@ == k);
        }
        if has_key(after, k) && k != entry.0@ {
            let j = choose|j: int| 0 <= j < after.len() && (#[trigger] after[j]).0@ == k;
            assert(entries[j].0@ == k);
        }
        assert(after[entries.len() as int].0@ == entry.0@);
    }
    assert forall|k: Seq<char>| has_key(after, k) implies map_of(after)[k] == map_of(
        entries,
    ).insert(entry.0@, entry.1)[k] by {
        let l = choose|l: int| 0 <= l < after.len() && (#[trigger] after[l]).0@ == k;
        if k != entry.0@ {
            let j = choose|j: int| 0 <= j < entries.len() && (#[trigger] entries[j]).0@ == k;
            assert(entries[l].0@ == k);
            assert(entries[j].0@ == k);
        } else if l < entries.len() {
            assert(entries[l].0@ == k);
        }
    }
    assert(map_of(after) =~= map_of(entries).insert(entry.0@, entry.1));
}

proof fn lemma_remove<V>(entries: Seq<(String, V)>, i: int)
    requires
        distinct_keys(entries),
        0 <= i < entries.len(),
    ensures
        distinct_keys(entries.remove(i)),
        map_of(entries.remove(i)) == map_of(entries).remove(entries[i].0@),
{
    let after = entries.remove(i);
    let key = entries[i].0@;
    assert forall|a: int, b: int|
        0 <= a < after.len() && 0 <= b < after.len() && (#[trigger] after[a]).0@ == (
        #[trigger] after[b]).0@ implies a == b by {
        let x = if a < i { a } else { a + 1 };
        let y = if b < i { b } else { b + 1 };
        assert(entries[x].0@ == entries[y].0@);
    }
    assert forall|k: Seq<char>| #[trigger] has_key(after, k) == (has_key(entries, k) && k != key) by {
        if has_key(after, k) {
            let j = choose|j: int| 0 <= j < after.len() && (#[trigger] after[j]).0@ == k;
            let x = if j < i { j } else { j + 1 };
            assert(entries[x].0@ == k);
            assert(entries[i].0@ == key);
        }
        if has_key(entries, k) && k != key {
            let j = choose|j: int| 0 <= j < entries.len() && (#[trigger] entries[j]).0@ == k;
            let x = if j < i { j } else { j - 1 };
            assert(after[x].0@ == k);
        }
    }
    assert forall|k: Seq<char>| has_key(after, k) implies map_of(after)[k] == map_of(
        entries,
    )[k] by {
        let j = choose|j: int| 0 <= j < entries.len() && (#[trigger] entries[j]).0@ == k;
        let l = choose|l: int| 0 <= l < after.len() && (#[trigger] after[l]).0@ == k;
        let x = if l < i { l } else { l + 1 };
        assert(entries[x].0@ == k);
        assert(entries[j].0@ == k);
    }
    assert(map_of(after) =~= map_of(entries).remove(key));
}

proof fn lemma_map_len<V>(entries: Seq<(String, V)>)
    requires
        distinct_keys(entries),
    ensures
        map_of(entries).dom().finite(),
        map_of(entries).len() == entries.len(),
    decreases entries.len(),
{
    if entries.len() == 0 {
        assert(map_of(entries).dom() =~= Set::empty());
    } else {
        let front = entries.drop_last();
        assert(distinct_keys(front));
        lemma_map_len(front);
        assert(!has_key(front, entries.last().0@));
        assert(front.push(entries.last()) =~= entries);
        lemma_push(front, entries.last());
        assert(map_of(entries).dom() =~= map_of(front).dom().insert(entries.last().0@));
    }
}

/// The texts and lists of a map are those of its values, key by key.
pub proof fn law_texts_and_lists(
    texts: StringMap<String>,
    lists: StringMap<Vec<Entry>>,
    key: Seq<char>,
)
    ensures
        texts.texts().contains_key(key) <==> texts@.contains_key(key),
        texts@.contains_key(key) ==> texts.texts()[key] == texts@[key]@,
        lists.lists().contains_key(key) <==> lists@.contains_key(key),
        lists@.contains_key(key) ==> {
            let list = lists@[key]@;
            &&& lists.lists()[key].len() == list.len()
            &&& forall|i: int|
                0 <= i < list.len() ==> (#[trigger] lists.lists()[key][i]).0 == list[i].0@
                    && match list[i].1 {
                    Some(value) => lists.lists()[key][i].1 == Some(value@),
                    None => lists.lists()[key][i].1 is None,
                }
        },
{
    assert(texts.texts().dom().contains(key) == texts@.contains_key(key));
    assert(lists.lists().dom().contains(key) == lists@.contains_key(key));
}

/// Two maps are equal exactly when they have the same keys, with the same values.
pub proof fn law_equal_maps_have_equal_entries(a: StringMap<String>, b: StringMap<String>)
    ensures
        a.eq_spec(&b) <==> {
            &&& forall|k: Seq<char>| #[trigger] a@.contains_key(k) <==> b@.contains_key(k)
            &&& forall|k: Seq<char>| #[trigger] a@.contains_key(k) ==> a@[k]@ == b@[k]@
        },
{
    assert forall|k: Seq<char>| #[trigger] a@.contains_key(k) == a.texts().contains_key(k) by {}
    assert forall|k: Seq<char>| #[trigger] b@.contains_key(k) == b.texts().contains_key(k) by {}
    if a.eq_spec(&b) {
        assert forall|k: Seq<char>| #[trigger] a@.contains_key(k) implies a@[k]@ == b@[k]@ by {
            assert(a.texts()[k] == b.texts()[k]);
            assert(b.texts().contains_key(k));
        }
        assert forall|k: Seq<char>| #[trigger] a@.contains_key(k) == b@.contains_key(k) by {
            assert(a.texts().contains_key(k) == b.texts().contains_key(k));
        }
    }
    if (forall|k: Seq<char>| #[trigger] a@.contains_key(k) <==> b@.contains_key(k)) && (forall|
        k: Seq<char>,
    | #[trigger]
        a@.contains_key(k) ==> a@[k]@ == b@[k]@) {
        assert forall|k: Seq<char>|
            a.texts().dom().contains(k) == b.texts().dom().contains(k) by {
            assert(a@.contains_key(k) == b@.contains_key(k));
        }
        assert(a.texts() =~= b.texts());
    }
}

/// Two maps of lists are equal exactly when they have the same keys, with lists of the
/// same entries in the same order.
pub proof fn law_equal_maps_have_equal_lists(a: StringMap<Vec<Entry>>, b: StringMap<Vec<Entry>>)
    ensures
        a.eq_spec(&b) <==> {
            &&& forall|k: Seq<char>| #[trigger] a@.contains_key(k) <==> b@.contains_key(k)
            &&& forall|k: Seq<char>| #[trigger]
                a@.contains_key(k) ==> a@[k]@.len() == b@[k]@.len() && forall|i: int|
                    0 <= i < a@[k]@.len() ==> (#[trigger] a@[k]@[i]).0@ == b@[k]@[i].0@ && opt_view(
                        a@[k]@[i].1,
                    ) == opt_view(b@[k]@[i].1)
        },
{
    assert forall|k: Seq<char>| #[trigger] a@.contains_key(k) == a.lists().contains_key(k) by {}
    assert forall|k: Seq<char>| #[trigger] b@.contains_key(k) == b.lists().contains_key(k) by {}
    if a.eq_spec(&b) {
        assert forall|k: Seq<char>| #[trigger] a@.contains_key(k) == b@.contains_key(k) by {
            assert(a.lists().contains_key(k) == b.lists().contains_key(k));
        }
        assert forall|k: Seq<char>| #[trigger] a@.contains_key(k) implies a@[k]@.len()
            == b@[k]@.len() && forall|i: int|
            0 <= i < a@[k]@.len() ==> (#[trigger] a@[k]@[i]).0@ == b@[k]@[i].0@ && opt_view(
                a@[k]@[i].1,
            ) == opt_view(b@[k]@[i].1) by {
            assert(a.lists()[k] == b.lists()[k]);
            assert(a.lists()[k] == entries_view(a@[k]@));
            assert(b.lists()[k] == entries_view(b@[k]@));
            assert(entries_view(a@[k]@).len() == entries_view(b@[k]@).len());
            assert forall|i: int| 0 <= i < a@[k]@.len() implies (#[trigger] a@[k]@[i]).0@
                == b@[k]@[i].0@ && opt_view(a@[k]@[i].1) == opt_view(b@[k]@[i].1) by {
                assert(entries_view(a@[k]@)[i] == entries_view(b@[k]@)[i]);
            }
        }
    }
    if (forall|k: Seq<char>| #[trigger] a@.contains_key(k) <==> b@.contains_key(k)) && (forall|
        k: Seq<char>,
    | #[trigger]
        a@.contains_key(k) ==> a@[k]@.len() == b@[k]@.len() && forall|i: int|
            0 <= i < a@[k]@.len() ==> (#[trigger] a@[k]@[i]).0@ == b@[k]@[i].0@ && opt_view(
                a@[k]@[i].1,
            ) == opt_view(b@[k]@[i].1)) {
        assert forall|k: Seq<char>| a.lists().dom().contains(k) == b.lists().dom().contains(
            k,
        ) by {
            assert(a@.contains_key(k) == b@.contains_key(k));
        }
        assert forall|k: Seq<char>| a.lists().dom().contains(k) implies a.lists()[k]
            == b.lists()[k] by {
            assert(a@.contains_key(k));
            assert(entries_view(a@[k]@) =~= entries_view(b@[k]@));
        }
        assert(a.lists() =~= b.lists());
    }
}

}
