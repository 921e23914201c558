//! Maps from texts, ordered by their keys.

use vstd::prelude::*;
use crate::text::{
    at_most, lemma_text_le_antisymmetric, lemma_text_le_total, lemma_text_le_transitive, same_text,
    text_le,
};

verus! {

/// A map from texts to values.
#[derive(Debug)]
pub struct StringMap<V> {
    entries: Vec<(String, V)>,
}

/// The keys stand in order, each once.
pub open spec fn is_ordered<V>(entries: Seq<(String, V)>) -> bool {
    forall|i: int, j: int|
        0 <= i < j < entries.len() ==> text_le((#[trigger] entries[i]).0@, (
        #[trigger] entries[j]).0@) && entries[i].0@ != entries[j].0@
}

/// The map that lists its keys and values as `entries`.
pub open spec fn listed<V: View>(entries: Seq<(String, V)>) -> Map<Seq<char>, V::V>
    decreases entries.len(),
{
    if entries.len() == 0 {
        Map::empty()
    } else {
        listed(entries.drop_last()).insert(entries.last().0@, entries.last().1@)
    }
}

/// `entries` has the key `key`.
pub open spec fn has_key<V>(entries: Seq<(String, V)>, key: Seq<char>) -> bool {
    exists|i: int| 0 <= i < entries.len() && (#[trigger] entries[i]).0@ == key
}

/// A map lists what its entries are.
pub proof fn lemma_listed<V: View>(entries: Seq<(String, V)>)
    requires
        is_ordered(entries),
    ensures
        forall|key: Seq<char>| #[trigger]
            listed(entries).dom().contains(key) <==> has_key(entries, key),
        forall|i: int|
            0 <= i < entries.len() ==> listed(entries)[(#[trigger] entries[i]).0@]
                == entries[i].1@,
    decreases entries.len(),
{
    if entries.len() > 0 {
        let front = entries.drop_last();
        assert(is_ordered(front)) by {
            assert forall|i: int, j: int| 0 <= i < j < front.len() implies text_le(
                (#[trigger] front[i]).0@,
                (#[trigger] front[j]).0@,
            ) && front[i].0@ != front[j].0@ by {
                assert(entries[i].0@ != entries[j].0@);
            }
        }
        lemma_listed(front);
        assert forall|key: Seq<char>| #[trigger] listed(entries).dom().contains(
            key,
        ) <==> has_key(entries, key) by {
            assert(listed(front).dom().contains(key) <==> has_key(front, key));
            assert(listed(entries).dom().contains(key) <==> listed(front).dom().contains(key) || key
                == entries.last().0@);
            if has_key(front, key) {
                let i = choose|i: int| 0 <= i < front.len() && (#[trigger] front[i]).0@ == key;
                assert(entries[i].0@ == key);
            }
            if has_key(entries, key) {
                let i = choose|i: int| 0 <= i < entries.len() && (#[trigger] entries[i]).0@ == key;
                if i < front.len() {
                    assert(front[i].0@ == key);
                }
            }
            if key == entries.last().0@ {
                assert(entries[entries.len() - 1].0@ == key);
            }
        }
        assert forall|i: int| 0 <= i < entries.len() implies listed(entries)[(
        #[trigger] entries[i]).0@] == entries[i].1@ by {
            if i < front.len() {
                assert(front[i] == entries[i]);
                assert(entries[i].0@ != entries[entries.len() - 1].0@);
            }
        }
    }
}

impl<V: View> View for StringMap<V> {
    type V = Map<Seq<char>, V::V>;

    closed spec fn view(&self) -> Map<Seq<char>, V::V> {
        listed(self.entries@)
    }
}

/// The position of the first entry whose key is not before `key`.
fn position_of<V>(entries: &Vec<(String, V)>, key: &str) -> (at: usize)
    requires
        is_ordered(entries@),
    ensures
        at <= entries@.len(),
        forall|i: int|
            0 <= i < at ==> text_le((#[trigger] entries@[i]).0@, key@) && entries@[i].0@ != key@,
        forall|i: int| at <= i < entries@.len() ==> text_le(key@, (#[trigger] entries@[i]).0@),
        has_key(entries@, key@) <==> at < entries@.len() && entries@[at as int].0@ == key@,
{
    let mut at: usize = 0;
    while at < entries.len() && !at_most(key, entries[at].0.as_str())
        invariant
            at <= entries@.len(),
            forall|i: int|
                0 <= i < at ==> text_le((#[trigger] entries@[i]).0@, key@) && entries@[i].0@
                    != key@,
        decreases entries@.len() - at,
    {
        proof {
            lemma_text_le_total(key@, entries@[at as int].0@);
            lemma_text_le_total(key@, key@);
        }
        at += 1;
    }
    proof {
        assert forall|i: int| at <= i < entries@.len() implies text_le(
            key@,
            (#[trigger] entries@[i]).0@,
        ) by {
            if i > at {
                assert(text_le(entries@[at as int].0@, entries@[i].0@));
                lemma_text_le_transitive(key@, entries@[at as int].0@, entries@[i].0@);
            }
        }
        if has_key(entries@, key@) {
            let i = choose|i: int| 0 <= i < entries@.len() && (#[trigger] entries@[i]).0@ == key@;
            if i > at {
                assert(text_le(entries@[at as int].0@, entries@[i].0@) && entries@[at as int].0@
                    != entries@[i].0@);
                lemma_text_le_antisymmetric(key@, entries@[at as int].0@);
            }
        }
    }
    at
}

proof fn lemma_removed<V: View>(entries: Seq<(String, V)>, at: int)
    requires
        is_ordered(entries),
        0 <= at < entries.len(),
    ensures
        is_ordered(entries.remove(at)),
        listed(entries.remove(at)) == listed(entries).remove(entries[at].0@),
{
    let rest = entries.remove(at);
    assert forall|i: int, j: int| 0 <= i < j < rest.len() implies text_le(
        (#[trigger] rest[i]).0@,
        (#[trigger] rest[j]).0@,
    ) && rest[i].0@ != rest[j].0@ by {
        let a = if i < at { i } else { i + 1 };
        let b = if j < at { j } else { j + 1 };
        assert(rest[i] == entries[a] && rest[j] == entries[b]);
    }
    lemma_listed(entries);
    lemma_listed(rest);
    let expected = listed(entries).remove(entries[at].0@);
    assert forall|key: Seq<char>| listed(rest).dom().contains(key) == expected.dom().contains(
        key,
    ) by {
        if has_key(rest, key) {
            let i = choose|i: int| 0 <= i < rest.len() && (#[trigger] rest[i]).0@ == key;
            let a = if i < at { i } else { i + 1 };
            assert(rest[i] == entries[a]);
            assert(entries[a].0@ != entries[at].0@) by {
                if a < at {
                    assert(entries[a].0@ != entries[at].0@);
                } else {
                    assert(entries[at].0@ != entries[a].0@);
                }
            }
        }
        if has_key(entries, key) && key != entries[at].0@ {
            let a = choose|i: int| 0 <= i < entries.len() && (#[trigger] entries[i]).0@ == key;
            let i = if a < at { a } else { a - 1 };
            assert(rest[i] == entries[a]);
        }
    }
    assert forall|key: Seq<char>| listed(rest).dom().contains(key) implies listed(rest)[key]
        == expected[key] by {
        let i = choose|i: int| 0 <= i < rest.len() && (#[trigger] rest[i]).0@ == key;
        assert(has_key(rest, key));
        let a = if i < at { i } else { i + 1 };
        assert(rest[i] == entries[a]);
        assert(listed(rest)[rest[i].0@] == rest[i].1@);
        assert(listed(entries)[entries[a].0@] == entries[a].1@);
        assert(expected.dom().contains(key));
    }
    assert(listed(rest) =~= expected);
}

proof fn lemma_added<V: View>(entries: Seq<(String, V)>, at: int, entry: (String, V))
    requires
        is_ordered(entries),
        0 <= at <= entries.len(),
        forall|i: int|
            0 <= i < at ==> text_le((#[trigger] entries[i]).0@, entry.0@) && entries[i].0@
                != entry.0@,
        forall|i: int|
            at <= i < entries.len() ==> text_le(entry.0@, (#[trigger] entries[i]).0@)
                && entries[i].0@ != entry.0@,
    ensures
        is_ordered(entries.insert(at, entry)),
        listed(entries.insert(at, entry)) == listed(entries).insert(entry.0@, entry.1@),
{
    let all = entries.insert(at, entry);
    assert forall|i: int, j: int| 0 <= i < j < all.len() implies text_le(
        (#[trigger] all[i]).0@,
        (#[trigger] all[j]).0@,
    ) && all[i].0@ != all[j].0@ by {
        if i < at && j < at {
            assert(all[i] == entries[i] && all[j] == entries[j]);
        } else if i < at && j == at {
            assert(all[i] == entries[i]);
        } else if i < at {
            assert(all[i] == entries[i] && all[j] == entries[j - 1]);
        } else if i == at {
            assert(all[j] == entries[j - 1]);
        } else {
            assert(all[i] == entries[i - 1] && all[j] == entries[j - 1]);
        }
    }
    lemma_removed(all, at);
    assert(all.remove(at) =~= entries);
    lemma_listed(all);
    assert(all[at] == entry);
    assert(has_key(all, entry.0@));
    assert(listed(all) =~= listed(all).remove(entry.0@).insert(entry.0@, entry.1@));
}

impl<V> StringMap<V> {
    #[verifier::type_invariant]
    spec fn inv(self) -> bool {
        is_ordered(self.entries@)
    }
}

impl<V: View> StringMap<V> {
    /// A map without keys.
    pub fn new() -> (map: Self)
        ensures
            map@ == Map::<Seq<char>, V::V>::empty(),
    {
        StringMap { entries: Vec::new() }
    }

    /// Sets the value of `key`.
    pub fn insert(&mut self, key: String, value: V)
        ensures
            final(self)@ == old(self)@.insert(key@, value@),
    {
        proof {
            use_type_invariant(&*self);
        }
        let ghost before = self.entries@;
        let mut entries: Vec<(String, V)> = Vec::new();
        std::mem::swap(&mut entries, &mut self.entries);
        let at: usize = position_of(&entries, key.as_str());
        let ghost entry = (key, value);
        if at < entries.len() && same_text(entries[at].0.as_str(), key.as_str()) {
            entries.remove(at);
            proof {
                lemma_removed(before, at as int);
            }
        }
        let ghost rest = entries@;
        proof {
            assert forall|i: int| 0 <= i < at implies text_le((#[trigger] rest[i]).0@, key@)
                && rest[i].0@ != key@ by {
                assert(rest[i] == before[i]);
            }
            assert forall|i: int| at <= i < rest.len() implies text_le(
                key@,
                (#[trigger] rest[i]).0@,
            ) && rest[i].0@ != key@ by {
                if rest.len() == before.len() {
                    assert(rest[i] == before[i]);
                    if before[i].0@ == key@ {
                        assert(has_key(before, key@));
                    }
                } else {
                    assert(rest[i] == before[i + 1]);
                    assert(before[at as int].0@ != before[i + 1].0@);
                }
            }
            lemma_added(rest, at as int, entry);
            assert(listed(before).remove(key@).insert(key@, value@) =~= listed(before).insert(
                key@,
                value@,
            ));
        }
        entries.insert(at, (key, value));
        self.entries = entries;
    }

    /// The value of `key`, if it has one.
    pub fn get(&self, key: &str) -> (value: Option<&V>)
        ensures
            match value {
                Some(found) => self@.dom().contains(key@) && found@ == self@[key@],
                None => !self@.dom().contains(key@),
            },
    {
        proof {
            use_type_invariant(self);
            lemma_listed(self.entries@);
        }
        let at: usize = position_of(&self.entries, key);
        if at < self.entries.len() && same_text(self.entries[at].0.as_str(), key) {
            Some(&self.entries[at].1)
        } else {
            None
        }
    }

    /// Whether `key` has a value.
    pub fn contains_key(&self, key: &str) -> (found: bool)
        ensures
            found == self@.dom().contains(key@),
    {
        self.get(key).is_some()
    }

    /// Takes the value of `key` out of the map.
    pub fn remove(&mut self, key: &str) -> (value: Option<V>)
        ensures
            final(self)@ == old(self)@.remove(key@),
            match value {
                Some(found) => old(self)@.dom().contains(key@) && found@ == old(self)@[key@],
                None => !old(self)@.dom().contains(key@),
            },
    {
        proof {
            use_type_invariant(&*self);
            lemma_listed(self.entries@);
        }
        let ghost before = self.entries@;
        let mut entries: Vec<(String, V)> = Vec::new();
        std::mem::swap(&mut entries, &mut self.entries);
        let at: usize = position_of(&entries, key);
        if at < entries.len() && same_text(entries[at].0.as_str(), key) {
            proof {
                lemma_removed(before, at as int);
            }
            let entry = entries.remove(at);
            self.entries = entries;
            Some(entry.1)
        } else {
            self.entries = entries;
            assert(listed(before) =~= listed(before).remove(key@));
            None
        }
    }

    /// The keys and values, in the order of the keys.
    pub fn entries(&self) -> (entries: &Vec<(String, V)>)
        ensures
            is_ordered(entries@),
            listed(entries@) == self@,
    {
        proof {
            use_type_invariant(self);
        }
        &self.entries
    }

    /// The keys and values, in the order of the keys.
    pub fn into_entries(self) -> (entries: Vec<(String, V)>)
        ensures
            is_ordered(entries@),
            listed(entries@) == self@,
    {
        proof {
            use_type_invariant(&self);
        }
        self.entries
    }
}

impl Clone for StringMap<String> {
    fn clone(&self) -> (copy: Self)
        ensures
            copy@ == self@,
    {
        let mut copy: StringMap<String> = StringMap::new();
        let entries = self.entries();
        let ghost all = entries@;
        let mut index: usize = 0;
        assert(all.take(0) =~= seq![]);
        while index < entries.len()
            invariant
                index <= entries@.len(),
                all == entries@,
                copy@ == listed(all.take(index as int)),
            decreases entries@.len() - index,
        {
            assert(all.take(index + 1).drop_last() =~= all.take(index as int));
            copy.insert(entries[index].0.clone(), entries[index].1.clone());
            index += 1;
        }
        assert(all.take(index as int) =~= all);
        copy
    }
}

} // verus!
