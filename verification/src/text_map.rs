//! A map from texts to values.

use crate::text::same_text;
use vstd::prelude::*;

verus! {

/// A map from texts to values, kept as a list in which no key occurs twice.
pub struct TextMap<V> {
    entries: Vec<(String, V)>,
}

impl<V> TextMap<V> {
    /// What each key is mapped to.
    pub closed spec fn view(&self) -> Map<Seq<char>, V> {
        entries_map(self.entries@)
    }

    /// No key is listed twice.
    #[verifier::type_invariant]
    closed spec fn well_formed(&self) -> bool {
        distinct_keys(self.entries@)
    }

    pub fn new() -> (map: Self)
        ensures
            map@ == Map::<Seq<char>, V>::empty(),
    {
        TextMap { entries: Vec::new() }
    }

    /// The value of a key.
    pub fn get(&self, key: &str) -> (value: Option<&V>)
        ensures
            match value {
                Some(v) => self@.contains_key(key@) && *v == self@[key@],
                None => !self@.contains_key(key@),
            },
    {
        proof {
            use_type_invariant(self);
        }
        match self.position(key) {
            Some(i) => Some(&self.entries[i].1),
            None => None,
        }
    }

    /// The keys with their values, each key once.
    pub fn entries(&self) -> (entries: &Vec<(String, V)>)
        ensures
            forall|i: int|
                0 <= i < entries@.len() ==> self@.contains_key((#[trigger] entries@[i]).0@)
                    && self@[entries@[i].0@] == entries@[i].1,
            forall|key: Seq<char>| #[trigger]
                self@.contains_key(key) ==> exists|i: int|
                    0 <= i < entries@.len() && (#[trigger] entries@[i]).0@ == key,
            forall|i: int, j: int|
                0 <= i < j < entries@.len() ==> (#[trigger] entries@[i]).0@ != (
                #[trigger] entries@[j]).0@,
    {
        proof {
            use_type_invariant(self);
            lemma_entries_map(self.entries@);
        }
        &self.entries
    }

    fn position(&self, key: &str) -> (found: Option<usize>)
        ensures
            match found {
                Some(i) => i < self.entries@.len() && self.entries@[i as int].0@ == key@
                    && self@.contains_key(key@) && self@[key@] == self.entries@[i as int].1,
                None => !self@.contains_key(key@),
            },
    {
        proof {
            use_type_invariant(self);
            lemma_entries_map(self.entries@);
        }
        for i in 0..self.entries.len()
            invariant
                forall|k: int| 0 <= k < i ==> (#[trigger] self.entries@[k]).0@ != key@,
                distinct_keys(self.entries@),
                forall|k: int|
                    0 <= k < self.entries@.len() ==> entries_map(self.entries@).contains_key(
                        (#[trigger] self.entries@[k]).0@,
                    ) && entries_map(self.entries@)[self.entries@[k].0@] == self.entries@[k].1,
        {
            if same_text(self.entries[i].0.as_str(), key) {
                return Some(i);
            }
        }
        None
    }

    /// Takes a key out, with its value.
    pub fn remove(&mut self, key: &str) -> (removed: Option<V>)
        ensures
            final(self)@ == old(self)@.remove(key@),
            match removed {
                Some(v) => old(self)@.contains_key(key@) && v == old(self)@[key@],
                None => !old(self)@.contains_key(key@),
            },
    {
        proof {
            use_type_invariant(&*self);
        }
        match self.position(key) {
            Some(i) => {
                let mut entries: Vec<(String, V)> = Vec::new();
                std::mem::swap(&mut self.entries, &mut entries);
                let ghost before = entries@;
                let (_, value) = entries.remove(i);
                proof {
                    lemma_remove_entry(before, i as int);
                    assert(entries@ =~= before.remove(i as int));
                }
                self.entries = entries;
                Some(value)
            },
            None => {
                assert(self@.remove(key@) =~= self@);
                None
            },
        }
    }

    /// Maps a key to a value, whatever it was mapped to before.
    pub fn insert(&mut self, key: String, value: V)
        ensures
            final(self)@ == old(self)@.insert(key@, value),
    {
        self.remove(key.as_str());
        proof {
            use_type_invariant(&*self);
        }
        let mut entries: Vec<(String, V)> = Vec::new();
        std::mem::swap(&mut self.entries, &mut entries);
        let ghost before = entries@;
        assert(!entries_map(before).contains_key(key@));
        assert(entries_map(before) == old(self)@.remove(key@));
        entries.push((key, value));
        proof {
            lemma_push_entry(before, (key, value));
            assert(old(self)@.remove(key@).insert(key@, value) =~= old(self)@.insert(key@, value));
        }
        self.entries = entries;
    }
}

spec fn distinct_keys<V>(entries: Seq<(String, V)>) -> bool {
    forall|i: int, j: int|
        0 <= i < j < entries.len() ==> (#[trigger] entries[i]).0@ != (#[trigger] entries[j]).0@
}

spec fn entries_map<V>(entries: Seq<(String, V)>) -> Map<Seq<char>, V> {
    Map::new(
        |key: Seq<char>|
            exists|i: int| 0 <= i < entries.len() && (#[trigger] entries[i]).0@ == key,
        |key: Seq<char>|
            {
                let i = choose|i: int|
                    0 <= i < entries.len() && (#[trigger] entries[i]).0@ == key;
                entries[i].1
            },
    )
}

proof fn lemma_entries_map<V>(entries: Seq<(String, V)>)
    requires
        distinct_keys(entries),
    ensures
        forall|k: int|
            0 <= k < entries.len() ==> entries_map(entries).contains_key(
                (#[trigger] entries[k]).0@,
            ) && entries_map(entries)[entries[k].0@] == entries[k].1,
{
    assert forall|k: int| 0 <= k < entries.len() implies entries_map(entries).contains_key(
        (#[trigger] entries[k]).0@,
    ) && entries_map(entries)[entries[k].0@] == entries[k].1 by {
        let key = entries[k].0@;
        let i = choose|i: int| 0 <= i < entries.len() && (#[trigger] entries[i]).0@ == key;
        assert(i == k);
    }
}

proof fn lemma_remove_entry<V>(entries: Seq<(String, V)>, place: int)
    requires
        distinct_keys(entries),
        0 <= place < entries.len(),
    ensures
        distinct_keys(entries.remove(place)),
        entries_map(entries.remove(place)) == entries_map(entries).remove(entries[place].0@),
{
    let fewer = entries.remove(place);
    assert forall|j: int| 0 <= j < fewer.len() implies (#[trigger] fewer[j]).0@
        != entries[place].0@ by {
        if j < place {
            assert(fewer[j] == entries[j]);
        } else {
            assert(fewer[j] == entries[j + 1]);
        }
    }
    assert forall|j: int, k: int| 0 <= j < k < fewer.len() implies (#[trigger] fewer[j]).0@ != (
    #[trigger] fewer[k]).0@ by {
        let j0 = if j < place {
            j
        } else {
            j + 1
        };
        let k0 = if k < place {
            k
        } else {
            k + 1
        };
        assert(entries[j0].0@ != entries[k0].0@);
    }
    lemma_entries_map(entries);
    lemma_entries_map(fewer);
    let expected = entries_map(entries).remove(entries[place].0@);
    assert forall|key: Seq<char>| #[trigger]
        entries_map(fewer).contains_key(key) == expected.contains_key(key) && (
        expected.contains_key(key) ==> entries_map(fewer)[key] == expected[key]) by {
        if expected.contains_key(key) {
            let k = choose|k: int| 0 <= k < entries.len() && (#[trigger] entries[k]).0@ == key;
            let k0 = if k < place {
                k
            } else {
                k - 1
            };
            assert(fewer[k0] == entries[k]);
        }
        if entries_map(fewer).contains_key(key) {
            let k = choose|k: int| 0 <= k < fewer.len() && (#[trigger] fewer[k]).0@ == key;
            let k0 = if k < place {
                k
            } else {
                k + 1
            };
            assert(fewer[k] == entries[k0]);
        }
    }
    assert(entries_map(fewer) =~= expected);
}

proof fn lemma_push_entry<V>(entries: Seq<(String, V)>, entry: (String, V))
    requires
        distinct_keys(entries),
        !entries_map(entries).contains_key(entry.0@),
    ensures
        distinct_keys(entries.push(entry)),
        entries_map(entries.push(entry)) == entries_map(entries).insert(entry.0@, entry.1),
{
    let more = entries.push(entry);
    lemma_entries_map(entries);
    assert forall|j: int, k: int| 0 <= j < k < more.len() implies (#[trigger] more[j]).0@ != (
    #[trigger] more[k]).0@ by {
        assert(more[j] == entries[j]);
        if k < entries.len() {
            assert(entries[j].0@ != entries[k].0@);
        }
    }
    lemma_entries_map(more);
    let expected = entries_map(entries).insert(entry.0@, entry.1);
    assert forall|key: Seq<char>| #[trigger]
        entries_map(more).contains_key(key) == expected.contains_key(key) && (
        expected.contains_key(key) ==> entries_map(more)[key] == expected[key]) by {
        assert(more[entries.len() as int] == entry);
        if key != entry.0@ {
            if expected.contains_key(key) {
                let k = choose|k: int| 0 <= k < entries.len() && (#[trigger] entries[k]).0@ == key;
                assert(more[k] == entries[k]);
            }
            if entries_map(more).contains_key(key) {
                let k = choose|k: int| 0 <= k < more.len() && (#[trigger] more[k]).0@ == key;
                assert(more[k] == entries[k]);
            }
        }
    }
    assert(entries_map(more) =~= expected);
}

} // verus!
