//! A map with strings for keys.

use vstd::prelude::*;

verus! {

/// What a list of entries says of each key: the value of its last entry.
pub open spec fn map_of<V: View>(entries: Seq<(String, V)>) -> Map<Seq<char>, V::V>
    decreases entries.len(),
{
    if entries.len() == 0 {
        Map::empty()
    } else {
        map_of(entries.drop_last()).insert(entries.last().0@, entries.last().1@)
    }
}

/// No key has two entries.
spec fn distinct<V>(entries: Seq<(String, V)>) -> bool {
    forall|i: int, j: int|
        0 <= i < j < entries.len() ==> #[trigger] entries[i].0@ != #[trigger] entries[j].0@
}

/// Values under string keys, one under each.
pub struct StringMap<V> {
    entries: Vec<(String, V)>,
}

impl<V: View> View for StringMap<V> {
    type V = Map<Seq<char>, V::V>;

    closed spec fn view(&self) -> Map<Seq<char>, V::V> {
        map_of(self.entries@)
    }
}

/// The keys of a map are those of its entries.
proof fn lemma_map_keys<V: View>(entries: Seq<(String, V)>, key: Seq<char>)
    ensures
        map_of(entries).contains_key(key) <==> exists|i: int|
            0 <= i < entries.len() && #[trigger] entries[i].0@ == key,
    decreases entries.len(),
{
    if entries.len() > 0 {
        let rest = entries.drop_last();
        lemma_map_keys(rest, key);
        if exists|i: int| 0 <= i < entries.len() && #[trigger] entries[i].0@ == key {
            let i = choose|i: int| 0 <= i < entries.len() && #[trigger] entries[i].0@ == key;
            if i < rest.len() {
                assert(rest[i].0@ == key);
            }
        }
        if map_of(rest).contains_key(key) {
            let i = choose|i: int| 0 <= i < rest.len() && #[trigger] rest[i].0@ == key;
            assert(entries[i].0@ == key);
        }
        if entries.last().0@ == key {
            assert(entries[entries.len() - 1].0@ == key);
        }
    }
}

/// Where no key has two entries, the value under a key is that of its entry.
proof fn lemma_map_value<V: View>(entries: Seq<(String, V)>, i: int)
    requires
        distinct(entries),
        0 <= i < entries.len(),
    ensures
        map_of(entries).contains_key(entries[i].0@),
        map_of(entries)[entries[i].0@] == entries[i].1@,
    decreases entries.len(),
{
    let rest = entries.drop_last();
    if i < rest.len() {
        assert(distinct(rest)) by {
            assert forall|a: int, b: int| 0 <= a < b < rest.len() implies #[trigger] rest[a].0@
                != #[trigger] rest[b].0@ by {
                assert(entries[a].0@ != entries[b].0@);
            }
        }
        lemma_map_value(rest, i);
        assert(rest[i] == entries[i]);
        assert(entries[i].0@ != entries[entries.len() - 1].0@);
    }
}

/// Changing the value of an entry changes the value under its key.
proof fn lemma_map_update<V: View>(entries: Seq<(String, V)>, i: int, key: String, value: V)
    requires
        distinct(entries),
        0 <= i < entries.len(),
        entries[i].0@ == key@,
    ensures
        distinct(entries.update(i, (key, value))),
        map_of(entries.update(i, (key, value))) == map_of(entries).insert(key@, value@),
{
    let after = entries.update(i, (key, value));
    assert forall|a: int, b: int| 0 <= a < b < after.len() implies #[trigger] after[a].0@
        != #[trigger] after[b].0@ by {
        assert(entries[a].0@ != entries[b].0@);
    }
    let want = map_of(entries).insert(key@, value@);
    assert forall|k: Seq<char>| map_of(after).contains_key(k) <==> want.contains_key(k) by {
        lemma_map_keys(entries, k);
        lemma_map_keys(after, k);
        if exists|j: int| 0 <= j < entries.len() && #[trigger] entries[j].0@ == k {
            let j = choose|j: int| 0 <= j < entries.len() && #[trigger] entries[j].0@ == k;
            assert(after[j].0@ == k);
        }
        if exists|j: int| 0 <= j < after.len() && #[trigger] after[j].0@ == k {
            let j = choose|j: int| 0 <= j < after.len() && #[trigger] after[j].0@ == k;
            assert(entries[j].0@ == k);
        }
        if k == key@ {
            assert(after[i].0@ == k);
        }
    }
    assert forall|k: Seq<char>| want.contains_key(k) implies map_of(after)[k] == want[k] by {
        lemma_map_keys(after, k);
        let j = choose|j: int| 0 <= j < after.len() && #[trigger] after[j].0@ == k;
        lemma_map_value(after, j);
        lemma_map_value(entries, j);
        if j != i {
            assert(after[j] == entries[j]);
            if j < i {
                assert(entries[j].0@ != entries[i].0@);
            } else {
                assert(entries[i].0@ != entries[j].0@);
            }
        }
    }
    assert(map_of(after) =~= want);
}

impl<V> StringMap<V> {
    #[verifier::type_invariant]
    spec fn inv(self) -> bool {
        distinct(self.entries@)
    }
}

impl<V: View> StringMap<V> {
    /// A map with nothing in it.
    pub fn new() -> (m: StringMap<V>)
        ensures
            m@ == Map::<Seq<char>, V::V>::empty(),
    {
        StringMap { entries: Vec::new() }
    }

    /// Where the entry of `key` is, if it has one.
    fn find(&self, key: &String) -> (at: Option<usize>)
        ensures
            match at {
                Some(i) => i < self.entries@.len() && self.entries@[i as int].0@ == key@,
                None => forall|i: int|
                    0 <= i < self.entries@.len() ==> #[trigger] self.entries@[i].0@ != key@,
            },
    {
        let mut i: usize = 0;
        while i < self.entries.len()
            invariant
                i <= self.entries@.len(),
                forall|j: int| 0 <= j < i ==> #[trigger] self.entries@[j].0@ != key@,
            decreases self.entries@.len() - i,
        {
            if self.entries[i].0 == *key {
                return Some(i);
            }
            i += 1;
        }
        None
    }

    /// Puts `value` under `key`, in place of what was there.
    pub fn insert(&mut self, key: String, value: V)
        ensures
            final(self)@ == old(self)@.insert(key@, value@),
    {
        proof {
            use_type_invariant(&*self);
        }
        let at = self.find(&key);
        let mut entries: Vec<(String, V)> = Vec::new();
        std::mem::swap(&mut entries, &mut self.entries);
        let ghost before = entries@;
        match at {
            Some(i) => {
                proof {
                    lemma_map_update(before, i as int, key, value);
                }
                entries.set(i, (key, value));
            },
            None => {
                entries.push((key, value));
                proof {
                    assert(entries@.drop_last() =~= before);
                }
            },
        }
        self.entries = entries;
    }

    /// The value under `key`.
    pub fn get(&self, key: &String) -> (value: Option<&V>)
        ensures
            match value {
                Some(v) => self@.contains_key(key@) && v@ == self@[key@],
                None => !self@.contains_key(key@),
            },
    {
        proof {
            use_type_invariant(self);
            lemma_map_keys(self.entries@, key@);
        }
        match self.find(key) {
            Some(i) => {
                proof {
                    lemma_map_value(self.entries@, i as int);
                }
                Some(&self.entries[i].1)
            },
            None => None,
        }
    }

    /// The keys, each of them once.
    pub fn keys(&self) -> (keys: Vec<String>)
        ensures
            texts(keys@).no_duplicates(),
            texts(keys@).to_set() == self@.dom(),
    {
        proof {
            use_type_invariant(self);
        }
        let mut keys: Vec<String> = Vec::new();
        let mut i: usize = 0;
        while i < self.entries.len()
            invariant
                i <= self.entries@.len(),
                keys@.len() == i,
                forall|j: int| 0 <= j < i ==> (#[trigger] keys@[j])@ == self.entries@[j].0@,
            decreases self.entries@.len() - i,
        {
            keys.push(self.entries[i].0.clone());
            i += 1;
        }
        proof {
            let found = texts(keys@);
            assert forall|a: int, b: int|
                0 <= a < found.len() && 0 <= b < found.len() && a != b implies found[a]
                != found[b] by {
                if a < b {
                    assert(self.entries@[a].0@ != self.entries@[b].0@);
                } else {
                    assert(self.entries@[b].0@ != self.entries@[a].0@);
                }
            }
            assert forall|k: Seq<char>| found.to_set().contains(k) <==> self@.dom().contains(k) by {
                lemma_map_keys(self.entries@, k);
                if found.contains(k) {
                    let j = choose|j: int| 0 <= j < found.len() && found[j] == k;
                    assert(self.entries@[j].0@ == k);
                }
                if exists|j: int| 0 <= j < self.entries@.len() && #[trigger] self.entries@[j].0@ == k {
                    let j = choose|j: int|
                        0 <= j < self.entries@.len() && #[trigger] self.entries@[j].0@ == k;
                    assert(found[j] == k);
                }
            }
            assert(found.to_set() =~= self@.dom());
        }
        keys
    }
}

/// The characters of each string.
pub open spec fn texts(strings: Seq<String>) -> Seq<Seq<char>> {
    strings.map_values(|s: String| s@)
}

} // verus!
