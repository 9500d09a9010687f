//! Sets of names, and maps from names to values.
use vstd::prelude::*;

use crate::outside::str_eq;
use crate::text::texts;

verus! {

/// A set of names.
#[derive(Debug)]
pub struct NameSet {
    names: Vec<String>,
}

impl View for NameSet {
    type V = Set<Seq<char>>;

    closed spec fn view(&self) -> Set<Seq<char>> {
        texts(self.names@).to_set()
    }
}

impl Clone for NameSet {
    fn clone(&self) -> (r: Self)
        ensures
            r@ == self@,
    {
        let names = self.names.clone();
        assert(texts(names@) =~= texts(self.names@));
        NameSet { names }
    }
}

impl NameSet {
    /// The set without names.
    pub fn new() -> (r: Self)
        ensures
            r@ == Set::<Seq<char>>::empty(),
    {
        let r = NameSet { names: Vec::new() };
        assert(r@ =~= Set::<Seq<char>>::empty());
        r
    }

    /// Whether a name is in the set.
    pub fn contains(&self, name: &str) -> (r: bool)
        ensures
            r == self@.contains(name@),
    {
        crate::text::contains_name(&self.names, name)
    }

    /// Adds a name. Tells whether it is new.
    pub fn insert(&mut self, name: &str) -> (r: bool)
        ensures
            final(self)@ == old(self)@.insert(name@),
            r == !old(self)@.contains(name@),
    {
        if self.contains(name) {
            assert(self@ =~= old(self)@.insert(name@));
            false
        } else {
            let ghost before = self.names@;
            self.names.push(name.to_owned());
            proof {
                let now = self.names@;
                assert forall|s: Seq<char>| #[trigger] self@.contains(s) <==> old(
                    self,
                )@.insert(name@).contains(s) by {
                    if texts(before).contains(s) {
                        let k = choose|k: int| 0 <= k < texts(before).len() && texts(before)[k] == s;
                        assert(texts(now)[k] == s);
                    }
                    assert(texts(now)[before.len() as int] == name@);
                    if texts(now).contains(s) {
                        let k = choose|k: int| 0 <= k < texts(now).len() && texts(now)[k] == s;
                        if k < before.len() {
                            assert(texts(before)[k] == s);
                        }
                    }
                }
                assert(self@ =~= old(self)@.insert(name@));
            }
            true
        }
    }

    /// Takes a name out.
    pub fn remove(&mut self, name: &str)
        ensures
            final(self)@ == old(self)@.remove(name@),
    {
        let mut kept: Vec<String> = Vec::new();
        let mut i: usize = 0;
        while i < self.names.len()
            invariant
                i <= self.names@.len(),
                self@ == old(self)@,
                forall|k: int|
                    0 <= k < kept@.len() ==> kept@[k]@ != name@ && texts(self.names@).contains(
                        #[trigger] kept@[k]@,
                    ),
                forall|k: int|
                    0 <= k < i && (#[trigger] self.names@[k])@ != name@ ==> texts(kept@).contains(
                        self.names@[k]@,
                    ),
            decreases self.names@.len() - i,
        {
            if !str_eq(self.names[i].as_str(), name) {
                let ghost before = kept@;
                kept.push(self.names[i].clone());
                proof {
                    assert(texts(self.names@)[i as int] == self.names@[i as int]@);
                    assert(texts(kept@)[before.len() as int] == self.names@[i as int]@);
                    assert forall|k: int| 0 <= k < i && (#[trigger] self.names@[k])@ != name@ implies
                        texts(kept@).contains(self.names@[k]@) by {
                        let s = self.names@[k]@;
                        assert(texts(before).contains(s));
                        let j = choose|j: int| 0 <= j < texts(before).len() && texts(before)[j] == s;
                        assert(texts(kept@)[j] == s);
                    }
                }
            }
            i = i + 1;
        }
        let ghost all = self.names@;
        self.names = kept;
        proof {
            assert forall|s: Seq<char>| #[trigger] self@.contains(s) <==> old(self)@.remove(
                name@,
            ).contains(s) by {
                if texts(self.names@).contains(s) {
                    let k = choose|k: int|
                        0 <= k < texts(self.names@).len() && texts(self.names@)[k] == s;
                    assert(self.names@[k]@ == s);
                    assert(texts(all).contains(s));
                }
                if texts(all).contains(s) && s != name@ {
                    let k = choose|k: int| 0 <= k < texts(all).len() && texts(all)[k] == s;
                    assert(all[k]@ == s);
                }
            }
            assert(self@ =~= old(self)@.remove(name@));
        }
    }
}

/// A map from names to values.
#[derive(Debug)]
pub struct NameMap<V> {
    entries: Vec<(String, V)>,
}

/// The position of the first entry of a name from `i` on.
pub open spec fn entry_of<V>(entries: Seq<(String, V)>, i: int, name: Seq<char>) -> Option<int>
    decreases entries.len() - i,
{
    if !(0 <= i < entries.len()) {
        None
    } else if entries[i].0@ == name {
        Some(i)
    } else {
        entry_of(entries, i + 1, name)
    }
}

proof fn lemma_entry_of<V>(entries: Seq<(String, V)>, i: int, name: Seq<char>)
    requires
        0 <= i <= entries.len(),
    ensures
        match entry_of(entries, i, name) {
            Some(k) => i <= k < entries.len() && entries[k].0@ == name && forall|j: int|
                i <= j < k ==> (#[trigger] entries[j]).0@ != name,
            None => forall|j: int| i <= j < entries.len() ==> (#[trigger] entries[j]).0@ != name,
        },
    decreases entries.len() - i,
{
    if i < entries.len() && entries[i].0@ != name {
        lemma_entry_of(entries, i + 1, name);
    }
}

impl<V> View for NameMap<V> {
    type V = Map<Seq<char>, V>;

    closed spec fn view(&self) -> Map<Seq<char>, V> {
        Map::new(
            |name: Seq<char>| entry_of(self.entries@, 0, name) is Some,
            |name: Seq<char>| self.entries@[entry_of(self.entries@, 0, name)->0].1,
        )
    }
}

impl<V> NameMap<V> {
    /// The map without entries.
    pub fn new() -> (r: Self)
        ensures
            r@ == Map::<Seq<char>, V>::empty(),
    {
        let r = NameMap { entries: Vec::new() };
        assert(r@ =~= Map::<Seq<char>, V>::empty());
        r
    }

    fn find(&self, name: &str) -> (r: Option<usize>)
        ensures
            match r {
                Some(k) => entry_of(self.entries@, 0, name@) == Some(k as int) && k
                    < self.entries@.len(),
                None => entry_of(self.entries@, 0, name@) is None,
            },
    {
        let mut i: usize = 0;
        while i < self.entries.len()
            invariant
                i <= self.entries@.len(),
                entry_of(self.entries@, 0, name@) == entry_of(self.entries@, i as int, name@),
            decreases self.entries@.len() - i,
        {
            if str_eq(self.entries[i].0.as_str(), name) {
                return Some(i);
            }
            i = i + 1;
        }
        None
    }

    /// Whether a name has a value.
    pub fn contains_key(&self, name: &str) -> (r: bool)
        ensures
            r == self@.contains_key(name@),
    {
        self.find(name).is_some()
    }

    /// The value of a name.
    pub fn get(&self, name: &str) -> (r: Option<&V>)
        ensures
            match r {
                Some(v) => self@.contains_key(name@) && *v == self@[name@],
                None => !self@.contains_key(name@),
            },
    {
        match self.find(name) {
            Some(k) => Some(&self.entries[k].1),
            None => None,
        }
    }

    /// Gives a name a value.
    pub fn insert(&mut self, name: &str, value: V)
        ensures
            final(self)@ == old(self)@.insert(name@, value),
    {
        let found = self.find(name);
        let ghost before = self.entries@;
        match found {
            Some(k) => {
                self.entries.set(k, (name.to_owned(), value));
            },
            None => {
                self.entries.push((name.to_owned(), value));
            },
        }
        proof {
            let now = self.entries@;
            lemma_entry_of(before, 0, name@);
            lemma_entry_of(now, 0, name@);
            assert forall|s: Seq<char>| s != name@ implies entry_of(now, 0, s) == #[trigger] entry_of(
                before,
                0,
                s,
            ) && (entry_of(before, 0, s) matches Some(j) ==> now[j] == before[j]) by {
                lemma_entry_of(before, 0, s);
                lemma_entry_of(now, 0, s);
                if let Some(j) = entry_of(now, 0, s) {
                    assert(now[j].0@ == s);
                    if found is None {
                        assert(j < before.len());
                    }
                    assert(before[j].0@ == s);
                }
                if let Some(j) = entry_of(before, 0, s) {
                    assert(now[j].0@ == s);
                }
            }
            if found is None {
                assert(now[before.len() as int].0@ == name@);
                assert(entry_of(now, 0, name@) is Some);
                let j = entry_of(now, 0, name@)->0;
                if j < before.len() {
                    assert(before[j].0@ == name@);
                }
            } else {
                assert(now[found->0 as int].0@ == name@);
            }
            assert(self@ =~= old(self)@.insert(name@, value));
        }
    }

    /// Takes all entries out.
    pub fn clear(&mut self)
        ensures
            final(self)@ == Map::<Seq<char>, V>::empty(),
    {
        self.entries = Vec::new();
        assert(self@ =~= Map::<Seq<char>, V>::empty());
    }
}

/// The map that is left when the names of one number are taken out, and the
/// numbers above it move down.
pub open spec fn closed_up(m: Map<Seq<char>, usize>, gap: usize) -> Map<Seq<char>, usize> {
    Map::new(
        |name: Seq<char>| m.contains_key(name) && m[name] != gap,
        |name: Seq<char>|
            if m[name] > gap {
                (m[name] - 1) as usize
            } else {
                m[name]
            },
    )
}

impl NameMap<usize> {
    /// Takes the names of one number out and moves the numbers above it down.
    pub fn close_up(&mut self, gap: usize)
        ensures
            final(self)@ == closed_up(old(self)@, gap),
    {
        let mut out: NameMap<usize> = NameMap::new();
        let ghost all = self.entries@;
        let ghost m = self@;
        let n = self.entries.len();
        let mut i: usize = n;
        assert(out@ =~= closed_up(tail_map(all, n as int), gap)) by {
            assert(tail_map(all, n as int) =~= Map::empty());
        }
        while i > 0
            invariant
                i <= n,
                n == self.entries@.len(),
                all == self.entries@,
                out@ == closed_up(tail_map(all, i as int), gap),
            decreases i,
        {
            i = i - 1;
            let v = self.entries[i].1;
            proof {
                let name = all[i as int].0@;
                assert(tail_map(all, i as int) =~= tail_map(all, i + 1).insert(name, v)) by {
                    assert forall|s: Seq<char>| entry_of(all, i as int, s) == (if s == name {
                        Some(i as int)
                    } else {
                        entry_of(all, i + 1, s)
                    }) by {}
                }
            }
            if v != gap {
                out.insert(
                    self.entries[i].0.as_str(),
                    if v > gap {
                        v - 1
                    } else {
                        v
                    },
                );
            } else {
                out.remove(self.entries[i].0.as_str());
            }
            assert(out@ =~= closed_up(tail_map(all, i as int), gap));
        }
        assert(tail_map(all, 0) =~= m);
        self.entries = out.entries;
    }
}

/// The map of the entries from `i` on, where the first entry of a name counts.
spec fn tail_map(entries: Seq<(String, usize)>, i: int) -> Map<Seq<char>, usize> {
    Map::new(
        |name: Seq<char>| entry_of(entries, i, name) is Some,
        |name: Seq<char>| entries[entry_of(entries, i, name)->0].1,
    )
}

impl NameMap<usize> {
    /// Takes a name out.
    pub fn remove(&mut self, name: &str)
        ensures
            final(self)@ == old(self)@.remove(name@),
    {
        let mut kept: Vec<(String, usize)> = Vec::new();
        let ghost all = self.entries@;
        let mut i: usize = self.entries.len();
        assert(tail_map(kept@, 0) =~= tail_map(all, all.len() as int).remove(name@));
        while i > 0
            invariant
                i <= all.len(),
                all == self.entries@,
                tail_map(kept@, 0) == tail_map(all, i as int).remove(name@),
            decreases i,
        {
            i = i - 1;
            let ghost before = kept@;
            let ghost key = all[i as int].0@;
            let v = self.entries[i].1;
            proof {
                assert(tail_map(all, i as int) =~= tail_map(all, i + 1).insert(key, v)) by {
                    assert forall|s: Seq<char>| entry_of(all, i as int, s) == (if s == key {
                        Some(i as int)
                    } else {
                        entry_of(all, i + 1, s)
                    }) by {}
                }
            }
            if !str_eq(self.entries[i].0.as_str(), name) {
                kept.insert(0, (self.entries[i].0.clone(), v));
                proof {
                    let now = kept@;
                    assert forall|s: Seq<char>| #[trigger] entry_of(now, 0, s) == (if s == key {
                        Some(0int)
                    } else {
                        match entry_of(before, 0, s) {
                            Some(k) => Some(k + 1),
                            None => None,
                        }
                    }) by {
                        lemma_entry_shift(before, now, 0, s);
                    }
                    assert forall|s: Seq<char>| entry_of(before, 0, s) is Some implies 0 <= (
                    #[trigger] entry_of(before, 0, s))->0 < before.len() by {
                        lemma_entry_of(before, 0, s);
                    }
                    assert(tail_map(now, 0) =~= tail_map(before, 0).insert(key, v));
                }
            }
            assert(tail_map(kept@, 0) =~= tail_map(all, i as int).remove(name@));
        }
        self.entries = kept;
        assert(self@ =~= tail_map(kept@, 0));
        assert(old(self)@ =~= tail_map(all, 0));
    }
}

proof fn lemma_entry_shift(before: Seq<(String, usize)>, now: Seq<(String, usize)>, i: int, s: Seq<char>)
    requires
        now.len() == before.len() + 1,
        forall|k: int| 0 <= k < before.len() ==> now[k + 1] == #[trigger] before[k],
        0 <= i <= before.len(),
    ensures
        entry_of(now, i + 1, s) == (match entry_of(before, i, s) {
            Some(k) => Some(k + 1),
            None => None,
        }),
    decreases before.len() - i,
{
    if i < before.len() {
        assert(now[i + 1] == before[i]);
        lemma_entry_shift(before, now, i + 1, s);
    }
}

} // verus!
