//! A map from string keys to values, held as a vector of unique keys and
//! modelled as a `Map` from the keys' characters to the values.
use vstd::prelude::*;
use vstd::string::StringExecFns;

verus! {

/// A map keyed by strings, each key held at most once.
pub struct Table<T> {
    entries: Vec<(String, T)>,
    contents: Ghost<Map<Seq<char>, T>>,
}

impl<T> View for Table<T> {
    type V = Map<Seq<char>, T>;

    closed spec fn view(&self) -> Map<Seq<char>, T> {
        self.contents@
    }
}

impl<T> Table<T> {
    /// Every entry is in the model, every key of the model has an entry, and
    /// no key has two entries.
    pub closed spec fn wf(&self) -> bool {
        &&& forall|i: int|
            0 <= i < self.entries@.len() ==> {
                &&& self.contents@.contains_key(#[trigger] self.entries@[i].0@)
                &&& self.contents@[self.entries@[i].0@] == self.entries@[i].1
            }
        &&& forall|key: Seq<char>|
            #[trigger] self.contents@.contains_key(key) ==> exists|i: int|
                0 <= i < self.entries@.len() && #[trigger] self.entries@[i].0@ == key
        &&& forall|i: int, j: int|
            0 <= i < j < self.entries@.len() ==> #[trigger] self.entries@[i].0@
                != #[trigger] self.entries@[j].0@
    }

    /// An empty table.
    pub fn new() -> (r: Table<T>)
        ensures
            r.wf(),
            r@ == Map::<Seq<char>, T>::empty(),
    {
        Table { entries: Vec::new(), contents: Ghost(Map::empty()) }
    }

    /// The position of `key`'s entry, if it has one.
    fn find(&self, key: &String) -> (r: Option<usize>)
        requires
            self.wf(),
        ensures
            match r {
                Some(i) => i < self.entries@.len() && self.entries@[i as int].0@ == key@,
                None => !self@.contains_key(key@) && forall|j: int|
                    0 <= j < self.entries@.len() ==> #[trigger] self.entries@[j].0@ != key@,
            },
    {
        let mut i: usize = 0;
        while i < self.entries.len()
            invariant
                self.wf(),
                i <= self.entries@.len(),
                forall|j: int| 0 <= j < i ==> #[trigger] self.entries@[j].0@ != key@,
            decreases self.entries@.len() - i,
        {
            if self.entries[i].0 == *key {
                return Some(i);
            }
            i = i + 1;
        }
        None
    }

    /// Whether `key` has a value.
    pub fn contains(&self, key: &String) -> (r: bool)
        requires
            self.wf(),
        ensures
            r == self@.contains_key(key@),
    {
        match self.find(key) {
            Some(_) => true,
            None => false,
        }
    }

    /// The value of `key`, if it has one.
    pub fn get(&self, key: &String) -> (r: Option<&T>)
        requires
            self.wf(),
        ensures
            match r {
                Some(v) => self@.contains_key(key@) && *v == self@[key@],
                None => !self@.contains_key(key@),
            },
    {
        match self.find(key) {
            Some(i) => Some(&self.entries[i].1),
            None => None,
        }
    }

    /// `base` itself where the table holds no such key, else a key the table
    /// does not hold: `base` followed by every stored key and a `0`, which is
    /// longer than any stored key.
    pub fn fresh_key(&self, base: String) -> (r: String)
        requires
            self.wf(),
        ensures
            !self@.contains_key(r@),
            !self@.contains_key(base@) ==> r@ == base@,
    {
        if !self.contains(&base) {
            return base;
        }
        let mut r = base;
        let mut i: usize = 0;
        while i < self.entries.len()
            invariant
                self.wf(),
                i <= self.entries@.len(),
                forall|j: int| 0 <= j < i ==> #[trigger] self.entries@[j].0@.len() <= r@.len(),
            decreases self.entries@.len() - i,
        {
            r.append(self.entries[i].0.as_str());
            i = i + 1;
        }
        r.append("0");
        proof {
            reveal_strlit("0");
        }
        assert forall|key: Seq<char>| #[trigger] self@.contains_key(key) implies key != r@ by {
            let j = choose|j: int| 0 <= j < self.entries@.len() && #[trigger] self.entries@[j].0@ == key;
            assert(self.entries@[j].0@.len() < r@.len());
        }
        r
    }

    /// Sets the value of `key` to `value`, in place of any earlier one.
    pub fn insert(&mut self, key: String, value: T)
        requires
            old(self).wf(),
        ensures
            final(self).wf(),
            final(self)@ == old(self)@.insert(key@, value),
    {
        let ghost k = key@;
        let ghost v = value;
        let ghost before = self.entries@;
        match self.find(&key) {
            Some(i) => {
                self.entries.set(i, (key, value));
                self.contents = Ghost(self.contents@.insert(k, v));
                assert forall|j: int| 0 <= j < self.entries@.len() && j != i implies #[trigger] self.entries@[j].0@ != k by {
                    if j < i {
                        assert(before[j].0@ != before[i as int].0@);
                    } else {
                        assert(before[i as int].0@ != before[j].0@);
                    }
                }
                assert forall|key2: Seq<char>| #[trigger] self.contents@.contains_key(key2) implies exists|j: int|
                    0 <= j < self.entries@.len() && #[trigger] self.entries@[j].0@ == key2 by {
                    if key2 != k {
                        let j = choose|j: int| 0 <= j < before.len() && #[trigger] before[j].0@ == key2;
                        assert(self.entries@[j].0@ == key2);
                    } else {
                        assert(self.entries@[i as int].0@ == key2);
                    }
                }
            },
            None => {
                self.entries.push((key, value));
                self.contents = Ghost(self.contents@.insert(k, v));
                assert forall|key2: Seq<char>| #[trigger] self.contents@.contains_key(key2) implies exists|j: int|
                    0 <= j < self.entries@.len() && #[trigger] self.entries@[j].0@ == key2 by {
                    if key2 != k {
                        let j = choose|j: int| 0 <= j < before.len() && #[trigger] before[j].0@ == key2;
                        assert(self.entries@[j].0@ == key2);
                    } else {
                        assert(self.entries@[before.len() as int].0@ == key2);
                    }
                }
            },
        }
    }

    /// Takes `key`'s value out of the table, if it has one.
    pub fn remove(&mut self, key: &String) -> (r: Option<T>)
        requires
            old(self).wf(),
        ensures
            final(self).wf(),
            final(self)@ == old(self)@.remove(key@),
            match r {
                Some(v) => old(self)@.contains_key(key@) && v == old(self)@[key@],
                None => !old(self)@.contains_key(key@),
            },
    {
        let ghost before = self.entries@;
        match self.find(key) {
            Some(i) => {
                let (_, v) = self.entries.remove(i);
                self.contents = Ghost(self.contents@.remove(key@));
                assert forall|j: int| 0 <= j < self.entries@.len() implies #[trigger] self.entries@[j]
                    == before[if j < i { j } else { j + 1 }] by {}
                assert forall|j: int| 0 <= j < self.entries@.len() implies {
                    &&& self.contents@.contains_key(#[trigger] self.entries@[j].0@)
                    &&& self.contents@[self.entries@[j].0@] == self.entries@[j].1
                } by {
                    let o = if j < i { j } else { j + 1 };
                    assert(self.entries@[j] == before[o]);
                    if o < i {
                        assert(before[o].0@ != before[i as int].0@);
                    } else {
                        assert(before[i as int].0@ != before[o].0@);
                    }
                }
                assert forall|key2: Seq<char>| #[trigger] self.contents@.contains_key(key2) implies exists|j: int|
                    0 <= j < self.entries@.len() && #[trigger] self.entries@[j].0@ == key2 by {
                    let o = choose|o: int| 0 <= o < before.len() && #[trigger] before[o].0@ == key2;
                    assert(o != i);
                    let j = if o < i { o } else { o - 1 };
                    assert(self.entries@[j] == before[if j < i { j } else { j + 1 }]);
                    assert(self.entries@[j].0@ == key2);
                }
                assert forall|a: int, b: int| 0 <= a < b < self.entries@.len() implies #[trigger] self.entries@[a].0@
                    != #[trigger] self.entries@[b].0@ by {
                    let oa = if a < i { a } else { a + 1 };
                    let ob = if b < i { b } else { b + 1 };
                    assert(self.entries@[a] == before[oa]);
                    assert(self.entries@[b] == before[ob]);
                    assert(before[oa].0@ != before[ob].0@);
                }
                Some(v)
            },
            None => {
                assert(self.contents@.remove(key@) =~= self.contents@);
                None
            },
        }
    }
}

} // verus!
