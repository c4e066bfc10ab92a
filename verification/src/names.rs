//! Text comparison and a small map keyed by text.

use vstd::prelude::*;
use vstd::string::*;

verus! {

/// Whether two texts hold the same characters.
pub fn same_text(a: &str, b: &str) -> (r: bool)
    ensures
        r == (a@ == b@),
{
    let n: usize = a.unicode_len();
    if b.unicode_len() != n {
        return false;
    }
    let mut i: usize = 0;
    while i < n
        invariant
            n == a@.len(),
            n == b@.len(),
            i <= n,
            forall|k: int| 0 <= k < i ==> a@[k] == b@[k],
        decreases n - i,
    {
        if a.get_char(i) != b.get_char(i) {
            return false;
        }
        i += 1;
    }
    assert(a@ =~= b@);
    true
}

/// Whether `text` begins with `head`.
pub fn starts_with_text(text: &str, head: &str) -> (r: bool)
    ensures
        r == head@.is_prefix_of(text@),
{
    let n: usize = head.unicode_len();
    if text.unicode_len() < n {
        return false;
    }
    let mut i: usize = 0;
    while i < n
        invariant
            n == head@.len(),
            n <= text@.len(),
            i <= n,
            forall|k: int| 0 <= k < i ==> text@[k] == head@[k],
        decreases n - i,
    {
        if text.get_char(i) != head.get_char(i) {
            assert(text@.subrange(0, n as int)[i as int] != head@[i as int]);
            return false;
        }
        i += 1;
    }
    assert(head@ =~= text@.subrange(0, n as int));
    true
}

/// A finite map from names to values. No name is held twice.
pub struct NameMap<T> {
    entries: Vec<(String, T)>,
}

impl<T: Copy> View for NameMap<T> {
    type V = Map<Seq<char>, T>;

    closed spec fn view(&self) -> Map<Seq<char>, T> {
        Map::new(
            |name: Seq<char>| self.holds(name),
            |name: Seq<char>| self.entries@[self.place(name)].1,
        )
    }
}

impl<T> NameMap<T> {
    #[verifier::type_invariant]
    spec fn distinct(&self) -> bool {
        forall|i: int, j: int|
            0 <= i < j < self.entries@.len() ==> self.entries@[i].0@ != self.entries@[j].0@
    }

    spec fn holds(&self, name: Seq<char>) -> bool {
        exists|i: int| 0 <= i < self.entries@.len() && self.entries@[i].0@ == name
    }

    spec fn place(&self, name: Seq<char>) -> int {
        choose|i: int| 0 <= i < self.entries@.len() && self.entries@[i].0@ == name
    }
}

impl<T: Copy> NameMap<T> {
    spec fn listed(&self) -> Seq<Seq<char>> {
        Seq::new(self.entries@.len(), |i: int| self.entries@[i].0@)
    }

    proof fn lemma_listed(&self)
        requires
            self.distinct(),
        ensures
            self.listed().no_duplicates(),
            self.listed().to_set() =~= self@.dom(),
            self@.dom().finite(),
            self@.len() == self.entries@.len(),
    {
        let names = self.listed();
        assert forall|name: Seq<char>| names.to_set().contains(name) <==> self@.dom().contains(
            name,
        ) by {
            if names.contains(name) {
                let i = choose|i: int| 0 <= i < names.len() && names[i] == name;
                assert(self.entries@[i].0@ == name);
            }
            if self.holds(name) {
                let i = self.place(name);
                assert(names[i] == name);
            }
        }
        names.unique_seq_to_set();
        vstd::seq_lib::seq_to_set_is_finite(names);
    }

    /// The empty map.
    pub fn new() -> (m: Self)
        ensures
            m@ == Map::<Seq<char>, T>::empty(),
    {
        let m = NameMap { entries: Vec::new() };
        assert(m@ =~= Map::<Seq<char>, T>::empty());
        m
    }

    fn find(&self, name: &str) -> (r: Option<usize>)
        ensures
            match r {
                Some(i) => i < self.entries@.len() && self.entries@[i as int].0@ == name@,
                None => !self.holds(name@),
            },
    {
        let n: usize = self.entries.len();
        let mut i: usize = 0;
        while i < n
            invariant
                n == self.entries@.len(),
                i <= n,
                forall|k: int| 0 <= k < i ==> self.entries@[k].0@ != name@,
            decreases n - i,
        {
            if same_text(self.entries[i].0.as_str(), name) {
                return Some(i);
            }
            i += 1;
        }
        None
    }

    /// The value held under `name`, if any.
    pub fn get(&self, name: &str) -> (r: Option<T>)
        ensures
            r == if self@.contains_key(name@) {
                Some(self@[name@])
            } else {
                None
            },
    {
        proof {
            use_type_invariant(self);
        }
        match self.find(name) {
            Some(i) => {
                assert(self.holds(name@));
                assert(self.place(name@) == i);
                Some(self.entries[i].1)
            },
            None => None,
        }
    }

    /// Whether a value is held under `name`.
    pub fn contains(&self, name: &str) -> (r: bool)
        ensures
            r == self@.contains_key(name@),
    {
        self.find(name).is_some()
    }

    /// How many names are held.
    pub fn len(&self) -> (n: usize)
        ensures
            n == self@.len(),
            self@.dom().finite(),
    {
        proof {
            use_type_invariant(self);
            self.lemma_listed();
        }
        self.entries.len()
    }

    /// The names held: each key of the map, once.
    pub fn keys(&self) -> (r: Vec<String>)
        ensures
            r@.len() == self@.len(),
            forall|i: int| 0 <= i < r@.len() ==> self@.contains_key((#[trigger] r@[i])@),
            forall|i: int, j: int| 0 <= i < j < r@.len() ==> r@[i]@ != r@[j]@,
            forall|name: Seq<char>|
                self@.contains_key(name) ==> exists|i: int|
                    0 <= i < r@.len() && (#[trigger] r@[i])@ == name,
    {
        proof {
            use_type_invariant(self);
            self.lemma_listed();
        }
        let n: usize = self.entries.len();
        let mut r: Vec<String> = Vec::new();
        let mut i: usize = 0;
        while i < n
            invariant
                n == self.entries@.len(),
                i <= n,
                r@.len() == i,
                forall|k: int| 0 <= k < i ==> (#[trigger] r@[k])@ == self.entries@[k].0@,
            decreases n - i,
        {
            r.push(self.entries[i].0.clone());
            i += 1;
        }
        proof {
            assert forall|k: int| 0 <= k < r@.len() implies self@.contains_key(
                (#[trigger] r@[k])@,
            ) by {
                assert(self.entries@[k].0@ == r@[k]@);
            }
            assert forall|name: Seq<char>| self@.contains_key(name) implies exists|k: int|
                0 <= k < r@.len() && (#[trigger] r@[k])@ == name by {
                let k = self.place(name);
                assert(r@[k]@ == name);
            }
        }
        r
    }

    /// Puts `value` under `name`, in place of what was held there.
    pub fn insert(&mut self, name: String, value: T)
        ensures
            final(self)@ == old(self)@.insert(name@, value),
    {
        proof {
            use_type_invariant(&*self);
        }
        let ghost before = *self;
        let found = self.find(name.as_str());
        let mut taken = NameMap { entries: Vec::new() };
        core::mem::swap(self, &mut taken);
        let mut entries = taken.entries;
        match found {
            Some(i) => {
                entries[i] = (name, value);
                *self = NameMap { entries };
                proof {
                    let after = *self;
                    assert(after.entries@.len() == before.entries@.len());
                    assert forall|k: int| 0 <= k < after.entries@.len() implies #[trigger] after.entries@[k].0@
                        == before.entries@[k].0@ by {}
                    assert forall|key: Seq<char>| after.holds(key) == before.holds(key) by {
                        if before.holds(key) {
                            let k = before.place(key);
                            assert(after.entries@[k].0@ == key);
                        }
                        if after.holds(key) {
                            let k = after.place(key);
                            assert(before.entries@[k].0@ == key);
                        }
                    }
                    assert forall|key: Seq<char>| after.holds(key) implies after.place(key)
                        == before.place(key) by {
                        let k = after.place(key);
                        assert(before.entries@[k].0@ == key);
                    }
                    assert(before.holds(name@));
                    assert(before.place(name@) == i);
                    assert(after@ =~= before@.insert(name@, value));
                }
            },
            None => {
                entries.push((name, value));
                *self = NameMap { entries };
                proof {
                    let after = *self;
                    let n = before.entries@.len() as int;
                    assert(after.entries@.len() == n + 1);
                    assert forall|k: int| 0 <= k < n implies #[trigger] after.entries@[k]
                        == before.entries@[k] by {}
                    assert(after.entries@[n].0@ == name@);
                    assert forall|key: Seq<char>| after.holds(key) == (before.holds(key) || key
                        == name@) by {
                        if before.holds(key) {
                            let k = before.place(key);
                            assert(after.entries@[k].0@ == key);
                        }
                        if after.holds(key) {
                            let k = after.place(key);
                            if k < n {
                                assert(before.entries@[k].0@ == key);
                            }
                        }
                    }
                    assert forall|key: Seq<char>| before.holds(key) implies after.place(key)
                        == before.place(key) by {
                        let k = before.place(key);
                        assert(after.entries@[k].0@ == key);
                        let j = after.place(key);
                        if j < n {
                            assert(before.entries@[j].0@ == key);
                        }
                    }
                    assert(after.holds(name@));
                    assert(after.place(name@) == n);
                    assert(after@ =~= before@.insert(name@, value));
                }
            },
        }
    }
}

} // verus!
