//! A map keyed by strings, kept as a list of entries whose keys are all distinct.
use vstd::prelude::*;

verus! {

/// The keys of `e` are pairwise distinct (by their characters).
pub open spec fn keys_distinct<Val>(e: Seq<(String, Val)>) -> bool {
    forall|i: int, j: int|
        0 <= i < e.len() && 0 <= j < e.len() && i != j ==> #[trigger] e[i].0@ != #[trigger] e[j].0@
}

/// Some entry of `e` has key `k`.
pub open spec fn has_key<Val>(e: Seq<(String, Val)>, k: Seq<char>) -> bool {
    exists|i: int| 0 <= i < e.len() && #[trigger] e[i].0@ == k
}

/// An index of an entry of `e` with key `k` (meaningful when there is one).
pub open spec fn index_of_key<Val>(e: Seq<(String, Val)>, k: Seq<char>) -> int {
    choose|i: int| 0 <= i < e.len() && #[trigger] e[i].0@ == k
}

/// The map that the entries `e` stand for.
pub open spec fn entries_map<Val>(e: Seq<(String, Val)>) -> Map<Seq<char>, Val> {
    Map::new(|k: Seq<char>| has_key(e, k), |k: Seq<char>| e[index_of_key(e, k)].1)
}

/// With distinct keys, the entry found for a key is the one that holds it.
pub proof fn lemma_index_of_key<Val>(e: Seq<(String, Val)>, j: int)
    requires
        keys_distinct(e),
        0 <= j < e.len(),
    ensures
        index_of_key(e, e[j].0@) == j,
        entries_map(e).contains_key(e[j].0@),
        entries_map(e)[e[j].0@] == e[j].1,
{
    let k = e[j].0@;
    assert(has_key(e, k));
    let i = index_of_key(e, k);
    assert(e[i].0@ == k);
}

/// A map from strings to values. No two entries share a key.
#[derive(Debug)]
#[verifier::reject_recursive_types(Val)]
pub struct StrMap<Val> {
    entries: Vec<(String, Val)>,
}

impl<Val> View for StrMap<Val> {
    type V = Map<Seq<char>, Val>;

    closed spec fn view(&self) -> Map<Seq<char>, Val> {
        entries_map(self.entries@)
    }
}

impl<Val> StrMap<Val> {
    #[verifier::type_invariant]
    closed spec fn distinct(self) -> bool {
        keys_distinct(self.entries@)
    }

    /// The empty map.
    pub fn new() -> (r: Self)
        ensures
            r@ == Map::<Seq<char>, Val>::empty(),
    {
        let r = StrMap { entries: Vec::new() };
        assert(r@ =~= Map::<Seq<char>, Val>::empty());
        r
    }

    /// Index of the entry with key `k`, if there is one.
    fn find(&self, k: &str) -> (r: Option<usize>)
        ensures
            match r {
                Some(i) => i < self.entries@.len() && self.entries@[i as int].0@ == k@,
                None => !has_key(self.entries@, k@),
            },
    {
        let key = String::from_str(k);
        let n = self.entries.len();
        let mut i: usize = 0;
        while i < n
            invariant
                n == self.entries@.len(),
                i <= n,
                key@ == k@,
                forall|j: int| 0 <= j < i ==> #[trigger] self.entries@[j].0@ != k@,
            decreases n - i,
        {
            if self.entries[i].0 == key {
                return Some(i);
            }
            i = i + 1;
        }
        None
    }

    /// Whether the map has an entry for `k`.
    pub fn contains_key(&self, k: &str) -> (r: bool)
        ensures
            r == self@.contains_key(k@),
    {
        self.find(k).is_some()
    }

    /// The value stored under `k`, if any.
    pub fn get(&self, k: &str) -> (r: Option<&Val>)
        ensures
            match r {
                Some(v) => self@.contains_key(k@) && *v == self@[k@],
                None => !self@.contains_key(k@),
            },
    {
        proof {
            use_type_invariant(self);
        }
        match self.find(k) {
            Some(i) => {
                proof {
                    lemma_index_of_key(self.entries@, i as int);
                }
                Some(&self.entries[i].1)
            },
            None => None,
        }
    }

    /// Stores `v` under `k`, replacing what was stored there.
    pub fn insert(&mut self, k: String, v: Val)
        ensures
            final(self)@ == old(self)@.insert(k@, v),
    {
        proof {
            use_type_invariant(&*self);
        }
        let ghost old_e = self.entries@;
        match self.find(k.as_str()) {
            Some(i) => {
                let ghost kv = k@;
                let mut list: Vec<(String, Val)> = Vec::new();
                std::mem::swap(&mut list, &mut self.entries);
                list.set(i, (k, v));
                let ghost e = list@;
                assert(e == old_e.update(i as int, e[i as int]));
                assert forall|a: int, b: int|
                    0 <= a < e.len() && 0 <= b < e.len() && a != b implies #[trigger] e[a].0@
                    != #[trigger] e[b].0@ by {
                    assert(old_e[a].0@ != old_e[b].0@);
                }
                assert(entries_map(e) =~= entries_map(old_e).insert(kv, v)) by {
                    assert forall|x: Seq<char>|
                        has_key(e, x) <==> (has_key(old_e, x) || x == kv) by {
                        if has_key(e, x) {
                            let j = choose|j: int| 0 <= j < e.len() && #[trigger] e[j].0@ == x;
                            assert(old_e[j].0@ == x);
                        }
                        if has_key(old_e, x) {
                            let j = choose|j: int| 0 <= j < old_e.len() && #[trigger] old_e[j].0@ == x;
                            assert(e[j].0@ == x);
                        }
                        if x == kv {
                            assert(e[i as int].0@ == x);
                        }
                    }
                    assert forall|x: Seq<char>| #[trigger] has_key(e, x) implies entries_map(e)[x]
                        == entries_map(old_e).insert(kv, v)[x] by {
                        let j = choose|j: int| 0 <= j < e.len() && #[trigger] e[j].0@ == x;
                        lemma_index_of_key(e, j);
                        if j != i {
                            lemma_index_of_key(old_e, j);
                        }
                    }
                }
                self.entries = list;
            },
            None => {
                let ghost kv = k@;
                let mut list: Vec<(String, Val)> = Vec::new();
                std::mem::swap(&mut list, &mut self.entries);
                list.push((k, v));
                let ghost e = list@;
                assert forall|a: int, b: int|
                    0 <= a < e.len() && 0 <= b < e.len() && a != b implies #[trigger] e[a].0@
                    != #[trigger] e[b].0@ by {
                    if a < old_e.len() && b < old_e.len() {
                        assert(old_e[a].0@ != old_e[b].0@);
                    } else if a < old_e.len() {
                        assert(old_e[a].0@ != kv);
                    } else if b < old_e.len() {
                        assert(old_e[b].0@ != kv);
                    }
                }
                assert(entries_map(e) =~= entries_map(old_e).insert(kv, v)) by {
                    assert forall|x: Seq<char>|
                        has_key(e, x) <==> (has_key(old_e, x) || x == kv) by {
                        if has_key(e, x) {
                            let j = choose|j: int| 0 <= j < e.len() && #[trigger] e[j].0@ == x;
                            if j < old_e.len() {
                                assert(old_e[j].0@ == x);
                            }
                        }
                        if has_key(old_e, x) {
                            let j = choose|j: int| 0 <= j < old_e.len() && #[trigger] old_e[j].0@ == x;
                            assert(e[j].0@ == x);
                        }
                        if x == kv {
                            assert(e[old_e.len() as int].0@ == x);
                        }
                    }
                    assert forall|x: Seq<char>| #[trigger] has_key(e, x) implies entries_map(e)[x]
                        == entries_map(old_e).insert(kv, v)[x] by {
                        let j = choose|j: int| 0 <= j < e.len() && #[trigger] e[j].0@ == x;
                        lemma_index_of_key(e, j);
                        if j < old_e.len() {
                            lemma_index_of_key(old_e, j);
                        }
                    }
                }
                self.entries = list;
            },
        }
    }

    /// Takes the value stored under `k` out of the map, if there is one.
    pub fn remove(&mut self, k: &str) -> (r: Option<Val>)
        ensures
            final(self)@ == old(self)@.remove(k@),
            r == (if old(self)@.contains_key(k@) {
                Some(old(self)@[k@])
            } else {
                None::<Val>
            }),
    {
        proof {
            use_type_invariant(&*self);
        }
        let ghost old_e = self.entries@;
        match self.find(k) {
            Some(i) => {
                proof {
                    lemma_index_of_key(old_e, i as int);
                }
                let mut list: Vec<(String, Val)> = Vec::new();
                std::mem::swap(&mut list, &mut self.entries);
                let (_, v) = list.remove(i);
                let ghost e = list@;
                assert forall|a: int| 0 <= a < e.len() implies #[trigger] e[a] == (if a < i {
                    old_e[a]
                } else {
                    old_e[a + 1]
                }) by {}
                assert forall|a: int, b: int|
                    0 <= a < e.len() && 0 <= b < e.len() && a != b implies #[trigger] e[a].0@
                    != #[trigger] e[b].0@ by {
                    let oa = if a < i { a } else { a + 1 };
                    let ob = if b < i { b } else { b + 1 };
                    assert(old_e[oa].0@ != old_e[ob].0@);
                }
                assert(entries_map(e) =~= entries_map(old_e).remove(k@)) by {
                    assert forall|x: Seq<char>|
                        has_key(e, x) <==> (has_key(old_e, x) && x != k@) by {
                        if has_key(e, x) {
                            let j = choose|j: int| 0 <= j < e.len() && #[trigger] e[j].0@ == x;
                            let oj = if j < i { j } else { j + 1 };
                            assert(old_e[oj].0@ == x);
                            assert(old_e[i as int].0@ != old_e[oj].0@);
                        }
                        if has_key(old_e, x) && x != k@ {
                            let j = choose|j: int| 0 <= j < old_e.len() && #[trigger] old_e[j].0@ == x;
                            if j < i {
                                assert(e[j].0@ == x);
                            } else {
                                assert(j != i);
                                assert(e[j - 1].0@ == x);
                            }
                        }
                    }
                    assert forall|x: Seq<char>| #[trigger] has_key(e, x) implies entries_map(e)[x]
                        == entries_map(old_e).remove(k@)[x] by {
                        let j = choose|j: int| 0 <= j < e.len() && #[trigger] e[j].0@ == x;
                        lemma_index_of_key(e, j);
                        let oj = if j < i { j } else { j + 1 };
                        lemma_index_of_key(old_e, oj);
                    }
                }
                self.entries = list;
                Some(v)
            },
            None => {
                assert(self@ =~= old(self)@.remove(k@));
                None
            },
        }
    }

    /// The entries of the map, in storage order: each key once, with its value.
    pub fn entries(&self) -> (r: &Vec<(String, Val)>)
        ensures
            keys_distinct(r@),
            forall|i: int| 0 <= i < r@.len() ==> self@.contains_key(#[trigger] r@[i].0@)
                && self@[r@[i].0@] == r@[i].1,
            forall|k: Seq<char>| #[trigger] self@.contains_key(k) ==> has_key(r@, k),
    {
        proof {
            use_type_invariant(self);
            assert forall|i: int| 0 <= i < self.entries@.len() implies self@.contains_key(
                #[trigger] self.entries@[i].0@,
            ) && self@[self.entries@[i].0@] == self.entries@[i].1 by {
                lemma_index_of_key(self.entries@, i);
            }
        }
        &self.entries
    }
}

} // verus!
