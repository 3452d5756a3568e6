use vstd::prelude::*;

verus! {

broadcast use {vstd::seq::group_seq_axioms, vstd::std_specs::vec::group_vec_axioms};

pub open spec fn names_distinct<T>(s: Seq<(String, T)>) -> bool {
    forall|i: int, j: int| 0 <= i < s.len() && 0 <= j < s.len() && i != j ==> s[i].0@ != s[j].0@
}

/// The map that a list of named entries with distinct names stands for.
pub open spec fn named_map<T>(s: Seq<(String, T)>) -> Map<Seq<char>, T> {
    Map::new(
        |k: Seq<char>| exists|i: int| 0 <= i < s.len() && s[i].0@ == k,
        |k: Seq<char>| s[choose|i: int| 0 <= i < s.len() && s[i].0@ == k].1,
    )
}

pub proof fn lemma_named_map_at<T>(s: Seq<(String, T)>, i: int)
    requires
        names_distinct(s),
        0 <= i < s.len(),
    ensures
        named_map(s).contains_key(s[i].0@),
        named_map(s)[s[i].0@] == s[i].1,
{
    let k = s[i].0@;
    assert(exists|j: int| 0 <= j < s.len() && s[j].0@ == k);
    let c = choose|j: int| 0 <= j < s.len() && s[j].0@ == k;
    assert(c == i);
}

/// A table of items keyed by name; each name appears at most once.
///
/// The entries are kept in a `Vec` rather than a `HashMap`: the passes take
/// the tables apart and rebuild them by moving every item, which a loop over
/// a `Vec` states and proves directly, while iterating a `HashMap` and
/// proving what each step visited is not supported as well by vstd.
pub struct NameMap<T> {
    entries: Vec<(String, T)>,
}

impl<T> NameMap<T> {
    #[verifier::type_invariant]
    spec fn inv(&self) -> bool {
        names_distinct(self.entries@)
    }

    pub closed spec fn view(&self) -> Map<Seq<char>, T> {
        named_map(self.entries@)
    }

    pub fn new() -> (r: NameMap<T>)
        ensures
            r@ == Map::<Seq<char>, T>::empty(),
    {
        let r = NameMap { entries: Vec::new() };
        assert(r@ =~= Map::<Seq<char>, T>::empty());
        r
    }

    fn find(&self, name: &String) -> (r: Option<usize>)
        requires
            names_distinct(self.entries@),
        ensures
            match r {
                Some(i) => i < self.entries@.len() && self.entries@[i as int].0@ == name@,
                None => forall|j: int| 0 <= j < self.entries@.len() ==> self.entries@[j].0@ != name@,
            },
    {
        let mut i: usize = 0;
        while i < self.entries.len()
            invariant
                i <= self.entries@.len(),
                forall|j: int| 0 <= j < i ==> self.entries@[j].0@ != name@,
            decreases self.entries@.len() - i,
        {
            if self.entries[i].0 == *name {
                return Some(i);
            }
            i += 1;
        }
        None
    }

    /// The entries, each name with its item.
    pub fn into_entries(self) -> (r: Vec<(String, T)>)
        ensures
            names_distinct(r@),
            named_map(r@) == self@,
    {
        proof {
            use_type_invariant(&self);
        }
        self.entries
    }

    /// The table of entries whose names are distinct.
    pub fn from_entries(entries: Vec<(String, T)>) -> (r: NameMap<T>)
        requires
            names_distinct(entries@),
        ensures
            r@ == named_map(entries@),
    {
        NameMap { entries }
    }

    pub fn contains_key(&self, name: &String) -> (r: bool)
        ensures
            r == self@.contains_key(name@),
    {
        proof {
            use_type_invariant(self);
        }
        self.find(name).is_some()
    }

    pub fn get(&self, name: &String) -> (r: Option<&T>)
        ensures
            match r {
                Some(x) => self@.contains_key(name@) && self@[name@] == *x,
                None => !self@.contains_key(name@),
            },
    {
        proof {
            use_type_invariant(self);
        }
        match self.find(name) {
            Some(i) => {
                proof {
                    lemma_named_map_at(self.entries@, i as int);
                }
                Some(&self.entries[i].1)
            },
            None => None,
        }
    }

    /// Drops the binding of `name`, if any.
    pub fn remove(&mut self, name: &String)
        ensures
            final(self)@ == old(self)@.remove(name@),
    {
        proof {
            use_type_invariant(&*self);
        }
        let ghost old_entries = self.entries@;
        match self.find(name) {
            Some(i) => {
                let mut entries = Vec::new();
                std::mem::swap(&mut entries, &mut self.entries);
                entries.remove(i);
                let ghost e = entries@;
                proof {
                    let at = i as int;
                    assert(e =~= old_entries.remove(at));
                    assert forall|a: int, b: int| 0 <= a < e.len() && 0 <= b < e.len() && a != b
                        implies e[a].0@ != e[b].0@ by {
                        let a2 = if a < at { a } else { a + 1 };
                        let b2 = if b < at { b } else { b + 1 };
                        assert(e[a] == old_entries[a2] && e[b] == old_entries[b2]);
                    }
                    assert forall|q: Seq<char>| #[trigger] named_map(e).contains_key(q)
                        == old(self)@.remove(name@).contains_key(q) by {
                        if old(self)@.remove(name@).contains_key(q) {
                            let j = choose|j: int| 0 <= j < old_entries.len() && old_entries[j].0@ == q;
                            assert(j != at);
                            let j2 = if j < at { j } else { j - 1 };
                            assert(e[j2].0@ == q);
                        }
                        if named_map(e).contains_key(q) {
                            let j = choose|j: int| 0 <= j < e.len() && e[j].0@ == q;
                            let j2 = if j < at { j } else { j + 1 };
                            assert(old_entries[j2].0@ == q);
                            assert(old_entries[j2].0@ != old_entries[at].0@);
                        }
                    }
                    assert forall|q: Seq<char>| #[trigger] named_map(e).contains_key(q)
                        implies named_map(e)[q] == old(self)@.remove(name@)[q] by {
                        let j = choose|j: int| 0 <= j < e.len() && e[j].0@ == q;
                        let j2 = if j < at { j } else { j + 1 };
                        lemma_named_map_at(e, j);
                        lemma_named_map_at(old_entries, j2);
                    }
                    assert(named_map(e) =~= old(self)@.remove(name@));
                }
                self.entries = entries;
            },
            None => {
                assert(old(self)@.remove(name@) =~= old(self)@);
            },
        }
    }

    /// Binds `name` to `x`, replacing any earlier binding of it.
    pub fn insert(&mut self, name: String, x: T)
        ensures
            final(self)@ == old(self)@.insert(name@, x),
    {
        proof {
            use_type_invariant(&*self);
        }
        let ghost old_entries = self.entries@;
        match self.find(&name) {
            Some(i) => {
                let ghost k = name@;
                let mut old_vec = Vec::new();
                std::mem::swap(&mut old_vec, &mut self.entries);
                let mut entries = old_vec;
                entries.set(i, (name, x));
                self.entries = entries;
                proof {
                    assert forall|a: int, b: int|
                        0 <= a < self.entries@.len() && 0 <= b < self.entries@.len() && a != b
                        implies self.entries@[a].0@ != self.entries@[b].0@ by {
                        if a != i && b != i {
                            assert(old_entries[a].0@ != old_entries[b].0@);
                        } else if a == i {
                            assert(old_entries[i as int].0@ != old_entries[b].0@);
                        } else {
                            assert(old_entries[i as int].0@ != old_entries[a].0@);
                        }
                    }
                    assert forall|q: Seq<char>| #[trigger] self@.contains_key(q)
                        == old(self)@.insert(k, x).contains_key(q) by {
                        if q != k {
                            if old(self)@.contains_key(q) {
                                let j = choose|j: int| 0 <= j < old_entries.len() && old_entries[j].0@ == q;
                                assert(self.entries@[j].0@ == q);
                            }
                        } else {
                            assert(self.entries@[i as int].0@ == q);
                        }
                    }
                    assert forall|q: Seq<char>| #[trigger] self@.contains_key(q)
                        implies self@[q] == old(self)@.insert(k, x)[q] by {
                        let j = choose|j: int| 0 <= j < self.entries@.len() && self.entries@[j].0@ == q;
                        lemma_named_map_at(self.entries@, j);
                        if j != i {
                            lemma_named_map_at(old_entries, j);
                        }
                    }
                    assert(self@ =~= old(self)@.insert(k, x));
                }
            },
            None => {
                let ghost k = name@;
                let mut entries = Vec::new();
                std::mem::swap(&mut entries, &mut self.entries);
                entries.push((name, x));
                self.entries = entries;
                proof {
                    let n = old_entries.len() as int;
                    assert forall|q: Seq<char>| #[trigger] self@.contains_key(q)
                        == old(self)@.insert(k, x).contains_key(q) by {
                        if q != k {
                            if old(self)@.contains_key(q) {
                                let j = choose|j: int| 0 <= j < old_entries.len() && old_entries[j].0@ == q;
                                assert(self.entries@[j].0@ == q);
                            }
                        } else {
                            assert(self.entries@[n].0@ == q);
                        }
                    }
                    assert forall|q: Seq<char>| #[trigger] self@.contains_key(q)
                        implies self@[q] == old(self)@.insert(k, x)[q] by {
                        let j = choose|j: int| 0 <= j < self.entries@.len() && self.entries@[j].0@ == q;
                        lemma_named_map_at(self.entries@, j);
                        if j != n {
                            lemma_named_map_at(old_entries, j);
                        }
                    }
                    assert(self@ =~= old(self)@.insert(k, x));
                }
            },
        }
    }
}

} // verus!
