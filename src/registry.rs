use vstd::prelude::*;

verus! {

/// The map that a sequence of (name, value) entries denotes; a later entry
/// for a name overrides an earlier one.
pub open spec fn entries_map<T>(s: Seq<(String, T)>) -> Map<Seq<char>, T>
    decreases s.len(),
{
    if s.len() == 0 {
        Map::empty()
    } else {
        entries_map(s.drop_last()).insert(s.last().0@, s.last().1)
    }
}

/// No two entries carry the same name.
pub open spec fn names_unique<T>(s: Seq<(String, T)>) -> bool {
    forall|i: int, j: int| 0 <= i < s.len() && 0 <= j < s.len() && i != j ==> s[i].0@ != s[j].0@
}

/// In a sequence with unique names, the denoted map holds exactly the
/// entries' names, each bound to its entry's value.
pub proof fn lemma_entries_map<T>(s: Seq<(String, T)>)
    requires
        names_unique(s),
    ensures
        forall|k: Seq<char>| #[trigger] entries_map(s).contains_key(k) <==> exists|i: int| 0 <= i < s.len() && s[i].0@ == k,
        forall|i: int| 0 <= i < s.len() ==> entries_map(s).contains_key(#[trigger] s[i].0@) && entries_map(s)[s[i].0@] == s[i].1,
    decreases s.len(),
{
    if s.len() > 0 {
        let p = s.drop_last();
        assert(names_unique(p)) by {
            assert forall|i: int, j: int| 0 <= i < p.len() && 0 <= j < p.len() && i != j implies p[i].0@ != p[j].0@ by {
                assert(p[i] == s[i] && p[j] == s[j]);
            }
        }
        lemma_entries_map(p);
        assert forall|k: Seq<char>| #[trigger] entries_map(s).contains_key(k) <==> exists|i: int| 0 <= i < s.len() && s[i].0@ == k by {
            assert(entries_map(s) == entries_map(p).insert(s.last().0@, s.last().1));
            if entries_map(s).contains_key(k) {
                if k == s.last().0@ {
                    assert(s[s.len() - 1].0@ == k);
                } else {
                    assert(entries_map(p).contains_key(k));
                    let i = choose|i: int| 0 <= i < p.len() && p[i].0@ == k;
                    assert(s[i] == p[i]);
                }
            }
            if exists|i: int| 0 <= i < s.len() && s[i].0@ == k {
                let i = choose|i: int| 0 <= i < s.len() && s[i].0@ == k;
                if i < s.len() - 1 {
                    assert(p[i] == s[i]);
                    assert(entries_map(p).contains_key(p[i].0@));
                }
            }
        }
        assert forall|i: int| 0 <= i < s.len() implies entries_map(s).contains_key(#[trigger] s[i].0@) && entries_map(s)[s[i].0@] == s[i].1 by {
            if i < s.len() - 1 {
                assert(p[i] == s[i]);
                assert(s[i].0@ != s[s.len() - 1].0@);
            }
        }
    }
}

/// Named entries, each name at most once: the store behind every resource
/// registry of the renderer.
pub struct NameMap<T> {
    entries: Vec<(String, T)>,
}

impl<T> NameMap<T> {
    pub closed spec fn entries(&self) -> Seq<(String, T)> {
        self.entries@
    }

    /// What the registry holds: name to value.
    pub open spec fn view(&self) -> Map<Seq<char>, T> {
        entries_map(self.entries())
    }

    pub open spec fn wf(&self) -> bool {
        names_unique(self.entries())
    }

    /// Names in insertion order.
    pub open spec fn names(&self) -> Seq<Seq<char>> {
        self.entries().map_values(|e: (String, T)| e.0@)
    }

    pub fn new() -> (r: Self)
        ensures
            r.wf(),
            r@ == Map::<Seq<char>, T>::empty(),
            r.names().len() == 0,
    {
        NameMap { entries: Vec::new() }
    }

    pub fn len(&self) -> (r: usize)
        requires
            self.wf(),
        ensures
            r == self@.len(),
            r == self.names().len(),
    {
        proof {
            self.lemma_len();
        }
        self.entries.len()
    }

    proof fn lemma_len(&self)
        requires
            self.wf(),
        ensures
            self@.len() == self.entries().len(),
            self@.dom() == self.names().to_set(),
    {
        lemma_entries_map(self.entries());
        let s = self.entries();
        let n = self.names();
        assert(self@.dom() =~= n.to_set()) by {
            assert forall|k: Seq<char>| self@.dom().contains(k) <==> n.to_set().contains(k) by {
                if self@.dom().contains(k) {
                    let i = choose|i: int| 0 <= i < s.len() && s[i].0@ == k;
                    assert(n[i] == k);
                }
                if n.to_set().contains(k) {
                    let i = choose|i: int| 0 <= i < n.len() && n[i] == k;
                    assert(s[i].0@ == k);
                }
            }
        }
        assert(n.no_duplicates()) by {
            assert forall|i: int, j: int| 0 <= i < n.len() && 0 <= j < n.len() && i != j implies n[i] != n[j] by {
                assert(n[i] == s[i].0@ && n[j] == s[j].0@);
            }
        }
        n.unique_seq_to_set();

    }

    /// Position of the entry named `name`, if any.
    fn find(&self, name: &String) -> (r: Option<usize>)
        requires
            self.wf(),
        ensures
            match r {
                Some(i) => i < self.entries().len() && self.entries()[i as int].0@ == name@,
                None => forall|i: int| 0 <= i < self.entries().len() ==> self.entries()[i].0@ != name@,
            },
    {
        let mut i: usize = 0;
        while i < self.entries.len()
            invariant
                i <= self.entries().len(),
                forall|j: int| 0 <= j < i ==> self.entries()[j].0@ != name@,
            decreases self.entries().len() - i,
        {
            if self.entries[i].0 == *name {
                return Some(i);
            }
            i = i + 1;
        }
        None
    }

    /// Looks `name` up; there is no default entry.
    pub fn get(&self, name: &str) -> (r: Option<&T>)
        requires
            self.wf(),
        ensures
            match r {
                Some(v) => self@.contains_key(name@) && *v == self@[name@],
                None => !self@.contains_key(name@),
            },
    {
        let key = name.to_owned();
        proof {
            lemma_entries_map(self.entries());
        }
        match self.find(&key) {
            Some(i) => Some(&self.entries[i].1),
            None => None,
        }
    }

    /// Whether an entry is named `name`.
    pub fn contains(&self, name: &str) -> (r: bool)
        requires
            self.wf(),
        ensures
            r == self@.contains_key(name@),
    {
        self.get(name).is_some()
    }

    /// Binds `name` to `value`, replacing an earlier binding of the name.
    pub fn insert(&mut self, name: String, value: T)
        requires
            old(self).wf(),
        ensures
            final(self).wf(),
            final(self)@ == old(self)@.insert(name@, value),
    {
        proof {
            lemma_entries_map(self.entries());
        }
        match self.find(&name) {
            Some(i) => {
                let ghost s0 = self.entries();
                self.entries.remove(i);
                let ghost s1 = self.entries();
                self.entries.push((name, value));
                proof {
                    let s = self.entries();
                    assert(names_unique(s)) by {
                        assert forall|a: int, b: int| 0 <= a < s.len() && 0 <= b < s.len() && a != b implies s[a].0@ != s[b].0@ by {
                            if a < s.len() - 1 && b < s.len() - 1 {
                                let a0 = if a < i { a } else { a + 1 };
                                let b0 = if b < i { b } else { b + 1 };
                                assert(s[a] == s0[a0] && s[b] == s0[b0]);
                            } else if a < s.len() - 1 {
                                let a0 = if a < i { a } else { a + 1 };
                                assert(s[a] == s0[a0]);
                            } else if b < s.len() - 1 {
                                let b0 = if b < i { b } else { b + 1 };
                                assert(s[b] == s0[b0]);
                            }
                        }
                    }
                    lemma_entries_map(s);
                    assert(entries_map(s) =~= entries_map(s0).insert(name@, value)) by {
                        assert forall|k: Seq<char>| #[trigger] entries_map(s).contains_key(k) <==> entries_map(s0).insert(name@, value).contains_key(k) by {
                            if exists|a: int| 0 <= a < s.len() && s[a].0@ == k {
                                let a = choose|a: int| 0 <= a < s.len() && s[a].0@ == k;
                                if a < s.len() - 1 {
                                    let a0 = if a < i { a } else { a + 1 };
                                    assert(s[a] == s0[a0]);
                                }
                            }
                            if exists|a: int| 0 <= a < s0.len() && s0[a].0@ == k {
                                let a = choose|a: int| 0 <= a < s0.len() && s0[a].0@ == k;
                                if a < i {
                                    assert(s[a] == s0[a]);
                                } else if a > i {
                                    assert(s[a - 1] == s0[a]);
                                } else {
                                    assert(s[s.len() - 1].0@ == k);
                                }
                            }
                        }
                        assert forall|k: Seq<char>| #[trigger] entries_map(s).contains_key(k) implies entries_map(s)[k] == entries_map(s0).insert(name@, value)[k] by {
                            let a = choose|a: int| 0 <= a < s.len() && s[a].0@ == k;
                            if a < s.len() - 1 {
                                let a0 = if a < i { a } else { a + 1 };
                                assert(s[a] == s0[a0]);
                            }
                        }
                    }
                }
            },
            None => {
                let ghost s0 = self.entries();
                self.entries.push((name, value));
                proof {
                    let s = self.entries();
                    assert(s.drop_last() =~= s0);
                    assert(names_unique(s)) by {
                        assert forall|a: int, b: int| 0 <= a < s.len() && 0 <= b < s.len() && a != b implies s[a].0@ != s[b].0@ by {
                            if a < s.len() - 1 {
                                assert(s[a] == s0[a]);
                            }
                            if b < s.len() - 1 {
                                assert(s[b] == s0[b]);
                            }
                        }
                    }
                }
            },
        }
    }
}

} // verus!

verus! {

/// Looks `name` up among named entries whose names are unique.
pub fn lookup<'a, T>(s: &'a Vec<(String, T)>, name: &str) -> (r: Option<&'a T>)
    requires
        names_unique(s@),
    ensures
        match r {
            Some(v) => entries_map(s@).contains_key(name@) && *v == entries_map(s@)[name@],
            None => !entries_map(s@).contains_key(name@),
        },
{
    proof {
        lemma_entries_map(s@);
    }
    let key = name.to_owned();
    let mut i: usize = 0;
    while i < s.len()
        invariant
            i <= s@.len(),
            names_unique(s@),
            key@ == name@,
            forall|j: int| 0 <= j < i ==> s@[j].0@ != name@,
        decreases s@.len() - i,
    {
        if s[i].0 == key {
            proof {
                lemma_entries_map(s@);
                assert(entries_map(s@).contains_key(s@[i as int].0@));
            }
            return Some(&s[i].1);
        }
        i = i + 1;
    }
    proof {
        lemma_entries_map(s@);
    }
    None
}

} // verus!
