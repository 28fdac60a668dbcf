//! An in-memory table from (project, key) to secret value.
use vstd::prelude::*;

verus! {

/// The (project, key) pair that an entry is stored under.
pub open spec fn entry_key(e: (String, String, String)) -> (Seq<char>, Seq<char>) {
    (e.0@, e.1@)
}

/// The table that a list of entries stands for; a later entry for the same
/// pair wins.
pub open spec fn store_map(s: Seq<(String, String, String)>) -> Map<(Seq<char>, Seq<char>), Seq<char>>
    decreases s.len(),
{
    if s.len() == 0 {
        Map::empty()
    } else {
        store_map(s.drop_last()).insert(entry_key(s.last()), s.last().2@)
    }
}

/// No two entries share a (project, key) pair.
pub open spec fn unique_keys(s: Seq<(String, String, String)>) -> bool {
    forall|i: int, j: int|
        0 <= i < s.len() && 0 <= j < s.len() && i != j ==> entry_key(s[i]) != entry_key(s[j])
}

proof fn lemma_store_map_dom(s: Seq<(String, String, String)>, k: (Seq<char>, Seq<char>))
    ensures
        store_map(s).contains_key(k) <==> exists|i: int| 0 <= i < s.len() && entry_key(s[i]) == k,
    decreases s.len(),
{
    if s.len() > 0 {
        let p = s.drop_last();
        lemma_store_map_dom(p, k);
        if store_map(s).contains_key(k) {
            if k == entry_key(s.last()) {
                assert(entry_key(s[s.len() - 1]) == k);
            } else {
                let i = choose|i: int| 0 <= i < p.len() && entry_key(p[i]) == k;
                assert(s[i] == p[i]);
            }
        }
        if exists|i: int| 0 <= i < s.len() && entry_key(s[i]) == k {
            let i = choose|i: int| 0 <= i < s.len() && entry_key(s[i]) == k;
            if i < s.len() - 1 {
                assert(p[i] == s[i]);
            }
        }
    }
}

proof fn lemma_store_map_value(s: Seq<(String, String, String)>, i: int)
    requires
        unique_keys(s),
        0 <= i < s.len(),
    ensures
        store_map(s).contains_key(entry_key(s[i])),
        store_map(s)[entry_key(s[i])] == s[i].2@,
    decreases s.len(),
{
    if i < s.len() - 1 {
        let p = s.drop_last();
        assert(p[i] == s[i]);
        assert(unique_keys(p)) by {
            assert forall|a: int, b: int|
                0 <= a < p.len() && 0 <= b < p.len() && a != b implies entry_key(p[a])
                != entry_key(p[b]) by {
                assert(p[a] == s[a] && p[b] == s[b]);
            }
        }
        lemma_store_map_value(p, i);
        assert(entry_key(s[i]) != entry_key(s[s.len() - 1]));
    }
}

/// The table that a unique list stands for maps each entry's pair to its value.
proof fn lemma_store_map_exact(s: Seq<(String, String, String)>, m: Map<(Seq<char>, Seq<char>), Seq<char>>)
    requires
        unique_keys(s),
        forall|k: (Seq<char>, Seq<char>)|
            m.contains_key(k) <==> exists|i: int| 0 <= i < s.len() && entry_key(s[i]) == k,
        forall|i: int| 0 <= i < s.len() ==> m[entry_key(#[trigger] s[i])] == s[i].2@,
    ensures
        store_map(s) == m,
{
    assert forall|k: (Seq<char>, Seq<char>)| store_map(s).contains_key(k) <==> m.contains_key(k) by {
        lemma_store_map_dom(s, k);
    }
    assert forall|k: (Seq<char>, Seq<char>)| #[trigger] store_map(s).contains_key(k) implies store_map(s)[k] == m[k] by {
        lemma_store_map_dom(s, k);
        let i = choose|i: int| 0 <= i < s.len() && entry_key(s[i]) == k;
        lemma_store_map_value(s, i);
    }
    assert(store_map(s) =~= m);
}

/// Secret values keyed by (project, key), with no pair stored twice.
pub struct SecretStore {
    entries: Vec<(String, String, String)>,
}

impl SecretStore {
    /// The table the store holds.
    pub closed spec fn view(&self) -> Map<(Seq<char>, Seq<char>), Seq<char>> {
        store_map(self.entries@)
    }

    #[verifier::type_invariant]
    closed spec fn no_duplicates(&self) -> bool {
        unique_keys(self.entries@)
    }

    /// An empty store.
    pub fn new() -> (s: Self)
        ensures
            s@ == Map::<(Seq<char>, Seq<char>), Seq<char>>::empty(),
    {
        SecretStore { entries: Vec::new() }
    }

    fn find(&self, project: &String, key: &String) -> (r: Option<usize>)
        ensures
            match r {
                Some(i) => i < self.entries.len() && entry_key(self.entries@[i as int]) == (
                    project@,
                    key@,
                ),
                None => forall|i: int|
                    0 <= i < self.entries.len() ==> entry_key(self.entries@[i]) != (
                        project@,
                        key@,
                    ),
            },
    {
        let mut i: usize = 0;
        while i < self.entries.len()
            invariant
                i <= self.entries.len(),
                forall|t: int|
                    0 <= t < i ==> entry_key(self.entries@[t]) != (project@, key@),
            decreases self.entries.len() - i,
        {
            let e = &self.entries[i];
            if e.0 == *project && e.1 == *key {
                return Some(i);
            }
            i += 1;
        }
        None
    }

    /// The value stored under (project, key), if any.
    pub fn get(&self, project: &str, key: &str) -> (r: Option<String>)
        ensures
            r is Some <==> self@.contains_key((project@, key@)),
            r matches Some(v) ==> v@ == self@[(project@, key@)],
    {
        proof {
            use_type_invariant(self);
        }
        let p = String::from_str(project);
        let k = String::from_str(key);
        match self.find(&p, &k) {
            Some(i) => {
                proof {
                    lemma_store_map_value(self.entries@, i as int);
                }
                Some(self.entries[i].2.clone())
            },
            None => {
                proof {
                    lemma_store_map_dom(self.entries@, (project@, key@));
                }
                None
            },
        }
    }

    /// Stores `value` under (project, key), replacing any earlier value.
    pub fn insert(&mut self, project: &str, key: &str, value: &str)
        ensures
            final(self)@ == old(self)@.insert((project@, key@), value@),
    {
        proof {
            use_type_invariant(&*self);
        }
        let p = String::from_str(project);
        let k = String::from_str(key);
        let v = String::from_str(value);
        let ghost old_entries = self.entries@;
        let ghost target = old(self)@.insert((project@, key@), value@);
        match self.find(&p, &k) {
            Some(i) => {
                let mut entries: Vec<(String, String, String)> = Vec::new();
                std::mem::swap(&mut entries, &mut self.entries);
                entries.set(i, (p, k, v));
                let ghost ne = entries@;
                assert(unique_keys(ne)) by {
                    assert forall|a: int, b: int|
                        0 <= a < ne.len() && 0 <= b < ne.len() && a != b implies entry_key(ne[a])
                        != entry_key(ne[b]) by {
                        if a != i && b != i {
                            assert(ne[a] == old_entries[a] && ne[b] == old_entries[b]);
                        } else if a == i {
                            assert(ne[b] == old_entries[b]);
                        } else {
                            assert(ne[a] == old_entries[a]);
                        }
                    }
                }
                proof {
                    assert forall|kk: (Seq<char>, Seq<char>)| target.contains_key(kk) <==> exists|t: int|
                        0 <= t < ne.len() && entry_key(ne[t]) == kk by {
                        lemma_store_map_dom(old_entries, kk);
                        if exists|t: int| 0 <= t < old_entries.len() && entry_key(old_entries[t]) == kk {
                            let t = choose|t: int|
                                0 <= t < old_entries.len() && entry_key(old_entries[t]) == kk;
                            if t != i {
                                assert(entry_key(ne[t]) == kk);
                            } else {
                                assert(entry_key(ne[i as int]) == kk);
                            }
                        }
                        if exists|t: int| 0 <= t < ne.len() && entry_key(ne[t]) == kk {
                            let t = choose|t: int| 0 <= t < ne.len() && entry_key(ne[t]) == kk;
                            if t != i {
                                assert(entry_key(old_entries[t]) == kk);
                            }
                        }
                    }
                    assert forall|t: int| 0 <= t < ne.len() implies target[entry_key(
                        #[trigger] ne[t],
                    )] == ne[t].2@ by {
                        if t != i {
                            assert(ne[t] == old_entries[t]);
                            lemma_store_map_value(old_entries, t);
                        }
                    }
                    lemma_store_map_exact(ne, target);
                }
                self.entries = entries;
            },
            None => {
                let mut entries: Vec<(String, String, String)> = Vec::new();
                std::mem::swap(&mut entries, &mut self.entries);
                entries.push((p, k, v));
                let ghost ne = entries@;
                assert(ne.drop_last() =~= old_entries);
                assert(unique_keys(ne)) by {
                    assert forall|a: int, b: int|
                        0 <= a < ne.len() && 0 <= b < ne.len() && a != b implies entry_key(ne[a])
                        != entry_key(ne[b]) by {
                        if a < old_entries.len() && b < old_entries.len() {
                            assert(ne[a] == old_entries[a] && ne[b] == old_entries[b]);
                        } else if a < old_entries.len() {
                            assert(ne[a] == old_entries[a]);
                        } else {
                            assert(ne[b] == old_entries[b]);
                        }
                    }
                }
                self.entries = entries;
            },
        }
    }

    /// Removes whatever is stored under (project, key).
    pub fn remove(&mut self, project: &str, key: &str)
        ensures
            final(self)@ == old(self)@.remove((project@, key@)),
    {
        proof {
            use_type_invariant(&*self);
        }
        let p = String::from_str(project);
        let k = String::from_str(key);
        let ghost old_entries = self.entries@;
        let ghost target = old(self)@.remove((project@, key@));
        match self.find(&p, &k) {
            Some(i) => {
                let mut entries: Vec<(String, String, String)> = Vec::new();
                std::mem::swap(&mut entries, &mut self.entries);
                let _gone = entries.remove(i);
                let ghost ne = entries@;
                assert(ne =~= old_entries.remove(i as int));
                assert(unique_keys(ne)) by {
                    assert forall|a: int, b: int|
                        0 <= a < ne.len() && 0 <= b < ne.len() && a != b implies entry_key(ne[a])
                        != entry_key(ne[b]) by {
                        let oa = if a < i { a } else { a + 1 };
                        let ob = if b < i { b } else { b + 1 };
                        assert(ne[a] == old_entries[oa] && ne[b] == old_entries[ob]);
                    }
                }
                proof {
                    assert forall|kk: (Seq<char>, Seq<char>)| target.contains_key(kk) <==> exists|t: int|
                        0 <= t < ne.len() && entry_key(ne[t]) == kk by {
                        lemma_store_map_dom(old_entries, kk);
                        if target.contains_key(kk) {
                            let t = choose|t: int|
                                0 <= t < old_entries.len() && entry_key(old_entries[t]) == kk;
                            assert(t != i);
                            if t < i {
                                assert(entry_key(ne[t]) == kk);
                            } else {
                                assert(entry_key(ne[t - 1]) == kk);
                            }
                        }
                        if exists|t: int| 0 <= t < ne.len() && entry_key(ne[t]) == kk {
                            let t = choose|t: int| 0 <= t < ne.len() && entry_key(ne[t]) == kk;
                            let ot = if t < i { t } else { t + 1 };
                            assert(ne[t] == old_entries[ot]);
                            assert(ot != i);
                        }
                    }
                    assert forall|t: int| 0 <= t < ne.len() implies target[entry_key(
                        #[trigger] ne[t],
                    )] == ne[t].2@ by {
                        let ot = if t < i { t } else { t + 1 };
                        assert(ne[t] == old_entries[ot]);
                        lemma_store_map_value(old_entries, ot);
                    }
                    lemma_store_map_exact(ne, target);
                }
                self.entries = entries;
            },
            None => {
                proof {
                    lemma_store_map_dom(old_entries, (project@, key@));
                    assert(old(self)@.remove((project@, key@)) =~= old(self)@);
                }
            },
        }
    }
}

} // verus!
