use vstd::prelude::*;

verus! {

/// Whether no key occurs twice among the entries.
pub open spec fn keys_unique(entries: Seq<(String, String)>) -> bool {
    forall|i: int, j: int|
        0 <= i < entries.len() && 0 <= j < entries.len() && i != j ==> entries[i].0@
            != entries[j].0@
}

/// Whether some entry has key `k`.
pub open spec fn has_key(entries: Seq<(String, String)>, k: Seq<char>) -> bool {
    exists|i: int| 0 <= i < entries.len() && entries[i].0@ == k
}

/// The map that an entry list stands for.
pub open spec fn entries_map(entries: Seq<(String, String)>) -> Map<Seq<char>, Seq<char>> {
    Map::new(
        |k: Seq<char>| has_key(entries, k),
        |k: Seq<char>|
            entries[choose|i: int| 0 <= i < entries.len() && entries[i].0@ == k].1@,
    )
}

/// String-keyed stage parameters: a map from names to values in which every
/// name occurs once.
#[derive(Debug)]
pub struct StageParameters {
    entries: Vec<(String, String)>,
}

impl View for StageParameters {
    type V = Map<Seq<char>, Seq<char>>;

    closed spec fn view(&self) -> Map<Seq<char>, Seq<char>> {
        entries_map(self.entries@)
    }
}

/// In an entry list without repeated keys, the entry with key `k` gives its
/// value.
proof fn lemma_entry_value(entries: Seq<(String, String)>, i: int)
    requires
        keys_unique(entries),
        0 <= i < entries.len(),
    ensures
        entries_map(entries).dom().contains(entries[i].0@),
        entries_map(entries)[entries[i].0@] == entries[i].1@,
{
    let k = entries[i].0@;
    assert(has_key(entries, k));
    let j = choose|j: int| 0 <= j < entries.len() && entries[j].0@ == k;
    assert(j == i);
}

impl StageParameters {
    #[verifier::type_invariant]
    spec fn inv(self) -> bool {
        keys_unique(self.entries@)
    }

    /// An empty parameter map.
    pub fn new() -> (p: Self)
        ensures
            p@ == Map::<Seq<char>, Seq<char>>::empty(),
    {
        let p = StageParameters { entries: Vec::new() };
        assert(p@ =~= Map::<Seq<char>, Seq<char>>::empty());
        p
    }

    /// The number of parameters.
    pub fn len(&self) -> (n: usize)
        ensures
            n == self@.len(),
    {
        proof {
            use_type_invariant(self);
            self.lemma_len();
        }
        self.entries.len()
    }

    proof fn lemma_len(&self)
        requires
            keys_unique(self.entries@),
        ensures
            self@.dom().finite(),
            self@.len() == self.entries@.len(),
        decreases self.entries@.len(),
    {
        let e = self.entries@;
        let keys = Seq::new(e.len(), |i: int| e[i].0@);
        assert forall|k: Seq<char>| self@.dom().contains(k) <==> keys.to_set().contains(k) by {
            if has_key(e, k) {
                let i = choose|i: int| 0 <= i < e.len() && e[i].0@ == k;
                assert(keys[i] == k);
            }
            if keys.contains(k) {
                let i = choose|i: int| 0 <= i < keys.len() && keys[i] == k;
                assert(e[i].0@ == k);
            }
        }
        assert(self@.dom() =~= keys.to_set());
        assert(keys.no_duplicates());
        keys.unique_seq_to_set();
    }

    /// Whether there are no parameters.
    pub fn is_empty(&self) -> (b: bool)
        ensures
            b == (self@.len() == 0),
    {
        self.len() == 0
    }

    /// The position of the entry with key `key`, if there is one.
    fn find(&self, key: &String) -> (r: Option<usize>)
        ensures
            match r {
                Some(i) => i < self.entries@.len() && self.entries@[i as int].0@ == key@,
                None => !has_key(self.entries@, key@),
            },
    {
        let mut i: usize = 0;
        while i < self.entries.len()
            invariant
                i <= self.entries@.len(),
                forall|j: int| 0 <= j < i ==> self.entries@[j].0@ != key@,
            decreases self.entries@.len() - i,
        {
            if self.entries[i].0 == *key {
                return Some(i);
            }
            i = i + 1;
        }
        None
    }

    /// The value stored under `key`, if any.
    pub fn get(&self, key: &str) -> (r: Option<&String>)
        ensures
            match r {
                Some(v) => self@.dom().contains(key@) && v@ == self@[key@],
                None => !self@.dom().contains(key@),
            },
    {
        proof {
            use_type_invariant(self);
        }
        let k = key.to_owned();
        match self.find(&k) {
            Some(i) => {
                proof {
                    lemma_entry_value(self.entries@, i as int);
                }
                Some(&self.entries[i].1)
            },
            None => None,
        }
    }

    /// Stores `value` under `key`, replacing an earlier value, which is
    /// returned.
    pub fn insert(&mut self, key: String, value: String) -> (old_value: Option<String>)
        ensures
            final(self)@ == old(self)@.insert(key@, value@),
            match old_value {
                Some(v) => old(self)@.dom().contains(key@) && v@ == old(self)@[key@],
                None => !old(self)@.dom().contains(key@),
            },
    {
        proof {
            use_type_invariant(&*self);
        }
        let ghost old_entries = self.entries@;
        match self.find(&key) {
            Some(i) => {
                proof {
                    lemma_entry_value(old_entries, i as int);
                }
                let mut entries: Vec<(String, String)> = Vec::new();
                std::mem::swap(&mut entries, &mut self.entries);
                let previous = entries[i].1.clone();
                entries.set(i, (key, value));
                let ghost new_entries = entries@;
                assert(new_entries == old_entries.update(i as int, (key, value)));
                assert(keys_unique(new_entries));
                proof {
                    lemma_entry_value(new_entries, i as int);
                    assert forall|k: Seq<char>| k != key@ implies (has_key(new_entries, k)
                        == has_key(old_entries, k)) && (has_key(old_entries, k)
                        ==> entries_map(new_entries)[k] == entries_map(old_entries)[k]) by {
                        if has_key(old_entries, k) {
                            let j = choose|j: int| 0 <= j < old_entries.len() && old_entries[j].0@ == k;
                            lemma_entry_value(old_entries, j);
                            lemma_entry_value(new_entries, j);
                        }
                        if has_key(new_entries, k) {
                            let j = choose|j: int| 0 <= j < new_entries.len() && new_entries[j].0@ == k;
                            assert(old_entries[j].0@ == k);
                        }
                    }
                    assert(entries_map(new_entries) =~= entries_map(old_entries).insert(key@, value@));
                }
                self.entries = entries;
                Some(previous)
            },
            None => {
                let mut entries: Vec<(String, String)> = Vec::new();
                std::mem::swap(&mut entries, &mut self.entries);
                entries.push((key, value));
                let ghost new_entries = entries@;
                proof {
                    let n = old_entries.len() as int;
                    assert(new_entries[n].0@ == key@);
                    assert(keys_unique(new_entries));
                    lemma_entry_value(new_entries, n);
                    assert forall|k: Seq<char>| k != key@ implies (has_key(new_entries, k)
                        == has_key(old_entries, k)) && (has_key(old_entries, k)
                        ==> entries_map(new_entries)[k] == entries_map(old_entries)[k]) by {
                        if has_key(old_entries, k) {
                            let j = choose|j: int| 0 <= j < old_entries.len() && old_entries[j].0@ == k;
                            lemma_entry_value(old_entries, j);
                            assert(new_entries[j] == old_entries[j]);
                            lemma_entry_value(new_entries, j);
                        }
                        if has_key(new_entries, k) {
                            let j = choose|j: int| 0 <= j < new_entries.len() && new_entries[j].0@ == k;
                            assert(j != n);
                            assert(old_entries[j].0@ == k);
                        }
                    }
                    assert(entries_map(new_entries) =~= entries_map(old_entries).insert(key@, value@));
                }
                self.entries = entries;
                None
            },
        }
    }

    /// A copy holding the same parameters.
    pub fn duplicate(&self) -> (p: Self)
        ensures
            p@ == self@,
    {
        proof {
            use_type_invariant(self);
        }
        let mut entries: Vec<(String, String)> = Vec::new();
        let mut i: usize = 0;
        while i < self.entries.len()
            invariant
                i <= self.entries@.len(),
                entries@.len() == i,
                forall|j: int| 0 <= j < i ==> entries@[j].0@ == self.entries@[j].0@
                    && entries@[j].1@ == self.entries@[j].1@,
            decreases self.entries@.len() - i,
        {
            let k = self.entries[i].0.clone();
            let v = self.entries[i].1.clone();
            entries.push((k, v));
            i = i + 1;
        }
        let ghost e = entries@;
        let ghost o = self.entries@;
        assert(keys_unique(e));
        proof {
            assert forall|k: Seq<char>| has_key(e, k) == has_key(o, k) by {
                if has_key(e, k) {
                    let j = choose|j: int| 0 <= j < e.len() && e[j].0@ == k;
                    assert(o[j].0@ == k);
                }
                if has_key(o, k) {
                    let j = choose|j: int| 0 <= j < o.len() && o[j].0@ == k;
                    assert(e[j].0@ == k);
                }
            }
            assert forall|k: Seq<char>| has_key(o, k) implies entries_map(e)[k]
                == entries_map(o)[k] by {
                let j = choose|j: int| 0 <= j < o.len() && o[j].0@ == k;
                lemma_entry_value(o, j);
                lemma_entry_value(e, j);
            }
            assert(entries_map(e) =~= entries_map(o));
        }
        StageParameters { entries }
    }

    /// Every parameter once, as (name, value) pairs in storage order.
    pub fn to_pairs(&self) -> (v: Vec<(String, String)>)
        ensures
            keys_unique(v@),
            entries_map(v@) == self@,
    {
        proof {
            use_type_invariant(self);
        }
        let mut out: Vec<(String, String)> = Vec::new();
        let mut i: usize = 0;
        while i < self.entries.len()
            invariant
                i <= self.entries@.len(),
                out@.len() == i,
                forall|j: int| 0 <= j < i ==> out@[j].0@ == self.entries@[j].0@ && out@[j].1@ == self.entries@[j].1@,
            decreases self.entries@.len() - i,
        {
            let k = self.entries[i].0.clone();
            let v = self.entries[i].1.clone();
            out.push((k, v));
            i = i + 1;
        }
        let ghost e = out@;
        let ghost o = self.entries@;
        assert(keys_unique(e));
        proof {
            assert forall|k: Seq<char>| has_key(e, k) == has_key(o, k) by {
                if has_key(e, k) {
                    let j = choose|j: int| 0 <= j < e.len() && e[j].0@ == k;
                    assert(o[j].0@ == k);
                }
                if has_key(o, k) {
                    let j = choose|j: int| 0 <= j < o.len() && o[j].0@ == k;
                    assert(e[j].0@ == k);
                }
            }
            assert forall|k: Seq<char>| has_key(o, k) implies entries_map(e)[k] == entries_map(o)[k] by {
                let j = choose|j: int| 0 <= j < o.len() && o[j].0@ == k;
                lemma_entry_value(o, j);
                lemma_entry_value(e, j);
            }
            assert(entries_map(e) =~= entries_map(o));
        }
        out
    }
}

} // verus!
