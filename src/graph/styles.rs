//! A string-to-string mapping with unique keys, kept in insertion order.
use vstd::prelude::*;

verus! {

/// The mapping described by a sequence of key/value pairs whose keys are unique.
pub open spec fn pairs_to_map(s: Seq<(Seq<char>, Seq<char>)>) -> Map<Seq<char>, Seq<char>> {
    Map::new(
        |k: Seq<char>| exists|i: int| 0 <= i < s.len() && s[i].0 == k,
        |k: Seq<char>| s[choose|i: int| 0 <= i < s.len() && s[i].0 == k].1,
    )
}

/// No two pairs share a key.
pub open spec fn keys_unique(s: Seq<(Seq<char>, Seq<char>)>) -> bool {
    forall|i: int, j: int| 0 <= i < s.len() && 0 <= j < s.len() && i != j ==> s[i].0 != s[j].0
}

proof fn lemma_pair_in_map(s: Seq<(Seq<char>, Seq<char>)>, i: int)
    requires
        keys_unique(s),
        0 <= i < s.len(),
    ensures
        pairs_to_map(s).contains_key(s[i].0),
        pairs_to_map(s)[s[i].0] == s[i].1,
{
    let k = s[i].0;
    assert(exists|j: int| 0 <= j < s.len() && s[j].0 == k);
    let j = choose|j: int| 0 <= j < s.len() && s[j].0 == k;
    assert(j == i);
}

proof fn lemma_update_pair(s: Seq<(Seq<char>, Seq<char>)>, i: int, v: Seq<char>)
    requires
        keys_unique(s),
        0 <= i < s.len(),
    ensures
        keys_unique(s.update(i, (s[i].0, v))),
        pairs_to_map(s.update(i, (s[i].0, v))) == pairs_to_map(s).insert(s[i].0, v),
{
    let t = s.update(i, (s[i].0, v));
    let m = pairs_to_map(s).insert(s[i].0, v);
    assert forall|k: Seq<char>| #[trigger] pairs_to_map(t).contains_key(k) <==> m.contains_key(k) by {
        if exists|j: int| 0 <= j < s.len() && s[j].0 == k {
            let j = choose|j: int| 0 <= j < s.len() && s[j].0 == k;
            assert(t[j].0 == k);
        }
        if exists|j: int| 0 <= j < t.len() && t[j].0 == k {
            let j = choose|j: int| 0 <= j < t.len() && t[j].0 == k;
            assert(s[j].0 == k);
        }
    }
    assert forall|k: Seq<char>| pairs_to_map(t).contains_key(k) implies #[trigger] pairs_to_map(t)[k]
        == m[k] by {
        let j = choose|j: int| 0 <= j < t.len() && t[j].0 == k;
        lemma_pair_in_map(t, j);
        if j != i {
            lemma_pair_in_map(s, j);
        }
    }
    assert(pairs_to_map(t) =~= m);
}

proof fn lemma_push_pair(s: Seq<(Seq<char>, Seq<char>)>, k: Seq<char>, v: Seq<char>)
    requires
        keys_unique(s),
        !pairs_to_map(s).contains_key(k),
    ensures
        keys_unique(s.push((k, v))),
        pairs_to_map(s.push((k, v))) == pairs_to_map(s).insert(k, v),
{
    let t = s.push((k, v));
    let m = pairs_to_map(s).insert(k, v);
    assert forall|i: int| 0 <= i < s.len() implies s[i].0 != k by {
        lemma_pair_in_map(s, i);
    }
    assert forall|x: Seq<char>| #[trigger] pairs_to_map(t).contains_key(x) <==> m.contains_key(x) by {
        if exists|j: int| 0 <= j < s.len() && s[j].0 == x {
            let j = choose|j: int| 0 <= j < s.len() && s[j].0 == x;
            assert(t[j].0 == x);
        }
        if x == k {
            assert(t[s.len() as int].0 == x);
        }
        if exists|j: int| 0 <= j < t.len() && t[j].0 == x {
            let j = choose|j: int| 0 <= j < t.len() && t[j].0 == x;
            if j < s.len() {
                assert(s[j].0 == x);
            }
        }
    }
    assert forall|x: Seq<char>| pairs_to_map(t).contains_key(x) implies #[trigger] pairs_to_map(t)[x]
        == m[x] by {
        let j = choose|j: int| 0 <= j < t.len() && t[j].0 == x;
        lemma_pair_in_map(t, j);
        if j < s.len() {
            lemma_pair_in_map(s, j);
        }
    }
    assert(pairs_to_map(t) =~= m);
}

proof fn lemma_remove_pair(s: Seq<(Seq<char>, Seq<char>)>, i: int)
    requires
        keys_unique(s),
        0 <= i < s.len(),
    ensures
        keys_unique(s.remove(i)),
        pairs_to_map(s.remove(i)) == pairs_to_map(s).remove(s[i].0),
{
    let t = s.remove(i);
    let m = pairs_to_map(s).remove(s[i].0);
    assert forall|a: int, b: int| 0 <= a < t.len() && 0 <= b < t.len() && a != b implies t[a].0
        != t[b].0 by {
        let a2 = if a < i { a } else { a + 1 };
        let b2 = if b < i { b } else { b + 1 };
        assert(t[a] == s[a2] && t[b] == s[b2]);
    }
    assert forall|x: Seq<char>| #[trigger] pairs_to_map(t).contains_key(x) <==> m.contains_key(x) by {
        if exists|j: int| 0 <= j < s.len() && s[j].0 == x {
            let j = choose|j: int| 0 <= j < s.len() && s[j].0 == x;
            if j < i {
                assert(t[j].0 == x);
            } else if j > i {
                assert(t[j - 1].0 == x);
            }
        }
        if exists|j: int| 0 <= j < t.len() && t[j].0 == x {
            let j = choose|j: int| 0 <= j < t.len() && t[j].0 == x;
            let j2 = if j < i { j } else { j + 1 };
            assert(s[j2].0 == x);
        }
    }
    assert forall|x: Seq<char>| pairs_to_map(t).contains_key(x) implies #[trigger] pairs_to_map(t)[x]
        == m[x] by {
        let j = choose|j: int| 0 <= j < t.len() && t[j].0 == x;
        lemma_pair_in_map(t, j);
        let j2 = if j < i { j } else { j + 1 };
        assert(t[j] == s[j2]);
        lemma_pair_in_map(s, j2);
    }
    assert(pairs_to_map(t) =~= m);
}

/// The views of stored key/value pairs.
pub open spec fn view_pairs(v: Seq<(String, String)>) -> Seq<(Seq<char>, Seq<char>)> {
    v.map_values(|p: (String, String)| (p.0@, p.1@))
}

/// Style attributes of an entity, or the defaults of a group: a mapping from
/// attribute name to value whose keys are unique. Iteration follows the
/// order in which the keys were first inserted.
pub struct StyleMap {
    entries: Vec<(String, String)>,
}

impl View for StyleMap {
    type V = Map<Seq<char>, Seq<char>>;

    open spec fn view(&self) -> Map<Seq<char>, Seq<char>> {
        pairs_to_map(self.pairs())
    }
}

impl StyleMap {
    /// The key/value pairs in iteration order.
    pub closed spec fn pairs(&self) -> Seq<(Seq<char>, Seq<char>)> {
        view_pairs(self.entries@)
    }

    #[verifier::type_invariant]
    spec fn unique_keys(&self) -> bool {
        keys_unique(self.pairs())
    }

    pub fn new() -> (r: StyleMap)
        ensures
            r@ == Map::<Seq<char>, Seq<char>>::empty(),
            r.pairs().len() == 0,
    {
        let r = StyleMap { entries: Vec::new() };
        assert(r@ =~= Map::<Seq<char>, Seq<char>>::empty());
        r
    }

    pub fn len(&self) -> (r: usize)
        ensures
            r == self.pairs().len(),
            r == self@.len(),
            keys_unique(self.pairs()),
    {
        proof {
            use_type_invariant(self);
            self.lemma_len_matches();
        }
        self.entries.len()
    }

    proof fn lemma_len_matches(&self)
        requires
            keys_unique(self.pairs()),
        ensures
            self@.len() == self.pairs().len(),
    {
        let s = self.pairs();
        let ks = s.map_values(|p: (Seq<char>, Seq<char>)| p.0);
        assert forall|a: int, b: int| 0 <= a < ks.len() && 0 <= b < ks.len() && a != b implies ks[a]
            != ks[b] by {}
        assert(ks.no_duplicates());
        ks.unique_seq_to_set();
        assert forall|k: Seq<char>| #[trigger] self@.contains_key(k) <==> ks.to_set().contains(k) by {
            if ks.to_set().contains(k) {
                let j = choose|j: int| 0 <= j < ks.len() && ks[j] == k;
                assert(s[j].0 == k);
            }
            if self@.contains_key(k) {
                let j = choose|j: int| 0 <= j < s.len() && s[j].0 == k;
                assert(ks[j] == k);
            }
        }
        assert(self@.dom() =~= ks.to_set());
    }

    /// Moves the pairs out, leaving the mapping empty.
    fn take_entries(&mut self) -> (r: Vec<(String, String)>)
        ensures
            r@ == old(self).entries@,
            keys_unique(old(self).pairs()),
            final(self).entries@.len() == 0,
    {
        proof {
            use_type_invariant(&*self);
        }
        let mut r: Vec<(String, String)> = Vec::new();
        std::mem::swap(&mut self.entries, &mut r);
        r
    }

    /// Puts back pairs whose keys are unique.
    fn put_entries(&mut self, entries: Vec<(String, String)>)
        requires
            keys_unique(view_pairs(entries@)),
        ensures
            final(self).entries@ == entries@,
    {
        let mut e = entries;
        std::mem::swap(&mut self.entries, &mut e);
    }

    /// Position of `key` among the pairs, if present.
    fn position(&self, key: &String) -> (r: Option<usize>)
        ensures
            match r {
                Some(i) => i < self.pairs().len() && self.pairs()[i as int].0 == key@,
                None => !self@.contains_key(key@),
            },
    {
        let mut i: usize = 0;
        while i < self.entries.len()
            invariant
                i <= self.entries@.len(),
                forall|j: int| 0 <= j < i ==> self.pairs()[j].0 != key@,
            decreases self.entries@.len() - i,
        {
            if self.entries[i].0 == *key {
                return Some(i);
            }
            i = i + 1;
        }
        proof {
            if self@.contains_key(key@) {
                let j = choose|j: int| 0 <= j < self.pairs().len() && self.pairs()[j].0 == key@;
                assert(false);
            }
        }
        None
    }

    /// Sets `key` to `value`, returning the value it replaced.
    pub fn insert(&mut self, key: String, value: String) -> (r: Option<String>)
        ensures
            final(self)@ == old(self)@.insert(key@, value@),
            match r {
                Some(v) => old(self)@.contains_key(key@) && v@ == old(self)@[key@],
                None => !old(self)@.contains_key(key@),
            },
    {
        proof {
            use_type_invariant(&*self);
        }
        match self.position(&key) {
            Some(i) => {
                proof {
                    lemma_pair_in_map(self.pairs(), i as int);
                    lemma_update_pair(self.pairs(), i as int, value@);
                }
                let k = self.entries[i].0.clone();
                let old_value = self.entries[i].1.clone();
                let ghost before = self.pairs();
                let mut entries = self.take_entries();
                entries.set(i, (k, value));
                assert(view_pairs(entries@) =~= before.update(i as int, (before[i as int].0, value@)));
                self.put_entries(entries);
                assert(self.pairs() =~= before.update(i as int, (before[i as int].0, value@)));
                Some(old_value)
            },
            None => {
                proof {
                    lemma_push_pair(self.pairs(), key@, value@);
                }
                let ghost before = self.pairs();
                let ghost kv = key@;
                let mut entries = self.take_entries();
                entries.push((key, value));
                assert(view_pairs(entries@) =~= before.push((kv, value@)));
                self.put_entries(entries);
                assert(self.pairs() =~= before.push((kv, value@)));
                None
            },
        }
    }

    /// Removes `key`, returning its value if it was present.
    pub fn remove(&mut self, key: &String) -> (r: Option<String>)
        ensures
            final(self)@ == old(self)@.remove(key@),
            match r {
                Some(v) => old(self)@.contains_key(key@) && v@ == old(self)@[key@],
                None => !old(self)@.contains_key(key@),
            },
    {
        proof {
            use_type_invariant(&*self);
        }
        match self.position(key) {
            Some(i) => {
                proof {
                    lemma_pair_in_map(self.pairs(), i as int);
                    lemma_remove_pair(self.pairs(), i as int);
                }
                let ghost before = self.pairs();
                let mut entries = self.take_entries();
                let (_, v) = entries.remove(i);
                assert(view_pairs(entries@) =~= before.remove(i as int));
                self.put_entries(entries);
                assert(self.pairs() =~= before.remove(i as int));
                Some(v)
            },
            None => {
                assert(old(self)@.remove(key@) =~= old(self)@);
                None
            },
        }
    }

    /// The value of `key`, if present.
    pub fn get(&self, key: &str) -> (r: Option<&String>)
        ensures
            match r {
                Some(v) => self@.contains_key(key@) && v@ == self@[key@],
                None => !self@.contains_key(key@),
            },
    {
        proof {
            use_type_invariant(self);
        }
        let k = String::from_str(key);
        match self.position(&k) {
            Some(i) => {
                proof {
                    lemma_pair_in_map(self.pairs(), i as int);
                }
                Some(&self.entries[i].1)
            },
            None => None,
        }
    }

    /// The pair at position `i` of the iteration order.
    pub fn entry_at(&self, i: usize) -> (r: (&String, &String))
        requires
            i < self.pairs().len(),
        ensures
            (r.0@, r.1@) == self.pairs()[i as int],
            keys_unique(self.pairs()),
    {
        proof {
            use_type_invariant(self);
        }
        let e = &self.entries[i];
        (&e.0, &e.1)
    }

    /// Adds every pair of `other`, its values winning over those of `self`.
    pub fn extend_from(&mut self, other: &StyleMap)
        ensures
            final(self)@ == old(self)@.union_prefer_right(other@),
    {
        proof {
            use_type_invariant(other);
        }
        let ghost ps = other.pairs();
        let mut i: usize = 0;
        proof {
            assert(pairs_to_map(ps.take(0)) =~= Map::<Seq<char>, Seq<char>>::empty());
            assert(old(self)@.union_prefer_right(Map::empty()) =~= old(self)@);
        }
        while i < other.entries.len()
            invariant
                ps == other.pairs(),
                keys_unique(ps),
                i <= ps.len(),
                self@ == old(self)@.union_prefer_right(pairs_to_map(ps.take(i as int))),
            decreases ps.len() - i,
        {
            let k = other.entries[i].0.clone();
            let v = other.entries[i].1.clone();
            proof {
                let t = ps.take(i as int);
                assert(keys_unique(t));
                if pairs_to_map(t).contains_key(k@) {
                    let j = choose|j: int| 0 <= j < t.len() && t[j].0 == k@;
                    assert(ps[j].0 == ps[i as int].0);
                }
                lemma_push_pair(t, k@, v@);
                assert(ps.take(i + 1) =~= t.push((k@, v@)));
            }
            self.insert(k, v);
            proof {
                let t = ps.take(i as int);
                assert(self@ =~= old(self)@.union_prefer_right(pairs_to_map(ps.take(i + 1))));
            }
            i = i + 1;
        }
        proof {
            assert(ps.take(ps.len() as int) =~= ps);
        }
    }
}

} // verus!
