//! String-keyed metadata attached to beacon messages.
//!
//! The metadata is a finite map from keys to values, kept as a list of
//! pairs in which no key occurs twice.
use vstd::prelude::*;

verus! {

/// The map that a list of key/value pairs describes; a later pair for a key
/// takes precedence over an earlier one.
pub closed spec fn map_of(s: Seq<(String, String)>) -> Map<Seq<char>, Seq<char>>
    decreases s.len(),
{
    if s.len() == 0 {
        Map::empty()
    } else {
        map_of(s.drop_last()).insert(s.last().0@, s.last().1@)
    }
}

/// No key occurs in two pairs.
pub open spec fn keys_unique(s: Seq<(String, String)>) -> bool {
    forall|i: int, j: int| 0 <= i < j < s.len() ==> (#[trigger] s[i]).0@ != (#[trigger] s[j]).0@
}

proof fn lemma_map_of_dom(s: Seq<(String, String)>, k: Seq<char>)
    ensures
        map_of(s).contains_key(k) <==> exists|i: int| 0 <= i < s.len() && (#[trigger] s[i]).0@ == k,
    decreases s.len(),
{
    if s.len() > 0 {
        lemma_map_of_dom(s.drop_last(), k);
        if map_of(s.drop_last()).contains_key(k) {
            let i = choose|i: int| 0 <= i < s.drop_last().len() && (#[trigger] s.drop_last()[i]).0@ == k;
            assert(s[i] == s.drop_last()[i]);
        }
        if exists|i: int| 0 <= i < s.len() && (#[trigger] s[i]).0@ == k {
            let i = choose|i: int| 0 <= i < s.len() && (#[trigger] s[i]).0@ == k;
            if i < s.len() - 1 {
                assert(s.drop_last()[i] == s[i]);
            }
        }
    }
}

proof fn lemma_map_of_finite(s: Seq<(String, String)>)
    ensures
        map_of(s).dom().finite(),
    decreases s.len(),
{
    if s.len() > 0 {
        lemma_map_of_finite(s.drop_last());
    }
}

proof fn lemma_map_of_at(s: Seq<(String, String)>, i: int)
    requires
        keys_unique(s),
        0 <= i < s.len(),
    ensures
        map_of(s).contains_key(s[i].0@),
        map_of(s)[s[i].0@] == s[i].1@,
    decreases s.len(),
{
    if i < s.len() - 1 {
        let t = s.drop_last();
        assert(t[i] == s[i]);
        assert(keys_unique(t)) by {
            assert forall|a: int, b: int| 0 <= a < b < t.len() implies (#[trigger] t[a]).0@ != (#[trigger] t[b]).0@ by {
                assert(t[a] == s[a] && t[b] == s[b]);
            }
        }
        lemma_map_of_at(t, i);
        assert(s[i].0@ != s[s.len() - 1].0@);
    }
}

proof fn lemma_map_of_update(s: Seq<(String, String)>, i: int, p: (String, String))
    requires
        keys_unique(s),
        0 <= i < s.len(),
        s[i].0@ == p.0@,
    ensures
        map_of(s.update(i, p)) == map_of(s).insert(p.0@, p.1@),
        keys_unique(s.update(i, p)),
    decreases s.len(),
{
    let u = s.update(i, p);
    assert(keys_unique(u)) by {
        assert forall|a: int, b: int| 0 <= a < b < u.len() implies (#[trigger] u[a]).0@ != (#[trigger] u[b]).0@ by {
            assert(s[a].0@ == u[a].0@ && s[b].0@ == u[b].0@);
        }
    }
    let t = s.drop_last();
    assert(keys_unique(t)) by {
        assert forall|a: int, b: int| 0 <= a < b < t.len() implies (#[trigger] t[a]).0@ != (#[trigger] t[b]).0@ by {
            assert(t[a] == s[a] && t[b] == s[b]);
        }
    }
    if i == s.len() - 1 {
        assert(u.drop_last() =~= t);
        assert(map_of(u) =~= map_of(s).insert(p.0@, p.1@));
    } else {
        assert(u.drop_last() =~= t.update(i, p));
        lemma_map_of_update(t, i, p);
        assert(s.last().0@ != p.0@) by {
            assert(s[i].0@ != s[s.len() - 1].0@);
        }
        assert(u.last() == s.last());
        assert(map_of(u) =~= map_of(s).insert(p.0@, p.1@));
    }
}

/// Metadata of a beacon: a map from keys to values.
#[derive(Debug)]
pub struct Metadata {
    entries: Vec<(String, String)>,
}

impl View for Metadata {
    type V = Map<Seq<char>, Seq<char>>;

    closed spec fn view(&self) -> Map<Seq<char>, Seq<char>> {
        map_of(self.entries@)
    }
}

impl Metadata {
    #[verifier::type_invariant]
    closed spec fn well_formed(self) -> bool {
        keys_unique(self.entries@)
    }

    /// An empty map.
    pub fn new() -> (m: Metadata)
        ensures
            m@ == Map::<Seq<char>, Seq<char>>::empty(),
            m@.dom().finite(),
    {
        Metadata { entries: Vec::new() }
    }

    /// Position of `key` among the pairs, if it is there.
    fn find(&self, key: &String) -> (r: Option<usize>)
        ensures
            match r {
                Some(i) => i < self.entries@.len() && self.entries@[i as int].0@ == key@,
                None => forall|i: int| 0 <= i < self.entries@.len() ==> (#[trigger] self.entries@[i]).0@ != key@,
            },
    {
        let mut i: usize = 0;
        while i < self.entries.len()
            invariant
                i <= self.entries@.len(),
                forall|j: int| 0 <= j < i ==> (#[trigger] self.entries@[j]).0@ != key@,
            decreases self.entries@.len() - i,
        {
            if self.entries[i].0 == *key {
                return Some(i);
            }
            i = i + 1;
        }
        None
    }

    /// The value stored under `key`, if any.
    pub fn get(&self, key: &str) -> (r: Option<&String>)
        ensures
            match r {
                Some(v) => self@.contains_key(key@) && self@[key@] == v@,
                None => !self@.contains_key(key@),
            },
            self@.dom().finite(),
    {
        proof {
            use_type_invariant(self);
            lemma_map_of_finite(self.entries@);
        }
        let k = key.to_owned();
        match self.find(&k) {
            Some(i) => {
                proof {
                    lemma_map_of_at(self.entries@, i as int);
                }
                Some(&self.entries[i].1)
            },
            None => {
                proof {
                    lemma_map_of_dom(self.entries@, key@);
                }
                None
            },
        }
    }

    /// Store `value` under `key`, returning the value it replaces, if any.
    pub fn insert(&mut self, key: String, value: String) -> (prev: Option<String>)
        ensures
            final(self)@ == old(self)@.insert(key@, value@),
            match prev {
                Some(v) => old(self)@.contains_key(key@) && old(self)@[key@] == v@,
                None => !old(self)@.contains_key(key@),
            },
            old(self)@.dom().finite(),
            final(self)@.dom().finite(),
    {
        proof {
            use_type_invariant(&*self);
            lemma_map_of_finite(self.entries@);
        }
        match self.find(&key) {
            Some(i) => {
                let ghost s = self.entries@;
                proof {
                    lemma_map_of_at(s, i as int);
                    lemma_map_of_update(s, i as int, (key, value));
                }
                let previous = self.entries[i].1.clone();
                let mut entries: Vec<(String, String)> = Vec::new();
                std::mem::swap(&mut entries, &mut self.entries);
                entries.set(i, (key, value));
                self.entries = entries;
                Some(previous)
            },
            None => {
                let ghost s = self.entries@;
                proof {
                    lemma_map_of_dom(s, key@);
                    assert(s.push((key, value)).drop_last() =~= s);
                }
                let mut entries: Vec<(String, String)> = Vec::new();
                std::mem::swap(&mut entries, &mut self.entries);
                entries.push((key, value));
                proof {
                    assert(keys_unique(entries@)) by {
                        assert forall|a: int, b: int| 0 <= a < b < entries@.len() implies
                            (#[trigger] entries@[a]).0@ != (#[trigger] entries@[b]).0@ by {
                            if b == s.len() {
                                assert(entries@[a] == s[a]);
                            } else {
                                assert(entries@[a] == s[a] && entries@[b] == s[b]);
                            }
                        }
                    }
                }
                self.entries = entries;
                None
            },
        }
    }
}

/// Reading a key right after writing it gives the written value, every
/// other key reads as before, and the write adds an entry exactly when the
/// key was absent.
pub proof fn lemma_read_after_write(m: Map<Seq<char>, Seq<char>>, key: Seq<char>, value: Seq<char>, other: Seq<char>)
    requires
        m.dom().finite(),
        other != key,
    ensures
        m.insert(key, value).contains_key(key),
        m.insert(key, value)[key] == value,
        m.insert(key, value).contains_key(other) == m.contains_key(other),
        m.contains_key(other) ==> m.insert(key, value)[other] == m[other],
        m.insert(key, value).len() == m.len() + (if m.contains_key(key) { 0int } else { 1int }),
{
}

impl Clone for Metadata {
    fn clone(&self) -> (r: Self)
        ensures
            r@ == self@,
            r@.dom().finite(),
    {
        proof {
            use_type_invariant(self);
            lemma_map_of_finite(self.entries@);
        }
        let mut entries: Vec<(String, String)> = Vec::new();
        let mut i: usize = 0;
        while i < self.entries.len()
            invariant
                i <= self.entries@.len(),
                entries@ =~= self.entries@.take(i as int),
            decreases self.entries@.len() - i,
        {
            let k = self.entries[i].0.clone();
            let v = self.entries[i].1.clone();
            entries.push((k, v));
            i = i + 1;
        }
        assert(self.entries@.take(i as int) =~= self.entries@);
        Metadata { entries }
    }
}

} // verus!
