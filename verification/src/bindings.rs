//! A map from names to texts (variable bindings, configuration values).
use vstd::prelude::*;

use crate::text::{chars_eq, text_of};

verus! {

/// The map that a list of distinct-keyed entries describes.
pub open spec fn entries_map(e: Seq<(String, String)>) -> Map<Seq<char>, Seq<char>>
    decreases e.len(),
{
    if e.len() == 0 {
        Map::empty()
    } else {
        entries_map(e.drop_last()).insert(e.last().0@, e.last().1@)
    }
}

/// No two entries share a key.
pub open spec fn distinct_keys(e: Seq<(String, String)>) -> bool {
    forall|i: int, j: int| 0 <= i < e.len() && 0 <= j < e.len() && i != j ==> #[trigger] e[i].0@ != #[trigger] e[j].0@
}

proof fn lemma_entries_map(e: Seq<(String, String)>)
    requires
        distinct_keys(e),
    ensures
        forall|k: Seq<char>| #[trigger] entries_map(e).contains_key(k) <==> exists|i: int| 0 <= i < e.len() && e[i].0@ == k,
        forall|i: int| 0 <= i < e.len() ==> #[trigger] entries_map(e)[e[i].0@] == e[i].1@,
        entries_map(e).dom().finite(),
    decreases e.len(),
{
    if e.len() > 0 {
        let d = e.drop_last();
        assert(distinct_keys(d));
        lemma_entries_map(d);
        assert forall|k: Seq<char>| #[trigger] entries_map(e).contains_key(k) <==> exists|i: int| 0 <= i < e.len() && e[i].0@ == k by {
            if entries_map(e).contains_key(k) && k != e.last().0@ {
                let i = choose|i: int| 0 <= i < d.len() && d[i].0@ == k;
                assert(e[i] == d[i]);
            }
            if exists|i: int| 0 <= i < e.len() && e[i].0@ == k {
                let i = choose|i: int| 0 <= i < e.len() && e[i].0@ == k;
                if i < d.len() {
                    assert(d[i] == e[i]);
                }
            }
        }
        assert forall|i: int| 0 <= i < e.len() implies #[trigger] entries_map(e)[e[i].0@] == e[i].1@ by {
            if i < d.len() {
                assert(d[i] == e[i]);
                assert(e[i].0@ != e[e.len() - 1].0@);
            }
        }
    }
}

/// Names bound to texts; each name is bound at most once.
pub struct Bindings {
    entries: Vec<(String, String)>,
}

impl View for Bindings {
    type V = Map<Seq<char>, Seq<char>>;

    closed spec fn view(&self) -> Map<Seq<char>, Seq<char>> {
        entries_map(self.entries@)
    }
}

impl Bindings {
    #[verifier::type_invariant]
    closed spec fn wf(self) -> bool {
        distinct_keys(self.entries@)
    }

    /// The names in the order they were first bound.
    pub closed spec fn keys(self) -> Seq<Seq<char>> {
        self.entries@.map_values(|e: (String, String)| e.0@)
    }

    pub fn new() -> (r: Bindings)
        ensures
            r@ == Map::<Seq<char>, Seq<char>>::empty(),
            r.keys() == Seq::<Seq<char>>::empty(),
    {
        let r = Bindings { entries: Vec::new() };
        assert(r.keys() =~= Seq::<Seq<char>>::empty());
        r
    }

    /// A copy with the same bindings in the same order.
    pub fn duplicate(&self) -> (r: Bindings)
        ensures
            r@ == self@,
            r.keys() == self.keys(),
    {
        proof {
            use_type_invariant(self);
        }
        let mut entries: Vec<(String, String)> = Vec::new();
        let mut i: usize = 0;
        while i < self.entries.len()
            invariant
                i <= self.entries@.len(),
                entries@.len() == i,
                distinct_keys(self.entries@),
                forall|j: int| 0 <= j < i ==> (#[trigger] entries@[j]).0@ == self.entries@[j].0@
                    && entries@[j].1@ == self.entries@[j].1@,
            decreases self.entries.len() - i,
        {
            let k = self.entries[i].0.clone();
            let v = self.entries[i].1.clone();
            entries.push((k, v));
            i = i + 1;
        }
        proof {
            let a = entries@;
            let b = self.entries@;
            assert(distinct_keys(a)) by {
                assert forall|x: int, y: int| 0 <= x < a.len() && 0 <= y < a.len() && x != y implies #[trigger] a[x].0@ != #[trigger] a[y].0@ by {
                    assert(a[x].0@ == b[x].0@ && a[y].0@ == b[y].0@);
                }
            }
            lemma_entries_map(a);
            lemma_entries_map(b);
            assert(entries_map(a) =~= entries_map(b)) by {
                assert forall|k: Seq<char>| #[trigger] entries_map(a).contains_key(k) <==> entries_map(b).contains_key(k) by {
                    if entries_map(a).contains_key(k) {
                        let j = choose|j: int| 0 <= j < a.len() && a[j].0@ == k;
                        assert(b[j].0@ == k);
                    }
                    if entries_map(b).contains_key(k) {
                        let j = choose|j: int| 0 <= j < b.len() && b[j].0@ == k;
                        assert(a[j].0@ == k);
                    }
                }
                assert forall|k: Seq<char>| #[trigger] entries_map(a).contains_key(k) implies entries_map(a)[k] == entries_map(b)[k] by {
                    let j = choose|j: int| 0 <= j < a.len() && a[j].0@ == k;
                    assert(b[j].0@ == k);
                }
            }
            assert(a.map_values(|e: (String, String)| e.0@) =~= b.map_values(|e: (String, String)| e.0@));
        }
        Bindings { entries }
    }

    /// The number of bindings; the names are exactly the keys of the map,
    /// each once.
    pub fn len(&self) -> (r: usize)
        ensures
            r == self.keys().len(),
            forall|k: Seq<char>| self@.contains_key(k) <==> self.keys().contains(k),
            self.keys().no_duplicates(),
            self@.dom().finite(),
    {
        proof {
            use_type_invariant(self);
            lemma_entries_map(self.entries@);
            assert forall|k: Seq<char>| self@.contains_key(k) <==> self.keys().contains(k) by {
                if self@.contains_key(k) {
                    let i = choose|i: int| 0 <= i < self.entries@.len() && self.entries@[i].0@ == k;
                    assert(self.keys()[i] == k);
                }
                if self.keys().contains(k) {
                    let i = choose|i: int| 0 <= i < self.keys().len() && self.keys()[i] == k;
                    assert(self.entries@[i].0@ == k);
                }
            }
        }
        self.entries.len()
    }

    /// The name bound `i`-th.
    pub fn key_at(&self, i: usize) -> (r: String)
        requires
            i < self.keys().len(),
        ensures
            r@ == self.keys()[i as int],
            self@.contains_key(r@),
    {
        proof {
            use_type_invariant(self);
            lemma_entries_map(self.entries@);
        }
        self.entries[i].0.clone()
    }

    /// The text bound to the `i`-th name.
    pub fn value_at(&self, i: usize) -> (r: String)
        requires
            i < self.keys().len(),
        ensures
            r@ == self@[self.keys()[i as int]],
    {
        proof {
            use_type_invariant(self);
            lemma_entries_map(self.entries@);
        }
        self.entries[i].1.clone()
    }

    /// The position of `key` among the entries.
    fn position(&self, key: &[char]) -> (r: Option<usize>)
        ensures
            r matches Some(i) ==> i < self.entries@.len() && self.entries@[i as int].0@ == key@,
            r is None ==> !self@.contains_key(key@),
    {
        proof {
            use_type_invariant(self);
            lemma_entries_map(self.entries@);
        }
        let mut i: usize = 0;
        while i < self.entries.len()
            invariant
                i <= self.entries@.len(),
                forall|j: int| 0 <= j < i ==> self.entries@[j].0@ != key@,
            decreases self.entries.len() - i,
        {
            if chars_eq(&text_of(&self.entries[i].0), key) {
                return Some(i);
            }
            i = i + 1;
        }
        None
    }

    /// The text bound to `key`.
    pub fn get(&self, key: &[char]) -> (r: Option<String>)
        ensures
            r matches Some(v) ==> self@.contains_key(key@) && v@ == self@[key@],
            r is None ==> !self@.contains_key(key@),
    {
        proof {
            use_type_invariant(self);
            lemma_entries_map(self.entries@);
        }
        match self.position(key) {
            Some(i) => Some(self.entries[i].1.clone()),
            None => None,
        }
    }

    pub fn contains_key(&self, key: &[char]) -> (r: bool)
        ensures
            r == self@.contains_key(key@),
    {
        proof {
            use_type_invariant(self);
            lemma_entries_map(self.entries@);
        }
        self.position(key).is_some()
    }

    /// Binds `key` to `value`, replacing an earlier binding of `key`.
    pub fn insert(&mut self, key: String, value: String)
        ensures
            final(self)@ == old(self)@.insert(key@, value@),
            old(self)@.contains_key(key@) ==> final(self).keys() == old(self).keys(),
            !old(self)@.contains_key(key@) ==> final(self).keys() == old(self).keys().push(key@),
    {
        proof {
            use_type_invariant(&*self);
            lemma_entries_map(self.entries@);
        }
        let k = text_of(&key);
        match self.position(&k) {
            Some(i) => {
                let ghost old_entries = self.entries@;
                let mut entries: Vec<(String, String)> = Vec::new();
                std::mem::swap(&mut entries, &mut self.entries);
                entries.set(i, (key, value));
                let ghost e = entries@;
                assert(distinct_keys(e)) by {
                    assert forall|a: int, b: int| 0 <= a < e.len() && 0 <= b < e.len() && a != b implies #[trigger] e[a].0@ != #[trigger] e[b].0@ by {
                        if a != i && b != i {
                            assert(e[a] == old_entries[a] && e[b] == old_entries[b]);
                        } else if a == i {
                            assert(e[b] == old_entries[b]);
                        } else {
                            assert(e[a] == old_entries[a]);
                        }
                    }
                }
                proof {
                    lemma_entries_map(e);
                    lemma_entries_map(old_entries);
                    assert(entries_map(e) =~= entries_map(old_entries).insert(key@, value@)) by {
                        assert forall|q: Seq<char>| #[trigger] entries_map(e).contains_key(q) <==> entries_map(old_entries).insert(key@, value@).contains_key(q) by {
                            if entries_map(e).contains_key(q) {
                                let j = choose|j: int| 0 <= j < e.len() && e[j].0@ == q;
                                if j != i {
                                    assert(old_entries[j] == e[j]);
                                }
                            }
                            if entries_map(old_entries).contains_key(q) {
                                let j = choose|j: int| 0 <= j < old_entries.len() && old_entries[j].0@ == q;
                                if j != i {
                                    assert(old_entries[j] == e[j]);
                                } else {
                                    assert(e[j].0@ == q);
                                }
                            }
                        }
                        assert forall|q: Seq<char>| #[trigger] entries_map(e).contains_key(q) implies entries_map(e)[q] == entries_map(old_entries).insert(key@, value@)[q] by {
                            let j = choose|j: int| 0 <= j < e.len() && e[j].0@ == q;
                            if j != i {
                                assert(old_entries[j] == e[j]);
                            }
                        }
                    }
                    assert(e.map_values(|x: (String, String)| x.0@) =~= old_entries.map_values(|x: (String, String)| x.0@));
                }
                self.entries = entries;
            },
            None => {
                let ghost old_entries = self.entries@;
                let mut entries: Vec<(String, String)> = Vec::new();
                std::mem::swap(&mut entries, &mut self.entries);
                entries.push((key, value));
                let ghost e = entries@;
                assert(distinct_keys(e)) by {
                    assert forall|a: int, b: int| 0 <= a < e.len() && 0 <= b < e.len() && a != b implies #[trigger] e[a].0@ != #[trigger] e[b].0@ by {
                        if a < old_entries.len() && b < old_entries.len() {
                            assert(e[a] == old_entries[a] && e[b] == old_entries[b]);
                        } else if a < old_entries.len() {
                            assert(e[a] == old_entries[a]);
                        } else {
                            assert(e[b] == old_entries[b]);
                        }
                    }
                }
                assert(e.drop_last() =~= old_entries);
                assert(e.map_values(|x: (String, String)| x.0@) =~= old_entries.map_values(|x: (String, String)| x.0@).push(key@));
                self.entries = entries;
            },
        }
    }

    /// Binds `key` to `value` unless `key` is bound already.
    pub fn insert_if_absent(&mut self, key: String, value: String)
        ensures
            old(self)@.contains_key(key@) ==> final(self)@ == old(self)@,
            !old(self)@.contains_key(key@) ==> final(self)@ == old(self)@.insert(key@, value@),
    {
        if !self.contains_key(&text_of(&key)) {
            self.insert(key, value);
        }
    }
}

} // verus!
