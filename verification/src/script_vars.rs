//! The variables a script reads and writes: a store of names and values in
//! which each name appears once, seen as a map.

use vstd::prelude::*;
use crate::text::str_eq;
use crate::history::clone_pairs;

verus! {

/// The pairs as text.
pub open spec fn pair_texts(s: Seq<(String, String)>) -> Seq<(Seq<char>, Seq<char>)> {
    s.map_values(|p: (String, String)| (p.0@, p.1@))
}

/// No name appears twice.
pub open spec fn names_distinct<V>(s: Seq<(Seq<char>, V)>) -> bool {
    forall|i: int, j: int| 0 <= i < j < s.len() ==> #[trigger] s[i].0 != #[trigger] s[j].0
}

/// The map of a list of named values, a later pair winning over an earlier one.
pub open spec fn map_of<V>(s: Seq<(Seq<char>, V)>) -> Map<Seq<char>, V>
    decreases s.len(),
{
    if s.len() == 0 {
        Map::empty()
    } else {
        map_of(s.drop_last()).insert(s.last().0, s.last().1)
    }
}

pub(crate) proof fn lemma_map_of_dom<V>(s: Seq<(Seq<char>, V)>, k: Seq<char>)
    ensures
        map_of(s).dom().contains(k) <==> exists|i: int| 0 <= i < s.len() && #[trigger] s[i].0 == k,
    decreases s.len(),
{
    if s.len() > 0 {
        lemma_map_of_dom(s.drop_last(), k);
        if map_of(s).dom().contains(k) && s.last().0 != k {
            let i = choose|i: int| 0 <= i < s.drop_last().len() && #[trigger] s.drop_last()[i].0 == k;
            assert(s[i].0 == k);
        }
        if exists|i: int| 0 <= i < s.len() && #[trigger] s[i].0 == k {
            let i = choose|i: int| 0 <= i < s.len() && #[trigger] s[i].0 == k;
            if i < s.len() - 1 {
                assert(s.drop_last()[i].0 == k);
            }
        }
    }
}

pub(crate) proof fn lemma_map_of_at<V>(s: Seq<(Seq<char>, V)>, i: int)
    requires
        names_distinct(s),
        0 <= i < s.len(),
    ensures
        map_of(s).dom().contains(s[i].0),
        map_of(s)[s[i].0] == s[i].1,
    decreases s.len(),
{
    if i < s.len() - 1 {
        assert(s.drop_last()[i] == s[i]);
        assert(s[i].0 != s[s.len() - 1].0);
        lemma_map_of_at(s.drop_last(), i);
    }
}

pub(crate) proof fn lemma_distinct_prefix<V>(s: Seq<(Seq<char>, V)>)
    requires
        names_distinct(s),
        s.len() > 0,
    ensures
        names_distinct(s.drop_last()),
{
    assert forall|i: int, j: int| 0 <= i < j < s.drop_last().len() implies #[trigger] s.drop_last()[i].0
        != #[trigger] s.drop_last()[j].0 by {
        assert(s.drop_last()[i] == s[i] && s.drop_last()[j] == s[j]);
    }
}

/// Replacing the value of the pair at `i` keeps the names and sets that
/// name's value.
pub(crate) proof fn lemma_map_of_update<V>(s: Seq<(Seq<char>, V)>, i: int, v: V)
    requires
        names_distinct(s),
        0 <= i < s.len(),
    ensures
        map_of(s.update(i, (s[i].0, v))) == map_of(s).insert(s[i].0, v),
    decreases s.len(),
{
    let t = s.update(i, (s[i].0, v));
    if i == s.len() - 1 {
        assert(t.drop_last() =~= s.drop_last());
        lemma_map_of_dom(s.drop_last(), s[i].0);
        assert(map_of(s.drop_last()).insert(s[i].0, s[i].1).insert(s[i].0, v) =~= map_of(s.drop_last()).insert(s[i].0, v));
    } else {
        lemma_distinct_prefix(s);
        lemma_map_of_update(s.drop_last(), i, v);
        assert(t.drop_last() =~= s.drop_last().update(i, (s[i].0, v)));
        assert(s[i].0 != s.last().0);
        assert(map_of(s.drop_last()).insert(s[i].0, v).insert(s.last().0, s.last().1) =~= map_of(s.drop_last()).insert(
            s.last().0,
            s.last().1,
        ).insert(s[i].0, v));
    }
}

/// Dropping the pair at `i` drops its name from the map.
pub(crate) proof fn lemma_map_of_remove<V>(s: Seq<(Seq<char>, V)>, i: int)
    requires
        names_distinct(s),
        0 <= i < s.len(),
    ensures
        map_of(s.remove(i)) == map_of(s).remove(s[i].0),
        names_distinct(s.remove(i)),
    decreases s.len(),
{
    let t = s.remove(i);
    assert forall|a: int, b: int| 0 <= a < b < t.len() implies #[trigger] t[a].0 != #[trigger] t[b].0 by {
        let a2 = if a < i { a } else { a + 1 };
        let b2 = if b < i { b } else { b + 1 };
        assert(t[a] == s[a2] && t[b] == s[b2]);
    }
    if i == s.len() - 1 {
        assert(t =~= s.drop_last());
        lemma_distinct_prefix(s);
        assert forall|k: Seq<char>| #![auto] map_of(s.drop_last()).dom().contains(k) implies k != s[i].0 by {
            lemma_map_of_dom(s.drop_last(), k);
            if k == s[i].0 {
                let j = choose|j: int| 0 <= j < s.drop_last().len() && #[trigger] s.drop_last()[j].0 == k;
                assert(s[j].0 == s[i].0);
            }
        }
        assert(map_of(s.drop_last()) =~= map_of(s.drop_last()).insert(s[i].0, s[i].1).remove(s[i].0));
    } else {
        lemma_distinct_prefix(s);
        lemma_map_of_remove(s.drop_last(), i);
        assert(t.drop_last() =~= s.drop_last().remove(i));
        assert(t.last() == s.last());
        assert(s[i].0 != s.last().0);
        assert(map_of(s.drop_last()).remove(s[i].0).insert(s.last().0, s.last().1) =~= map_of(s.drop_last()).insert(
            s.last().0,
            s.last().1,
        ).remove(s[i].0));
    }
}

/// A store of variables: each name once, with its value.
pub struct VarStore {
    entries: Vec<(String, String)>,
}

impl View for VarStore {
    type V = Map<Seq<char>, Seq<char>>;

    closed spec fn view(&self) -> Map<Seq<char>, Seq<char>> {
        map_of(pair_texts(self.entries@))
    }
}

impl VarStore {
    #[verifier::type_invariant]
    closed spec fn names_once(&self) -> bool {
        names_distinct(pair_texts(self.entries@))
    }

    /// The position of the pair named `key`, if any.
    fn position(&self, key: &str) -> (r: Option<usize>)
        ensures
            match r {
                Some(i) => i < self.entries@.len() && self.entries@[i as int].0@ == key@,
                None => forall|i: int| 0 <= i < self.entries@.len() ==> #[trigger] self.entries@[i].0@ != key@,
            },
    {
        let mut i: usize = 0;
        while i < self.entries.len()
            invariant
                i <= self.entries@.len(),
                forall|j: int| 0 <= j < i ==> #[trigger] self.entries@[j].0@ != key@,
            decreases self.entries@.len() - i,
        {
            if str_eq(self.entries[i].0.as_str(), key) {
                return Some(i);
            }
            i = i + 1;
        }
        None
    }

    /// An empty store.
    pub fn new() -> (r: Self)
        ensures
            r@ == Map::<Seq<char>, Seq<char>>::empty(),
    {
        let r = VarStore { entries: Vec::new() };
        assert(pair_texts(r.entries@) =~= Seq::<(Seq<char>, Seq<char>)>::empty());
        r
    }

    /// The value of `key`, if the store has it.
    pub fn get(&self, key: &str) -> (r: Option<String>)
        ensures
            match r {
                Some(v) => self@.dom().contains(key@) && self@[key@] == v@,
                None => !self@.dom().contains(key@),
            },
    {
        proof {
            use_type_invariant(self);
        }
        let ghost s = pair_texts(self.entries@);
        match self.position(key) {
            Some(i) => {
                proof {
                    lemma_map_of_at(s, i as int);
                }
                Some(self.entries[i].1.clone())
            },
            None => {
                proof {
                    lemma_map_of_dom(s, key@);
                    if self@.dom().contains(key@) {
                        let j = choose|j: int| 0 <= j < s.len() && #[trigger] s[j].0 == key@;
                        assert(self.entries@[j].0@ == key@);
                    }
                }
                None
            },
        }
    }

    /// Sets `key` to `value`, adding the name when it is new.
    pub fn set(&mut self, key: String, value: String)
        ensures
            final(self)@ == old(self)@.insert(key@, value@),
    {
        proof {
            use_type_invariant(&*self);
        }
        let ghost s = pair_texts(self.entries@);
        let mut entries = clone_pairs(&self.entries);
        assert(entries@ == self.entries@) by {
            assert(entries@ =~= self.entries@);
        }
        match self.position(key.as_str()) {
            Some(i) => {
                entries.set(i, (key, value));
                proof {
                    lemma_map_of_update(s, i as int, value@);
                    assert(pair_texts(entries@) =~= s.update(i as int, (s[i as int].0, value@)));
                }
            },
            None => {
                entries.push((key, value));
                proof {
                    let t = pair_texts(entries@);
                    assert(t =~= s.push((key@, value@)));
                    assert(t.drop_last() =~= s);
                    assert forall|a: int, b: int| 0 <= a < b < t.len() implies #[trigger] t[a].0 != #[trigger] t[b].0 by {
                        if b == t.len() - 1 {
                            assert(self.entries@[a].0@ != key@);
                        } else {
                            assert(t[a] == s[a] && t[b] == s[b]);
                        }
                    }
                }
            },
        }
        self.entries = entries;
    }

    /// Forgets `key`.
    pub fn remove(&mut self, key: &str)
        ensures
            final(self)@ == old(self)@.remove(key@),
    {
        proof {
            use_type_invariant(&*self);
        }
        let ghost s = pair_texts(self.entries@);
        match self.position(key) {
            Some(i) => {
                let mut entries = clone_pairs(&self.entries);
                assert(entries@ =~= self.entries@);
                entries.remove(i);
                proof {
                    lemma_map_of_remove(s, i as int);
                    assert(pair_texts(entries@) =~= s.remove(i as int));
                }
                self.entries = entries;
            },
            None => {
                proof {
                    lemma_map_of_dom(s, key@);
                    if self@.dom().contains(key@) {
                        let j = choose|j: int| 0 <= j < s.len() && #[trigger] s[j].0 == key@;
                        assert(self.entries@[j].0@ == key@);
                    }
                    assert(self@.remove(key@) =~= self@);
                }
            },
        }
    }

    /// A store of the pairs, set one after the other (a later pair wins).
    pub fn from_pairs(pairs: &Vec<(String, String)>) -> (r: Self)
        ensures
            r@ == map_of(pair_texts(pairs@)),
    {
        let mut r = VarStore::new();
        for i in 0..pairs.len()
            invariant
                r@ == map_of(pair_texts(pairs@.take(i as int))),
        {
            r.set(pairs[i].0.clone(), pairs[i].1.clone());
            assert(pair_texts(pairs@.take(i + 1)).drop_last() =~= pair_texts(pairs@.take(i as int)));
            assert(pair_texts(pairs@.take(i + 1)).last() == (pairs@[i as int].0@, pairs@[i as int].1@));
        }
        assert(pairs@.take(pairs@.len() as int) =~= pairs@);
        r
    }

    /// The pairs of the store, each name once, in the order the names came.
    pub fn pairs(&self) -> (r: Vec<(String, String)>)
        ensures
            map_of(pair_texts(r@)) == self@,
            names_distinct(pair_texts(r@)),
    {
        proof {
            use_type_invariant(self);
        }
        let r = clone_pairs(&self.entries);
        assert(r@ =~= self.entries@);
        r
    }
}

impl Clone for VarStore {
    fn clone(&self) -> (r: Self)
        ensures
            r@ == self@,
    {
        proof {
            use_type_invariant(self);
        }
        let entries = clone_pairs(&self.entries);
        assert(entries@ =~= self.entries@);
        VarStore { entries }
    }
}

} // verus!
