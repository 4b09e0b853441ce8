//! A map from names to values that keeps its entries in insertion order.
use vstd::prelude::*;

verus! {

/// The map that a sequence of `(name, value)` pairs denotes: a later pair
/// for a name replaces an earlier one.
pub open spec fn map_of<V>(s: Seq<(Seq<char>, V)>) -> Map<Seq<char>, V>
    decreases s.len(),
{
    if s.len() == 0 {
        Map::empty()
    } else {
        map_of(s.drop_last()).insert(s.last().0, s.last().1)
    }
}

/// The names of a sequence of pairs, in order.
pub open spec fn names_of<V>(s: Seq<(Seq<char>, V)>) -> Seq<Seq<char>> {
    s.map_values(|p: (Seq<char>, V)| p.0)
}

pub proof fn lemma_map_of_dom<V>(s: Seq<(Seq<char>, V)>)
    ensures
        map_of(s).dom() == names_of(s).to_set(),
    decreases s.len(),
{
    if s.len() > 0 {
        lemma_map_of_dom(s.drop_last());
        assert(names_of(s.drop_last()) == names_of(s).drop_last());
        assert(map_of(s).dom() =~= names_of(s).to_set()) by {
            assert forall|k: Seq<char>| names_of(s).to_set().contains(k)
                <==> map_of(s).dom().contains(k) by {
                if names_of(s).to_set().contains(k) {
                    let i = choose|i: int| 0 <= i < names_of(s).len() && names_of(s)[i] == k;
                    if i < s.len() - 1 {
                        assert(names_of(s.drop_last())[i] == k);
                    }
                }
                if map_of(s).dom().contains(k) && k != s.last().0 {
                    let i = choose|i: int|
                        0 <= i < names_of(s.drop_last()).len() && names_of(s.drop_last())[i] == k;
                    assert(names_of(s)[i] == k);
                }
                if k == s.last().0 {
                    assert(names_of(s)[s.len() - 1] == k);
                }
            }
        }
    }
}

pub proof fn lemma_map_of_index<V>(s: Seq<(Seq<char>, V)>, i: int)
    requires
        0 <= i < s.len(),
        names_of(s).no_duplicates(),
    ensures
        map_of(s).dom().contains(s[i].0),
        map_of(s)[s[i].0] == s[i].1,
    decreases s.len(),
{
    if i < s.len() - 1 {
        let t = s.drop_last();
        assert(names_of(t) == names_of(s).drop_last());
        assert(names_of(s)[i] == s[i].0 && names_of(s)[s.len() - 1] == s.last().0);
        lemma_map_of_index(t, i);
        assert(t[i] == s[i]);
    }
}

/// A name-unique mapping from names to values, iterated in insertion order.
pub struct NameMap<V> {
    entries: Vec<(String, V)>,
}

impl<V> NameMap<V> {
    /// The entries, as (name, value) pairs in insertion order.
    pub closed spec fn pairs(&self) -> Seq<(Seq<char>, V)> {
        self.entries@.map_values(|p: (String, V)| (p.0@, p.1))
    }

    /// The names in insertion order.
    pub open spec fn names(&self) -> Seq<Seq<char>> {
        names_of(self.pairs())
    }

    /// The values in insertion order.
    pub open spec fn values(&self) -> Seq<V> {
        self.pairs().map_values(|p: (Seq<char>, V)| p.1)
    }

    pub open spec fn wf(&self) -> bool {
        self.names().no_duplicates()
    }

    pub open spec fn view(&self) -> Map<Seq<char>, V> {
        map_of(self.pairs())
    }

    pub fn new() -> (r: Self)
        ensures
            r.wf(),
            r.pairs() == Seq::<(Seq<char>, V)>::empty(),
            r.view() == Map::<Seq<char>, V>::empty(),
    {
        let r = NameMap { entries: Vec::new() };
        assert(r.pairs() =~= Seq::<(Seq<char>, V)>::empty());
        r
    }

    pub fn len(&self) -> (r: usize)
        ensures
            r == self.pairs().len(),
    {
        self.entries.len()
    }

    /// The name and the value at position `i` of the insertion order.
    pub fn entry(&self, i: usize) -> (r: (&String, &V))
        requires
            i < self.pairs().len(),
        ensures
            r.0@ == self.pairs()[i as int].0,
            *r.1 == self.pairs()[i as int].1,
    {
        let e = &self.entries[i];
        (&e.0, &e.1)
    }

    /// Position of `name` in the insertion order, if present.
    pub fn position(&self, name: &String) -> (r: Option<usize>)
        requires
            self.wf(),
        ensures
            match r {
                Some(i) => i < self.pairs().len() && self.pairs()[i as int].0 == name@,
                None => !self.view().dom().contains(name@),
            },
            r is Some <==> self.view().dom().contains(name@),
    {
        proof {
            lemma_map_of_dom(self.pairs());
        }
        let mut i: usize = 0;
        while i < self.entries.len()
            invariant
                i <= self.entries.len(),
                self.pairs().len() == self.entries.len(),
                forall|j: int| 0 <= j < i ==> self.pairs()[j].0 != name@,
                self.view().dom() == self.names().to_set(),
            decreases self.entries.len() - i,
        {
            if self.entries[i].0 == *name {
                assert(self.names()[i as int] == name@);
                assert(self.names().contains(name@));
                return Some(i);
            }
            i += 1;
        }
        proof {
            if self.view().dom().contains(name@) {
                let j = choose|j: int| 0 <= j < self.names().len() && self.names()[j] == name@;
                assert(self.pairs()[j].0 == name@);
            }
        }
        None
    }

    pub fn get(&self, name: &String) -> (r: Option<&V>)
        requires
            self.wf(),
        ensures
            r is Some <==> self.view().dom().contains(name@),
            r is Some ==> *r.unwrap() == self.view()[name@],
    {
        match self.position(name) {
            Some(i) => {
                proof {
                    lemma_map_of_index(self.pairs(), i as int);
                }
                Some(&self.entries[i].1)
            },
            None => None,
        }
    }

    pub fn contains_key(&self, name: &String) -> (r: bool)
        requires
            self.wf(),
        ensures
            r == self.view().dom().contains(name@),
    {
        self.position(name).is_some()
    }

    /// The entries in insertion order.
    pub fn into_entries(self) -> (r: Vec<(String, V)>)
        ensures
            r@.map_values(|p: (String, V)| (p.0@, p.1)) == self.pairs(),
    {
        self.entries
    }

    /// Sets the value under `name`: an existing entry keeps its position and
    /// takes the new value, a new name is appended.
    pub fn insert(&mut self, name: String, value: V)
        requires
            old(self).wf(),
        ensures
            final(self).wf(),
            final(self).view() == old(self).view().insert(name@, value),
            old(self).view().dom().contains(name@) ==> final(self).names() == old(self).names(),
            !old(self).view().dom().contains(name@) ==> final(self).pairs() == old(self).pairs().push((name@, value)),
    {
        let ghost old_pairs = self.pairs();
        match self.position(&name) {
            Some(i) => {
                let ghost k = name@;
                self.entries.set(i, (name, value));
                proof {
                    let p = self.pairs();
                    assert(p =~= old_pairs.update(i as int, (k, value)));
                    assert(self.names() =~= names_of(old_pairs));
                    lemma_map_of_dom(old_pairs);
                    lemma_map_of_dom(p);
                    assert forall|x: Seq<char>| #[trigger] map_of(p).dom().contains(x) implies
                        map_of(p)[x] == map_of(old_pairs).insert(k, value)[x] by {
                        let j = choose|j: int| 0 <= j < names_of(p).len() && names_of(p)[j] == x;
                        lemma_map_of_index(p, j);
                        if x == k {
                            assert(names_of(p)[i as int] == k);
                            assert(j == i);
                        } else {
                            assert(p[j] == old_pairs[j]);
                            lemma_map_of_index(old_pairs, j);
                        }
                    }
                    assert(map_of(p) =~= map_of(old_pairs).insert(k, value));
                }
            },
            None => {
                let ghost k = name@;
                self.entries.push((name, value));
                proof {
                    let p = self.pairs();
                    assert(p =~= old_pairs.push((k, value)));
                    assert(p.drop_last() =~= old_pairs);
                    assert(names_of(p) =~= names_of(old_pairs).push(k));
                    lemma_map_of_dom(old_pairs);
                    assert(!names_of(old_pairs).contains(k));
                }
            },
        }
    }
}

} // verus!
