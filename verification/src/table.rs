use vstd::prelude::*;

verus! {

/// An integer grid coordinate, the key of the map-cell and occupant tables.
#[derive(Clone, Copy, PartialEq, Eq, Structural, Debug)]
pub struct Coord {
    pub x: i64,
    pub y: i64,
}

/// Fold a sequence of key-value pairs into a map; a later pair with the same
/// key wins.
pub open spec fn map_of<K, T>(s: Seq<(K, T)>) -> Map<K, T>
    decreases s.len(),
{
    if s.len() == 0 {
        Map::empty()
    } else {
        map_of(s.drop_last()).insert(s.last().0, s.last().1)
    }
}

pub open spec fn distinct_keys<K, T>(s: Seq<(K, T)>) -> bool {
    forall|i: int, j: int| 0 <= i < j < s.len() ==> s[i].0 != s[j].0
}

pub proof fn lemma_map_of_contains<K, T>(s: Seq<(K, T)>, k: K)
    ensures
        map_of(s).contains_key(k) <==> exists|i: int| 0 <= i < s.len() && s[i].0 == k,
    decreases s.len(),
{
    if s.len() > 0 {
        lemma_map_of_contains(s.drop_last(), k);
        if map_of(s).contains_key(k) && s.last().0 != k {
            let i = choose|i: int| 0 <= i < s.drop_last().len() && s.drop_last()[i].0 == k;
            assert(s[i].0 == k);
        }
        if exists|i: int| 0 <= i < s.len() && s[i].0 == k {
            let i = choose|i: int| 0 <= i < s.len() && s[i].0 == k;
            if i < s.len() - 1 {
                assert(s.drop_last()[i].0 == k);
            }
        }
    }
}

pub proof fn lemma_map_of_index<K, T>(s: Seq<(K, T)>, i: int)
    requires
        distinct_keys(s),
        0 <= i < s.len(),
    ensures
        map_of(s).contains_key(s[i].0),
        map_of(s)[s[i].0] == s[i].1,
    decreases s.len(),
{
    if i < s.len() - 1 {
        assert(distinct_keys(s.drop_last()));
        assert(s.drop_last()[i] == s[i]);
        lemma_map_of_index(s.drop_last(), i);
        assert(s.last().0 != s[i].0);
    }
}

pub proof fn lemma_map_of_push<K, T>(s: Seq<(K, T)>, k: K, v: T)
    ensures
        map_of(s.push((k, v))) == map_of(s).insert(k, v),
{
    assert(s.push((k, v)).drop_last() =~= s);
}

pub proof fn lemma_map_of_update<K, T>(s: Seq<(K, T)>, i: int, k: K, v: T)
    requires
        distinct_keys(s),
        0 <= i < s.len(),
        s[i].0 == k,
    ensures
        map_of(s.update(i, (k, v))) == map_of(s).insert(k, v),
    decreases s.len(),
{
    let s2 = s.update(i, (k, v));
    if i == s.len() - 1 {
        assert(s2.drop_last() =~= s.drop_last());
        assert(s2.last() == (k, v));
        assert(map_of(s.drop_last()).insert(k, v) =~= map_of(s.drop_last()).insert(k, s[i].1).insert(
            k,
            v,
        ));
    } else {
        assert(s2.drop_last() =~= s.drop_last().update(i, (k, v)));
        assert(distinct_keys(s.drop_last()));
        assert(s.drop_last()[i] == s[i]);
        lemma_map_of_update(s.drop_last(), i, k, v);
        assert(s2.last() == s.last());
        assert(s.last().0 != k);
        assert(map_of(s.drop_last()).insert(k, v).insert(s.last().0, s.last().1)
            =~= map_of(s.drop_last()).insert(s.last().0, s.last().1).insert(k, v));
    }
}

/// An entity table keyed by an integer identifier: what the model keeps for
/// kingdoms, players and villages. Entries are held in first-insertion order
/// and keys are unique.
pub struct IdTable<T> {
    pairs: Vec<(i64, T)>,
}

impl<T> View for IdTable<T> {
    type V = Map<i64, T>;

    closed spec fn view(&self) -> Map<i64, T> {
        map_of(self.pairs@)
    }
}

impl<T> IdTable<T> {
    /// Keys are unique, so each entry is current.
    pub closed spec fn wf(self) -> bool {
        distinct_keys(self.pairs@)
    }

    pub closed spec fn entries(self) -> Seq<(i64, T)> {
        self.pairs@
    }

    pub fn new() -> (r: Self)
        ensures
            r.wf(),
            r@ == Map::<i64, T>::empty(),
            r.entries() == Seq::<(i64, T)>::empty(),
    {
        IdTable { pairs: Vec::new() }
    }

    pub fn get(&self, k: i64) -> (r: Option<&T>)
        requires
            self.wf(),
        ensures
            match r {
                Some(v) => self@.contains_key(k) && *v == self@[k],
                None => !self@.contains_key(k),
            },
    {
        let n = self.pairs.len();
        for i in 0..n
            invariant
                n == self.pairs.len(),
                self.wf(),
                forall|j: int| 0 <= j < i ==> self.pairs@[j].0 != k,
        {
            if self.pairs[i].0 == k {
                proof {
                    lemma_map_of_index(self.pairs@, i as int);
                }
                return Some(&self.pairs[i].1);
            }
        }
        proof {
            lemma_map_of_contains(self.pairs@, k);
        }
        None
    }

    pub fn contains(&self, k: i64) -> (r: bool)
        requires
            self.wf(),
        ensures
            r == self@.contains_key(k),
    {
        self.get(k).is_some()
    }

    pub fn insert(&mut self, k: i64, v: T)
        requires
            old(self).wf(),
        ensures
            final(self).wf(),
            final(self)@ == old(self)@.insert(k, v),
    {
        let n = self.pairs.len();
        for i in 0..n
            invariant
                n == self.pairs.len(),
                self.pairs@ == old(self).pairs@,
                self.wf(),
                forall|j: int| 0 <= j < i ==> self.pairs@[j].0 != k,
        {
            if self.pairs[i].0 == k {
                proof {
                    lemma_map_of_update(self.pairs@, i as int, k, v);
                }
                self.pairs[i] = (k, v);
                proof {
                    assert(forall|a: int, b: int|
                        0 <= a < b < self.pairs@.len() ==> self.pairs@[a].0 == old(
                            self,
                        ).pairs@[a].0 && self.pairs@[b].0 == old(self).pairs@[b].0);
                }
                return ;
            }
        }
        proof {
            lemma_map_of_push(self.pairs@, k, v);
            lemma_map_of_contains(self.pairs@, k);
        }
        self.pairs.push((k, v));
    }

    /// How many entries the table holds; with unique keys, also the size of
    /// its key set.
    pub fn len(&self) -> (r: usize)
        requires
            self.wf(),
        ensures
            r == self.entries().len(),
            r == self@.dom().len(),
    {
        proof {
            lemma_map_of_dom_len(self.pairs@);
        }
        self.pairs.len()
    }

    pub fn num_entries(&self) -> (r: usize)
        ensures
            r == self.entries().len(),
    {
        self.pairs.len()
    }

    /// Entries and the map view list the same associations.
    pub proof fn lemma_entries_map(self)
        requires
            self.wf(),
        ensures
            forall|i: int|
                0 <= i < self.entries().len() ==> self@.contains_key(
                    #[trigger] self.entries()[i].0,
                ) && self@[self.entries()[i].0] == self.entries()[i].1,
            forall|k: i64|
                #[trigger] self@.contains_key(k) ==> exists|i: int|
                    0 <= i < self.entries().len() && self.entries()[i].0 == k,
    {
        assert forall|i: int| 0 <= i < self.entries().len() implies self@.contains_key(
            #[trigger] self.entries()[i].0,
        ) && self@[self.entries()[i].0] == self.entries()[i].1 by {
            lemma_map_of_index(self.pairs@, i);
        }
        assert forall|k: i64| #[trigger] self@.contains_key(k) implies exists|i: int|
            0 <= i < self.entries().len() && self.entries()[i].0 == k by {
            lemma_map_of_contains(self.pairs@, k);
            let i = choose|i: int| 0 <= i < self.pairs@.len() && self.pairs@[i].0 == k;
            assert(0 <= i < self.entries().len() && self.entries()[i].0 == k);
        }
    }

    pub fn entry_at(&self, i: usize) -> (r: &(i64, T))
        requires
            self.wf(),
            i < self.entries().len(),
        ensures
            *r == self.entries()[i as int],
            self@.contains_key(r.0),
            self@[r.0] == r.1,
    {
        proof {
            lemma_map_of_index(self.pairs@, i as int);
        }
        &self.pairs[i]
    }
}

pub proof fn lemma_map_of_dom_len<K, T>(s: Seq<(K, T)>)
    requires
        distinct_keys(s),
    ensures
        map_of(s).dom().finite(),
        map_of(s).dom().len() == s.len(),
    decreases s.len(),
{
    if s.len() == 0 {
        assert(map_of(s).dom() =~= Set::<K>::empty());
    } else {
        assert(distinct_keys(s.drop_last()));
        lemma_map_of_dom_len(s.drop_last());
        lemma_map_of_contains(s.drop_last(), s.last().0);
        assert(!map_of(s.drop_last()).contains_key(s.last().0));
        assert(map_of(s).dom() =~= map_of(s.drop_last()).dom().insert(s.last().0));
        vstd::set::axiom_set_insert_len(map_of(s.drop_last()).dom(), s.last().0);
    }
}

/// A table keyed by a grid coordinate: what the model keeps for the occupant
/// index and the classified-cell table. A later insertion at an occupied
/// coordinate replaces the earlier entry (last write wins).
pub struct CoordTable<T> {
    pairs: Vec<(Coord, T)>,
}

impl<T> View for CoordTable<T> {
    type V = Map<Coord, T>;

    closed spec fn view(&self) -> Map<Coord, T> {
        map_of(self.pairs@)
    }
}

impl<T> CoordTable<T> {
    pub closed spec fn wf(self) -> bool {
        distinct_keys(self.pairs@)
    }

    pub fn new() -> (r: Self)
        ensures
            r.wf(),
            r@ == Map::<Coord, T>::empty(),
    {
        CoordTable { pairs: Vec::new() }
    }

    pub fn get(&self, k: Coord) -> (r: Option<&T>)
        requires
            self.wf(),
        ensures
            match r {
                Some(v) => self@.contains_key(k) && *v == self@[k],
                None => !self@.contains_key(k),
            },
    {
        let n = self.pairs.len();
        for i in 0..n
            invariant
                n == self.pairs.len(),
                self.wf(),
                forall|j: int| 0 <= j < i ==> self.pairs@[j].0 != k,
        {
            if self.pairs[i].0 == k {
                proof {
                    lemma_map_of_index(self.pairs@, i as int);
                }
                return Some(&self.pairs[i].1);
            }
        }
        proof {
            lemma_map_of_contains(self.pairs@, k);
        }
        None
    }

    pub fn insert(&mut self, k: Coord, v: T)
        requires
            old(self).wf(),
        ensures
            final(self).wf(),
            final(self)@ == old(self)@.insert(k, v),
    {
        let n = self.pairs.len();
        for i in 0..n
            invariant
                n == self.pairs.len(),
                self.pairs@ == old(self).pairs@,
                self.wf(),
                forall|j: int| 0 <= j < i ==> self.pairs@[j].0 != k,
        {
            if self.pairs[i].0 == k {
                proof {
                    lemma_map_of_update(self.pairs@, i as int, k, v);
                }
                self.pairs[i] = (k, v);
                proof {
                    assert(forall|a: int, b: int|
                        0 <= a < b < self.pairs@.len() ==> self.pairs@[a].0 == old(
                            self,
                        ).pairs@[a].0 && self.pairs@[b].0 == old(self).pairs@[b].0);
                }
                return ;
            }
        }
        proof {
            lemma_map_of_push(self.pairs@, k, v);
            lemma_map_of_contains(self.pairs@, k);
        }
        self.pairs.push((k, v));
    }

    pub fn len(&self) -> (r: usize)
        requires
            self.wf(),
        ensures
            r == self@.dom().len(),
    {
        proof {
            lemma_map_of_dom_len(self.pairs@);
        }
        self.pairs.len()
    }
}

} // verus!
