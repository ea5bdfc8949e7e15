//! A map from grid coordinates to values, kept as a vector of entries with
//! pairwise distinct keys. Entries are visited in insertion order.
use vstd::prelude::*;

verus! {

/// A grid coordinate `(x, y)`.
pub type Coord = (i32, i32);

/// The keys of `s` are pairwise distinct.
pub open spec fn keys_unique<V>(s: Seq<(Coord, V)>) -> bool {
    forall|i: int, j: int|
        0 <= i < s.len() && 0 <= j < s.len() && i != j ==> (#[trigger] s[i]).0 != (#[trigger] s[j]).0
}

/// The map that a sequence of entries stands for: a later entry wins.
pub open spec fn entries_map<V>(s: Seq<(Coord, V)>) -> Map<Coord, V>
    decreases s.len(),
{
    if s.len() == 0 {
        Map::empty()
    } else {
        entries_map(s.drop_last()).insert(s.last().0, s.last().1)
    }
}

/// Every key of the map is the key of some entry, and the other way round.
pub proof fn lemma_entries_map_domain<V>(s: Seq<(Coord, V)>, c: Coord)
    ensures
        entries_map(s).contains_key(c) <==> exists|i: int| 0 <= i < s.len() && (#[trigger] s[i]).0 == c,
    decreases s.len(),
{
    if s.len() > 0 {
        lemma_entries_map_domain(s.drop_last(), c);
        if entries_map(s).contains_key(c) && c != s.last().0 {
            let i = choose|i: int| 0 <= i < s.drop_last().len() && (#[trigger] s.drop_last()[i]).0 == c;
            assert(s[i] == s.drop_last()[i]);
        }
        if exists|i: int| 0 <= i < s.len() && (#[trigger] s[i]).0 == c {
            let i = choose|i: int| 0 <= i < s.len() && (#[trigger] s[i]).0 == c;
            if i < s.len() - 1 {
                assert(s.drop_last()[i] == s[i]);
            }
        }
    }
}

/// With distinct keys, each entry is what the map holds at its key.
pub proof fn lemma_entries_map_index<V>(s: Seq<(Coord, V)>, i: int)
    requires
        keys_unique(s),
        0 <= i < s.len(),
    ensures
        entries_map(s).contains_key(s[i].0),
        entries_map(s)[s[i].0] == s[i].1,
    decreases s.len(),
{
    if i < s.len() - 1 {
        assert(s.drop_last()[i] == s[i]);
        assert(keys_unique(s.drop_last())) by {
            assert forall|a: int, b: int|
                0 <= a < s.drop_last().len() && 0 <= b < s.drop_last().len() && a != b implies
                (#[trigger] s.drop_last()[a]).0 != (#[trigger] s.drop_last()[b]).0 by {
                assert(s.drop_last()[a] == s[a]);
                assert(s.drop_last()[b] == s[b]);
            }
        }
        lemma_entries_map_index(s.drop_last(), i);
        assert(s[i].0 != s[s.len() - 1].0);
    }
}

/// Replacing the value of one entry replaces the map's value at its key.
pub proof fn lemma_entries_map_update<V>(s: Seq<(Coord, V)>, i: int, v: V)
    requires
        keys_unique(s),
        0 <= i < s.len(),
    ensures
        keys_unique(s.update(i, (s[i].0, v))),
        entries_map(s.update(i, (s[i].0, v))) == entries_map(s).insert(s[i].0, v),
    decreases s.len(),
{
    let t = s.update(i, (s[i].0, v));
    assert(keys_unique(t)) by {
        assert forall|a: int, b: int| 0 <= a < t.len() && 0 <= b < t.len() && a != b implies
            (#[trigger] t[a]).0 != (#[trigger] t[b]).0 by {
            assert(s[a].0 == t[a].0);
            assert(s[b].0 == t[b].0);
        }
    }
    if i == s.len() - 1 {
        assert(t.drop_last() =~= s.drop_last());
        assert(entries_map(t) =~= entries_map(s).insert(s[i].0, v));
    } else {
        let sd = s.drop_last();
        assert(keys_unique(sd)) by {
            assert forall|a: int, b: int|
                0 <= a < sd.len() && 0 <= b < sd.len() && a != b implies
                (#[trigger] sd[a]).0 != (#[trigger] sd[b]).0 by {
                assert(sd[a] == s[a]);
                assert(sd[b] == s[b]);
            }
        }
        assert(sd[i] == s[i]);
        lemma_entries_map_update(sd, i, v);
        assert(t.drop_last() =~= sd.update(i, (sd[i].0, v)));
        assert(s[i].0 != s.last().0);
        assert(entries_map(t) =~= entries_map(s).insert(s[i].0, v));
    }
}

/// A map from coordinates to values.
pub struct CoordMap<V> {
    pub entries: Vec<(Coord, V)>,
}

impl<V: Copy> CoordMap<V> {
    /// No two entries share a key.
    pub open spec fn wf(&self) -> bool {
        keys_unique(self.entries@)
    }

    pub open spec fn view(&self) -> Map<Coord, V> {
        entries_map(self.entries@)
    }

    pub fn new() -> (r: Self)
        ensures
            r.wf(),
            r@ == Map::<Coord, V>::empty(),
    {
        CoordMap { entries: Vec::new() }
    }

    /// The position of the entry for `c`, if there is one.
    pub fn index_of(&self, c: Coord) -> (r: Option<usize>)
        requires
            self.wf(),
        ensures
            match r {
                Some(i) => i < self.entries.len() && self.entries@[i as int].0 == c,
                None => !self@.contains_key(c),
            },
    {
        let mut i: usize = 0;
        while i < self.entries.len()
            invariant
                i <= self.entries.len(),
                forall|j: int| 0 <= j < i ==> (#[trigger] self.entries@[j]).0 != c,
            decreases self.entries.len() - i,
        {
            if self.entries[i].0.0 == c.0 && self.entries[i].0.1 == c.1 {
                return Some(i);
            }
            i = i + 1;
        }
        proof {
            lemma_entries_map_domain(self.entries@, c);
        }
        None
    }

    pub fn contains_key(&self, c: Coord) -> (r: bool)
        requires
            self.wf(),
        ensures
            r == self@.contains_key(c),
    {
        match self.index_of(c) {
            Some(i) => {
                proof {
                    lemma_entries_map_index(self.entries@, i as int);
                }
                true
            },
            None => false,
        }
    }

    pub fn get(&self, c: Coord) -> (r: Option<V>)
        requires
            self.wf(),
        ensures
            r == (if self@.contains_key(c) { Some(self@[c]) } else { None::<V> }),
    {
        match self.index_of(c) {
            Some(i) => {
                proof {
                    lemma_entries_map_index(self.entries@, i as int);
                }
                Some(self.entries[i].1)
            },
            None => None,
        }
    }

    /// Sets the value at `c`, adding an entry at the end if `c` had none.
    pub fn insert(&mut self, c: Coord, v: V)
        requires
            old(self).wf(),
        ensures
            final(self).wf(),
            final(self)@ == old(self)@.insert(c, v),
    {
        match self.index_of(c) {
            Some(i) => {
                proof {
                    lemma_entries_map_update(self.entries@, i as int, v);
                }
                self.entries.set(i, (c, v));
            },
            None => {
                proof {
                    lemma_entries_map_domain(self.entries@, c);
                }
                self.entries.push((c, v));
                assert(self.entries@.drop_last() =~= old(self).entries@);
            },
        }
    }

    /// Checks that no two entries share a key.
    pub fn keys_distinct(&self) -> (r: bool)
        ensures
            r == self.wf(),
    {
        let n = self.entries.len();
        let mut i: usize = 0;
        while i < n
            invariant
                n == self.entries@.len(),
                i <= n,
                forall|a: int, b: int| 0 <= a < i && 0 <= b < n && a != b ==>
                    (#[trigger] self.entries@[a]).0 != (#[trigger] self.entries@[b]).0,
            decreases n - i,
        {
            let mut j: usize = 0;
            while j < n
                invariant
                    n == self.entries@.len(),
                    i < n,
                    j <= n,
                    forall|a: int, b: int| 0 <= a < i && 0 <= b < n && a != b ==>
                        (#[trigger] self.entries@[a]).0 != (#[trigger] self.entries@[b]).0,
                    forall|b: int| 0 <= b < j && b != i ==> self.entries@[i as int].0 != (#[trigger] self.entries@[b]).0,
                decreases n - j,
            {
                if j != i && self.entries[i].0.0 == self.entries[j].0.0 && self.entries[i].0.1 == self.entries[j].0.1 {
                    return false;
                }
                j = j + 1;
            }
            i = i + 1;
        }
        true
    }

    pub fn len(&self) -> (r: usize)
        ensures
            r == self.entries.len(),
    {
        self.entries.len()
    }
}


/// Rewriting the values of a sequence of entries, keys kept in place, keeps
/// the keys distinct and the domain, and the map then holds the new value of
/// each entry at its key.
pub proof fn lemma_entries_map_same_keys<V>(s: Seq<(Coord, V)>, t: Seq<(Coord, V)>)
    requires
        keys_unique(s),
        s.len() == t.len(),
        forall|i: int| 0 <= i < s.len() ==> (#[trigger] t[i]).0 == s[i].0,
    ensures
        keys_unique(t),
        forall|c: Coord| entries_map(t).contains_key(c) == entries_map(s).contains_key(c),
        forall|i: int| 0 <= i < s.len() ==> entries_map(t)[#[trigger] s[i].0] == t[i].1,
{
    assert(keys_unique(t)) by {
        assert forall|a: int, b: int| 0 <= a < t.len() && 0 <= b < t.len() && a != b implies
            (#[trigger] t[a]).0 != (#[trigger] t[b]).0 by {
            assert(s[a].0 == t[a].0);
            assert(s[b].0 == t[b].0);
        }
    }
    assert forall|c: Coord| entries_map(t).contains_key(c) == entries_map(s).contains_key(c) by {
        lemma_entries_map_domain(s, c);
        lemma_entries_map_domain(t, c);
        if exists|i: int| 0 <= i < s.len() && (#[trigger] s[i]).0 == c {
            let i = choose|i: int| 0 <= i < s.len() && (#[trigger] s[i]).0 == c;
            assert(t[i].0 == c);
        }
        if exists|i: int| 0 <= i < t.len() && (#[trigger] t[i]).0 == c {
            let i = choose|i: int| 0 <= i < t.len() && (#[trigger] t[i]).0 == c;
            assert(s[i].0 == c);
        }
    }
    assert forall|i: int| 0 <= i < s.len() implies entries_map(t)[#[trigger] s[i].0] == t[i].1 by {
        lemma_entries_map_index(t, i);
    }
}

/// A key of the map is the key of some entry, whose value the map holds.
pub proof fn lemma_entries_map_witness<V>(s: Seq<(Coord, V)>, c: Coord) -> (i: int)
    requires
        keys_unique(s),
        entries_map(s).contains_key(c),
    ensures
        0 <= i < s.len(),
        s[i].0 == c,
        entries_map(s)[c] == s[i].1,
{
    lemma_entries_map_domain(s, c);
    let i = choose|i: int| 0 <= i < s.len() && (#[trigger] s[i]).0 == c;
    lemma_entries_map_index(s, i);
    i
}

} // verus!
