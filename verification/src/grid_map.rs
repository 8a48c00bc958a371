//! A small mapping from room-grid coordinates to values, backed by a vector
//! of entries with pairwise-distinct keys and viewed as a mathematical map.

use vstd::prelude::*;

verus! {

/// A mapping from a room-grid coordinate to a value.
pub struct GridMap<V> {
    entries: Vec<((i32, i32), V)>,
}

/// The mathematical key a stored coordinate stands for.
pub open spec fn key_of(c: (i32, i32)) -> (int, int) {
    (c.0 as int, c.1 as int)
}

/// The map an entry sequence denotes, later entries winning.
pub open spec fn map_of<V>(s: Seq<((i32, i32), V)>) -> Map<(int, int), V>
    decreases s.len(),
{
    if s.len() == 0 {
        Map::empty()
    } else {
        map_of(s.drop_last()).insert(key_of(s.last().0), s.last().1)
    }
}

proof fn lemma_map_of_contains<V>(s: Seq<((i32, i32), V)>, k: (int, int))
    ensures
        map_of(s).contains_key(k) <==> exists|i: int| 0 <= i < s.len() && key_of(#[trigger] s[i].0) == k,
    decreases s.len(),
{
    if s.len() > 0 {
        lemma_map_of_contains(s.drop_last(), k);
        if map_of(s).contains_key(k) {
            if key_of(s.last().0) == k {
                assert(key_of(s[s.len() - 1].0) == k);
            } else {
                let i = choose|i: int| 0 <= i < s.drop_last().len() && key_of(#[trigger] s.drop_last()[i].0) == k;
                assert(key_of(s[i].0) == k);
            }
        }
        if exists|i: int| 0 <= i < s.len() && key_of(#[trigger] s[i].0) == k {
            let i = choose|i: int| 0 <= i < s.len() && key_of(#[trigger] s[i].0) == k;
            if i < s.len() - 1 {
                assert(key_of(s.drop_last()[i].0) == k);
            }
        }
    }
}

proof fn lemma_map_of_get<V>(s: Seq<((i32, i32), V)>, i: int)
    requires
        0 <= i < s.len(),
        forall|a: int, b: int|
            0 <= a < b < s.len() ==> key_of(#[trigger] s[a].0) != key_of(#[trigger] s[b].0),
    ensures
        map_of(s).contains_key(key_of(s[i].0)),
        map_of(s)[key_of(s[i].0)] == s[i].1,
    decreases s.len(),
{
    lemma_map_of_contains(s, key_of(s[i].0));
    if i < s.len() - 1 {
        assert(key_of(s[i].0) != key_of(s[s.len() - 1].0));
        assert(s.drop_last()[i] == s[i]);
        lemma_map_of_get(s.drop_last(), i);
    }
}

impl<V> GridMap<V> {
    /// The entry sequence behind the map.
    pub closed spec fn entries_seq(self) -> Seq<((i32, i32), V)> {
        self.entries@
    }

    /// Keys are pairwise distinct.
    pub closed spec fn wf(self) -> bool {
        forall|a: int, b: int|
            0 <= a < b < self.entries@.len() ==> key_of(#[trigger] self.entries@[a].0) != key_of(
                #[trigger] self.entries@[b].0,
            )
    }

    /// The mapping as a mathematical map.
    pub closed spec fn view(self) -> Map<(int, int), V> {
        map_of(self.entries@)
    }

    /// An empty mapping.
    pub fn new() -> (r: GridMap<V>)
        ensures
            r.wf(),
            r@ == Map::<(int, int), V>::empty(),
    {
        GridMap { entries: Vec::new() }
    }

    /// How many coordinates are mapped.
    pub fn len(&self) -> (n: usize)
        requires
            self.wf(),
        ensures
            n == self@.dom().len(),
    {
        proof {
            Self::lemma_len(self.entries@);
        }
        self.entries.len()
    }

    proof fn lemma_len(s: Seq<((i32, i32), V)>)
        requires
            forall|a: int, b: int|
                0 <= a < b < s.len() ==> key_of(#[trigger] s[a].0) != key_of(#[trigger] s[b].0),
        ensures
            map_of(s).dom().finite(),
            map_of(s).dom().len() == s.len(),
        decreases s.len(),
    {
        if s.len() > 0 {
            Self::lemma_len(s.drop_last());
            lemma_map_of_contains(s.drop_last(), key_of(s.last().0));
        }
    }

    /// Whether nothing is mapped yet.
    pub fn is_empty(&self) -> (r: bool)
        requires
            self.wf(),
        ensures
            r == (self@ == Map::<(int, int), V>::empty()),
    {
        proof {
            Self::lemma_len(self.entries@);
            if self.entries@.len() == 0 {
                assert(self@ =~= Map::<(int, int), V>::empty());
            } else {
                lemma_map_of_get(self.entries@, 0);
                assert(self@.dom().contains(key_of(self.entries@[0].0)));
            }
        }
        self.entries.len() == 0
    }

    /// Whether a coordinate is mapped.
    pub fn contains_key(&self, c: (i32, i32)) -> (r: bool)
        requires
            self.wf(),
        ensures
            r == self@.contains_key(key_of(c)),
    {
        self.get(c).is_some()
    }

    /// The value a coordinate is mapped to, if any.
    pub fn get(&self, c: (i32, i32)) -> (r: Option<&V>)
        requires
            self.wf(),
        ensures
            match r {
                Some(v) => self@.contains_key(key_of(c)) && *v == self@[key_of(c)],
                None => !self@.contains_key(key_of(c)),
            },
    {
        proof {
            lemma_map_of_contains(self.entries@, key_of(c));
        }
        let n = self.entries.len();
        let mut i: usize = 0;
        while i < n
            invariant
                n == self.entries@.len(),
                0 <= i <= n,
                self.wf(),
                forall|j: int| 0 <= j < i ==> key_of(#[trigger] self.entries@[j].0) != key_of(c),
            decreases n - i,
        {
            let e = &self.entries[i];
            if e.0.0 == c.0 && e.0.1 == c.1 {
                proof {
                    lemma_map_of_get(self.entries@, i as int);
                }
                return Some(&e.1);
            }
            i += 1;
        }
        proof {
            lemma_map_of_contains(self.entries@, key_of(c));
        }
        None
    }

    /// Map a coordinate to a value, replacing what was there.
    pub fn insert(&mut self, c: (i32, i32), v: V)
        requires
            old(self).wf(),
        ensures
            final(self).wf(),
            final(self)@ == old(self)@.insert(key_of(c), v),
    {
        let n = self.entries.len();
        let mut i: usize = 0;
        while i < n
            invariant
                n == self.entries@.len(),
                0 <= i <= n,
                self.wf(),
                self == old(self),
                forall|j: int| 0 <= j < i ==> key_of(#[trigger] self.entries@[j].0) != key_of(c),
            decreases n - i,
        {
            let same = {
                let e = &self.entries[i];
                e.0.0 == c.0 && e.0.1 == c.1
            };
            if same {
                self.entries.set(i, (c, v));
                proof {
                    Self::lemma_update(old(self).entries@, i as int, c, v);
                }
                return ;
            }
            i += 1;
        }
        self.entries.push((c, v));
        proof {
            assert(self.entries@.drop_last() =~= old(self).entries@);
        }
    }

    proof fn lemma_update(s: Seq<((i32, i32), V)>, i: int, c: (i32, i32), v: V)
        requires
            0 <= i < s.len(),
            key_of(s[i].0) == key_of(c),
            forall|a: int, b: int|
                0 <= a < b < s.len() ==> key_of(#[trigger] s[a].0) != key_of(#[trigger] s[b].0),
        ensures
            map_of(s.update(i, (c, v))) == map_of(s).insert(key_of(c), v),
        decreases s.len(),
    {
        let t = s.update(i, (c, v));
        if i == s.len() - 1 {
            assert(t.drop_last() =~= s.drop_last());
            assert(map_of(t) =~= map_of(s).insert(key_of(c), v));
        } else {
            assert(t.drop_last() =~= s.drop_last().update(i, (c, v)));
            Self::lemma_update(s.drop_last(), i, c, v);
            assert(key_of(s[i].0) != key_of(s[s.len() - 1].0));
            assert(map_of(t) =~= map_of(s).insert(key_of(c), v));
        }
    }

    /// Forget every mapping.
    pub fn clear(&mut self)
        ensures
            final(self).wf(),
            final(self)@ == Map::<(int, int), V>::empty(),
    {
        self.entries = Vec::new();
    }
}

} // verus!
