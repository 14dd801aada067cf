use vstd::prelude::*;
use super::text::str_eq;

verus! {

/// The pairs of a list of string pairs, as character sequences.
pub open spec fn pairs_view(v: Seq<(String, String)>) -> Seq<(Seq<char>, Seq<char>)> {
    v.map_values(|p: (String, String)| (p.0@, p.1@))
}

/// The map a list of pairs stands for: each key to the value of its last
/// pair.
pub open spec fn map_of(s: Seq<(Seq<char>, Seq<char>)>) -> Map<Seq<char>, Seq<char>>
    decreases s.len(),
{
    if s.len() == 0 {
        Map::empty()
    } else {
        map_of(s.drop_last()).insert(s.last().0, s.last().1)
    }
}

/// No key occurs twice.
pub open spec fn keys_unique(s: Seq<(Seq<char>, Seq<char>)>) -> bool {
    forall|i: int, j: int| 0 <= i < j < s.len() ==> (#[trigger] s[i]).0 != (#[trigger] s[j]).0
}

/// A key is in the map exactly when some pair has it; with unique keys,
/// its value is that pair's value.
pub proof fn lemma_map_of(s: Seq<(Seq<char>, Seq<char>)>, k: Seq<char>)
    requires
        keys_unique(s),
    ensures
        map_of(s).dom().contains(k) <==> exists|i: int| 0 <= i < s.len() && (#[trigger] s[i]).0 == k,
        forall|i: int| 0 <= i < s.len() && (#[trigger] s[i]).0 == k ==> map_of(s)[k] == s[i].1,
    decreases s.len(),
{
    if s.len() > 0 {
        let p = s.drop_last();
        assert(keys_unique(p)) by {
            assert forall|i: int, j: int| 0 <= i < j < p.len() implies (#[trigger] p[i]).0 != (#[trigger] p[j]).0 by {
                assert(p[i] == s[i] && p[j] == s[j]);
            }
        }
        lemma_map_of(p, k);
        if map_of(p).dom().contains(k) {
            let i = choose|i: int| 0 <= i < p.len() && (#[trigger] p[i]).0 == k;
            assert(s[i] == p[i]);
        }
        assert forall|i: int| 0 <= i < s.len() && (#[trigger] s[i]).0 == k implies map_of(s)[k] == s[i].1 by {
            if i < s.len() - 1 {
                assert(s[i] == p[i]);
                assert(s[i].0 != s[s.len() - 1].0);
            }
        }
        if exists|i: int| 0 <= i < s.len() && (#[trigger] s[i]).0 == k {
            let i = choose|i: int| 0 <= i < s.len() && (#[trigger] s[i]).0 == k;
            if i < s.len() - 1 {
                assert(p[i] == s[i]);
            }
        }
    }
}

/// A map from strings to strings, kept as a list of pairs in insertion
/// order with no key twice.
pub struct StrMap {
    entries: Vec<(String, String)>,
}

impl View for StrMap {
    type V = Map<Seq<char>, Seq<char>>;

    closed spec fn view(&self) -> Map<Seq<char>, Seq<char>> {
        map_of(pairs_view(self.entries@))
    }
}

impl StrMap {
    /// The pairs in insertion order.
    pub closed spec fn pairs(&self) -> Seq<(Seq<char>, Seq<char>)> {
        pairs_view(self.entries@)
    }

    /// No key occurs twice.
    pub closed spec fn wf(&self) -> bool {
        keys_unique(self.pairs())
    }

    /// An empty map.
    pub fn new() -> (r: StrMap)
        ensures
            r.wf(),
            r@ == Map::<Seq<char>, Seq<char>>::empty(),
    {
        let r = StrMap { entries: Vec::new() };
        assert(r.pairs() =~= Seq::<(Seq<char>, Seq<char>)>::empty());
        r
    }

    /// The index of the pair with key `k`, if any.
    fn find(&self, k: &str) -> (r: Option<usize>)
        requires
            self.wf(),
        ensures
            match r {
                Some(i) => i < self.pairs().len() && self.pairs()[i as int].0 == k@,
                None => forall|i: int| 0 <= i < self.pairs().len() ==> (#[trigger] self.pairs()[i]).0 != k@,
            },
    {
        let mut i: usize = 0;
        while i < self.entries.len()
            invariant
                i <= self.entries@.len(),
                self.pairs().len() == self.entries@.len(),
                forall|j: int| 0 <= j < i ==> (#[trigger] self.pairs()[j]).0 != k@,
            decreases self.entries.len() - i,
        {
            if str_eq(self.entries[i].0.as_str(), k) {
                return Some(i);
            }
            i = i + 1;
        }
        None
    }

    /// The value of key `k`, if any.
    pub fn get(&self, k: &str) -> (r: Option<&String>)
        requires
            self.wf(),
        ensures
            match r {
                Some(v) => self@.dom().contains(k@) && v@ == self@[k@],
                None => !self@.dom().contains(k@),
            },
    {
        proof {
            lemma_map_of(self.pairs(), k@);
        }
        match self.find(k) {
            Some(i) => Some(&self.entries[i].1),
            None => None,
        }
    }

    /// Whether key `k` is in the map.
    pub fn contains_key(&self, k: &str) -> (r: bool)
        requires
            self.wf(),
        ensures
            r == self@.dom().contains(k@),
    {
        proof {
            lemma_map_of(self.pairs(), k@);
        }
        self.find(k).is_some()
    }

    /// Sets the value of key `k` (replacing the old value in place, or
    /// adding the pair at the end).
    pub fn insert(&mut self, k: String, v: String)
        requires
            old(self).wf(),
        ensures
            final(self).wf(),
            final(self)@ == old(self)@.insert(k@, v@),
    {
        proof {
            lemma_map_of(self.pairs(), k@);
        }
        match self.find(k.as_str()) {
            Some(i) => {
                let ghost old_pairs = self.pairs();
                let ghost kv = k@;
                let ghost vv = v@;
                self.entries.set(i, (k, v));
                proof {
                    let s = self.pairs();
                    assert(s =~= old_pairs.update(i as int, (kv, vv)));
                    assert(keys_unique(s)) by {
                        assert forall|a: int, b: int| 0 <= a < b < s.len() implies (#[trigger] s[a]).0 != (#[trigger] s[b]).0 by {
                            if a != i && b != i {
                                assert(s[a] == old_pairs[a] && s[b] == old_pairs[b]);
                            } else if a == i {
                                assert(s[b] == old_pairs[b]);
                            } else {
                                assert(s[a] == old_pairs[a]);
                            }
                        }
                    }
                    lemma_map_of(s, kv);
                    assert forall|key: Seq<char>| #[trigger] map_of(s).dom().contains(key) <==> map_of(old_pairs).insert(kv, vv).dom().contains(key) by {
                        lemma_map_of(s, key);
                        lemma_map_of(old_pairs, key);
                        if key != kv {
                            if map_of(s).dom().contains(key) {
                                let j = choose|j: int| 0 <= j < s.len() && (#[trigger] s[j]).0 == key;
                                assert(old_pairs[j] == s[j]);
                            }
                            if map_of(old_pairs).dom().contains(key) {
                                let j = choose|j: int| 0 <= j < old_pairs.len() && (#[trigger] old_pairs[j]).0 == key;
                                assert(old_pairs[j] == s[j]);
                            }
                        } else {
                            assert(s[i as int].0 == kv);
                        }
                    }
                    assert forall|key: Seq<char>| #[trigger] map_of(s).dom().contains(key) implies map_of(s)[key] == map_of(old_pairs).insert(kv, vv)[key] by {
                        lemma_map_of(s, key);
                        lemma_map_of(old_pairs, key);
                        let j = choose|j: int| 0 <= j < s.len() && (#[trigger] s[j]).0 == key;
                        if key != kv {
                            assert(old_pairs[j] == s[j]);
                        } else {
                            assert(s[i as int].0 == kv);
                        }
                    }
                    assert(map_of(s) =~= map_of(old_pairs).insert(kv, vv));
                }
            },
            None => {
                let ghost old_pairs = self.pairs();
                self.entries.push((k, v));
                proof {
                    let s = self.pairs();
                    assert(s.drop_last() =~= old_pairs);
                    assert(keys_unique(s)) by {
                        assert forall|a: int, b: int| 0 <= a < b < s.len() implies (#[trigger] s[a]).0 != (#[trigger] s[b]).0 by {
                            if b < s.len() - 1 {
                                assert(s[a] == old_pairs[a] && s[b] == old_pairs[b]);
                            } else {
                                assert(s[a] == old_pairs[a]);
                            }
                        }
                    }
                }
            },
        }
    }

    /// The number of keys.
    pub fn len(&self) -> (r: usize)
        ensures
            r == self.pairs().len(),
    {
        self.entries.len()
    }

    /// The pair at position `i` in insertion order.
    pub fn entry(&self, i: usize) -> (r: (&String, &String))
        requires
            i < self.pairs().len(),
        ensures
            (r.0@, r.1@) == self.pairs()[i as int],
    {
        (&self.entries[i].0, &self.entries[i].1)
    }

    /// A copy of this map.
    pub fn duplicate(&self) -> (r: StrMap)
        ensures
            r.pairs() == self.pairs(),
            r@ == self@,
            self.wf() ==> r.wf(),
    {
        let mut entries: Vec<(String, String)> = Vec::new();
        let mut i: usize = 0;
        while i < self.entries.len()
            invariant
                i <= self.entries@.len(),
                pairs_view(entries@) == pairs_view(self.entries@).subrange(0, i as int),
            decreases self.entries.len() - i,
        {
            let a = self.entries[i].0.clone();
            let b = self.entries[i].1.clone();
            let ghost before = entries@;
            entries.push((a, b));
            proof {
                assert(a@ == self.entries@[i as int].0@);
                assert(b@ == self.entries@[i as int].1@);
                assert(entries@ == before.push((a, b)));
                assert(pairs_view(entries@) =~= pairs_view(before).push((a@, b@)));
                assert(pairs_view(entries@) =~= pairs_view(self.entries@).subrange(0, i + 1));
            }
            i = i + 1;
        }
        assert(pairs_view(self.entries@).subrange(0, self.entries@.len() as int) =~= pairs_view(self.entries@));
        StrMap { entries }
    }
}

} // verus!
