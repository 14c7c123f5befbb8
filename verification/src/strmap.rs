//! A small map from text to text that remembers the order in which its keys
//! arrived. It stands where an egg's environment and a request's parameters
//! are kept.

use vstd::prelude::*;
use crate::text::str_eq;

verus! {

/// The map that a run of key-value pairs builds when each pair is put in
/// turn: of two pairs with one key, the later one stays.
pub open spec fn map_of_pairs(pairs: Seq<(String, String)>) -> Map<Seq<char>, Seq<char>>
    decreases pairs.len(),
{
    if pairs.len() == 0 {
        Map::empty()
    } else {
        map_of_pairs(pairs.drop_last()).insert(pairs.last().0@, pairs.last().1@)
    }
}

/// What each text of a run of pairs holds.
pub open spec fn pairs_view(pairs: Seq<(String, String)>) -> Seq<(Seq<char>, Seq<char>)> {
    pairs.map_values(|p: (String, String)| (p.0@, p.1@))
}

/// The map that a run of pairs of texts builds when each pair is put in
/// turn: of two pairs with one key, the later one stays.
pub open spec fn map_of_texts(pairs: Seq<(Seq<char>, Seq<char>)>) -> Map<Seq<char>, Seq<char>>
    decreases pairs.len(),
{
    if pairs.len() == 0 {
        Map::empty()
    } else {
        map_of_texts(pairs.drop_last()).insert(pairs.last().0, pairs.last().1)
    }
}

/// The map that pairs build depends on what their texts hold alone.
pub proof fn lemma_map_of_pairs_view(pairs: Seq<(String, String)>)
    ensures
        map_of_pairs(pairs) == map_of_texts(pairs_view(pairs)),
    decreases pairs.len(),
{
    if pairs.len() > 0 {
        lemma_map_of_pairs_view(pairs.drop_last());
        assert(pairs_view(pairs).drop_last() =~= pairs_view(pairs.drop_last()));
    }
}

/// No key occurs twice among the pairs.
pub open spec fn distinct_keys(pairs: Seq<(String, String)>) -> bool {
    forall|i: int, j: int| 0 <= i < j < pairs.len() ==> pairs[i].0@ != pairs[j].0@
}

/// The keys of the map are the keys of the pairs.
pub proof fn lemma_map_of_pairs_dom(pairs: Seq<(String, String)>, k: Seq<char>)
    ensures
        map_of_pairs(pairs).contains_key(k) <==> exists|i: int|
            0 <= i < pairs.len() && #[trigger] pairs[i].0@ == k,
    decreases pairs.len(),
{
    if pairs.len() > 0 {
        let front = pairs.drop_last();
        lemma_map_of_pairs_dom(front, k);
        if map_of_pairs(pairs).contains_key(k) {
            if pairs.last().0@ == k {
                assert(pairs[pairs.len() - 1].0@ == k);
            } else {
                let i = choose|i: int| 0 <= i < front.len() && #[trigger] front[i].0@ == k;
                assert(pairs[i].0@ == k);
            }
        }
        if exists|i: int| 0 <= i < pairs.len() && #[trigger] pairs[i].0@ == k {
            let i = choose|i: int| 0 <= i < pairs.len() && #[trigger] pairs[i].0@ == k;
            if i < pairs.len() - 1 {
                assert(front[i].0@ == k);
            }
        }
    }
}

/// Where no key occurs twice, each pair's value is what the map holds at
/// its key.
pub proof fn lemma_map_of_pairs_at(pairs: Seq<(String, String)>, i: int)
    requires
        distinct_keys(pairs),
        0 <= i < pairs.len(),
    ensures
        map_of_pairs(pairs).contains_key(pairs[i].0@),
        map_of_pairs(pairs)[pairs[i].0@] == pairs[i].1@,
    decreases pairs.len(),
{
    let front = pairs.drop_last();
    if i < pairs.len() - 1 {
        assert(distinct_keys(front)) by {
            assert forall|a: int, b: int| 0 <= a < b < front.len() implies front[a].0@
                != front[b].0@ by {
                assert(pairs[a].0@ != pairs[b].0@);
            }
        }
        lemma_map_of_pairs_at(front, i);
        assert(pairs[i].0@ != pairs[pairs.len() - 1].0@);
    }
}

/// Where no key occurs twice, replacing the value of one pair puts that
/// value at the pair's key and leaves the rest of the map alone.
pub proof fn lemma_map_of_pairs_update(pairs: Seq<(String, String)>, i: int, p: (String, String))
    requires
        distinct_keys(pairs),
        0 <= i < pairs.len(),
        p.0@ == pairs[i].0@,
    ensures
        distinct_keys(pairs.update(i, p)),
        map_of_pairs(pairs.update(i, p)) == map_of_pairs(pairs).insert(p.0@, p.1@),
    decreases pairs.len(),
{
    let next = pairs.update(i, p);
    assert(distinct_keys(next)) by {
        assert forall|a: int, b: int| 0 <= a < b < next.len() implies next[a].0@ != next[b].0@ by {
            assert(pairs[a].0@ != pairs[b].0@);
        }
    }
    let front = pairs.drop_last();
    if i == pairs.len() - 1 {
        assert(next.drop_last() =~= front);
        assert(map_of_pairs(next) =~= map_of_pairs(pairs).insert(p.0@, p.1@));
    } else {
        assert(distinct_keys(front)) by {
            assert forall|a: int, b: int| 0 <= a < b < front.len() implies front[a].0@
                != front[b].0@ by {
                assert(pairs[a].0@ != pairs[b].0@);
            }
        }
        lemma_map_of_pairs_update(front, i, p);
        assert(next.drop_last() =~= front.update(i, p));
        assert(pairs[i].0@ != pairs[pairs.len() - 1].0@);
        assert(map_of_pairs(next) =~= map_of_pairs(pairs).insert(p.0@, p.1@));
    }
}

/// A map from text to text. Its view is the mathematical map from each key's
/// characters to its value's characters.
#[derive(Debug)]
pub struct StrMap {
    entries: Vec<(String, String)>,
}

impl View for StrMap {
    type V = Map<Seq<char>, Seq<char>>;

    closed spec fn view(&self) -> Map<Seq<char>, Seq<char>> {
        map_of_pairs(self.entries@)
    }
}

impl StrMap {
    #[verifier::type_invariant]
    spec fn keys_are_distinct(self) -> bool {
        distinct_keys(self.entries@)
    }

    /// The pairs of the map, in the order in which their keys first arrived.
    pub closed spec fn pairs(&self) -> Seq<(String, String)> {
        self.entries@
    }

    /// The pairs build the view.
    pub proof fn lemma_pairs(&self)
        ensures
            self@ == map_of_pairs(self.pairs()),
            self@.dom().finite(),
    {
        lemma_map_of_pairs_finite(self.entries@);
    }

    /// An empty map.
    pub fn new() -> (r: StrMap)
        ensures
            r@ == Map::<Seq<char>, Seq<char>>::empty(),
            r.pairs().len() == 0,
    {
        StrMap { entries: Vec::new() }
    }

    /// The number of keys. No key occurs twice among the pairs.
    pub fn len(&self) -> (n: usize)
        ensures
            n == self.pairs().len(),
            n == self@.len(),
            distinct_keys(self.pairs()),
    {
        proof {
            use_type_invariant(self);
            lemma_map_of_pairs_len(self.entries@);
        }
        self.entries.len()
    }

    /// Whether the map holds nothing.
    pub fn is_empty(&self) -> (r: bool)
        ensures
            r == (self@.len() == 0),
            r == (self.pairs().len() == 0),
    {
        self.len() == 0
    }

    fn position(&self, key: &str) -> (r: Option<usize>)
        ensures
            match r {
                Some(i) => i < self.entries@.len() && self.entries@[i as int].0@ == key@,
                None => forall|j: int| 0 <= j < self.entries@.len() ==> self.entries@[j].0@ != key@,
            },
    {
        let mut i: usize = 0;
        while i < self.entries.len()
            invariant
                i <= self.entries@.len(),
                forall|j: int| 0 <= j < i ==> self.entries@[j].0@ != key@,
            decreases self.entries@.len() - i,
        {
            if str_eq(self.entries[i].0.as_str(), key) {
                return Some(i);
            }
            i += 1;
        }
        None
    }

    /// Whether the map has `key`.
    pub fn contains_key(&self, key: &str) -> (r: bool)
        ensures
            r == self@.contains_key(key@),
    {
        proof {
            lemma_map_of_pairs_dom(self.entries@, key@);
        }
        self.position(key).is_some()
    }

    /// The value at `key`, if the map has it.
    pub fn get(&self, key: &str) -> (r: Option<&String>)
        ensures
            match r {
                Some(v) => self@.contains_key(key@) && v@ == self@[key@],
                None => !self@.contains_key(key@),
            },
    {
        proof {
            use_type_invariant(self);
            lemma_map_of_pairs_dom(self.entries@, key@);
        }
        match self.position(key) {
            Some(i) => {
                proof {
                    lemma_map_of_pairs_at(self.entries@, i as int);
                }
                Some(&self.entries[i].1)
            },
            None => None,
        }
    }

    /// Puts `value` at `key` and hands back the value that was there.
    pub fn insert(&mut self, key: String, value: String) -> (r: Option<String>)
        ensures
            final(self)@ == old(self)@.insert(key@, value@),
            match r {
                Some(v) => old(self)@.contains_key(key@) && v@ == old(self)@[key@]
                    && final(self).pairs().len() == old(self).pairs().len(),
                None => !old(self)@.contains_key(key@) && final(self).pairs() == old(self).pairs().push((key, value)),
            },
    {
        proof {
            use_type_invariant(&*self);
            lemma_map_of_pairs_dom(self.entries@, key@);
        }
        let found = self.position(key.as_str());
        let mut taken = StrMap::new();
        core::mem::swap(self, &mut taken);
        let mut entries = taken.entries;
        match found {
            Some(i) => {
                proof {
                    lemma_map_of_pairs_at(entries@, i as int);
                    lemma_map_of_pairs_update(entries@, i as int, (key, value));
                }
                let previous = entries[i].1.clone();
                entries.set(i, (key, value));
                *self = StrMap { entries };
                Some(previous)
            },
            None => {
                proof {
                    let next = entries@.push((key, value));
                    assert(next.drop_last() =~= entries@);
                    assert(distinct_keys(next));
                }
                entries.push((key, value));
                *self = StrMap { entries };
                None
            },
        }
    }

    /// The key of the pair at position `i`.
    pub fn key_at(&self, i: usize) -> (r: &String)
        requires
            i < self.pairs().len(),
        ensures
            *r == self.pairs()[i as int].0,
    {
        &self.entries[i].0
    }

    /// The value of the pair at position `i`.
    pub fn value_at(&self, i: usize) -> (r: &String)
        requires
            i < self.pairs().len(),
        ensures
            *r == self.pairs()[i as int].1,
    {
        &self.entries[i].1
    }

    /// Puts every pair of `other` into this map: where both have a key, the
    /// value of `other` stays.
    pub fn merge(&mut self, other: &StrMap)
        ensures
            final(self)@ == old(self)@.union_prefer_right(other@),
    {
        let mut i: usize = 0;
        proof {
            assert(other.entries@.take(0) =~= Seq::<(String, String)>::empty());
            assert(self@.union_prefer_right(Map::<Seq<char>, Seq<char>>::empty()) =~= self@);
        }
        while i < other.entries.len()
            invariant
                i <= other.entries@.len(),
                self@ == old(self)@.union_prefer_right(map_of_pairs(other.entries@.take(i as int))),
            decreases other.entries@.len() - i,
        {
            let k = other.entries[i].0.clone();
            let v = other.entries[i].1.clone();
            proof {
                let before = other.entries@.take(i as int);
                let after = other.entries@.take(i + 1);
                assert(after.drop_last() =~= before);
                assert(after.last() == other.entries@[i as int]);
                assert(old(self)@.union_prefer_right(map_of_pairs(before)).insert(k@, v@) =~= old(self)@.union_prefer_right(map_of_pairs(after)));
            }
            self.insert(k, v);
            i += 1;
        }
        proof {
            assert(other.entries@.take(other.entries@.len() as int) =~= other.entries@);
        }
    }

    /// The map that the pairs build when each is put in turn.
    pub fn from_pairs(pairs: Vec<(String, String)>) -> (r: StrMap)
        ensures
            r@ == map_of_pairs(pairs@),
            r@ == map_of_texts(pairs_view(pairs@)),
    {
        proof {
            lemma_map_of_pairs_view(pairs@);
        }
        let mut out = StrMap::new();
        let mut i: usize = 0;
        proof {
            assert(pairs@.take(0) =~= Seq::<(String, String)>::empty());
        }
        while i < pairs.len()
            invariant
                i <= pairs@.len(),
                out@ == map_of_pairs(pairs@.take(i as int)),
            decreases pairs@.len() - i,
        {
            let k = pairs[i].0.clone();
            let v = pairs[i].1.clone();
            proof {
                let before = pairs@.take(i as int);
                let after = pairs@.take(i + 1);
                assert(after.drop_last() =~= before);
                assert(after.last() == pairs@[i as int]);
            }
            out.insert(k, v);
            i += 1;
        }
        proof {
            assert(pairs@.take(pairs@.len() as int) =~= pairs@);
        }
        out
    }
}

impl Clone for StrMap {
    fn clone(&self) -> (r: Self)
        ensures
            r@ == self@,
            r.pairs() == self.pairs(),
    {
        proof {
            use_type_invariant(self);
        }
        let mut entries: Vec<(String, String)> = Vec::new();
        let mut i: usize = 0;
        while i < self.entries.len()
            invariant
                i <= self.entries@.len(),
                entries@ == self.entries@.take(i as int),
            decreases self.entries@.len() - i,
        {
            let k = self.entries[i].0.clone();
            let v = self.entries[i].1.clone();
            entries.push((k, v));
            proof {
                assert(self.entries@.take(i + 1) =~= self.entries@.take(i as int).push(
                    self.entries@[i as int],
                ));
            }
            i += 1;
        }
        proof {
            assert(self.entries@.take(self.entries@.len() as int) =~= self.entries@);
        }
        StrMap { entries }
    }
}

/// The map that pairs build has finitely many keys.
pub proof fn lemma_map_of_pairs_finite(pairs: Seq<(String, String)>)
    ensures
        map_of_pairs(pairs).dom().finite(),
    decreases pairs.len(),
{
    if pairs.len() > 0 {
        lemma_map_of_pairs_finite(pairs.drop_last());
    }
}

/// Where no key occurs twice, the map has as many keys as there are pairs.
pub proof fn lemma_map_of_pairs_len(pairs: Seq<(String, String)>)
    requires
        distinct_keys(pairs),
    ensures
        map_of_pairs(pairs).len() == pairs.len(),
    decreases pairs.len(),
{
    if pairs.len() > 0 {
        let front = pairs.drop_last();
        assert(distinct_keys(front)) by {
            assert forall|a: int, b: int| 0 <= a < b < front.len() implies front[a].0@
                != front[b].0@ by {
                assert(pairs[a].0@ != pairs[b].0@);
            }
        }
        lemma_map_of_pairs_len(front);
        lemma_map_of_pairs_finite(front);
        lemma_map_of_pairs_dom(front, pairs.last().0@);
        assert(!map_of_pairs(front).contains_key(pairs.last().0@)) by {
            if map_of_pairs(front).contains_key(pairs.last().0@) {
                let i = choose|i: int| 0 <= i < front.len() && #[trigger] front[i].0@ == pairs.last().0@;
                assert(pairs[i].0@ != pairs[pairs.len() - 1].0@);
            }
        }
    }
}

/// Merging is the same both ways round where the two maps share no key.
pub proof fn lemma_merge_commutes(a: Map<Seq<char>, Seq<char>>, b: Map<Seq<char>, Seq<char>>)
    requires
        a.dom().disjoint(b.dom()),
    ensures
        a.union_prefer_right(b) == b.union_prefer_right(a),
{
    assert(a.union_prefer_right(b) =~= b.union_prefer_right(a));
}

/// Where both maps have a key, merging keeps the value of the map that was
/// merged in; every other key keeps the value it had.
pub proof fn lemma_merge_prefers_right(
    a: Map<Seq<char>, Seq<char>>,
    b: Map<Seq<char>, Seq<char>>,
    k: Seq<char>,
)
    ensures
        b.contains_key(k) ==> a.union_prefer_right(b)[k] == b[k],
        !b.contains_key(k) && a.contains_key(k) ==> a.union_prefer_right(b)[k] == a[k],
        a.union_prefer_right(b).contains_key(k) <==> a.contains_key(k) || b.contains_key(k),
{
}

} // verus!
