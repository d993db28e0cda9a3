//! A map from strings to strings, kept as a list of distinct keys.

use vstd::prelude::*;
use crate::text::str_eq;

verus! {

/// The map a list of entries denotes: later entries win.
pub open spec fn entries_map(s: Seq<(String, String)>) -> Map<Seq<char>, Seq<char>>
    decreases s.len(),
{
    if s.len() == 0 {
        Map::empty()
    } else {
        entries_map(s.drop_last()).insert(s.last().0@, s.last().1@)
    }
}

/// No key occurs twice.
pub open spec fn distinct_keys(s: Seq<(String, String)>) -> bool {
    forall|i: int, j: int| 0 <= i < s.len() && 0 <= j < s.len() && i != j ==> #[trigger] s[i].0@
        != #[trigger] s[j].0@
}

/// A key is in the map exactly when some entry carries it.
pub proof fn lemma_entries_map_dom(s: Seq<(String, String)>, k: Seq<char>)
    ensures
        entries_map(s).contains_key(k) <==> exists|i: int| 0 <= i < s.len() && #[trigger] s[i].0@
            == k,
    decreases s.len(),
{
    if s.len() > 0 {
        lemma_entries_map_dom(s.drop_last(), k);
        if entries_map(s.drop_last()).contains_key(k) {
            let i = choose|i: int| 0 <= i < s.drop_last().len() && #[trigger] s.drop_last()[i].0@ == k;
            assert(s[i].0@ == k);
        }
        if exists|i: int| 0 <= i < s.len() && #[trigger] s[i].0@ == k {
            let i = choose|i: int| 0 <= i < s.len() && #[trigger] s[i].0@ == k;
            if i < s.len() - 1 {
                assert(s.drop_last()[i].0@ == k);
            }
        }
    }
}

/// With distinct keys, each entry's value is what the map gives for its key.
pub proof fn lemma_entries_map_value(s: Seq<(String, String)>, i: int)
    requires
        distinct_keys(s),
        0 <= i < s.len(),
    ensures
        entries_map(s).contains_key(s[i].0@),
        entries_map(s)[s[i].0@] == s[i].1@,
    decreases s.len(),
{
    if i < s.len() - 1 {
        let t = s.drop_last();
        assert(distinct_keys(t)) by {
            assert forall|a: int, b: int|
                0 <= a < t.len() && 0 <= b < t.len() && a != b implies #[trigger] t[a].0@
                != #[trigger] t[b].0@ by {
                assert(t[a] == s[a] && t[b] == s[b]);
            }
        }
        assert(t[i] == s[i]);
        lemma_entries_map_value(t, i);
        assert(s.last().0@ != s[i].0@);
    }
}

/// A string-keyed map whose keys are kept distinct.
pub struct StringMap {
    entries: Vec<(String, String)>,
}

impl View for StringMap {
    type V = Map<Seq<char>, Seq<char>>;

    closed spec fn view(&self) -> Map<Seq<char>, Seq<char>> {
        entries_map(self.entries@)
    }
}

impl StringMap {
    #[verifier::type_invariant]
    closed spec fn inv(self) -> bool {
        distinct_keys(self.entries@)
    }

    /// The empty map.
    pub fn new() -> (r: StringMap)
        ensures
            r@ == Map::<Seq<char>, Seq<char>>::empty(),
    {
        StringMap { entries: Vec::new() }
    }

    /// Number of keys.
    pub fn len(&self) -> (r: usize)
        ensures
            r == self@.len(),
            self@.dom().finite(),
    {
        proof {
            use_type_invariant(self);
            self.lemma_len();
        }
        self.entries.len()
    }

    proof fn lemma_len(&self)
        requires
            distinct_keys(self.entries@),
        ensures
            self@.dom().finite(),
            self@.len() == self.entries@.len(),
    {
        let s = self.entries@;
        let keys = Seq::new(s.len(), |i: int| s[i].0@);
        assert(keys.no_duplicates()) by {
            assert forall|a: int, b: int|
                0 <= a < keys.len() && 0 <= b < keys.len() && a != b implies keys[a] != keys[b] by {
                assert(s[a].0@ != s[b].0@);
            }
        }
        assert(self@.dom() =~= keys.to_set()) by {
            assert forall|k: Seq<char>| self@.dom().contains(k) <==> keys.to_set().contains(k) by {
                lemma_entries_map_dom(s, k);
                if self@.dom().contains(k) {
                    let i = choose|i: int| 0 <= i < s.len() && #[trigger] s[i].0@ == k;
                    assert(keys[i] == k);
                }
                if keys.to_set().contains(k) {
                    let i = choose|i: int| 0 <= i < keys.len() && keys[i] == k;
                    assert(s[i].0@ == k);
                }
            }
        }
        keys.unique_seq_to_set();
    }

    /// Position of `key`, if present.
    fn find(&self, key: &str) -> (r: Option<usize>)
        ensures
            match r {
                Some(i) => i < self.entries@.len() && self.entries@[i as int].0@ == key@,
                None => forall|i: int|
                    0 <= i < self.entries@.len() ==> #[trigger] self.entries@[i].0@ != key@,
            },
    {
        let mut i: usize = 0;
        while i < self.entries.len()
            invariant
                i <= self.entries@.len(),
                forall|j: int| 0 <= j < i ==> #[trigger] self.entries@[j].0@ != key@,
            decreases self.entries.len() - i,
        {
            if str_eq(self.entries[i].0.as_str(), key) {
                return Some(i);
            }
            i = i + 1;
        }
        None
    }

    /// Whether `key` is present.
    pub fn contains_key(&self, key: &str) -> (r: bool)
        ensures
            r == self@.contains_key(key@),
    {
        proof {
            lemma_entries_map_dom(self.entries@, key@);
        }
        self.find(key).is_some()
    }

    /// The value stored under `key`.
    pub fn get(&self, key: &str) -> (r: Option<String>)
        ensures
            match r {
                Some(v) => self@.contains_key(key@) && v@ == self@[key@],
                None => !self@.contains_key(key@),
            },
    {
        proof {
            use_type_invariant(self);
            lemma_entries_map_dom(self.entries@, key@);
        }
        match self.find(key) {
            Some(i) => {
                proof {
                    lemma_entries_map_value(self.entries@, i as int);
                }
                Some(self.entries[i].1.clone())
            },
            None => None,
        }
    }

    /// Store `value` under `key`, replacing any previous value.
    pub fn insert(&mut self, key: String, value: String)
        ensures
            final(self)@ == old(self)@.insert(key@, value@),
    {
        proof {
            use_type_invariant(&*self);
        }
        let ghost old_s = self.entries@;
        let mut next: Vec<(String, String)> = Vec::new();
        let mut found = false;
        let mut i: usize = 0;
        while i < self.entries.len()
            invariant
                old_s == self.entries@,
                distinct_keys(old_s),
                i <= old_s.len(),
                next@.len() == i,
                forall|j: int|
                    0 <= j < i ==> (#[trigger] next@[j]).0@ == old_s[j].0@ && (if old_s[j].0@
                        == key@ { next@[j].1@ == value@ } else { next@[j].1@ == old_s[j].1@ }),
                found == exists|j: int| 0 <= j < i && #[trigger] old_s[j].0@ == key@,
            decreases self.entries.len() - i,
        {
            let k = self.entries[i].0.clone();
            if str_eq(k.as_str(), key.as_str()) {
                next.push((k, value.clone()));
                found = true;
            } else {
                let v = self.entries[i].1.clone();
                next.push((k, v));
            }
            i = i + 1;
        }
        if !found {
            next.push((key.clone(), value.clone()));
        }
        proof {
            let n = next@;
            assert(distinct_keys(n)) by {
                assert forall|a: int, b: int|
                    0 <= a < n.len() && 0 <= b < n.len() && a != b implies #[trigger] n[a].0@
                    != #[trigger] n[b].0@ by {
                    if a < old_s.len() && b < old_s.len() {
                        assert(old_s[a].0@ != old_s[b].0@);
                    } else if a < old_s.len() {
                        assert(n[a].0@ == old_s[a].0@);
                    } else if b < old_s.len() {
                        assert(n[b].0@ == old_s[b].0@);
                    }
                }
            }
            let want = entries_map(old_s).insert(key@, value@);
            assert forall|k: Seq<char>| entries_map(n).contains_key(k) <==> want.contains_key(k) by {
                lemma_entries_map_dom(n, k);
                lemma_entries_map_dom(old_s, k);
                if entries_map(n).contains_key(k) && k != key@ {
                    let j = choose|j: int| 0 <= j < n.len() && #[trigger] n[j].0@ == k;
                    assert(old_s[j].0@ == k);
                }
                if want.contains_key(k) && k != key@ {
                    let j = choose|j: int| 0 <= j < old_s.len() && #[trigger] old_s[j].0@ == k;
                    assert(n[j].0@ == k);
                }
                if k == key@ {
                    if found {
                        let j = choose|j: int| 0 <= j < old_s.len() && #[trigger] old_s[j].0@
                            == key@;
                        assert(n[j].0@ == k);
                    } else {
                        assert(n[n.len() - 1].0@ == k);
                    }
                }
            }
            assert forall|k: Seq<char>| #[trigger]
                entries_map(n).contains_key(k) implies entries_map(n)[k] == want[k] by {
                lemma_entries_map_dom(n, k);
                let j = choose|j: int| 0 <= j < n.len() && #[trigger] n[j].0@ == k;
                lemma_entries_map_value(n, j);
                if j < old_s.len() && k != key@ {
                    lemma_entries_map_value(old_s, j);
                }
            }
            assert(entries_map(n) =~= want);
        }
        self.entries = next;
    }

    /// Drop `key` and its value.
    pub fn remove(&mut self, key: &str)
        ensures
            final(self)@ == old(self)@.remove(key@),
    {
        proof {
            use_type_invariant(&*self);
        }
        let ghost old_s = self.entries@;
        let mut next: Vec<(String, String)> = Vec::new();
        let ghost mut idx: Seq<int> = Seq::empty();
        let mut i: usize = 0;
        while i < self.entries.len()
            invariant
                old_s == self.entries@,
                distinct_keys(old_s),
                i <= old_s.len(),
                next@.len() == idx.len(),
                forall|j: int|
                    0 <= j < idx.len() ==> 0 <= #[trigger] idx[j] < i && next@[j] == old_s[idx[j]]
                        && old_s[idx[j]].0@ != key@,
                forall|a: int, b: int| 0 <= a < b < idx.len() ==> #[trigger] idx[a] < #[trigger] idx[b],
                forall|j: int|
                    0 <= j < i && #[trigger] old_s[j].0@ != key@ ==> exists|t: int|
                        0 <= t < idx.len() && idx[t] == j,
            decreases self.entries.len() - i,
        {
            if !str_eq(self.entries[i].0.as_str(), key) {
                let k = self.entries[i].0.clone();
                let v = self.entries[i].1.clone();
                next.push((k, v));
                proof {
                    let prev = idx;
                    idx = idx.push(i as int);
                    assert forall|j: int|
                        0 <= j < i + 1 && #[trigger] old_s[j].0@ != key@ implies exists|t: int|
                        0 <= t < idx.len() && idx[t] == j by {
                        if j == i {
                            assert(idx[idx.len() - 1] == j);
                        } else {
                            let t = choose|t: int| 0 <= t < prev.len() && prev[t] == j;
                            assert(idx[t] == j);
                        }
                    }
                }
            }
            i = i + 1;
        }
        proof {
            let n = next@;
            assert(distinct_keys(n)) by {
                assert forall|a: int, b: int|
                    0 <= a < n.len() && 0 <= b < n.len() && a != b implies #[trigger] n[a].0@
                    != #[trigger] n[b].0@ by {
                    if a < b {
                        assert(idx[a] < idx[b]);
                    } else {
                        assert(idx[b] < idx[a]);
                    }
                    assert(old_s[idx[a]].0@ != old_s[idx[b]].0@);
                }
            }
            let want = entries_map(old_s).remove(key@);
            assert forall|k: Seq<char>| entries_map(n).contains_key(k) <==> want.contains_key(k) by {
                lemma_entries_map_dom(n, k);
                lemma_entries_map_dom(old_s, k);
                if entries_map(n).contains_key(k) {
                    let j = choose|j: int| 0 <= j < n.len() && #[trigger] n[j].0@ == k;
                    assert(old_s[idx[j]].0@ == k);
                }
                if want.contains_key(k) {
                    let j = choose|j: int| 0 <= j < old_s.len() && #[trigger] old_s[j].0@ == k;
                    let t = choose|t: int| 0 <= t < idx.len() && idx[t] == j;
                    assert(n[t].0@ == k);
                }
            }
            assert forall|k: Seq<char>| #[trigger]
                entries_map(n).contains_key(k) implies entries_map(n)[k] == want[k] by {
                lemma_entries_map_dom(n, k);
                let j = choose|j: int| 0 <= j < n.len() && #[trigger] n[j].0@ == k;
                lemma_entries_map_value(n, j);
                lemma_entries_map_value(old_s, idx[j]);
            }
            assert(entries_map(n) =~= want);
        }
        self.entries = next;
    }

    /// The entries (each key once).
    pub fn pairs(&self) -> (r: &Vec<(String, String)>)
        ensures
            entries_map(r@) == self@,
            distinct_keys(r@),
    {
        proof {
            use_type_invariant(self);
        }
        &self.entries
    }

    /// Copy of this map.
    pub fn copy(&self) -> (r: StringMap)
        ensures
            r@ == self@,
    {
        proof {
            use_type_invariant(self);
        }
        let mut v: Vec<(String, String)> = Vec::new();
        let mut i: usize = 0;
        while i < self.entries.len()
            invariant
                i <= self.entries@.len(),
                v@ == self.entries@.take(i as int),
            decreases self.entries.len() - i,
        {
            let k = self.entries[i].0.clone();
            let x = self.entries[i].1.clone();
            v.push((k, x));
            assert(self.entries@.take(i + 1) == self.entries@.take(i as int).push(
                self.entries@[i as int],
            ));
            i = i + 1;
        }
        assert(self.entries@.take(self.entries.len() as int) == self.entries@);
        StringMap { entries: v }
    }

    /// The map of a list of pairs, later pairs winning (as collecting into a map does).
    pub fn from_pairs(pairs: &Vec<(String, String)>) -> (r: StringMap)
        ensures
            r@ == entries_map(pairs@),
    {
        let mut m = StringMap::new();
        let mut i: usize = 0;
        while i < pairs.len()
            invariant
                i <= pairs@.len(),
                m@ == entries_map(pairs@.take(i as int)),
            decreases pairs.len() - i,
        {
            let k = pairs[i].0.clone();
            let v = pairs[i].1.clone();
            m.insert(k, v);
            assert(pairs@.take(i + 1).drop_last() == pairs@.take(i as int));
            i = i + 1;
        }
        assert(pairs@.take(pairs.len() as int) == pairs@);
        m
    }
}

} // verus!
