//! Association maps keyed by words (`Vec<char>`), modelled as
//! `Map<Seq<char>, _>`. Entries are appended; a later entry for the same
//! key wins, which gives the last-write-wins behaviour of the stream
//! format. Lookups scan from the most recent entry backwards.

use vstd::prelude::*;

use crate::chars::chars_eq;
use crate::chars::copy_chars;
use crate::text::chars_to_string;
use crate::text::str_to_chars;

verus! {

broadcast use crate::chars::lemma_deep_view_chars;

/// The map denoted by a list of entries, with later entries overriding
/// earlier ones.
pub open spec fn entries_map<T>(s: Seq<(Seq<char>, T)>) -> Map<Seq<char>, T>
    decreases s.len(),
{
    if s.len() == 0 {
        Map::empty()
    } else {
        entries_map(s.drop_last()).insert(s.last().0, s.last().1)
    }
}

/// The domain of the denoted map is the set of keys of the entries.
pub proof fn lemma_entries_map_dom<T>(s: Seq<(Seq<char>, T)>, k: Seq<char>)
    ensures
        entries_map(s).contains_key(k) <==> exists|i: int| 0 <= i < s.len() && s[i].0 == k,
    decreases s.len(),
{
    if s.len() > 0 {
        lemma_entries_map_dom(s.drop_last(), k);
        if s.last().0 == k {
            assert(s[s.len() - 1].0 == k);
        } else if entries_map(s).contains_key(k) {
            let i = choose|i: int| 0 <= i < s.drop_last().len() && s.drop_last()[i].0 == k;
            assert(s[i].0 == k);
        } else if exists|i: int| 0 <= i < s.len() && s[i].0 == k {
            let i = choose|i: int| 0 <= i < s.len() && s[i].0 == k;
            assert(s.drop_last()[i].0 == k);
        }
    }
}

/// The denoted map is finite.
pub proof fn lemma_entries_map_finite<T>(s: Seq<(Seq<char>, T)>)
    ensures
        entries_map(s).dom().finite(),
    decreases s.len(),
{
    if s.len() > 0 {
        lemma_entries_map_finite(s.drop_last());
    }
}

/// An entry that no later entry overrides gives the value of the
/// denoted map at its key.
pub proof fn lemma_entries_map_live<T>(s: Seq<(Seq<char>, T)>, i: int)
    requires
        0 <= i < s.len(),
        forall|j: int| i < j < s.len() ==> s[j].0 != s[i].0,
    ensures
        entries_map(s).contains_key(s[i].0),
        entries_map(s)[s[i].0] == s[i].1,
    decreases s.len(),
{
    if i == s.len() - 1 {
        assert(s.last() == s[i]);
    } else {
        assert(s.drop_last()[i] == s[i]);
        lemma_entries_map_live(s.drop_last(), i);
    }
}

/// Every key among the entries has a last entry.
pub proof fn lemma_last_occurrence<T>(s: Seq<(Seq<char>, T)>, k: Seq<char>)
    requires
        exists|i: int| 0 <= i < s.len() && s[i].0 == k,
    ensures
        exists|i: int|
            0 <= i < s.len() && s[i].0 == k && (forall|q: int| i < q < s.len() ==> s[q].0 != k),
    decreases s.len(),
{
    if s.last().0 == k {
        assert(s[s.len() - 1].0 == k && (forall|q: int|
            s.len() - 1 < q < s.len() ==> s[q].0 != k));
    } else {
        let w = choose|i: int| 0 <= i < s.len() && s[i].0 == k;
        assert(s.drop_last()[w].0 == k);
        lemma_last_occurrence(s.drop_last(), k);
        let i = choose|i: int|
            0 <= i < s.drop_last().len() && s.drop_last()[i].0 == k && (forall|q: int|
                i < q < s.drop_last().len() ==> s.drop_last()[q].0 != k);
        assert(s[i].0 == k);
        assert forall|q: int| i < q < s.len() implies s[q].0 != k by {
            if q < s.len() - 1 {
                assert(s.drop_last()[q].0 != k);
            }
        }
    }
}

/// A list of entries, read as a map from each key to the value of its
/// last entry.
#[derive(Debug, PartialEq, Eq)]
pub struct WordMap<V> {
    entries: Vec<(Vec<char>, V)>,
}

/// The entries with both parts taken to their mathematical values.
pub open spec fn entry_views<V: DeepView>(s: Seq<(Vec<char>, V)>) -> Seq<(Seq<char>, V::V)> {
    s.map_values(|p: (Vec<char>, V)| (p.0.deep_view(), p.1.deep_view()))
}

impl<V: DeepView> View for WordMap<V> {
    type V = Map<Seq<char>, V::V>;

    closed spec fn view(&self) -> Map<Seq<char>, V::V> {
        entries_map(entry_views(self.entries@))
    }
}

impl<V: DeepView> WordMap<V> {
    /// The entries of the map, stale ones included, as key/value pairs.
    pub closed spec fn spec_entries(&self) -> Seq<(Seq<char>, V::V)> {
        entry_views(self.entries@)
    }

    pub fn new() -> (r: Self)
        ensures
            r@ == Map::<Seq<char>, V::V>::empty(),
            r.spec_entries() =~= Seq::<(Seq<char>, V::V)>::empty(),
    {
        let r = WordMap { entries: Vec::new() };
        proof {
            assert(entry_views(r.entries@) =~= Seq::<(Seq<char>, V::V)>::empty());
        }
        r
    }

    /// Record `v` under `k`, overriding any earlier entry for `k`.
    pub fn set(&mut self, k: Vec<char>, v: V)
        ensures
            final(self)@ == old(self)@.insert(k@, v.deep_view()),
            final(self).spec_entries() == old(self).spec_entries().push(
                (k@, v.deep_view()),
            ),
    {
        let ghost k_view = k@;
        let ghost v_view = v.deep_view();
        let ghost olds = self.entries@;
        self.entries.push((k, v));
        proof {
            assert(entry_views(self.entries@) =~= entry_views(olds).push((k_view, v_view)));
            assert(entry_views(self.entries@).drop_last() =~= entry_views(olds));
        }
    }

    /// The value recorded under `k`, if any.
    pub fn get<'a>(&'a self, k: &Vec<char>) -> (r: Option<&'a V>)
        ensures
            match r {
                Some(v) => self@.contains_key(k@) && v.deep_view() == self@[k@],
                None => !self@.contains_key(k@),
            },
    {
        let ghost es = entry_views(self.entries@);
        proof {
            assert(es.take(es.len() as int) =~= es);
        }
        let mut i: usize = self.entries.len();
        while i > 0
            invariant
                i <= self.entries@.len(),
                es == entry_views(self.entries@),
                entries_map(es).contains_key(k@) == entries_map(es.take(i as int)).contains_key(
                    k@,
                ),
                entries_map(es).contains_key(k@) ==> entries_map(es)[k@] == entries_map(
                    es.take(i as int),
                )[k@],
            decreases i,
        {
            i -= 1;
            let hit = chars_eq(&self.entries[i].0, k);
            proof {
                assert(es.take(i + 1).drop_last() =~= es.take(i as int));
                assert(es.take(i + 1).last() == es[i as int]);
                assert(es[i as int] == (self.entries@[i as int].0.deep_view(),
                    self.entries@[i as int].1.deep_view()));
            }
            if hit {
                return Some(&self.entries[i].1);
            }
        }
        proof {
            assert(es.take(0) =~= Seq::<(Seq<char>, V::V)>::empty());
        }
        None
    }

    /// Whether anything is recorded under `k`.
    pub fn contains(&self, k: &Vec<char>) -> (r: bool)
        ensures
            r == self@.contains_key(k@),
    {
        self.get(k).is_some()
    }

    /// How many entries the map holds, stale ones included.
    pub fn entry_count(&self) -> (r: usize)
        ensures
            r == self.spec_entries().len(),
    {
        self.entries.len()
    }

    /// The key of the entry at `i`.
    pub fn key_at<'a>(&'a self, i: usize) -> (r: &'a Vec<char>)
        requires
            i < self.spec_entries().len(),
        ensures
            r@ == self.spec_entries()[i as int].0,
    {
        &self.entries[i].0
    }

    /// The value of the entry at `i`.
    pub fn value_at<'a>(&'a self, i: usize) -> (r: &'a V)
        requires
            i < self.spec_entries().len(),
        ensures
            r.deep_view() == self.spec_entries()[i as int].1,
    {
        &self.entries[i].1
    }

    /// Whether the entry at `i` is the last entry for its key.
    pub fn live_at(&self, i: usize) -> (r: bool)
        requires
            i < self.spec_entries().len(),
        ensures
            r == forall|j: int|
                i < j < self.spec_entries().len() ==> self.spec_entries()[j].0
                    != self.spec_entries()[i as int].0,
    {
        let ghost es = self.spec_entries();
        let n = self.entries.len();
        proof {
            assert(es.len() == self.entries@.len());
        }
        let mut j: usize = i + 1;
        while j < n
            invariant
                n == self.entries@.len(),
                i < j <= self.entries@.len(),
                es == entry_views(self.entries@),
                i < self.entries@.len(),
                forall|q: int| i < q < j ==> es[q].0 != es[i as int].0,
            decreases self.entries@.len() - j,
        {
            let hit = chars_eq(&self.entries[j].0, &self.entries[i].0);
            proof {
                assert(es[j as int] == (self.entries@[j as int].0.deep_view(),
                    self.entries@[j as int].1.deep_view()));
                assert(es[i as int] == (self.entries@[i as int].0.deep_view(),
                    self.entries@[i as int].1.deep_view()));
            }
            if hit {
                proof {
                    assert(self.spec_entries()[j as int].0 == self.spec_entries()[i as int].0);
                    assert(!(forall|q: int|
                        i < q < self.spec_entries().len() ==> self.spec_entries()[q].0
                            != self.spec_entries()[i as int].0)) by {
                        assert(i < j < self.spec_entries().len()
                            && self.spec_entries()[j as int].0 == self.spec_entries()[
                            i as int].0);
                    }
                }
                return false;
            }
            j += 1;
        }
        true
    }

    /// Every key of the denoted map has an entry that no later entry
    /// overrides.
    pub proof fn lemma_live_exists(&self, k: Seq<char>)
        requires
            self@.contains_key(k),
        ensures
            exists|i: int|
                0 <= i < self.spec_entries().len() && self.spec_entries()[i].0 == k && (forall|
                    q: int,
                |
                    i < q < self.spec_entries().len() ==> self.spec_entries()[q].0 != k),
    {
        lemma_entries_map_dom(self.spec_entries(), k);
        lemma_last_occurrence(self.spec_entries(), k);
    }

    /// Ties an entry that no later entry overrides to the denoted map.
    pub proof fn lemma_live_entry(&self, i: int)
        requires
            0 <= i < self.spec_entries().len(),
            forall|j: int|
                i < j < self.spec_entries().len() ==> self.spec_entries()[j].0
                    != self.spec_entries()[i].0,
        ensures
            self@.contains_key(self.spec_entries()[i].0),
            self@[self.spec_entries()[i].0] == self.spec_entries()[i].1,
    {
        lemma_entries_map_live(self.spec_entries(), i);
    }

    /// The denoted map has finitely many keys.
    pub proof fn lemma_finite(&self)
        ensures
            self@.dom().finite(),
    {
        lemma_entries_map_finite(self.spec_entries());
    }
}

impl WordMap<Vec<char>> {
    /// An independent map with the same entries.
    pub fn duplicate(&self) -> (r: Self)
        ensures
            r@ == self@,
    {
        let ghost es = self.spec_entries();
        let mut r = WordMap::<Vec<char>>::new();
        let n = self.entry_count();
        let mut i: usize = 0;
        proof {
            assert(es.take(0) =~= Seq::<(Seq<char>, Seq<char>)>::empty());
        }
        while i < n
            invariant
                i <= n,
                n == es.len(),
                es == self.spec_entries(),
                r@ == entries_map(es.take(i as int)),
            decreases n - i,
        {
            let k = copy_chars(self.key_at(i));
            let v = copy_chars(self.value_at(i));
            r.set(k, v);
            proof {
                assert(es.take(i + 1).drop_last() =~= es.take(i as int));
                assert(es.take(i + 1).last() == es[i as int]);
            }
            i += 1;
        }
        proof {
            assert(es.take(n as int) =~= es);
        }
        r
    }
}

/// A map of variables with their evaluated values, keyed by the exact
/// spelling of each name.
#[derive(Debug, PartialEq, Eq)]
pub struct EvalVarMap {
    pub(crate) words: WordMap<Vec<char>>,
}

impl View for EvalVarMap {
    type V = Map<Seq<char>, Seq<char>>;

    closed spec fn view(&self) -> Map<Seq<char>, Seq<char>> {
        self.words@
    }
}

impl EvalVarMap {
    /// An empty map.
    pub fn new() -> (r: Self)
        ensures
            r@ == Map::<Seq<char>, Seq<char>>::empty(),
    {
        EvalVarMap { words: WordMap::new() }
    }

    /// The value recorded under `name`, if any.
    pub fn get(&self, name: &str) -> (r: Option<String>)
        ensures
            match r {
                Some(v) => self@.contains_key(name@) && v@ == self@[name@],
                None => !self@.contains_key(name@),
            },
    {
        let key = str_to_chars(name);
        match self.words.get(&key) {
            Some(v) => Some(chars_to_string(v)),
            None => None,
        }
    }

    /// The map is its inner word map.
    pub(crate) proof fn lemma_view(&self)
        ensures
            self@ == self.words@,
    {
    }

    /// Record `value` under `name`, overriding any earlier entry.
    pub fn set(&mut self, name: String, value: String)
        ensures
            final(self)@ == old(self)@.insert(name@, value@),
    {
        let k = str_to_chars(name.as_str());
        let v = str_to_chars(value.as_str());
        self.words.set(k, v);
    }
}

} // verus!
