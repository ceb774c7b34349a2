//! A small table from string keys to values, in which each key occurs once
//! and a later insertion under a key replaces the earlier one.
use vstd::prelude::*;

verus! {

/// The map that inserting the pairs one after another into an empty map
/// gives: where a key occurs more than once, the last value wins.
pub open spec fn map_of<V>(s: Seq<(Seq<char>, V)>) -> Map<Seq<char>, V>
    decreases s.len(),
{
    if s.len() == 0 {
        Map::empty()
    } else {
        map_of(s.drop_last()).insert(s.last().0, s.last().1)
    }
}

/// Whether no key occurs twice.
pub open spec fn distinct_keys<V>(s: Seq<(Seq<char>, V)>) -> bool {
    forall|i: int, j: int| 0 <= i < j < s.len() ==> s[i].0 != s[j].0
}

proof fn lemma_map_of_lookup<V>(s: Seq<(Seq<char>, V)>, k: Seq<char>)
    requires
        distinct_keys(s),
    ensures
        map_of(s).dom().contains(k) <==> exists|i: int| 0 <= i < s.len() && s[i].0 == k,
        forall|i: int| 0 <= i < s.len() && s[i].0 == k ==> map_of(s)[k] == s[i].1,
    decreases s.len(),
{
    if s.len() > 0 {
        let t = s.drop_last();
        lemma_map_of_lookup(t, k);
        if s.last().0 != k {
            if map_of(s).dom().contains(k) {
                let i = choose|i: int| 0 <= i < t.len() && t[i].0 == k;
                assert(s[i].0 == k);
            }
            if exists|i: int| 0 <= i < s.len() && s[i].0 == k {
                let i = choose|i: int| 0 <= i < s.len() && s[i].0 == k;
                assert(i < t.len());
                assert(t[i].0 == k);
            }
            assert forall|i: int| 0 <= i < s.len() && s[i].0 == k implies map_of(s)[k]
                == s[i].1 by {
                assert(t[i] == s[i]);
            }
        } else {
            assert(s[s.len() - 1].0 == k);
            assert forall|i: int| 0 <= i < s.len() && s[i].0 == k implies map_of(s)[k]
                == s[i].1 by {
                if i < s.len() - 1 {
                    assert(s[i].0 == s[s.len() - 1].0);
                }
            }
        }
    }
}

proof fn lemma_map_of_update<V>(s: Seq<(Seq<char>, V)>, j: int, v: V)
    requires
        distinct_keys(s),
        0 <= j < s.len(),
    ensures
        map_of(s.update(j, (s[j].0, v))) == map_of(s).insert(s[j].0, v),
    decreases s.len(),
{
    let k = s[j].0;
    let u = s.update(j, (k, v));
    if j == s.len() - 1 {
        assert(u.drop_last() =~= s.drop_last());
        assert(map_of(u) =~= map_of(s).insert(k, v));
    } else {
        let t = s.drop_last();
        assert(u.drop_last() =~= t.update(j, (k, v)));
        lemma_map_of_update(t, j, v);
        assert(s.last().0 != k);
        assert(map_of(u) =~= map_of(s).insert(k, v));
    }
}

/// A table from string keys to values.
#[derive(Debug)]
pub struct Table<V> {
    entries: Vec<(String, V)>,
}

pub open spec fn key_views<V>(s: Seq<(String, V)>) -> Seq<(Seq<char>, V)> {
    s.map_values(|e: (String, V)| (e.0@, e.1))
}

impl<V> View for Table<V> {
    type V = Map<Seq<char>, V>;

    closed spec fn view(&self) -> Map<Seq<char>, V> {
        map_of(key_views(self.entries@))
    }
}

impl<V> Table<V> {
    #[verifier::type_invariant]
    closed spec fn keys_distinct(self) -> bool {
        distinct_keys(key_views(self.entries@))
    }

    /// An empty table.
    pub fn new() -> (r: Table<V>)
        ensures
            r@ == Map::<Seq<char>, V>::empty(),
    {
        let r = Table { entries: Vec::new() };
        assert(key_views(r.entries@) =~= Seq::empty());
        r
    }

    fn find(&self, key: &String) -> (r: Option<usize>)
        ensures
            match r {
                Some(j) => j < self.entries@.len() && self.entries@[j as int].0@ == key@,
                None => forall|i: int|
                    0 <= i < self.entries@.len() ==> self.entries@[i].0@ != key@,
            },
    {
        let mut i: usize = 0;
        while i < self.entries.len()
            invariant
                i <= self.entries@.len(),
                forall|k: int| 0 <= k < i ==> self.entries@[k].0@ != key@,
            decreases self.entries@.len() - i,
        {
            if self.entries[i].0 == *key {
                return Some(i);
            }
            i = i + 1;
        }
        None
    }

    /// The value under a key.
    pub fn get(&self, key: &str) -> (r: Option<&V>)
        ensures
            match r {
                Some(v) => self@.dom().contains(key@) && self@[key@] == *v,
                None => !self@.dom().contains(key@),
            },
    {
        proof {
            use_type_invariant(self);
            lemma_map_of_lookup(key_views(self.entries@), key@);
        }
        let k = key.to_owned();
        match self.find(&k) {
            Some(j) => {
                proof {
                    assert(key_views(self.entries@)[j as int].0 == key@);
                }
                Some(&self.entries[j].1)
            },
            None => {
                proof {
                    if exists|i: int|
                        0 <= i < key_views(self.entries@).len() && key_views(self.entries@)[i].0
                            == key@ {
                        let i = choose|i: int|
                            0 <= i < key_views(self.entries@).len() && key_views(
                                self.entries@,
                            )[i].0 == key@;
                        assert(self.entries@[i].0@ == key@);
                    }
                }
                None
            },
        }
    }

    /// Puts a value under a key, in place of any value that was there.
    pub fn insert(&mut self, key: String, value: V)
        ensures
            final(self)@ == old(self)@.insert(key@, value),
    {
        proof {
            use_type_invariant(&*self);
        }
        let ghost old_views = key_views(self.entries@);
        match self.find(&key) {
            Some(j) => {
                let mut entries = Vec::new();
                std::mem::swap(&mut entries, &mut self.entries);
                proof {
                    lemma_map_of_update(old_views, j as int, value);
                }
                entries.set(j, (key, value));
                assert(key_views(entries@) =~= old_views.update(j as int, (old_views[j as int].0, value)));
                self.entries = entries;
            },
            None => {
                let mut entries = Vec::new();
                std::mem::swap(&mut entries, &mut self.entries);
                let ghost k = key@;
                entries.push((key, value));
                assert(key_views(entries@) =~= old_views.push((k, value)));
                assert(key_views(entries@).drop_last() =~= old_views);
                self.entries = entries;
            },
        }
    }
}

/// The map that inserting pairs in turn gives holds, for a key, the value
/// of the last pair with that key, and holds no key that no pair has.
pub proof fn lemma_last_insertion_wins<V>(s: Seq<(Seq<char>, V)>, k: Seq<char>)
    ensures
        forall|i: int|
            0 <= i < s.len() && s[i].0 == k && (forall|j: int| i < j < s.len() ==> s[j].0 != k)
                ==> map_of(s).dom().contains(k) && map_of(s)[k] == s[i].1,
        (forall|i: int| 0 <= i < s.len() ==> s[i].0 != k) ==> !map_of(s).dom().contains(k),
    decreases s.len(),
{
    if s.len() > 0 {
        let t = s.drop_last();
        lemma_last_insertion_wins(t, k);
        assert forall|i: int|
            0 <= i < s.len() && s[i].0 == k && (forall|j: int| i < j < s.len() ==> s[j].0 != k)
            implies map_of(s).dom().contains(k) && map_of(s)[k] == s[i].1 by {
            if i < s.len() - 1 {
                assert(t[i] == s[i]);
                assert(s.last().0 != k);
                assert forall|j: int| i < j < t.len() implies t[j].0 != k by {
                    assert(t[j] == s[j]);
                }
            }
        }
        if forall|i: int| 0 <= i < s.len() ==> s[i].0 != k {
            assert forall|i: int| 0 <= i < t.len() implies t[i].0 != k by {
                assert(t[i] == s[i]);
            }
            assert(s.last().0 != k);
        }
    }
}

} // verus!