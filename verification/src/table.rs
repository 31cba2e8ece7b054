//! A table from text keys to values. The entries keep the order in which their keys
//! were first inserted, and no key occurs twice.
use vstd::prelude::*;
use crate::text;

verus! {

/// A table from text keys to values, in insertion order.
#[derive(Debug, Clone, PartialEq)]
pub struct Table<V> {
    entry_keys: Vec<String>,
    entry_vals: Vec<V>,
}

/// The map that two parallel sequences of distinct keys and of values stand for.
pub open spec fn as_map<V>(keys: Seq<Seq<char>>, vals: Seq<V>) -> Map<Seq<char>, V> {
    Map::new(|k: Seq<char>| keys.contains(k), |k: Seq<char>| vals[keys.index_of(k)])
}

pub proof fn lemma_index_of(keys: Seq<Seq<char>>, i: int)
    requires
        keys.no_duplicates(),
        0 <= i < keys.len(),
    ensures
        keys.contains(keys[i]),
        keys.index_of(keys[i]) == i,
{
    assert(keys.contains(keys[i]));
    let j = keys.index_of(keys[i]);
    assert(keys[j] == keys[i]);
}

impl<V> Table<V> {
    /// The keys, in the order of their first insertion.
    pub closed spec fn keys(&self) -> Seq<Seq<char>> {
        text::views(self.entry_keys@)
    }

    /// The values, in the order of their keys.
    pub closed spec fn vals(&self) -> Seq<V> {
        self.entry_vals@
    }

    /// The invariant: one value for each key, and no key twice.
    pub open spec fn wf(&self) -> bool {
        self.keys().len() == self.vals().len() && self.keys().no_duplicates()
    }

    /// The table as a map.
    pub open spec fn view(&self) -> Map<Seq<char>, V> {
        as_map(self.keys(), self.vals())
    }

    pub fn new() -> (r: Self)
        ensures
            r.wf(),
            r.keys() == Seq::<Seq<char>>::empty(),
            r.vals() == Seq::<V>::empty(),
            r@ == Map::<Seq<char>, V>::empty(),
    {
        let r = Table { entry_keys: Vec::new(), entry_vals: Vec::new() };
        proof {
            assert(r.keys() =~= Seq::<Seq<char>>::empty());
            assert(r@ =~= Map::<Seq<char>, V>::empty());
        }
        r
    }

    pub fn len(&self) -> (n: usize)
        requires
            self.wf(),
        ensures
            n == self.keys().len(),
            n == self.vals().len(),
    {
        self.entry_keys.len()
    }

    pub fn is_empty(&self) -> (r: bool)
        requires
            self.wf(),
        ensures
            r == (self.keys().len() == 0),
    {
        self.entry_keys.len() == 0
    }

    /// The key of the entry at a position.
    pub fn key_at(&self, i: usize) -> (k: &str)
        requires
            i < self.keys().len(),
        ensures
            k@ == self.keys()[i as int],
    {
        self.entry_keys[i].as_str()
    }

    /// The value of the entry at a position.
    pub fn value_at(&self, i: usize) -> (v: &V)
        requires
            i < self.vals().len(),
        ensures
            *v == self.vals()[i as int],
    {
        &self.entry_vals[i]
    }

    /// The position of a key.
    pub fn position(&self, key: &str) -> (r: Option<usize>)
        requires
            self.wf(),
        ensures
            match r {
                Some(i) => i < self.keys().len() && self.keys()[i as int] == key@
                    && self.keys().contains(key@) && self.keys().index_of(key@) == i,
                None => !self.keys().contains(key@),
            },
    {
        let mut i: usize = 0;
        while i < self.entry_keys.len()
            invariant
                self.wf(),
                i <= self.entry_keys@.len(),
                forall|j: int| 0 <= j < i ==> self.keys()[j] != key@,
            decreases self.entry_keys@.len() - i,
        {
            if text::same(self.entry_keys[i].as_str(), key) {
                proof {
                    lemma_index_of(self.keys(), i as int);
                }
                return Some(i);
            }
            i = i + 1;
        }
        None
    }

    pub fn contains_key(&self, key: &str) -> (r: bool)
        requires
            self.wf(),
        ensures
            r == self@.contains_key(key@),
            r == self.keys().contains(key@),
    {
        self.position(key).is_some()
    }

    pub fn get(&self, key: &str) -> (r: Option<&V>)
        requires
            self.wf(),
        ensures
            match r {
                Some(v) => self@.contains_key(key@) && self@[key@] == *v,
                None => !self@.contains_key(key@),
            },
    {
        match self.position(key) {
            Some(i) => Some(&self.entry_vals[i]),
            None => None,
        }
    }

    /// Replaces the value of the entry at a position.
    pub fn set_at(&mut self, i: usize, value: V)
        requires
            old(self).wf(),
            i < old(self).keys().len(),
        ensures
            final(self).wf(),
            final(self).keys() == old(self).keys(),
            final(self).vals() == old(self).vals().update(i as int, value),
            final(self)@ == old(self)@.insert(old(self).keys()[i as int], value),
    {
        self.entry_vals.set(i, value);
        proof {
            let k = self.keys()[i as int];
            lemma_index_of(self.keys(), i as int);
            assert(self@ =~= old(self)@.insert(k, value));
        }
    }

    /// Sets the value of a key. A key that is already there keeps its position; a new
    /// one comes last.
    pub fn insert(&mut self, key: String, value: V)
        requires
            old(self).wf(),
        ensures
            final(self).wf(),
            final(self)@ == old(self)@.insert(key@, value),
            old(self).keys().contains(key@) ==> {
                &&& final(self).keys() == old(self).keys()
                &&& final(self).vals() == old(self).vals().update(
                    old(self).keys().index_of(key@),
                    value,
                )
            },
            !old(self).keys().contains(key@) ==> {
                &&& final(self).keys() == old(self).keys().push(key@)
                &&& final(self).vals() == old(self).vals().push(value)
            },
    {
        match self.position(key.as_str()) {
            Some(i) => {
                self.set_at(i, value);
            },
            None => {
                let ghost k = key@;
                self.entry_keys.push(key);
                self.entry_vals.push(value);
                proof {
                    let n = old(self).keys().len() as int;
                    assert(self.keys() =~= old(self).keys().push(k));
                    assert(self.keys().no_duplicates());
                    assert forall|q: Seq<char>| #[trigger]
                        self@.contains_key(q) <==> old(self)@.insert(k, value).contains_key(q) by {
                        if old(self).keys().contains(q) {
                            let j = old(self).keys().index_of(q);
                            assert(self.keys()[j] == q);
                        }
                        if self.keys().contains(q) && q != k {
                            let j = self.keys().index_of(q);
                            assert(old(self).keys()[j] == q);
                        }
                        assert(self.keys()[n] == k);
                    }
                    assert forall|q: Seq<char>| #[trigger]
                        self@.contains_key(q) implies self@[q] == old(self)@.insert(k, value)[q] by {
                        if q == k {
                            lemma_index_of(self.keys(), n);
                        } else {
                            let j = self.keys().index_of(q);
                            assert(old(self).keys()[j] == q);
                            lemma_index_of(old(self).keys(), j);
                            lemma_index_of(self.keys(), j);
                        }
                    }
                    assert(self@ =~= old(self)@.insert(k, value));
                }
            },
        }
    }

    /// Removes the entry at a position; the entries after it move up.
    pub fn remove_at(&mut self, i: usize) -> (v: V)
        requires
            old(self).wf(),
            i < old(self).keys().len(),
        ensures
            final(self).wf(),
            v == old(self).vals()[i as int],
            final(self).keys() == old(self).keys().remove(i as int),
            final(self).vals() == old(self).vals().remove(i as int),
            final(self)@ == old(self)@.remove(old(self).keys()[i as int]),
    {
        let _key = self.entry_keys.remove(i);
        let v = self.entry_vals.remove(i);
        proof {
            let a = old(self).keys();
            let b = self.keys();
            let k = a[i as int];
            assert(b =~= a.remove(i as int));
            assert forall|x: int, y: int| 0 <= x < b.len() && 0 <= y < b.len() && x != y implies b[x]
                != b[y] by {
                let p = if x < i { x } else { x + 1 };
                let q = if y < i { y } else { y + 1 };
                assert(b[x] == a[p] && b[y] == a[q]);
            }
            assert forall|q: Seq<char>| #[trigger]
                self@.contains_key(q) <==> old(self)@.remove(k).contains_key(q) by {
                if b.contains(q) {
                    let x = b.index_of(q);
                    let p = if x < i { x } else { x + 1 };
                    assert(a[p] == q);
                }
                if a.contains(q) && q != k {
                    let x = a.index_of(q);
                    let p = if x < i { x } else { x - 1 };
                    assert(b[p] == q);
                }
            }
            assert forall|q: Seq<char>| #[trigger] self@.contains_key(q) implies self@[q]
                == old(self)@.remove(k)[q] by {
                let x = b.index_of(q);
                let p = if x < i { x } else { x + 1 };
                assert(a[p] == q);
                lemma_index_of(a, p);
                lemma_index_of(b, x);
            }
            assert(self@ =~= old(self)@.remove(k));
        }
        v
    }

    /// Removes a key, and gives back its value.
    pub fn remove(&mut self, key: &str) -> (r: Option<V>)
        requires
            old(self).wf(),
        ensures
            final(self).wf(),
            final(self)@ == old(self)@.remove(key@),
            match r {
                Some(v) => {
                    &&& old(self)@.contains_key(key@)
                    &&& old(self)@[key@] == v
                    &&& final(self).keys() == old(self).keys().remove(
                        old(self).keys().index_of(key@),
                    )
                    &&& final(self).vals() == old(self).vals().remove(
                        old(self).keys().index_of(key@),
                    )
                },
                None => {
                    &&& !old(self)@.contains_key(key@)
                    &&& final(self).keys() == old(self).keys()
                    &&& final(self).vals() == old(self).vals()
                },
            },
    {
        match self.position(key) {
            Some(i) => Some(self.remove_at(i)),
            None => {
                assert(self@ =~= old(self)@.remove(key@));
                None
            },
        }
    }
}


/// A table maps each of its keys to the value that stands with it, and nothing else.
pub proof fn law_keys_have_their_values<V>(keys: Seq<Seq<char>>, vals: Seq<V>, i: int)
    requires
        keys.no_duplicates(),
        keys.len() == vals.len(),
        0 <= i < keys.len(),
    ensures
        as_map(keys, vals).dom().contains(keys[i]),
        as_map(keys, vals)[keys[i]] == vals[i],
        forall|k: Seq<char>| as_map(keys, vals).dom().contains(k) ==> #[trigger] keys.contains(k),
{
    lemma_index_of(keys, i);
}

} // verus!
