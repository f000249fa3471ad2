//! A small map: one value for each key.
use vstd::prelude::*;

verus! {

/// A key that can be told from another.
pub trait Key: Copy {
    /// What tells the key from others.
    type Id;

    spec fn id(&self) -> Self::Id;

    fn same(&self, other: &Self) -> (r: bool)
        ensures
            r == (self.id() == other.id()),
    ;
}

/// A map whose entries stand in the order in which their keys came.
pub struct Keyed<K: Key, V: Copy> {
    entries: Vec<(K, V)>,
}

/// What the entries say, a later one for a key in place of an earlier one.
pub open spec fn entries_map<K: Key, V>(entries: Seq<(K, V)>) -> Map<K::Id, V>
    decreases entries.len(),
{
    if entries.len() == 0 {
        Map::empty()
    } else {
        entries_map(entries.drop_last()).insert(entries.last().0.id(), entries.last().1)
    }
}

/// No key stands twice.
pub open spec fn keys_distinct<K: Key, V>(entries: Seq<(K, V)>) -> bool {
    forall|i: int, j: int|
        0 <= i < j < entries.len() ==> #[trigger] entries[i].0.id() != #[trigger] entries[j].0.id()
}

impl<K: Key, V: Copy> View for Keyed<K, V> {
    type V = Map<K::Id, V>;

    closed spec fn view(&self) -> Map<K::Id, V> {
        entries_map(self.entries@)
    }
}

proof fn lemma_entry<K: Key, V>(entries: Seq<(K, V)>, i: int)
    requires
        keys_distinct(entries),
        0 <= i < entries.len(),
    ensures
        entries_map(entries).contains_key(entries[i].0.id()),
        entries_map(entries)[entries[i].0.id()] == entries[i].1,
    decreases entries.len(),
{
    if i < entries.len() - 1 {
        assert(entries.drop_last()[i] == entries[i]);
        lemma_entry(entries.drop_last(), i);
        assert(entries[i].0.id() != entries[entries.len() - 1].0.id());
    }
}

proof fn lemma_absent<K: Key, V>(entries: Seq<(K, V)>, id: K::Id)
    requires
        forall|i: int| 0 <= i < entries.len() ==> #[trigger] entries[i].0.id() != id,
    ensures
        !entries_map(entries).contains_key(id),
    decreases entries.len(),
{
    if entries.len() > 0 {
        assert forall|i: int| 0 <= i < entries.drop_last().len() implies #[trigger]
            entries.drop_last()[i].0.id() != id by {
            assert(entries.drop_last()[i] == entries[i]);
        }
        lemma_absent(entries.drop_last(), id);
        assert(entries[entries.len() - 1].0.id() != id);
    }
}

proof fn lemma_count<K: Key, V>(entries: Seq<(K, V)>)
    requires
        keys_distinct(entries),
    ensures
        entries_map(entries).dom().finite(),
        entries_map(entries).dom().len() == entries.len(),
    decreases entries.len(),
{
    if entries.len() > 0 {
        let rest = entries.drop_last();
        lemma_count(rest);
        assert forall|i: int| 0 <= i < rest.len() implies #[trigger] rest[i].0.id()
            != entries.last().0.id() by {
            assert(entries[i].0.id() != entries[entries.len() - 1].0.id());
        }
        lemma_absent(rest, entries.last().0.id());
        assert(entries_map(entries).dom() =~= entries_map(rest).dom().insert(
            entries.last().0.id(),
        ));
    } else {
        assert(entries_map(entries).dom() =~= Set::empty());
    }
}

proof fn lemma_update<K: Key, V>(entries: Seq<(K, V)>, i: int, k: K, v: V)
    requires
        keys_distinct(entries),
        0 <= i < entries.len(),
        entries[i].0.id() == k.id(),
    ensures
        entries_map(entries.update(i, (k, v))) =~= entries_map(entries).insert(k.id(), v),
        keys_distinct(entries.update(i, (k, v))),
    decreases entries.len(),
{
    let after = entries.update(i, (k, v));
    if i == entries.len() - 1 {
        assert(after.drop_last() =~= entries.drop_last());
    } else {
        assert(after.drop_last() =~= entries.drop_last().update(i, (k, v)));
        assert(entries.drop_last()[i] == entries[i]);
        lemma_update(entries.drop_last(), i, k, v);
        assert(entries[i].0.id() != entries[entries.len() - 1].0.id());
    }
    assert forall|a: int, b: int| 0 <= a < b < after.len() implies #[trigger] after[a].0.id()
        != #[trigger] after[b].0.id() by {
        assert(entries[a].0.id() != entries[b].0.id());
    }
}

/// The entries whose values the predicate keeps.
pub open spec fn kept<I, V>(m: Map<I, V>, keep: spec_fn(V) -> bool) -> Map<I, V> {
    m.restrict(Set::new(|k: I| m.contains_key(k) && keep(m[k])))
}

impl<K: Key, V: Copy> Keyed<K, V> {
    #[verifier::type_invariant]
    spec fn distinct(self) -> bool {
        keys_distinct(self.entries@)
    }

    pub fn new() -> (r: Keyed<K, V>)
        ensures
            r@ == Map::<K::Id, V>::empty(),
    {
        Keyed { entries: Vec::new() }
    }

    /// How many keys there are.
    pub fn len(&self) -> (r: usize)
        ensures
            r == self@.dom().len(),
            self@.dom().finite(),
    {
        proof {
            use_type_invariant(self);
            lemma_count(self.entries@);
        }
        self.entries.len()
    }

    fn find(&self, key: K) -> (r: Option<usize>)
        ensures
            match r {
                Some(i) => i < self.entries@.len() && self.entries@[i as int].0.id() == key.id(),
                None => forall|i: int|
                    0 <= i < self.entries@.len() ==> #[trigger] self.entries@[i].0.id()
                        != key.id(),
            },
    {
        let mut i: usize = 0;
        while i < self.entries.len()
            invariant
                i <= self.entries@.len(),
                forall|j: int| 0 <= j < i ==> #[trigger] self.entries@[j].0.id() != key.id(),
            decreases self.entries@.len() - i,
        {
            if self.entries[i].0.same(&key) {
                return Some(i);
            }
            i = i + 1;
        }
        None
    }

    pub fn get(&self, key: K) -> (r: Option<V>)
        ensures
            r == (if self@.contains_key(key.id()) {
                Some(self@[key.id()])
            } else {
                None
            }),
    {
        proof {
            use_type_invariant(self);
        }
        match self.find(key) {
            Some(i) => {
                proof {
                    lemma_entry(self.entries@, i as int);
                }
                Some(self.entries[i].1)
            },
            None => {
                proof {
                    lemma_absent(self.entries@, key.id());
                }
                None
            },
        }
    }

    /// Sets the value for a key.
    pub fn insert(&mut self, key: K, value: V)
        ensures
            final(self)@ == old(self)@.insert(key.id(), value),
    {
        proof {
            use_type_invariant(&*self);
        }
        let found = self.find(key);
        let mut entries: Vec<(K, V)> = Vec::new();
        std::mem::swap(&mut entries, &mut self.entries);
        match found {
            Some(i) => {
                proof {
                    lemma_update(entries@, i as int, key, value);
                }
                entries.set(i, (key, value));
            },
            None => {
                let ghost before = entries@;
                entries.push((key, value));
                proof {
                    assert(entries@.drop_last() =~= before);
                }
            },
        }
        self.entries = entries;
    }

    /// Drops the entries whose values `keep` does not want.
    pub(crate) fn retain(
        &mut self,
        keep: impl Fn(V) -> bool,
        Ghost(wanted): Ghost<spec_fn(V) -> bool>,
    )
        requires
            forall|v: V| call_requires(keep, (v,)),
            forall|v: V, b: bool| call_ensures(keep, (v,), b) ==> b == wanted(v),
        ensures
            final(self)@ == kept(old(self)@, wanted),
    {
        proof {
            use_type_invariant(&*self);
        }
        let mut entries: Vec<(K, V)> = Vec::new();
        std::mem::swap(&mut entries, &mut self.entries);
        let mut rest: Vec<(K, V)> = Vec::new();
        let mut i: usize = 0;
        proof {
            assert(entries@.take(0) =~= Seq::empty());
            assert(entries_map(rest@) =~= kept(entries_map(entries@.take(0)), wanted));
        }
        while i < entries.len()
            invariant
                i <= entries@.len(),
                keys_distinct(entries@),
                keys_distinct(rest@),
                entries_map(rest@) == kept(entries_map(entries@.take(i as int)), wanted),
                forall|a: int|
                    0 <= a < rest@.len() ==> exists|b: int|
                        0 <= b < i && #[trigger] rest@[a] == entries@[b],
                forall|v: V| call_requires(keep, (v,)),
                forall|v: V, b: bool| call_ensures(keep, (v,), b) ==> b == wanted(v),
            decreases entries@.len() - i,
        {
            let entry = entries[i];
            let ghost before = rest@;
            let ghost done = entries@.take(i as int);
            proof {
                assert(entries@.take(i + 1).drop_last() =~= done);
                assert forall|b: int| 0 <= b < done.len() implies #[trigger] done[b].0.id()
                    != entry.0.id() by {
                    assert(entries@[b].0.id() != entries@[i as int].0.id());
                }
                lemma_absent(done, entry.0.id());
            }
            if keep(entry.1) {
                rest.push(entry);
                proof {
                    assert(rest@.drop_last() =~= before);
                    assert forall|a: int, b: int| 0 <= a < b < rest@.len() implies #[trigger]
                        rest@[a].0.id() != #[trigger] rest@[b].0.id() by {
                        if b == rest@.len() - 1 {
                            let c = choose|c: int| 0 <= c < i && before[a] == entries@[c];
                            assert(entries@[c].0.id() != entries@[i as int].0.id());
                        } else {
                            assert(before[a].0.id() != before[b].0.id());
                        }
                    }
                    assert forall|a: int| 0 <= a < rest@.len() implies exists|b: int|
                        0 <= b < i + 1 && #[trigger] rest@[a] == entries@[b] by {
                        if a == rest@.len() - 1 {
                            assert(rest@[a] == entries@[i as int]);
                        } else {
                            assert(rest@[a] == before[a]);
                        }
                    }
                }
            }
            proof {
                assert(entries_map(rest@) =~= kept(entries_map(entries@.take(i + 1)), wanted));
            }
            i = i + 1;
        }
        proof {
            assert(entries@.take(i as int) =~= entries@);
        }
        self.entries = rest;
    }

    /// Drops the entry for a key.
    pub fn remove(&mut self, key: K)
        ensures
            final(self)@ == old(self)@.remove(key.id()),
    {
        proof {
            use_type_invariant(&*self);
        }
        let mut entries: Vec<(K, V)> = Vec::new();
        std::mem::swap(&mut entries, &mut self.entries);
        let mut rest: Vec<(K, V)> = Vec::new();
        let mut i: usize = 0;
        proof {
            assert(entries@.take(0) =~= Seq::empty());
            assert(entries_map(rest@) =~= entries_map(entries@.take(0)).remove(key.id()));
        }
        while i < entries.len()
            invariant
                i <= entries@.len(),
                keys_distinct(entries@),
                keys_distinct(rest@),
                entries_map(rest@) == entries_map(entries@.take(i as int)).remove(key.id()),
                forall|a: int|
                    0 <= a < rest@.len() ==> exists|b: int|
                        0 <= b < i && #[trigger] rest@[a] == entries@[b],
            decreases entries@.len() - i,
        {
            let entry = entries[i];
            let ghost before = rest@;
            proof {
                assert(entries@.take(i + 1).drop_last() =~= entries@.take(i as int));
            }
            if !entry.0.same(&key) {
                rest.push(entry);
                proof {
                    assert(rest@.drop_last() =~= before);
                    assert forall|a: int, b: int| 0 <= a < b < rest@.len() implies #[trigger]
                        rest@[a].0.id() != #[trigger] rest@[b].0.id() by {
                        if b == rest@.len() - 1 {
                            let c = choose|c: int| 0 <= c < i && before[a] == entries@[c];
                            assert(entries@[c].0.id() != entries@[i as int].0.id());
                        } else {
                            assert(before[a].0.id() != before[b].0.id());
                        }
                    }
                    assert forall|a: int| 0 <= a < rest@.len() implies exists|b: int|
                        0 <= b < i + 1 && #[trigger] rest@[a] == entries@[b] by {
                        if a == rest@.len() - 1 {
                            assert(rest@[a] == entries@[i as int]);
                        } else {
                            assert(rest@[a] == before[a]);
                        }
                    }
                }
            }
            proof {
                assert(entries_map(rest@) =~= entries_map(entries@.take(i + 1)).remove(key.id()));
            }
            i = i + 1;
        }
        proof {
            assert(entries@.take(i as int) =~= entries@);
        }
        self.entries = rest;
    }
}

} // verus!
