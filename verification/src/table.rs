//! Small lookup tables and sets whose keys are compared by their views.

use crate::lexical_path::LexicalPath;
use crate::text::same;
use vstd::prelude::*;

verus! {

/// A key of a table: two keys are the same key if their views are equal.
pub trait Key: View + Sized {
    /// True if both stand for the same key.
    fn same_key(&self, other: &Self) -> (r: bool)
        ensures
            r == (self@ == other@),
    ;

    /// Another value for the same key.
    fn copy_key(&self) -> (r: Self)
        ensures
            r@ == self@,
    ;
}

impl Key for String {
    fn same_key(&self, other: &Self) -> (r: bool) {
        same(self.as_str(), other.as_str())
    }

    fn copy_key(&self) -> (r: Self) {
        self.clone()
    }
}

impl Key for LexicalPath {
    fn same_key(&self, other: &Self) -> (r: bool) {
        self.same_path(other)
    }

    fn copy_key(&self) -> (r: Self) {
        self.clone()
    }
}

/// True if no key occurs twice.
pub open spec fn distinct_keys<K: Key, V>(entries: Seq<(K, V)>) -> bool {
    forall|i: int, j: int|
        0 <= i < j < entries.len() ==> (#[trigger] entries[i]).0@ != (#[trigger] entries[j]).0@
}

/// What a list of entries holds, later entries for a key hiding earlier ones.
pub open spec fn entries_map<K: Key, V>(entries: Seq<(K, V)>) -> Map<<K as View>::V, V>
    decreases entries.len(),
{
    if entries.len() == 0 {
        Map::empty()
    } else {
        entries_map(entries.drop_last()).insert(entries.last().0@, entries.last().1)
    }
}

/// A table from keys to values.
pub struct Table<K: Key, V> {
    entries: Vec<(K, V)>,
}

impl<K: Key, V> View for Table<K, V> {
    type V = Map<<K as View>::V, V>;

    closed spec fn view(&self) -> Map<<K as View>::V, V> {
        entries_map(self.entries@)
    }
}

proof fn lemma_entries_map<K: Key, V>(entries: Seq<(K, V)>)
    requires
        distinct_keys(entries),
    ensures
        forall|i: int|
            0 <= i < entries.len() ==> entries_map(entries).dom().contains(
                (#[trigger] entries[i]).0@,
            ) && entries_map(entries)[entries[i].0@] == entries[i].1,
        forall|k: <K as View>::V|
            entries_map(entries).dom().contains(k) ==> exists|i: int|
                0 <= i < entries.len() && (#[trigger] entries[i]).0@ == k,
        entries_map(entries).dom().finite(),
        entries_map(entries).dom().len() == entries.len(),
    decreases entries.len(),
{
    let all = entries_map(entries);
    if entries.len() > 0 {
        let init = entries.drop_last();
        assert forall|i: int, j: int| 0 <= i < j < init.len() implies (#[trigger] init[i]).0@ != (
        #[trigger] init[j]).0@ by {
            assert(init[i] == entries[i]);
            assert(init[j] == entries[j]);
        }
        lemma_entries_map(init);
        assert forall|i: int| 0 <= i < entries.len() implies all.dom().contains(
            (#[trigger] entries[i]).0@,
        ) && all[entries[i].0@] == entries[i].1 by {
            if i < init.len() {
                assert(init[i] == entries[i]);
                assert(entries[i].0@ != entries[entries.len() - 1].0@);
            }
        }
        assert forall|k: <K as View>::V| all.dom().contains(k) implies exists|i: int|
            0 <= i < entries.len() && (#[trigger] entries[i]).0@ == k by {
            if k == entries.last().0@ {
                assert(entries[entries.len() - 1].0@ == k);
            } else {
                assert(entries_map(init).dom().contains(k));
                let i = choose|i: int| 0 <= i < init.len() && (#[trigger] init[i]).0@ == k;
                assert(entries[i].0@ == k);
            }
        }
        assert(!entries_map(init).dom().contains(entries.last().0@)) by {
            if entries_map(init).dom().contains(entries.last().0@) {
                let i = choose|i: int|
                    0 <= i < init.len() && (#[trigger] init[i]).0@ == entries.last().0@;
                assert(entries[i].0@ == entries[entries.len() - 1].0@);
            }
        }
        assert(all.dom() =~= entries_map(init).dom().insert(entries.last().0@));
    }
}

impl<K: Key, V> Table<K, V> {
    #[verifier::type_invariant]
    spec fn well_formed(self) -> bool {
        distinct_keys(self.entries@)
    }

    /// An empty table.
    pub fn new() -> (r: Self)
        ensures
            r@ == Map::<<K as View>::V, V>::empty(),
    {
        Table { entries: Vec::new() }
    }

    /// The number of keys.
    pub fn len(&self) -> (r: usize)
        ensures
            r == self@.dom().len(),
            self@.dom().finite(),
    {
        proof {
            use_type_invariant(self);
            lemma_entries_map(self.entries@);
        }
        self.entries.len()
    }

    /// The place of a key, or the number of entries if the key is absent.
    fn find(&self, key: &K) -> (r: usize)
        ensures
            r <= self.entries@.len(),
            r < self.entries@.len() ==> self.entries@[r as int].0@ == key@ && self@.dom().contains(
                key@,
            ) && self@[key@] == self.entries@[r as int].1,
            r == self.entries@.len() <==> !self@.dom().contains(key@),
    {
        proof {
            use_type_invariant(self);
            lemma_entries_map(self.entries@);
        }
        let mut i: usize = 0;
        while i < self.entries.len()
            invariant
                i <= self.entries@.len(),
                forall|j: int| 0 <= j < i ==> (#[trigger] self.entries@[j]).0@ != key@,
            decreases self.entries@.len() - i,
        {
            if self.entries[i].0.same_key(key) {
                proof {
                    use_type_invariant(self);
                    lemma_entries_map(self.entries@);
                }
                return i;
            }
            i = i + 1;
        }
        i
    }

    /// True if the key is present.
    pub fn contains(&self, key: &K) -> (r: bool)
        ensures
            r == self@.dom().contains(key@),
    {
        let i = self.find(key);
        i < self.entries.len()
    }

    /// The value of a key.
    pub fn get(&self, key: &K) -> (r: Option<&V>)
        ensures
            r is Some == self@.dom().contains(key@),
            r matches Some(v) ==> *v == self@[key@],
    {
        let i = self.find(key);
        if i < self.entries.len() {
            Some(&self.entries[i].1)
        } else {
            None
        }
    }

    /// Takes a key out of the table.
    pub fn remove(&mut self, key: &K) -> (r: Option<V>)
        ensures
            final(self)@ == old(self)@.remove(key@),
            r is Some == old(self)@.dom().contains(key@),
            r matches Some(v) ==> v == old(self)@[key@],
    {
        let i = self.find(key);
        if i < self.entries.len() {
            let mut entries: Vec<(K, V)> = Vec::new();
            proof {
                use_type_invariant(&*self);
            }
            let ghost before = self.entries@;
            std::mem::swap(&mut entries, &mut self.entries);
            let taken = entries.remove(i);
            proof {
                let after = entries@;
                assert(after =~= before.remove(i as int));
                assert forall|a: int, b: int| 0 <= a < b < after.len() implies (
                #[trigger] after[a]).0@ != (#[trigger] after[b]).0@ by {
                    let x = if a < i {
                        a
                    } else {
                        a + 1
                    };
                    let y = if b < i {
                        b
                    } else {
                        b + 1
                    };
                    assert(after[a] == before[x] && after[b] == before[y]);
                }
                lemma_entries_map(before);
                lemma_entries_map(after);
                let m = entries_map(after);
                let o = entries_map(before).remove(key@);
                assert forall|k: <K as View>::V| m.dom().contains(k) implies o.dom().contains(k)
                    && m[k] == o[k] by {
                    let a = choose|a: int| 0 <= a < after.len() && (#[trigger] after[a]).0@ == k;
                    let x = if a < i {
                        a
                    } else {
                        a + 1
                    };
                    assert(after[a] == before[x]);
                    assert(before[x].0@ != before[i as int].0@);
                }
                assert forall|k: <K as View>::V| o.dom().contains(k) implies m.dom().contains(
                    k,
                ) by {
                    let x = choose|x: int| 0 <= x < before.len() && (#[trigger] before[x]).0@ == k;
                    let a = if x < i {
                        x
                    } else {
                        x - 1
                    };
                    assert(after[a] == before[x]);
                }
                assert(m =~= o);
            }
            self.entries = entries;
            Some(taken.1)
        } else {
            assert(self@.remove(key@) =~= self@);
            None
        }
    }

    /// Gives a key a value, in place of an earlier one.
    pub fn insert(&mut self, key: K, value: V)
        ensures
            final(self)@ == old(self)@.insert(key@, value),
    {
        let ghost start = self@;
        let dropped = self.remove(&key);
        let mut entries: Vec<(K, V)> = Vec::new();
        proof {
            use_type_invariant(&*self);
            lemma_entries_map(self.entries@);
        }
        let ghost before = self.entries@;
        std::mem::swap(&mut entries, &mut self.entries);
        let ghost k = key@;
        entries.push((key, value));
        proof {
            let after = entries@;
            assert(after.drop_last() =~= before);
            assert forall|a: int, b: int| 0 <= a < b < after.len() implies (#[trigger] after[a]).0@
                != (#[trigger] after[b]).0@ by {
                if b == before.len() {
                    assert(entries_map(before).dom().contains(before[a].0@));
                } else {
                    assert(before[a].0@ != before[b].0@);
                }
            }
            assert(entries_map(after) =~= start.remove(k).insert(k, value));
            assert(start.remove(k).insert(k, value) =~= start.insert(k, value));
        }
        self.entries = entries;
    }

    /// The keys, each once.
    pub fn keys(&self) -> (r: Vec<K>)
        ensures
            r@.len() == self@.dom().len(),
            forall|i: int| 0 <= i < r@.len() ==> self@.dom().contains((#[trigger] r@[i])@),
            forall|k: <K as View>::V|
                self@.dom().contains(k) ==> exists|i: int|
                    0 <= i < r@.len() && (#[trigger] r@[i])@ == k,
            forall|i: int, j: int|
                0 <= i < j < r@.len() ==> (#[trigger] r@[i])@ != (#[trigger] r@[j])@,
    {
        proof {
            use_type_invariant(self);
            lemma_entries_map(self.entries@);
        }
        let mut out: Vec<K> = Vec::new();
        let mut i: usize = 0;
        while i < self.entries.len()
            invariant
                i <= self.entries@.len(),
                out@.len() == i,
                forall|j: int| 0 <= j < i ==> (#[trigger] out@[j])@ == self.entries@[j].0@,
            decreases self.entries@.len() - i,
        {
            out.push(self.entries[i].0.copy_key());
            i = i + 1;
        }
        assert forall|k: <K as View>::V| self@.dom().contains(k) implies exists|i: int|
            0 <= i < out@.len() && (#[trigger] out@[i])@ == k by {
            let j = choose|j: int|
                0 <= j < self.entries@.len() && (#[trigger] self.entries@[j]).0@ == k;
            assert(out@[j]@ == k);
        }
        assert forall|i: int, j: int| 0 <= i < j < out@.len() implies (#[trigger] out@[i])@ != (
        #[trigger] out@[j])@ by {
            assert(self.entries@[i].0@ != self.entries@[j].0@);
        }
        out
    }
}

/// A set of keys.
pub struct KeySet<K: Key> {
    table: Table<K, bool>,
}

impl<K: Key> View for KeySet<K> {
    type V = Set<<K as View>::V>;

    closed spec fn view(&self) -> Set<<K as View>::V> {
        self.table@.dom()
    }
}

impl<K: Key> KeySet<K> {
    /// The empty set.
    pub fn new() -> (r: Self)
        ensures
            r@ == Set::<<K as View>::V>::empty(),
    {
        KeySet { table: Table::new() }
    }

    /// True if the key is in the set.
    pub fn contains(&self, key: &K) -> (r: bool)
        ensures
            r == self@.contains(key@),
    {
        self.table.contains(key)
    }

    /// True if nothing is in the set.
    pub fn is_empty(&self) -> (r: bool)
        ensures
            r == (self@ == Set::<<K as View>::V>::empty()),
    {
        let n = self.table.len();
        proof {
            if n == 0 {
                assert(self@.len() == 0);
                assert(self@ =~= Set::<<K as View>::V>::empty());
            } else {
                assert(Set::<<K as View>::V>::empty().len() == 0);
            }
        }
        n == 0
    }

    /// Adds a key.
    pub fn insert(&mut self, key: K)
        ensures
            final(self)@ == old(self)@.insert(key@),
    {
        self.table.insert(key, true);
        assert(self@ =~= old(self)@.insert(key@));
    }

    /// Removes a key.
    pub fn remove(&mut self, key: &K)
        ensures
            final(self)@ == old(self)@.remove(key@),
    {
        let dropped = self.table.remove(key);
        assert(self@ =~= old(self)@.remove(key@));
    }

    /// The keys, each once.
    pub fn to_list(&self) -> (r: Vec<K>)
        ensures
            forall|i: int| 0 <= i < r@.len() ==> self@.contains((#[trigger] r@[i])@),
            forall|k: <K as View>::V|
                self@.contains(k) ==> exists|i: int| 0 <= i < r@.len() && (#[trigger] r@[i])@ == k,
            forall|i: int, j: int|
                0 <= i < j < r@.len() ==> (#[trigger] r@[i])@ != (#[trigger] r@[j])@,
    {
        self.table.keys()
    }

    /// Another set of the same keys.
    pub fn copy_set(&self) -> (r: Self)
        ensures
            r@ == self@,
    {
        let mut out = KeySet::new();
        out.extend(self);
        assert(out@ =~= self@);
        out
    }

    /// Adds all keys of another set.
    pub fn extend(&mut self, other: &Self)
        ensures
            final(self)@ == old(self)@.union(other@),
    {
        let list = other.to_list();
        let mut i: usize = 0;
        while i < list.len()
            invariant
                i <= list@.len(),
                forall|k: <K as View>::V|
                    self@.contains(k) <==> old(self)@.contains(k) || exists|j: int|
                        0 <= j < i && (#[trigger] list@[j])@ == k,
            decreases list@.len() - i,
        {
            let ghost before = self@;
            self.insert(list[i].copy_key());
            assert forall|k: <K as View>::V| self@.contains(k) <==> old(self)@.contains(k)
                || exists|j: int| 0 <= j < i + 1 && (#[trigger] list@[j])@ == k by {
                if self@.contains(k) {
                    if k == list@[i as int]@ {
                    } else {
                        assert(before.contains(k));
                    }
                }
                if old(self)@.contains(k) {
                    assert(before.contains(k));
                }
                if exists|j: int| 0 <= j < i + 1 && (#[trigger] list@[j])@ == k {
                    let j = choose|j: int| 0 <= j < i + 1 && (#[trigger] list@[j])@ == k;
                    if j < i {
                        assert(before.contains(k));
                    }
                }
            }
            i = i + 1;
        }
        assert(self@ =~= old(self)@.union(other@));
    }
}

} // verus!
