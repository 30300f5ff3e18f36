//! A table whose keys are each there once, in the order they were first given.

use crate::bytes::same;
use vstd::prelude::*;

verus! {

/// A key a table can hold a value under.
pub trait Key: Sized {
    /// What makes two keys the same one.
    type K;

    /// What makes this key this one.
    spec fn name(&self) -> Self::K;

    /// Whether two keys are the same one.
    fn is(&self, other: &Self) -> (answer: bool)
        ensures
            answer == (self.name() == other.name()),
    ;
}

impl Key for Vec<u8> {
    type K = Seq<u8>;

    open spec fn name(&self) -> Seq<u8> {
        self@
    }

    fn is(&self, other: &Self) -> (answer: bool) {
        same(self, other)
    }
}

impl Key for usize {
    type K = usize;

    open spec fn name(&self) -> usize {
        *self
    }

    fn is(&self, other: &Self) -> (answer: bool) {
        *self == *other
    }
}

/// Entries under keys that are each there once.
#[derive(Debug)]
pub struct Table<K, V> {
    pub entries: Vec<(K, V)>,
}

/// No key stands in two places.
pub open spec fn distinct<K: Key, V>(entries: Seq<(K, V)>) -> bool {
    forall|i: int, j: int|
        0 <= i < j < entries.len() ==> (#[trigger] entries[i]).0.name() != (
        #[trigger] entries[j]).0.name()
}

/// The map the entries make.
pub open spec fn mapped<K: Key, V>(entries: Seq<(K, V)>) -> Map<K::K, V>
    decreases entries.len(),
{
    if entries.len() == 0 {
        Map::empty()
    } else {
        mapped(entries.drop_last()).insert(entries.last().0.name(), entries.last().1)
    }
}

/// A key is in the map exactly where an entry stands under it.
pub proof fn mapped_keys<K: Key, V>(entries: Seq<(K, V)>)
    ensures
        forall|key: K::K| #[trigger]
            mapped(entries).dom().contains(key) <==> exists|i: int|
                0 <= i < entries.len() && (#[trigger] entries[i]).0.name() == key,
    decreases entries.len(),
{
    if entries.len() > 0 {
        let before = entries.drop_last();
        mapped_keys(before);
        assert forall|key: K::K| #[trigger]
            mapped(entries).dom().contains(key) <==> exists|i: int|
                0 <= i < entries.len() && (#[trigger] entries[i]).0.name() == key by {
            if mapped(before).dom().contains(key) {
                let i = choose|i: int| 0 <= i < before.len() && (#[trigger] before[i]).0.name() == key;
                assert(entries[i].0.name() == key);
            }
            if entries.last().0.name() == key {
                assert(entries[entries.len() - 1].0.name() == key);
            }
            if exists|i: int| 0 <= i < entries.len() && (#[trigger] entries[i]).0.name() == key {
                let i = choose|i: int|
                    0 <= i < entries.len() && (#[trigger] entries[i]).0.name() == key;
                if i < entries.len() - 1 {
                    assert(before[i].0.name() == key);
                }
            }
        }
    }
}

/// The map holds, under each entry's key, that entry's value.
pub proof fn mapped_value<K: Key, V>(entries: Seq<(K, V)>, at: int)
    requires
        distinct(entries),
        0 <= at < entries.len(),
    ensures
        mapped(entries).dom().contains(entries[at].0.name()),
        mapped(entries)[entries[at].0.name()] == entries[at].1,
    decreases entries.len(),
{
    if at < entries.len() - 1 {
        assert(entries.drop_last()[at] == entries[at]);
        assert(entries[at].0.name() != entries[entries.len() - 1].0.name());
        mapped_value(entries.drop_last(), at);
    }
}

/// Replacing one entry's value is inserting it under that entry's key.
pub proof fn mapped_update<K: Key, V>(entries: Seq<(K, V)>, at: int, value: V)
    requires
        distinct(entries),
        0 <= at < entries.len(),
    ensures
        distinct(entries.update(at, (entries[at].0, value))),
        mapped(entries.update(at, (entries[at].0, value))) == mapped(entries).insert(
            entries[at].0.name(),
            value,
        ),
    decreases entries.len(),
{
    let changed = entries.update(at, (entries[at].0, value));
    if at == entries.len() - 1 {
        assert(changed.drop_last() =~= entries.drop_last());
        assert(mapped(changed) =~= mapped(entries).insert(entries[at].0.name(), value));
    } else {
        let before = entries.drop_last();
        mapped_update(before, at, value);
        assert(changed.drop_last() =~= before.update(at, (before[at].0, value)));
        assert(entries[at].0.name() != entries[entries.len() - 1].0.name());
        assert(mapped(changed) =~= mapped(entries).insert(entries[at].0.name(), value));
    }
    assert(distinct(changed)) by {
        assert forall|i: int, j: int| 0 <= i < j < changed.len() implies (
        #[trigger] changed[i]).0.name() != (#[trigger] changed[j]).0.name() by {
            assert(entries[i].0.name() != entries[j].0.name());
        }
    }
}

/// Taking one entry out takes its key out of the map.
pub proof fn mapped_remove<K: Key, V>(entries: Seq<(K, V)>, at: int)
    requires
        distinct(entries),
        0 <= at < entries.len(),
    ensures
        distinct(entries.remove(at)),
        mapped(entries.remove(at)) == mapped(entries).remove(entries[at].0.name()),
    decreases entries.len(),
{
    let rest = entries.remove(at);
    assert(distinct(rest)) by {
        assert forall|i: int, j: int| 0 <= i < j < rest.len() implies (
        #[trigger] rest[i]).0.name() != (#[trigger] rest[j]).0.name() by {
            let a = if i < at {
                i
            } else {
                i + 1
            };
            let b = if j < at {
                j
            } else {
                j + 1
            };
            assert(entries[a].0.name() != entries[b].0.name());
        }
    }
    if at == entries.len() - 1 {
        assert(rest =~= entries.drop_last());
        mapped_keys(rest);
        assert(!mapped(rest).dom().contains(entries[at].0.name())) by {
            if mapped(rest).dom().contains(entries[at].0.name()) {
                let i = choose|i: int|
                    0 <= i < rest.len() && (#[trigger] rest[i]).0.name() == entries[at].0.name();
                assert(entries[i].0.name() != entries[at].0.name());
            }
        }
        assert(mapped(rest) =~= mapped(entries).remove(entries[at].0.name()));
    } else {
        let before = entries.drop_last();
        mapped_remove(before, at);
        assert(rest.drop_last() =~= before.remove(at));
        assert(rest.last() == entries.last());
        assert(entries[at].0.name() != entries[entries.len() - 1].0.name());
        assert(mapped(rest) =~= mapped(entries).remove(entries[at].0.name()));
    }
}

impl<K: Key, V> Table<K, V> {
    /// What the table holds under each key.
    pub open spec fn view(&self) -> Map<K::K, V> {
        mapped(self.entries@)
    }

    /// Every key is there once.
    pub open spec fn wf(&self) -> bool {
        distinct(self.entries@)
    }

    /// A table with nothing in it.
    pub fn new() -> (table: Self)
        ensures
            table.wf(),
            table@ == Map::<K::K, V>::empty(),
            table.entries@.len() == 0,
    {
        Table { entries: Vec::new() }
    }

    /// Where a key stands, if it is there.
    pub fn place(&self, key: &K) -> (at: Option<usize>)
        requires
            self.wf(),
        ensures
            match at {
                Some(place) => place < self.entries@.len() && self.entries@[place as int].0.name()
                    == key.name() && self@.dom().contains(key.name()) && self@[key.name()]
                    == self.entries@[place as int].1,
                None => !self@.dom().contains(key.name()),
            },
    {
        let mut at: usize = 0;
        while at < self.entries.len()
            invariant
                at <= self.entries@.len(),
                self.wf(),
                forall|i: int|
                    0 <= i < at ==> (#[trigger] self.entries@[i]).0.name() != key.name(),
            decreases self.entries@.len() - at,
        {
            if self.entries[at].0.is(key) {
                proof {
                    mapped_value(self.entries@, at as int);
                }
                return Some(at);
            }
            at += 1;
        }
        proof {
            mapped_keys(self.entries@);
        }
        None
    }

    /// Put a value under a key that is not there yet.
    pub fn add_new(&mut self, key: K, value: V)
        requires
            old(self).wf(),
            !old(self)@.dom().contains(key.name()),
        ensures
            final(self).wf(),
            final(self)@ == old(self)@.insert(key.name(), value),
            final(self).entries@ == old(self).entries@.push((key, value)),
    {
        let ghost before = self.entries@;
        proof {
            mapped_keys(before);
        }
        self.entries.push((key, value));
        proof {
            assert(self.entries@.drop_last() =~= before);
            assert forall|i: int, j: int| 0 <= i < j < self.entries@.len() implies (
            #[trigger] self.entries@[i]).0.name() != (#[trigger] self.entries@[j]).0.name() by {
                if j == before.len() {
                    assert(before[i].0.name() != key.name());
                } else {
                    assert(before[i].0.name() != before[j].0.name());
                }
            }
        }
    }

    /// The value under a key, where there is one.
    pub fn get(&self, key: &K) -> (value: Option<&V>)
        requires
            self.wf(),
        ensures
            match value {
                Some(held) => self@.dom().contains(key.name()) && self@[key.name()] == *held,
                None => !self@.dom().contains(key.name()),
            },
    {
        match self.place(key) {
            Some(at) => Some(&self.entries[at].1),
            None => None,
        }
    }

    /// Take the value under a key out, where there is one.
    pub fn take(&mut self, key: &K) -> (value: Option<V>)
        requires
            old(self).wf(),
        ensures
            final(self).wf(),
            final(self)@ == old(self)@.remove(key.name()),
            match value {
                Some(held) => old(self)@.dom().contains(key.name()) && old(self)@[key.name()]
                    == held,
                None => !old(self)@.dom().contains(key.name()),
            },
    {
        match self.place(key) {
            Some(at) => {
                let ghost before = self.entries@;
                let entry = self.entries.remove(at);
                proof {
                    mapped_remove(before, at as int);
                    assert(self.entries@ =~= before.remove(at as int));
                }
                Some(entry.1)
            },
            None => {
                assert(self@.remove(key.name()) =~= self@);
                None
            },
        }
    }

    /// Put a value under a key, in place of what stood there.
    pub fn put(&mut self, key: K, value: V)
        requires
            old(self).wf(),
        ensures
            final(self).wf(),
            final(self)@ == old(self)@.insert(key.name(), value),
    {
        match self.place(&key) {
            Some(at) => {
                let ghost before = self.entries@;
                proof {
                    mapped_update(before, at as int, value);
                }
                self.entries[at].1 = value;
                assert(self.entries@ =~= before.update(at as int, (before[at as int].0, value)));
            },
            None => {
                self.add_new(key, value);
            },
        }
    }
}

} // verus!
