//! Association lists: tables that keep the order in which keys were added.
use vstd::prelude::*;

verus! {

/// A key that can be compared.
pub trait Key: View + Sized {
    /// Whether two keys are the same.
    fn same_key(&self, other: &Self) -> (result: bool)
        ensures
            result == (self@ == other@),
    ;
}

impl Key for String {
    fn same_key(&self, other: &String) -> (result: bool) {
        *self == *other
    }
}

/// An entry of a table.
#[derive(Debug)]
pub struct Entry<K, V> {
    pub key: K,
    pub value: V,
}

/// An entry as a mathematical value.
pub struct Pair<K, V> {
    pub key: K,
    pub value: V,
}

impl<K: View, V: View> View for Entry<K, V> {
    type V = Pair<K::V, V::V>;

    open spec fn view(&self) -> Pair<K::V, V::V> {
        Pair { key: self.key@, value: self.value@ }
    }
}

/// Where a key stands among the entries, or the number of entries where it
/// does not.
pub open spec fn position<K, V>(entries: Seq<Pair<K, V>>, key: K) -> nat
    decreases entries.len(),
{
    if entries.len() == 0 || entries[0].key == key {
        0
    } else {
        1 + position(entries.drop_first(), key)
    }
}

/// What is stored under a key.
pub open spec fn lookup<K, V>(entries: Seq<Pair<K, V>>, key: K) -> Option<V> {
    let index = position(entries, key);
    if index < entries.len() {
        Some(entries[index as int].value)
    } else {
        None
    }
}

/// The entries with a value stored under a key: in the place of the old value,
/// or at the end where there was none.
pub open spec fn stored<K, V>(entries: Seq<Pair<K, V>>, key: K, value: V) -> Seq<Pair<K, V>> {
    let index = position(entries, key);
    if index < entries.len() {
        entries.update(index as int, Pair { key, value })
    } else {
        entries.push(Pair { key, value })
    }
}

/// The entries without a key.
pub open spec fn removed<K, V>(entries: Seq<Pair<K, V>>, key: K) -> Seq<Pair<K, V>> {
    let index = position(entries, key);
    if index < entries.len() {
        entries.remove(index as int)
    } else {
        entries
    }
}

/// Whether no key occurs twice.
pub open spec fn is_table<K, V>(entries: Seq<Pair<K, V>>) -> bool {
    forall|i: int, j: int|
        0 <= i < j < entries.len() ==> (#[trigger] entries[i]).key != (#[trigger] entries[j]).key
}

/// The position of a key holds the key, and no earlier position does.
pub proof fn position_is_first<K, V>(entries: Seq<Pair<K, V>>, key: K)
    ensures
        position(entries, key) <= entries.len(),
        position(entries, key) < entries.len() ==> entries[position(entries, key) as int].key
            == key,
        forall|i: int|
            0 <= i < position(entries, key) ==> (#[trigger] entries[i]).key != key,
    decreases entries.len(),
{
    if entries.len() > 0 && entries[0].key != key {
        let rest = entries.drop_first();
        position_is_first(rest, key);
        assert forall|i: int| 0 <= i < position(entries, key) implies (#[trigger] entries[i]).key
            != key by {
            if i > 0 {
                assert(rest[i - 1] == entries[i]);
            }
        }
    }
}

/// A position that holds a key first is the position of the key.
pub proof fn first_is_position<K, V>(entries: Seq<Pair<K, V>>, key: K, index: nat)
    requires
        index <= entries.len(),
        index < entries.len() ==> entries[index as int].key == key,
        forall|i: int| 0 <= i < index ==> (#[trigger] entries[i]).key != key,
    ensures
        position(entries, key) == index,
{
    position_is_first(entries, key);
    let found = position(entries, key);
    if found < index {
        assert(entries[found as int].key != key);
    }
}

/// Storing keeps keys distinct, gives back what was stored and leaves every
/// other key alone.
pub proof fn stored_is_found<K, V>(entries: Seq<Pair<K, V>>, key: K, value: V)
    requires
        is_table(entries),
    ensures
        is_table(stored(entries, key, value)),
        lookup(stored(entries, key, value), key) == Some(value),
        forall|other: K|
            other != key ==> #[trigger] lookup(stored(entries, key, value), other) == lookup(
                entries,
                other,
            ),
{
    position_is_first(entries, key);
    let index = position(entries, key);
    let after = stored(entries, key, value);
    first_is_position(after, key, index);
    assert forall|other: K| other != key implies #[trigger] lookup(after, other) == lookup(
        entries,
        other,
    ) by {
        position_is_first(entries, other);
        let place = position(entries, other);
        if place < entries.len() {
            first_is_position(after, other, place);
        } else {
            first_is_position(after, other, after.len());
        }
    }
}

/// Removing keeps keys distinct, leaves nothing under the key and every other
/// key alone.
pub proof fn removed_is_gone<K, V>(entries: Seq<Pair<K, V>>, key: K)
    requires
        is_table(entries),
    ensures
        is_table(removed(entries, key)),
        lookup(removed(entries, key), key) is None,
        forall|other: K|
            other != key ==> #[trigger] lookup(removed(entries, key), other) == lookup(
                entries,
                other,
            ),
{
    position_is_first(entries, key);
    let index = position(entries, key) as int;
    let after = removed(entries, key);
    assert forall|i: int| 0 <= i < after.len() implies (#[trigger] after[i]).key != key by {
        if index < entries.len() {
            if i >= index {
                assert(after[i] == entries[i + 1]);
                assert(entries[index].key != entries[i + 1].key);
            } else {
                assert(after[i] == entries[i]);
            }
        }
    }
    first_is_position(after, key, after.len());
    assert forall|other: K| other != key implies #[trigger] lookup(after, other) == lookup(
        entries,
        other,
    ) by {
        position_is_first(entries, other);
        let place = position(entries, other) as int;
        if index < entries.len() {
            if place < index {
                assert forall|i: int| 0 <= i < place implies (#[trigger] after[i]).key
                    != other by {
                    assert(after[i] == entries[i]);
                }
                assert(after[place] == entries[place]);
                first_is_position(after, other, place as nat);
            } else {
                let moved = place - 1;
                assert forall|i: int| 0 <= i < moved implies (#[trigger] after[i]).key
                    != other by {
                    if i < index {
                        assert(after[i] == entries[i]);
                    } else {
                        assert(after[i] == entries[i + 1]);
                    }
                }
                if place < entries.len() {
                    assert(after[moved] == entries[place]);
                }
                first_is_position(after, other, moved as nat);
            }
        }
    }
    assert(is_table(after)) by {
        assert forall|i: int, j: int| 0 <= i < j < after.len() implies (#[trigger] after[i]).key
            != (#[trigger] after[j]).key by {
            if index < entries.len() {
                let a = if i < index {
                    i
                } else {
                    i + 1
                };
                let b = if j < index {
                    j
                } else {
                    j + 1
                };
                assert(after[i] == entries[a] && after[j] == entries[b]);
            }
        }
    }
}

/// A table without a repeated key.
#[derive(Debug)]
pub struct Table<K, V> {
    pub entries: Vec<Entry<K, V>>,
}

impl<K: View, V: View> View for Table<K, V> {
    type V = Seq<Pair<K::V, V::V>>;

    open spec fn view(&self) -> Seq<Pair<K::V, V::V>> {
        self.entries@.map_values(|entry: Entry<K, V>| entry@)
    }
}

impl<K: Key, V: View> Table<K, V> {
    /// A table without entries.
    pub fn new() -> (table: Self)
        ensures
            table@ == Seq::<Pair<K::V, V::V>>::empty(),
    {
        let table = Table { entries: Vec::new() };
        assert(table@ =~= Seq::<Pair<K::V, V::V>>::empty());
        table
    }

    /// Number of entries.
    pub fn len(&self) -> (count: usize)
        ensures
            count == self@.len(),
    {
        self.entries.len()
    }

    /// Where a key stands, or the number of entries where it does not.
    pub fn find(&self, key: &K) -> (index: usize)
        ensures
            index == position(self@, key@),
            index <= self.entries@.len(),
    {
        let ghost all = self@;
        let mut index: usize = 0;
        assert(all.skip(0) =~= all);
        while index < self.entries.len()
            invariant
                index <= self.entries@.len(),
                all == self@,
                index + position(all.skip(index as int), key@) == position(all, key@),
            decreases self.entries.len() - index,
        {
            proof {
                assert(all.skip(index as int)[0] == self.entries@[index as int]@);
                assert(all.skip(index as int).drop_first() =~= all.skip(index + 1));
            }
            if self.entries[index].key.same_key(key) {
                return index;
            }
            index = index + 1;
        }
        index
    }

    /// What is stored under a key.
    pub fn get(&self, key: &K) -> (value: Option<&V>)
        ensures
            match lookup(self@, key@) {
                Some(found) => value is Some && value->0@ == found,
                None => value is None,
            },
    {
        let index: usize = self.find(key);
        if index < self.entries.len() {
            Some(&self.entries[index].value)
        } else {
            None
        }
    }

    /// Stores a value under a key.
    pub fn insert(&mut self, key: K, value: V)
        ensures
            final(self)@ == stored(old(self)@, key@, value@),
    {
        let ghost before = self@;
        let index: usize = self.find(&key);
        let entry = Entry { key, value };
        if index < self.entries.len() {
            self.entries.set(index, entry);
            assert(self@ =~= before.update(index as int, entry@));
        } else {
            self.entries.push(entry);
            assert(self@ =~= before.push(entry@));
        }
    }

    /// Removes a key and hands out what was stored under it.
    pub fn take(&mut self, key: &K) -> (value: Option<V>)
        ensures
            final(self)@ == removed(old(self)@, key@),
            match lookup(old(self)@, key@) {
                Some(found) => value is Some && value->0@ == found,
                None => value is None,
            },
    {
        let ghost before = self@;
        let index: usize = self.find(key);
        if index < self.entries.len() {
            let entry = self.entries.remove(index);
            assert(self@ =~= before.remove(index as int));
            assert(before[index as int] == entry@);
            Some(entry.value)
        } else {
            None
        }
    }

    /// Removes a key.
    pub fn remove(&mut self, key: &K)
        ensures
            final(self)@ == removed(old(self)@, key@),
    {
        let ghost before = self@;
        let index: usize = self.find(key);
        if index < self.entries.len() {
            self.entries.remove(index);
            assert(self@ =~= before.remove(index as int));
        }
    }
}

} // verus!
