//! What the contracts see of the ledger they run on.
//!
//! A contract call is a decision: from the contract's storage and the call's
//! arguments it works out a new storage and a script of [`Effect`]s. Whoever
//! hosts the contract performs the script in order and, where the call fails,
//! rolls everything back.

use vstd::prelude::*;

verus! {

/// The identity of an account or a contract, as the host names it.
#[derive(Debug, Clone, Copy, PartialEq, Eq, Structural)]
pub struct Address {
    pub id: u128,
}

/// One step of the script a call leaves to the host. `W` is what the contract
/// writes to its storage, `E` what it publishes.
#[derive(Debug, Clone, Copy, PartialEq, Eq)]
pub enum Effect<W, E> {
    /// The call goes on only if this address has authorised it.
    RequireAuth(Address),
    /// An entry of the contract's storage is set.
    Write(W),
    /// A token moves `amount` from one address to another.
    Transfer { token: Address, from: Address, to: Address, amount: i128 },
    /// An event is published.
    Publish(E),
}

// ---------------------------------------------------------------------------
// Tables
// ---------------------------------------------------------------------------

/// A key of a [`Table`].
pub trait Key: Sized {
    fn same(&self, other: &Self) -> (r: bool)
        ensures
            r == (*self == *other),
    ;
}

impl Key for u64 {
    fn same(&self, other: &Self) -> (r: bool) {
        *self == *other
    }
}

impl Key for Address {
    fn same(&self, other: &Self) -> (r: bool) {
        *self == *other
    }
}

impl Key for (u64, Address) {
    fn same(&self, other: &Self) -> (r: bool) {
        self.0 == other.0 && self.1 == other.1
    }
}

/// The value of a key: that of its first entry, from `i` on.
pub open spec fn entry_from<K, V>(entries: Seq<(K, V)>, i: int, key: K) -> Option<V>
    decreases entries.len() - i,
{
    if 0 <= i < entries.len() {
        if entries[i].0 == key {
            Some(entries[i].1)
        } else {
            entry_from(entries, i + 1, key)
        }
    } else {
        None
    }
}

/// Storage entries by key.
#[derive(Debug, Clone)]
pub struct Table<K, V> {
    entries: Vec<(K, V)>,
}

impl<K, V> View for Table<K, V> {
    type V = Map<K, V>;

    closed spec fn view(&self) -> Map<K, V> {
        Map::new(
            |k: K| entry_from(self.entries@, 0, k) is Some,
            |k: K| entry_from(self.entries@, 0, k)->0,
        )
    }
}

proof fn lemma_entry_updated<K, V>(
    entries: Seq<(K, V)>,
    i: int,
    at: int,
    key: K,
    value: V,
    other: K,
)
    requires
        0 <= i <= at < entries.len(),
        entries[at].0 == key,
        forall|j: int| 0 <= j < at ==> (#[trigger] entries[j]).0 != key,
    ensures
        entry_from(entries.update(at, (key, value)), i, other) == if other == key {
            Some(value)
        } else {
            entry_from(entries, i, other)
        },
    decreases entries.len() - i,
{
    let updated = entries.update(at, (key, value));
    if i < at {
        lemma_entry_updated(entries, i + 1, at, key, value, other);
        assert(updated[i] == entries[i]);
    } else if other != key {
        lemma_entry_same(entries, updated, at + 1, other);
    }
}

proof fn lemma_entry_same<K, V>(a: Seq<(K, V)>, b: Seq<(K, V)>, i: int, key: K)
    requires
        0 <= i <= a.len() == b.len(),
        forall|j: int| i <= j < a.len() ==> a[j] == b[j],
    ensures
        entry_from(a, i, key) == entry_from(b, i, key),
    decreases a.len() - i,
{
    if i < a.len() {
        lemma_entry_same(a, b, i + 1, key);
    }
}

proof fn lemma_entry_pushed<K, V>(entries: Seq<(K, V)>, i: int, key: K, value: V, other: K)
    requires
        0 <= i <= entries.len(),
        forall|j: int| i <= j < entries.len() ==> (#[trigger] entries[j]).0 != key,
    ensures
        entry_from(entries.push((key, value)), i, other) == if other == key {
            Some(value)
        } else {
            entry_from(entries, i, other)
        },
    decreases entries.len() - i,
{
    let pushed = entries.push((key, value));
    if i < entries.len() {
        lemma_entry_pushed(entries, i + 1, key, value, other);
        assert(pushed[i] == entries[i]);
    } else {
        reveal_with_fuel(entry_from, 2);
        assert(pushed[i] == (key, value));
    }
}

impl<K: Key, V> Table<K, V> {
    pub fn new() -> (r: Self)
        ensures
            r@ == Map::<K, V>::empty(),
    {
        let table: Table<K, V> = Table { entries: Vec::new() };
        assert(table@ =~= Map::<K, V>::empty());
        table
    }

    /// The value of a key.
    pub fn get(&self, key: &K) -> (r: Option<&V>)
        ensures
            match r {
                Some(v) => self@.dom().contains(*key) && self@[*key] == *v,
                None => !self@.dom().contains(*key),
            },
    {
        let mut i: usize = 0;
        while i < self.entries.len()
            invariant
                i <= self.entries@.len(),
                entry_from(self.entries@, 0, *key) == entry_from(self.entries@, i as int, *key),
            decreases self.entries@.len() - i,
        {
            if self.entries[i].0.same(key) {
                return Some(&self.entries[i].1);
            }
            i += 1;
        }
        None
    }

    /// Sets the value of a key.
    pub fn set(&mut self, key: K, value: V)
        ensures
            final(self)@ == old(self)@.insert(key, value),
    {
        let ghost before = self.entries@;
        let mut i: usize = 0;
        while i < self.entries.len()
            invariant
                i <= self.entries@.len(),
                self.entries@ == before,
                before == old(self).entries@,
                forall|j: int| 0 <= j < i ==> (#[trigger] before[j]).0 != key,
            decreases self.entries@.len() - i,
        {
            if self.entries[i].0.same(&key) {
                let ghost k = key;
                let ghost v = value;
                self.entries.set(i, (key, value));
                proof {
                    assert forall|other: K|
                        entry_from(self.entries@, 0, other) == if other == k {
                            Some(v)
                        } else {
                            entry_from(before, 0, other)
                        } by {
                        lemma_entry_updated(before, 0, i as int, k, v, other);
                    }
                    assert(self@ =~= old(self)@.insert(k, v));
                }
                return;
            }
            i += 1;
        }
        let ghost k = key;
        let ghost v = value;
        self.entries.push((key, value));
        proof {
            assert forall|other: K|
                entry_from(self.entries@, 0, other) == if other == k {
                    Some(v)
                } else {
                    entry_from(before, 0, other)
                } by {
                lemma_entry_pushed(before, 0, k, v, other);
            }
            assert(self@ =~= old(self)@.insert(k, v));
        }
    }
}

} // verus!
