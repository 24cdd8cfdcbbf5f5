//! The application's settings table: text values under text keys, where a
//! read gives back what the last write of that key stored.
use vstd::prelude::*;

use crate::text::str_equal;

verus! {

/// Why a settings read or write failed.
#[derive(Debug, Clone, Copy, PartialEq, Eq, Structural)]
pub enum StorageError {
    LockPoisoned,
    Unavailable,
}

/// The value stored under `key` in a list of entries: the first entry with
/// that key wins.
pub open spec fn lookup(entries: Seq<(Seq<char>, Seq<char>)>, key: Seq<char>) -> Option<Seq<char>>
    decreases entries.len(),
{
    if entries.len() == 0 {
        None
    } else if entries[0].0 == key {
        Some(entries[0].1)
    } else {
        lookup(entries.drop_first(), key)
    }
}

/// The settings table.
pub struct SettingsStore {
    entries: Vec<(String, String)>,
}

impl SettingsStore {
    /// The entries as character sequences.
    pub closed spec fn entry_views(&self) -> Seq<(Seq<char>, Seq<char>)> {
        Seq::new(self.entries@.len(), |i: int| (self.entries@[i].0@, self.entries@[i].1@))
    }

    /// The value stored under `key`.
    pub open spec fn value(&self, key: Seq<char>) -> Option<Seq<char>> {
        lookup(self.entry_views(), key)
    }

    /// An empty table.
    pub fn new() -> (store: Self)
        ensures
            forall|key: Seq<char>| #[trigger] store.value(key) is None,
    {
        let store = SettingsStore { entries: Vec::new() };
        assert forall|key: Seq<char>| #[trigger] store.value(key) is None by {
            assert(store.entry_views().len() == 0);
        }
        store
    }

    /// The stored entries, key and value, for saving them.
    pub fn entries(&self) -> (entries: &Vec<(String, String)>)
        ensures
            Seq::new(entries@.len(), |i: int| (entries@[i].0@, entries@[i].1@)) == self.entry_views(),
    {
        &self.entries
    }

    /// Index of the first entry stored under `key`.
    fn find(&self, key: &str) -> (result: Option<usize>)
        ensures
            match result {
                Some(i) => i < self.entries@.len() && self.entries@[i as int].0@ == key@ && forall|j: int|
                    0 <= j < i ==> self.entries@[j].0@ != key@,
                None => forall|j: int| 0 <= j < self.entries@.len() ==> self.entries@[j].0@ != key@,
            },
    {
        let mut i: usize = 0;
        while i < self.entries.len()
            invariant
                i <= self.entries@.len(),
                forall|j: int| 0 <= j < i ==> self.entries@[j].0@ != key@,
            decreases self.entries.len() - i,
        {
            if str_equal(self.entries[i].0.as_str(), key) {
                return Some(i);
            }
            i += 1;
        }
        None
    }

    /// The value stored under `key`, or `None` when there is none.
    pub fn read_setting(&self, key: &str) -> (result: Result<Option<String>, StorageError>)
        ensures
            result matches Ok(found) && match self.value(key@) {
                Some(value) => found matches Some(text) && text@ == value,
                None => found is None,
            },
    {
        match self.find(key) {
            Some(i) => {
                proof {
                    lemma_lookup_first(self.entry_views(), key@, i as int);
                }
                Ok(Some(self.entries[i].1.clone()))
            },
            None => {
                proof {
                    lemma_lookup_absent(self.entry_views(), key@);
                }
                Ok(None)
            },
        }
    }

    /// Stores `value` under `key`, replacing what was there.
    pub fn write_setting(&mut self, key: &str, value: String)
        ensures
            final(self).value(key@) == Some(value@),
            forall|other: Seq<char>| other != key@ ==> #[trigger] final(self).value(other) == old(
                self,
            ).value(other),
    {
        let ghost before = self.entry_views();
        match self.find(key) {
            Some(i) => {
                let stored_key = self.entries[i].0.clone();
                self.entries.set(i, (stored_key, value));
                proof {
                    let after = self.entry_views();
                    assert(after =~= before.update(i as int, (key@, value@)));
                    lemma_lookup_update(before, key@, value@, i as int);
                }
            },
            None => {
                self.entries.push((key.to_owned(), value));
                proof {
                    let after = self.entry_views();
                    assert(after =~= before.push((key@, value@)));
                    lemma_lookup_push(before, key@, value@);
                }
            },
        }
    }
}

proof fn lemma_lookup_first(entries: Seq<(Seq<char>, Seq<char>)>, key: Seq<char>, i: int)
    requires
        0 <= i < entries.len(),
        entries[i].0 == key,
        forall|j: int| 0 <= j < i ==> entries[j].0 != key,
    ensures
        lookup(entries, key) == Some(entries[i].1),
    decreases i,
{
    if i > 0 {
        lemma_lookup_first(entries.drop_first(), key, i - 1);
    }
}

proof fn lemma_lookup_absent(entries: Seq<(Seq<char>, Seq<char>)>, key: Seq<char>)
    requires
        forall|j: int| 0 <= j < entries.len() ==> entries[j].0 != key,
    ensures
        lookup(entries, key) is None,
    decreases entries.len(),
{
    if entries.len() > 0 {
        lemma_lookup_absent(entries.drop_first(), key);
    }
}

proof fn lemma_lookup_update(
    entries: Seq<(Seq<char>, Seq<char>)>,
    key: Seq<char>,
    value: Seq<char>,
    i: int,
)
    requires
        0 <= i < entries.len(),
        entries[i].0 == key,
        forall|j: int| 0 <= j < i ==> entries[j].0 != key,
    ensures
        lookup(entries.update(i, (key, value)), key) == Some(value),
        forall|other: Seq<char>| other != key ==> #[trigger] lookup(entries.update(i, (key, value)), other)
            == lookup(entries, other),
    decreases i,
{
    let updated = entries.update(i, (key, value));
    if i > 0 {
        assert(updated.drop_first() =~= entries.drop_first().update(i - 1, (key, value)));
        lemma_lookup_update(entries.drop_first(), key, value, i - 1);
        assert(updated[0] == entries[0]);
    } else {
        assert(updated.drop_first() =~= entries.drop_first());
    }
    assert forall|other: Seq<char>| other != key implies #[trigger] lookup(updated, other) == lookup(
        entries,
        other,
    ) by {
        assert(updated.len() == entries.len());
        if i > 0 {
            assert(updated[0] == entries[0]);
            if entries[0].0 != other {
                assert(lookup(entries.drop_first().update(i - 1, (key, value)), other) == lookup(
                    entries.drop_first(),
                    other,
                ));
            }
        } else {
            assert(updated[0].0 == key);
            assert(entries[0].0 == key);
        }
    }
}

proof fn lemma_lookup_push(entries: Seq<(Seq<char>, Seq<char>)>, key: Seq<char>, value: Seq<char>)
    requires
        forall|j: int| 0 <= j < entries.len() ==> entries[j].0 != key,
    ensures
        lookup(entries.push((key, value)), key) == Some(value),
        forall|other: Seq<char>| #[trigger] lookup(entries.push((key, value)), other) == if other == key {
            Some(value)
        } else {
            lookup(entries, other)
        },
    decreases entries.len(),
{
    let pushed = entries.push((key, value));
    if entries.len() > 0 {
        assert(pushed.drop_first() =~= entries.drop_first().push((key, value)));
        lemma_lookup_push(entries.drop_first(), key, value);
        assert(pushed[0] == entries[0]);
    } else {
        assert(pushed.drop_first() =~= Seq::<(Seq<char>, Seq<char>)>::empty());
    }
    assert forall|other: Seq<char>| #[trigger] lookup(pushed, other) == if other == key {
        Some(value)
    } else {
        lookup(entries, other)
    } by {
        if entries.len() > 0 {
            assert(pushed[0] == entries[0]);
            if entries[0].0 != other {
                assert(lookup(entries.drop_first().push((key, value)), other) == if other == key {
                    Some(value)
                } else {
                    lookup(entries.drop_first(), other)
                });
            }
        } else {
            assert(pushed[0] == (key, value));
            assert(lookup(pushed.drop_first(), other) is None);
        }
    }
}

} // verus!
