//! A keyed store that keeps its rows in the order in which they were added.
//!
//! The model of a table is the sequence of its rows, each a pair of a key and
//! the view of a value. A well-formed table holds every key at most once, so
//! the sequence also reads as a finite map; the order is what iteration sees.

use vstd::prelude::*;

verus! {

/// The first position at or after `from` whose key is `key`, or the length of
/// `rows` when there is none.
pub open spec fn first_from<T>(rows: Seq<(Seq<char>, T)>, key: Seq<char>, from: int) -> int
    decreases rows.len() - from,
{
    if from < 0 || from >= rows.len() {
        rows.len() as int
    } else if rows[from].0 == key {
        from
    } else {
        first_from(rows, key, from + 1)
    }
}

/// The position of the first row under `key`, or `rows.len()` when no row has
/// that key.
pub open spec fn index_of<T>(rows: Seq<(Seq<char>, T)>, key: Seq<char>) -> int {
    first_from(rows, key, 0)
}

/// Some row is stored under `key`.
pub open spec fn has_key<T>(rows: Seq<(Seq<char>, T)>, key: Seq<char>) -> bool {
    index_of(rows, key) < rows.len()
}

/// The value of the first row under `key`; meaningful when `has_key` holds.
pub open spec fn value_of<T>(rows: Seq<(Seq<char>, T)>, key: Seq<char>) -> T {
    rows[index_of(rows, key)].1
}

/// No key occurs in two rows.
pub open spec fn keys_unique<T>(rows: Seq<(Seq<char>, T)>) -> bool {
    forall|i: int, j: int| 0 <= i < j < rows.len() ==> (#[trigger] rows[i]).0 != (#[trigger] rows[j]).0
}

/// The rows with the row under `key` taken out; `rows` itself when there is
/// none.
pub open spec fn without_key<T>(rows: Seq<(Seq<char>, T)>, key: Seq<char>) -> Seq<(Seq<char>, T)> {
    if has_key(rows, key) {
        rows.remove(index_of(rows, key))
    } else {
        rows
    }
}

/// What `first_from` finds: the least position from `from` on with the key.
pub proof fn lemma_first_from<T>(rows: Seq<(Seq<char>, T)>, key: Seq<char>, from: int)
    requires
        0 <= from <= rows.len(),
    ensures
        from <= first_from(rows, key, from) <= rows.len(),
        first_from(rows, key, from) < rows.len() ==> rows[first_from(rows, key, from)].0 == key,
        forall|j: int| from <= j < first_from(rows, key, from) ==> (#[trigger] rows[j]).0 != key,
    decreases rows.len() - from,
{
    if from < rows.len() && rows[from].0 != key {
        lemma_first_from(rows, key, from + 1);
    }
}

/// `index_of` is the least position with the key, and `has_key` says that
/// there is one.
pub proof fn lemma_index_of<T>(rows: Seq<(Seq<char>, T)>, key: Seq<char>)
    ensures
        0 <= index_of(rows, key) <= rows.len(),
        has_key(rows, key) ==> rows[index_of(rows, key)].0 == key,
        forall|j: int| 0 <= j < index_of(rows, key) ==> (#[trigger] rows[j]).0 != key,
        has_key(rows, key) <==> exists|j: int| 0 <= j < rows.len() && (#[trigger] rows[j]).0 == key,
{
    lemma_first_from(rows, key, 0);
    if has_key(rows, key) {
        assert(rows[index_of(rows, key)].0 == key);
    }
}

/// A position that holds the key, with no earlier one that does, is
/// `index_of`.
pub proof fn lemma_index_is<T>(rows: Seq<(Seq<char>, T)>, key: Seq<char>, i: int)
    requires
        0 <= i < rows.len(),
        rows[i].0 == key,
        forall|j: int| 0 <= j < i ==> (#[trigger] rows[j]).0 != key,
    ensures
        index_of(rows, key) == i,
        has_key(rows, key),
{
    lemma_index_of(rows, key);
}

/// In a table with unique keys, any position that holds the key is
/// `index_of`.
pub proof fn lemma_unique_index<T>(rows: Seq<(Seq<char>, T)>, key: Seq<char>, i: int)
    requires
        keys_unique(rows),
        0 <= i < rows.len(),
        rows[i].0 == key,
    ensures
        index_of(rows, key) == i,
        has_key(rows, key),
{
    lemma_index_of(rows, key);
}

/// Appending a row under a fresh key keeps the keys unique, leaves every
/// earlier lookup as it was and makes the new key found at the end.
pub proof fn lemma_push_row<T>(rows: Seq<(Seq<char>, T)>, key: Seq<char>, value: T)
    requires
        keys_unique(rows),
        !has_key(rows, key),
    ensures
        keys_unique(rows.push((key, value))),
        index_of(rows.push((key, value)), key) == rows.len(),
        has_key(rows.push((key, value)), key),
        value_of(rows.push((key, value)), key) == value,
        forall|other: Seq<char>|
            other != key ==> (has_key(rows.push((key, value)), other) <==> has_key(rows, other)),
        forall|other: Seq<char>|
            other != key && has_key(rows, other) ==> index_of(rows.push((key, value)), other)
                == index_of(rows, other) && value_of(rows.push((key, value)), other) == value_of(
                rows,
                other,
            ),
{
    let after = rows.push((key, value));
    lemma_index_of(rows, key);
    assert forall|i: int, j: int| 0 <= i < j < after.len() implies (#[trigger] after[i]).0 != (
    #[trigger] after[j]).0 by {
        if j == rows.len() {
            assert(after[i] == rows[i]);
        } else {
            assert(after[i] == rows[i]);
            assert(after[j] == rows[j]);
        }
    }
    assert forall|j: int| 0 <= j < rows.len() implies (#[trigger] after[j]).0 != key by {
        assert(after[j] == rows[j]);
    }
    lemma_index_is(after, key, rows.len() as int);
    assert forall|other: Seq<char>| other != key implies (has_key(after, other) <==> has_key(
        rows,
        other,
    )) && (has_key(rows, other) ==> index_of(after, other) == index_of(rows, other) && value_of(
        after,
        other,
    ) == value_of(rows, other)) by {
        lemma_index_of(rows, other);
        lemma_index_of(after, other);
        if has_key(rows, other) {
            let i = index_of(rows, other);
            assert(after[i] == rows[i]);
            lemma_unique_index(after, other, i);
        } else {
            if has_key(after, other) {
                let i = index_of(after, other);
                if i < rows.len() {
                    assert(after[i] == rows[i]);
                }
            }
        }
    }
}

/// Taking out the row under a key keeps the keys unique and forgets exactly
/// that key.
pub proof fn lemma_without_key<T>(rows: Seq<(Seq<char>, T)>, key: Seq<char>)
    requires
        keys_unique(rows),
    ensures
        keys_unique(without_key(rows, key)),
        !has_key(without_key(rows, key), key),
        forall|other: Seq<char>|
            other != key ==> (has_key(without_key(rows, key), other) <==> has_key(rows, other)),
        forall|other: Seq<char>|
            other != key && has_key(rows, other) ==> value_of(without_key(rows, key), other)
                == value_of(rows, other),
{
    let after = without_key(rows, key);
    lemma_index_of(rows, key);
    if has_key(rows, key) {
        let k = index_of(rows, key);
        assert forall|j: int| 0 <= j < after.len() implies #[trigger] after[j] == rows[if j < k {
            j
        } else {
            j + 1
        }] by {}
        assert forall|i: int, j: int| 0 <= i < j < after.len() implies (#[trigger] after[i]).0 != (
        #[trigger] after[j]).0 by {
            let a = if i < k { i } else { i + 1 };
            let b = if j < k { j } else { j + 1 };
            assert(after[i] == rows[a]);
            assert(after[j] == rows[b]);
        }
        lemma_index_of(after, key);
        if has_key(after, key) {
            let i = index_of(after, key);
            let a = if i < k { i } else { i + 1 };
            assert(after[i] == rows[a]);
            assert(rows[a].0 == rows[k].0);
        }
        assert forall|other: Seq<char>| other != key implies (has_key(after, other) <==> has_key(
            rows,
            other,
        )) && (has_key(rows, other) ==> value_of(after, other) == value_of(rows, other)) by {
            lemma_index_of(rows, other);
            lemma_index_of(after, other);
            if has_key(rows, other) {
                let i = index_of(rows, other);
                let a = if i < k { i } else { i - 1 };
                assert(after[a] == rows[i]);
                lemma_unique_index(after, other, a);
            }
            if has_key(after, other) {
                let i = index_of(after, other);
                let a = if i < k { i } else { i + 1 };
                assert(after[i] == rows[a]);
                lemma_unique_index(rows, other, a);
            }
        }
    } else {
        assert forall|other: Seq<char>| other != key implies (has_key(after, other) <==> has_key(
            rows,
            other,
        )) && (has_key(rows, other) ==> value_of(after, other) == value_of(rows, other)) by {}
    }
}

/// Lookups depend on the keys alone: two tables with the same keys in the
/// same order find every key at the same position.
pub proof fn lemma_same_keys<T, U>(a: Seq<(Seq<char>, T)>, b: Seq<(Seq<char>, U)>, key: Seq<char>)
    requires
        a.len() == b.len(),
        forall|i: int| 0 <= i < a.len() ==> (#[trigger] a[i]).0 == b[i].0,
    ensures
        index_of(a, key) == index_of(b, key),
        has_key(a, key) == has_key(b, key),
        keys_unique(b) ==> keys_unique(a),
{
    lemma_index_of(a, key);
    lemma_index_of(b, key);
    if has_key(b, key) {
        let i = index_of(b, key);
        assert(a[i].0 == b[i].0);
        assert forall|j: int| 0 <= j < i implies (#[trigger] a[j]).0 != key by {
            assert(a[j].0 == b[j].0);
        }
        lemma_index_is(a, key, i);
    } else if has_key(a, key) {
        let i = index_of(a, key);
        assert(a[i].0 == b[i].0);
    }
    if keys_unique(b) {
        assert forall|i: int, j: int| 0 <= i < j < a.len() implies (#[trigger] a[i]).0 != (
        #[trigger] a[j]).0 by {
            assert(a[i].0 == b[i].0);
            assert(a[j].0 == b[j].0);
        }
    }
}

/// The rows with `value` stored under `key`: in place of the row that has the
/// key, or at the end when there is none.
pub open spec fn upserted<T>(rows: Seq<(Seq<char>, T)>, key: Seq<char>, value: T) -> Seq<
    (Seq<char>, T),
> {
    if has_key(rows, key) {
        rows.update(index_of(rows, key), (key, value))
    } else {
        rows.push((key, value))
    }
}

/// Storing a value under a key keeps the keys unique and makes the key
/// found with that value.
pub proof fn lemma_upserted<T>(rows: Seq<(Seq<char>, T)>, key: Seq<char>, value: T)
    requires
        keys_unique(rows),
    ensures
        keys_unique(upserted(rows, key, value)),
        has_key(upserted(rows, key, value), key),
        value_of(upserted(rows, key, value), key) == value,
{
    lemma_index_of(rows, key);
    let after = upserted(rows, key, value);
    if has_key(rows, key) {
        let k = index_of(rows, key);
        assert forall|i: int| 0 <= i < rows.len() implies (#[trigger] after[i]).0 == rows[i].0 by {}
        lemma_same_keys(after, rows, key);
    } else {
        lemma_push_row(rows, key, value);
    }
}

/// An insertion-ordered store of values under string keys.
pub struct Table<V> {
    pub entries: Vec<(String, V)>,
}

impl<V: View> View for Table<V> {
    type V = Seq<(Seq<char>, V::V)>;

    open spec fn view(&self) -> Self::V {
        Seq::new(self.entries@.len(), |i: int| (self.entries@[i].0@, self.entries@[i].1@))
    }
}

impl<V: View> Table<V> {
    /// Every key is stored once.
    pub open spec fn wf(&self) -> bool {
        keys_unique(self@)
    }

    /// An empty table.
    pub fn new() -> (table: Self)
        ensures
            table@ == Seq::<(Seq<char>, V::V)>::empty(),
            table.wf(),
    {
        let table = Table { entries: Vec::new() };
        assert(table@ =~= Seq::<(Seq<char>, V::V)>::empty());
        table
    }

    /// The number of rows.
    pub fn len(&self) -> (n: usize)
        ensures
            n == self@.len(),
    {
        self.entries.len()
    }

    /// The position of the row under `key`, if there is one.
    pub fn position(&self, key: &String) -> (found: Option<usize>)
        ensures
            match found {
                Some(i) => has_key(self@, key@) && i == index_of(self@, key@) && i < self@.len(),
                None => !has_key(self@, key@),
            },
    {
        let mut i: usize = 0;
        while i < self.entries.len()
            invariant
                i <= self.entries@.len(),
                forall|j: int| 0 <= j < i ==> (#[trigger] self@[j]).0 != key@,
            decreases self.entries.len() - i,
        {
            if self.entries[i].0 == *key {
                proof {
                    lemma_index_is(self@, key@, i as int);
                }
                return Some(i);
            }
            i += 1;
        }
        proof {
            lemma_index_of(self@, key@);
        }
        None
    }

    /// Whether a row is stored under `key`.
    pub fn contains_key(&self, key: &String) -> (found: bool)
        ensures
            found == has_key(self@, key@),
    {
        self.position(key).is_some()
    }

    /// The value stored under `key`, if there is one.
    pub fn get(&self, key: &String) -> (found: Option<&V>)
        ensures
            match found {
                Some(value) => has_key(self@, key@) && value@ == value_of(self@, key@) && *value
                    == self.entries@[index_of(self@, key@)].1,
                None => !has_key(self@, key@),
            },
    {
        match self.position(key) {
            Some(i) => Some(&self.entries[i].1),
            None => None,
        }
    }

    /// Appends a row. The caller keeps the keys unique by adding fresh keys
    /// only.
    pub fn push(&mut self, key: String, value: V)
        ensures
            final(self)@ == old(self)@.push((key@, value@)),
            final(self).entries@ == old(self).entries@.push((key, value)),
    {
        self.entries.push((key, value));
        assert(self@ =~= old(self)@.push((key@, value@)));
    }

    /// Takes out the row under `key` and returns its value; the other rows
    /// keep their order.
    pub fn remove(&mut self, key: &String) -> (taken: Option<V>)
        ensures
            final(self)@ == without_key(old(self)@, key@),
            match taken {
                Some(value) => has_key(old(self)@, key@) && value@ == value_of(old(self)@, key@),
                None => !has_key(old(self)@, key@),
            },
    {
        match self.position(key) {
            Some(i) => {
                let row = self.entries.remove(i);
                assert(self@ =~= old(self)@.remove(i as int));
                Some(row.1)
            },
            None => None,
        }
    }
    /// Stores `value` under `key`, in place of the value that the key had or
    /// as a new last row.
    pub fn upsert(&mut self, key: String, value: V)
        ensures
            final(self)@ == upserted(old(self)@, key@, value@),
    {
        match self.position(&key) {
            Some(i) => {
                proof {
                    lemma_index_of(self@, key@);
                }
                self.entries[i].1 = value;
                assert(self@ =~= old(self)@.update(i as int, (key@, value@)));
            },
            None => {
                self.push(key, value);
            },
        }
    }
    /// Whether every key is stored once.
    pub fn keys_distinct(&self) -> (ok: bool)
        ensures
            ok == keys_unique(self@),
    {
        let mut j: usize = 0;
        while j < self.entries.len()
            invariant
                j <= self.entries@.len(),
                forall|a: int, b: int|
                    0 <= a < b < j ==> (#[trigger] self@[a]).0 != (#[trigger] self@[b]).0,
            decreases self.entries.len() - j,
        {
            let mut i: usize = 0;
            while i < j
                invariant
                    i <= j < self.entries@.len(),
                    forall|a: int| 0 <= a < i ==> (#[trigger] self@[a]).0 != self@[j as int].0,
                decreases j - i,
            {
                if self.entries[i].0 == self.entries[j].0 {
                    assert(self@[i as int].0 == self@[j as int].0);
                    return false;
                }
                i += 1;
            }
            j += 1;
        }
        true
    }
}

} // verus!
