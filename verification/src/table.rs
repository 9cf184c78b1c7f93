//! A table from names to values, kept in the order in which the names came in.

use vstd::prelude::*;
use crate::text::same_text;

verus! {

/// A table from a name to a value. No name occurs twice, and an entry keeps its place
/// for as long as the table lives.
pub struct NameTable<V> {
    entries: Vec<(String, V)>,
}

impl<V> View for NameTable<V> {
    type V = Seq<(Seq<char>, V)>;

    closed spec fn view(&self) -> Seq<(Seq<char>, V)> {
        Seq::new(self.entries@.len(), |i: int| (self.entries@[i].0@, self.entries@[i].1))
    }
}

/// Whether `table` holds an entry for `name`.
pub open spec fn holds<V>(table: Seq<(Seq<char>, V)>, name: Seq<char>) -> bool {
    exists|i: int| 0 <= i < table.len() && (#[trigger] table[i]).0 == name
}

/// Where `name` stands in `table`, if it does.
pub open spec fn position_of<V>(table: Seq<(Seq<char>, V)>, name: Seq<char>) -> Option<int> {
    if holds(table, name) {
        Some(choose|i: int| 0 <= i < table.len() && (#[trigger] table[i]).0 == name)
    } else {
        None
    }
}

/// The value that stands against `name` in `table`, if any.
pub open spec fn value_of<V>(table: Seq<(Seq<char>, V)>, name: Seq<char>) -> Option<V> {
    match position_of(table, name) {
        Some(i) => Some(table[i].1),
        None => None,
    }
}

/// No name occurs twice in `table`.
pub open spec fn distinct_names<V>(table: Seq<(Seq<char>, V)>) -> bool {
    forall|i: int, j: int|
        0 <= i < j < table.len() ==> (#[trigger] table[i]).0 != (#[trigger] table[j]).0
}

/// The table after `name` has been given `value`: an entry for the name takes the new
/// value where it stands, otherwise a new entry is appended.
pub open spec fn with_entry<V>(table: Seq<(Seq<char>, V)>, name: Seq<char>, value: V) -> Seq<
    (Seq<char>, V),
> {
    match position_of(table, name) {
        Some(i) => table.update(i, (name, value)),
        None => table.push((name, value)),
    }
}

/// In a table without repeated names, a name stands where it is found.
pub proof fn lemma_found_at<V>(table: Seq<(Seq<char>, V)>, name: Seq<char>, i: int)
    requires
        distinct_names(table),
        0 <= i < table.len(),
        table[i].0 == name,
    ensures
        position_of(table, name) == Some(i),
        value_of(table, name) == Some(table[i].1),
{
    let chosen = choose|j: int| 0 <= j < table.len() && (#[trigger] table[j]).0 == name;
    if chosen < i {
        assert(table[chosen].0 != table[i].0);
    }
    if chosen > i {
        assert(table[i].0 != table[chosen].0);
    }
}

/// Giving a name a value keeps the names distinct, makes that value the one that stands
/// against the name, and leaves every other name with what it had.
pub proof fn lemma_with_entry<V>(table: Seq<(Seq<char>, V)>, name: Seq<char>, value: V)
    requires
        distinct_names(table),
    ensures
        distinct_names(with_entry(table, name, value)),
        value_of(with_entry(table, name, value), name) == Some(value),
        forall|other: Seq<char>|
            other != name ==> #[trigger] value_of(with_entry(table, name, value), other)
                == value_of(table, other),
{
    let after = with_entry(table, name, value);
    let at = match position_of(table, name) {
        Some(i) => i,
        None => table.len() as int,
    };
    assert(after[at] == (name, value));
    assert forall|x: int, y: int| 0 <= x < y < after.len() implies (#[trigger] after[x]).0 != (
    #[trigger] after[y]).0 by {
        if y < table.len() {
            assert(table[x].0 != table[y].0);
        } else {
            assert(table[x].0 != name);
        }
    }
    lemma_found_at(after, name, at);
    assert forall|other: Seq<char>| other != name implies #[trigger] value_of(after, other)
        == value_of(table, other) by {
        if holds(table, other) {
            let i = choose|i: int| 0 <= i < table.len() && (#[trigger] table[i]).0 == other;
            assert(after[i] == table[i]);
            lemma_found_at(table, other, i);
            lemma_found_at(after, other, i);
        } else if holds(after, other) {
            let i = choose|i: int| 0 <= i < after.len() && (#[trigger] after[i]).0 == other;
            assert(i < table.len());
            assert(table[i].0 == other);
        }
    }
}

impl<V: Copy> NameTable<V> {
    pub open spec fn wf(&self) -> bool {
        distinct_names(self@)
    }

    /// A table without entries.
    pub fn new() -> (r: NameTable<V>)
        ensures
            r.wf(),
            r@.len() == 0,
    {
        NameTable { entries: Vec::new() }
    }

    pub fn len(&self) -> (n: usize)
        ensures
            n == self@.len(),
    {
        self.entries.len()
    }

    /// The name of entry `i`.
    pub fn name(&self, i: usize) -> (r: &str)
        requires
            i < self@.len(),
        ensures
            r@ == self@[i as int].0,
    {
        self.entries[i].0.as_str()
    }

    /// The value of entry `i`.
    pub fn value(&self, i: usize) -> (r: V)
        requires
            i < self@.len(),
        ensures
            r == self@[i as int].1,
    {
        self.entries[i].1
    }

    /// Gives entry `i` the value `value`, under the name it has.
    pub fn set_value(&mut self, i: usize, value: V)
        requires
            i < old(self)@.len(),
        ensures
            final(self)@ == old(self)@.update(i as int, (old(self)@[i as int].0, value)),
            old(self).wf() ==> final(self).wf(),
    {
        self.entries[i].1 = value;
        proof {
            assert(self@ =~= old(self)@.update(i as int, (old(self)@[i as int].0, value)));
            if old(self).wf() {
                assert forall|x: int, y: int| 0 <= x < y < self@.len() implies (
                #[trigger] self@[x]).0 != (#[trigger] self@[y]).0 by {
                    assert(old(self)@[x].0 != old(self)@[y].0);
                }
            }
        }
    }

    /// Where `name` stands in the table, if it does.
    pub fn position(&self, name: &str) -> (r: Option<usize>)
        requires
            self.wf(),
        ensures
            match r {
                Some(i) => position_of(self@, name@) == Some(i as int),
                None => position_of(self@, name@) is None,
            },
    {
        let mut i: usize = 0;
        while i < self.entries.len()
            invariant
                i <= self.entries.len(),
                self.wf(),
                forall|j: int| 0 <= j < i ==> (#[trigger] self@[j]).0 != name@,
            decreases self.entries.len() - i,
        {
            if same_text(self.entries[i].0.as_str(), name) {
                proof {
                    lemma_found_at(self@, name@, i as int);
                }
                return Some(i);
            }
            i += 1;
        }
        None
    }

    /// The value that stands against `name`, if any.
    pub fn get(&self, name: &str) -> (r: Option<V>)
        requires
            self.wf(),
        ensures
            r == value_of(self@, name@),
    {
        match self.position(name) {
            Some(i) => Some(self.entries[i].1),
            None => None,
        }
    }

    /// Gives `name` the value `value`, in place of the value it had, if any.
    pub fn insert(&mut self, name: String, value: V)
        requires
            old(self).wf(),
        ensures
            final(self).wf(),
            final(self)@ == with_entry(old(self)@, name@, value),
    {
        proof {
            lemma_with_entry(self@, name@, value);
        }
        match self.position(name.as_str()) {
            Some(i) => {
                self.entries.set(i, (name, value));
                assert(self@ =~= with_entry(old(self)@, name@, value));
            },
            None => {
                self.entries.push((name, value));
                assert(self@ =~= with_entry(old(self)@, name@, value));
            },
        }
    }
}

} // verus!
