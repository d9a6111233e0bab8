//! A map from names to values that keeps its entries in the order in which
//! their names first came.
use vstd::prelude::*;
use crate::text::same_text;

verus! {

/// The place of the first entry at or behind `from` that is called `name`;
/// the length of `entries`, at least, where there is none.
pub open spec fn find<T>(entries: Seq<(Seq<char>, T)>, name: Seq<char>, from: int) -> int
    decreases entries.len() - from,
{
    if 0 <= from < entries.len() && entries[from].0 != name {
        find(entries, name, from + 1)
    } else {
        from
    }
}

/// The place of the first entry that is called `name`; the length of
/// `entries` where there is none.
pub open spec fn position<T>(entries: Seq<(Seq<char>, T)>, name: Seq<char>) -> int {
    find(entries, name, 0)
}

/// Whether an entry is called `name`.
pub open spec fn has_name<T>(entries: Seq<(Seq<char>, T)>, name: Seq<char>) -> bool {
    position(entries, name) < entries.len()
}

/// The value of the first entry that is called `name`.
pub open spec fn value_of<T>(entries: Seq<(Seq<char>, T)>, name: Seq<char>) -> Option<T> {
    if has_name(entries, name) {
        Some(entries[position(entries, name)].1)
    } else {
        None
    }
}

/// `entries` after `value` has been put under `name`: in the place of the
/// entry of that name where there is one, else behind the last entry.
pub open spec fn with_entry<T>(entries: Seq<(Seq<char>, T)>, name: Seq<char>, value: T) -> Seq<
    (Seq<char>, T),
> {
    if has_name(entries, name) {
        entries.update(position(entries, name), (name, value))
    } else {
        entries.push((name, value))
    }
}

/// Whether no two entries have the same name.
pub open spec fn names_distinct<T>(entries: Seq<(Seq<char>, T)>) -> bool {
    forall|i: int, j: int|
        0 <= i < j < entries.len() ==> (#[trigger] entries[i]).0 != (#[trigger] entries[j]).0
}

/// The entries as a map from each name to its value.
pub open spec fn as_map<T>(entries: Seq<(Seq<char>, T)>) -> Map<Seq<char>, T> {
    Map::new(
        |name: Seq<char>| has_name(entries, name),
        |name: Seq<char>| entries[position(entries, name)].1,
    )
}

/// What `find` finds: the entry at the place it returns has the name, and
/// none between `from` and that place has.
pub proof fn lemma_find<T>(entries: Seq<(Seq<char>, T)>, name: Seq<char>, from: int)
    requires
        0 <= from <= entries.len(),
    ensures
        from <= find(entries, name, from) <= entries.len(),
        find(entries, name, from) < entries.len() ==> entries[find(entries, name, from)].0 == name,
        forall|i: int| from <= i < find(entries, name, from) ==> (#[trigger] entries[i]).0 != name,
    decreases entries.len() - from,
{
    if from < entries.len() && entries[from].0 != name {
        lemma_find(entries, name, from + 1);
    }
}

/// A name is in the map exactly if some entry has it.
pub proof fn lemma_has_name<T>(entries: Seq<(Seq<char>, T)>, name: Seq<char>)
    ensures
        has_name(entries, name) <==> exists|i: int|
            0 <= i < entries.len() && (#[trigger] entries[i]).0 == name,
{
    lemma_find(entries, name, 0);
}

/// Putting a value under a name makes it the value of that name and
/// changes the value of no other name.
pub proof fn lemma_with_entry_values<T>(entries: Seq<(Seq<char>, T)>, name: Seq<char>, value: T)
    ensures
        value_of(with_entry(entries, name, value), name) == Some(value),
        forall|other: Seq<char>|
            other != name ==> #[trigger] value_of(with_entry(entries, name, value), other)
                == value_of(entries, other),
{
    let after = with_entry(entries, name, value);
    lemma_find(entries, name, 0);
    lemma_find(after, name, 0);
    let at = position(entries, name);
    assert(after[at].0 == name);
    assert forall|other: Seq<char>| other != name implies #[trigger] value_of(after, other)
        == value_of(entries, other) by {
        lemma_find(entries, other, 0);
        lemma_find(after, other, 0);
        let before_at = position(entries, other);
        if before_at < entries.len() {
            assert(after[before_at].0 == other);
        }
    }
}

/// Putting a value under a name is `insert` on the map that the entries
/// stand for.
pub proof fn lemma_with_entry_as_map<T>(entries: Seq<(Seq<char>, T)>, name: Seq<char>, value: T)
    ensures
        as_map(with_entry(entries, name, value)) == as_map(entries).insert(name, value),
{
    lemma_with_entry_values(entries, name, value);
    let after = as_map(with_entry(entries, name, value));
    let inserted = as_map(entries).insert(name, value);
    assert forall|other: Seq<char>| #[trigger]
        after.dom().contains(other) == inserted.dom().contains(other) by {
        if other != name {
            assert(value_of(with_entry(entries, name, value), other) == value_of(entries, other));
        }
    }
    assert forall|other: Seq<char>| #[trigger] after.dom().contains(other) implies after[other]
        == inserted[other] by {
        if other != name {
            assert(value_of(with_entry(entries, name, value), other) == value_of(entries, other));
        }
    }
}

/// Putting a value under a name leaves the names distinct.
pub proof fn lemma_with_entry_distinct<T>(entries: Seq<(Seq<char>, T)>, name: Seq<char>, value: T)
    requires
        names_distinct(entries),
    ensures
        names_distinct(with_entry(entries, name, value)),
{
    lemma_find(entries, name, 0);
}

/// A map from names to values. No two entries have the same name; the
/// entries stand in the order in which their names were first put in.
pub struct NameMap<V> {
    entries: Vec<(String, V)>,
}

impl<V> NameMap<V> {
    /// What holds of every map: no two entries have the same name.
    #[verifier::type_invariant]
    pub closed spec fn well_formed(self) -> bool {
        forall|i: int, j: int|
            0 <= i < j < self.entries@.len() ==> (#[trigger] self.entries@[i]).0@
                != (#[trigger] self.entries@[j]).0@
    }
}

impl<V: DeepView> DeepView for NameMap<V> {
    type V = Seq<(Seq<char>, V::V)>;

    closed spec fn deep_view(&self) -> Seq<(Seq<char>, V::V)> {
        self.entries.deep_view()
    }
}

impl<V: DeepView> NameMap<V> {
    /// The map without entries.
    pub fn new() -> (map: Self)
        ensures
            map.deep_view() == Seq::<(Seq<char>, V::V)>::empty(),
    {
        NameMap { entries: Vec::new() }
    }

    /// In a well-formed map the names are distinct.
    pub proof fn lemma_names_distinct(self)
        requires
            self.well_formed(),
        ensures
            names_distinct(self.deep_view()),
    {
        let entries = self.deep_view();
        assert forall|i: int, j: int| 0 <= i < j < entries.len() implies (#[trigger] entries[i]).0
            != (#[trigger] entries[j]).0 by {}
    }

    /// The number of entries.
    pub fn len(&self) -> (len: usize)
        ensures
            len == self.deep_view().len(),
    {
        self.entries.len()
    }

    /// The place of the entry called `name`; the number of entries where
    /// there is none.
    fn position_of(&self, name: &str) -> (at: usize)
        ensures
            at == position(self.deep_view(), name@),
            at <= self.entries.len(),
    {
        let mut at: usize = 0;
        while at < self.entries.len() && !same_text(self.entries[at].0.as_str(), name)
            invariant
                at <= self.entries.len(),
                position(self.deep_view(), name@) == find(self.deep_view(), name@, at as int),
            decreases self.entries.len() - at,
        {
            at += 1;
        }
        at
    }

    /// Whether an entry is called `name`.
    pub fn contains_key(&self, name: &str) -> (found: bool)
        ensures
            found == has_name(self.deep_view(), name@),
    {
        self.position_of(name) < self.entries.len()
    }

    /// The value under `name`.
    pub fn get(&self, name: &str) -> (value: Option<&V>)
        ensures
            value.deep_view() == value_of(self.deep_view(), name@),
    {
        let at = self.position_of(name);
        if at < self.entries.len() {
            Some(&self.entries[at].1)
        } else {
            None
        }
    }

    /// Puts `value` under `name`: in the place of the value that `name` had,
    /// where it had one, else as a new entry behind the others.
    pub fn insert(&mut self, name: String, value: V)
        ensures
            final(self).deep_view() == with_entry(
                old(self).deep_view(),
                name@,
                value.deep_view(),
            ),
    {
        proof {
            use_type_invariant(&*self);
            lemma_find(self.deep_view(), name@, 0);
        }
        let at = self.position_of(name.as_str());
        let ghost before = self.deep_view();
        proof {
            self.lemma_names_distinct();
            lemma_with_entry_distinct(before, name@, value.deep_view());
        }
        let mut entries: Vec<(String, V)> = Vec::new();
        core::mem::swap(&mut self.entries, &mut entries);
        if at < entries.len() {
            entries.set(at, (name, value));
        } else {
            entries.push((name, value));
            assert(entries.deep_view() =~= before.push((name@, value.deep_view())));
        }
        proof {
            let after = entries.deep_view();
            assert forall|i: int, j: int| 0 <= i < j < entries@.len() implies (
            #[trigger] entries@[i]).0@ != (#[trigger] entries@[j]).0@ by {
                assert(after[i].0 == entries@[i].0@);
            }
        }
        core::mem::swap(&mut self.entries, &mut entries);
    }

    /// The name of the entry at place `at`.
    pub fn name_at(&self, at: usize) -> (name: &String)
        requires
            at < self.deep_view().len(),
        ensures
            name@ == self.deep_view()[at as int].0,
    {
        &self.entries[at].0
    }

    /// The value of the entry at place `at`.
    pub fn value_at(&self, at: usize) -> (value: &V)
        requires
            at < self.deep_view().len(),
        ensures
            value.deep_view() == self.deep_view()[at as int].1,
    {
        &self.entries[at].1
    }
}

} // verus!
