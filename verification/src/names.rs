use std::sync::Arc;

use vstd::prelude::*;

verus! {

/// Hands out another owner of a shared value through `Arc::clone`.
/// Trusted: the new pointer leads to the same value.
#[verifier::external_body]
pub(crate) fn share<T>(value: &Arc<T>) -> (shared: Arc<T>)
    ensures
        shared == *value,
{
    Arc::clone(value)
}

/// What a [`NameMap`] holds: a value for each name, and the names in the order in
/// which they were first inserted.
pub struct NameMapView<V> {
    pub names: Seq<Seq<char>>,
    pub values: Map<Seq<char>, V>,
}

impl<V> NameMapView<V> {
    /// Every name stands in the order once, and exactly the ordered names have a value.
    pub open spec fn wf(self) -> bool {
        &&& self.names.no_duplicates()
        &&& forall|name: Seq<char>| #[trigger]
            self.values.contains_key(name) <==> self.names.contains(name)
    }

    pub open spec fn contains(self, name: Seq<char>) -> bool {
        self.values.contains_key(name)
    }

    pub open spec fn empty() -> NameMapView<V> {
        NameMapView { names: Seq::empty(), values: Map::empty() }
    }

    /// Gives `name` a value; a new name comes last in the order.
    pub open spec fn insert(self, name: Seq<char>, value: V) -> NameMapView<V> {
        NameMapView {
            names: if self.contains(name) {
                self.names
            } else {
                self.names.push(name)
            },
            values: self.values.insert(name, value),
        }
    }
}

/// What was inserted last under a name is what the name has; no other name is touched,
/// and no name comes to stand in the order twice.
pub proof fn law_insert<V>(map: NameMapView<V>, name: Seq<char>, value: V, other: Seq<char>)
    requires
        map.wf(),
    ensures
        map.insert(name, value).wf(),
        map.insert(name, value).contains(name),
        map.insert(name, value).values[name] == value,
        other != name ==> map.insert(name, value).contains(other) == map.contains(other),
        other != name && map.contains(other) ==> map.insert(name, value).values[other]
            == map.values[other],
{
    let after = map.insert(name, value);
    assert forall|key: Seq<char>| #[trigger]
        after.values.contains_key(key) <==> after.names.contains(key) by {
        if !map.contains(name) {
            assert(after.names[map.names.len() as int] == name);
            if map.names.contains(key) {
                let i = map.names.index_of(key);
                assert(after.names[i] == key);
            }
        }
        assert(map.values.contains_key(key) <==> map.names.contains(key));
    }
    assert(map.values.contains_key(name) <==> map.names.contains(name));
}

/// A map keyed by names. No name occurs twice.
#[derive(Debug)]
pub struct NameMap<V> {
    entries: Vec<(Arc<String>, V)>,
}

impl<V> View for NameMap<V> {
    type V = NameMapView<V>;

    closed spec fn view(&self) -> NameMapView<V> {
        entries_view(self.entries@)
    }
}

/// The names of the entries, in order.
spec fn entry_names<V>(entries: Seq<(Arc<String>, V)>) -> Seq<Seq<char>> {
    entries.map_values(|e: (Arc<String>, V)| e.0@)
}

/// The entry of a name that occurs.
spec fn entry_value<V>(entries: Seq<(Arc<String>, V)>, name: Seq<char>) -> V {
    entries[entry_names(entries).index_of(name)].1
}

spec fn entries_view<V>(entries: Seq<(Arc<String>, V)>) -> NameMapView<V> {
    NameMapView {
        names: entry_names(entries),
        values: Map::new(
            |name: Seq<char>| entry_names(entries).contains(name),
            |name: Seq<char>| entry_value(entries, name),
        ),
    }
}

/// Where no name occurs twice, each entry holds the value of its name.
proof fn lemma_entry<V>(entries: Seq<(Arc<String>, V)>, i: int)
    requires
        entry_names(entries).no_duplicates(),
        0 <= i < entries.len(),
    ensures
        entry_names(entries)[i] == entries[i].0@,
        entries_view(entries).values.contains_key(entries[i].0@),
        entries_view(entries).values[entries[i].0@] == entries[i].1,
{
    let names = entry_names(entries);
    assert(names[i] == entries[i].0@);
    assert(names.contains(names[i]));
    let j = names.index_of(names[i]);
    assert(names[j] == names[i]);
}

/// Two views are the same where they agree on the order, on which names have a
/// value, and on the values.
proof fn lemma_same_view<V>(a: NameMapView<V>, b: NameMapView<V>)
    requires
        a.names =~= b.names,
        a.values =~= b.values,
    ensures
        a == b,
{
}

proof fn lemma_replaced<V>(entries: Seq<(Arc<String>, V)>, i: int, name: Arc<String>, value: V)
    requires
        entries_view(entries).wf(),
        0 <= i < entries.len(),
        entries[i].0@ == name@,
    ensures
        entries_view(entries.update(i, (name, value))).wf(),
        entries_view(entries.update(i, (name, value))) == entries_view(entries).insert(name@, value),
{
    let after = entries.update(i, (name, value));
    let old_view = entries_view(entries);
    assert(entry_names(after) =~= entry_names(entries));
    lemma_entry(entries, i);
    assert forall|key: Seq<char>| #[trigger] entry_names(entries).contains(key) implies entry_value(
        after,
        key,
    ) == old_view.values.insert(name@, value)[key] by {
        let j = entry_names(entries).index_of(key);
        assert(entry_names(entries)[j] == key);
        lemma_entry(after, j);
        lemma_entry(entries, j);
    }
    lemma_same_view(entries_view(after), old_view.insert(name@, value));
}

proof fn lemma_pushed<V>(entries: Seq<(Arc<String>, V)>, name: Arc<String>, value: V)
    requires
        entries_view(entries).wf(),
        !entries_view(entries).contains(name@),
    ensures
        entries_view(entries.push((name, value))).wf(),
        entries_view(entries.push((name, value))) == entries_view(entries).insert(name@, value),
{
    let after = entries.push((name, value));
    let old_view = entries_view(entries);
    let new_view = entries_view(after);
    assert(new_view.names =~= old_view.names.push(name@));
    assert forall|key: Seq<char>|
        new_view.names.contains(key) <==> old_view.names.contains(key) || key == name@ by {
        if old_view.names.contains(key) {
            let j = old_view.names.index_of(key);
            assert(new_view.names[j] == key);
        }
        assert(new_view.names[old_view.names.len() as int] == name@);
    }
    assert forall|key: Seq<char>| #[trigger] new_view.names.contains(key) implies entry_value(
        after,
        key,
    ) == old_view.values.insert(name@, value)[key] by {
        let j = new_view.names.index_of(key);
        assert(new_view.names[j] == key);
        lemma_entry(after, j);
        if j < entries.len() {
            lemma_entry(entries, j);
        }
    }
    lemma_same_view(new_view, old_view.insert(name@, value));
}

impl<V> NameMap<V> {
    /// What holds of every map.
    #[verifier::type_invariant]
    pub open spec fn inv(self) -> bool {
        self@.wf()
    }

    pub fn new() -> (map: NameMap<V>)
        ensures
            map@ == NameMapView::<V>::empty(),
    {
        let entries: Vec<(Arc<String>, V)> = Vec::new();
        proof {
            assert(entries_view(entries@).names =~= Seq::<Seq<char>>::empty());
            assert(entries_view(entries@).values =~= Map::<Seq<char>, V>::empty());
        }
        NameMap { entries }
    }

    pub fn len(&self) -> (len: usize)
        ensures
            len == self@.names.len(),
    {
        self.entries.len()
    }

    pub fn is_empty(&self) -> (empty: bool)
        ensures
            empty == (self@.names.len() == 0),
            empty == self@.values.is_empty(),
    {
        proof {
            use_type_invariant(self);
            if self@.names.len() == 0 {
                assert(self@.values.dom() =~= Set::<Seq<char>>::empty());
            } else {
                assert(self@.names.contains(self@.names[0]));
                assert(self@.values.dom().contains(self@.names[0]));
            }
        }
        self.entries.len() == 0
    }

    /// The entry at a place of the order.
    pub fn entry(&self, i: usize) -> (entry: (&Arc<String>, &V))
        requires
            i < self@.names.len(),
        ensures
            entry.0@ == self@.names[i as int],
            self@.contains(entry.0@),
            *entry.1 == self@.values[entry.0@],
    {
        proof {
            use_type_invariant(self);
            lemma_entry(self.entries@, i as int);
        }
        (&self.entries[i].0, &self.entries[i].1)
    }

    /// The place of a name in the order.
    fn position(&self, name: &String) -> (found: Option<usize>)
        ensures
            match found {
                Some(i) => i < self@.names.len() && self@.names[i as int] == name@,
                None => !self@.contains(name@),
            },
    {
        let mut i: usize = 0;
        while i < self.entries.len()
            invariant
                i <= self.entries.len(),
                forall|j: int| 0 <= j < i ==> self.entries@[j].0@ != name@,
            decreases self.entries.len() - i,
        {
            if *self.entries[i].0 == *name {
                return Some(i);
            }
            i = i + 1;
        }
        proof {
            use_type_invariant(self);
            let names = self@.names;
            if names.contains(name@) {
                let j = choose|j: int| 0 <= j < names.len() && names[j] == name@;
                assert(self.entries@[j].0@ == name@);
            }
        }
        None
    }

    pub fn contains_key(&self, name: &String) -> (found: bool)
        ensures
            found == self@.contains(name@),
    {
        match self.position(name) {
            Some(i) => {
                proof {
                    use_type_invariant(self);
                    assert(self@.names.contains(self@.names[i as int]));
                }
                true
            },
            None => false,
        }
    }

    pub fn get(&self, name: &String) -> (value: Option<&V>)
        ensures
            match value {
                Some(v) => self@.contains(name@) && *v == self@.values[name@],
                None => !self@.contains(name@),
            },
    {
        match self.position(name) {
            Some(i) => Some(self.entry(i).1),
            None => None,
        }
    }

    /// Gives `name` a value, in place of the one that it had.
    pub fn insert(&mut self, name: Arc<String>, value: V)
        ensures
            final(self)@ == old(self)@.insert(name@, value),
    {
        proof {
            use_type_invariant(&*self);
        }
        let found = self.position(&name);
        let mut entries: Vec<(Arc<String>, V)> = Vec::new();
        std::mem::swap(&mut entries, &mut self.entries);
        let ghost before = entries@;
        match found {
            Some(i) => {
                entries.set(i, (name, value));
                proof {
                    lemma_replaced(before, i as int, name, value);
                }
            },
            None => {
                entries.push((name, value));
                proof {
                    lemma_pushed(before, name, value);
                }
            },
        }
        self.entries = entries;
    }
}

} // verus!
