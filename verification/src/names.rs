//! Maps and sets keyed by name, kept in dictionary order of their names.
use vstd::prelude::*;

use crate::text;
use crate::values::DeepClone;

verus! {

/// Whether the names of `listed` stand in dictionary order, none of them twice.
pub open spec fn in_name_order<T>(listed: Seq<(Seq<char>, T)>) -> bool {
    forall|i: int, j: int|
        0 <= i < j < listed.len() ==> text::text_lt(#[trigger] listed[i].0, #[trigger] listed[j].0)
}

/// Whether `listed` gives `name` a value.
pub open spec fn lists_name<T>(listed: Seq<(Seq<char>, T)>, name: Seq<char>) -> bool {
    exists|i: int| 0 <= i < listed.len() && (#[trigger] listed[i]).0 == name
}

/// The map from names to values that `listed` writes out.
pub open spec fn map_of<T>(listed: Seq<(Seq<char>, T)>) -> Map<Seq<char>, T> {
    Map::new(
        |name: Seq<char>| lists_name(listed, name),
        |name: Seq<char>|
            listed[choose|i: int| 0 <= i < listed.len() && (#[trigger] listed[i]).0 == name].1,
    )
}

/// In a list in name order each entry is the one its name maps to.
pub proof fn lemma_map_of<T>(listed: Seq<(Seq<char>, T)>, at: int)
    requires
        in_name_order(listed),
        0 <= at < listed.len(),
    ensures
        map_of(listed).contains_key(listed[at].0),
        map_of(listed)[listed[at].0] == listed[at].1,
{
    let name = listed[at].0;
    let k = choose|i: int| 0 <= i < listed.len() && (#[trigger] listed[i]).0 == name;
    assert(lists_name(listed, name));
    text::lemma_text_lt_irreflexive(name);
    assert(k == at);
}

/// Setting the value of the entry at `at`.
proof fn lemma_map_of_update<T>(listed: Seq<(Seq<char>, T)>, at: int, value: T)
    requires
        in_name_order(listed),
        0 <= at < listed.len(),
    ensures
        in_name_order(listed.update(at, (listed[at].0, value))),
        map_of(listed.update(at, (listed[at].0, value))) == map_of(listed).insert(
            listed[at].0,
            value,
        ),
{
    let after = listed.update(at, (listed[at].0, value));
    let want = map_of(listed).insert(listed[at].0, value);
    assert forall|i: int| 0 <= i < after.len() implies (#[trigger] after[i]).0
        == listed[i].0 by {}
    assert(in_name_order(after));
    assert forall|name: Seq<char>| #[trigger] map_of(after).contains_key(name)
        == want.contains_key(name) by {
        if lists_name(after, name) {
            let i = choose|i: int| 0 <= i < after.len() && (#[trigger] after[i]).0 == name;
            assert(listed[i].0 == name);
        }
        if lists_name(listed, name) {
            let i = choose|i: int| 0 <= i < listed.len() && (#[trigger] listed[i]).0 == name;
            assert(after[i].0 == name);
        }
        assert(after[at].0 == listed[at].0);
    }
    assert forall|name: Seq<char>| #[trigger] map_of(after).contains_key(name) implies map_of(
        after,
    )[name] == want[name] by {
        let i = choose|i: int| 0 <= i < after.len() && (#[trigger] after[i]).0 == name;
        lemma_map_of(after, i);
        lemma_map_of(listed, i);
        if name == listed[at].0 {
            text::lemma_text_lt_irreflexive(name);
            assert(i == at);
        }
    }
    assert(map_of(after) =~= want);
}

/// Adding an entry with a new name between the smaller and the larger names.
proof fn lemma_map_of_insert<T>(listed: Seq<(Seq<char>, T)>, at: int, name: Seq<char>, value: T)
    requires
        in_name_order(listed),
        0 <= at <= listed.len(),
        forall|i: int| 0 <= i < at ==> text::text_lt((#[trigger] listed[i]).0, name),
        forall|i: int| at <= i < listed.len() ==> text::text_lt(name, (#[trigger] listed[i]).0),
    ensures
        in_name_order(listed.insert(at, (name, value))),
        map_of(listed.insert(at, (name, value))) == map_of(listed).insert(name, value),
{
    let after = listed.insert(at, (name, value));
    let want = map_of(listed).insert(name, value);
    assert forall|i: int, j: int| 0 <= i < j < after.len() implies text::text_lt(
        #[trigger] after[i].0,
        #[trigger] after[j].0,
    ) by {
        let p = if i < at { i } else { i - 1 };
        let q = if j < at { j } else { j - 1 };
        assert(i != at ==> after[i] == listed[p]);
        assert(j != at ==> after[j] == listed[q]);
        if i != at && j != at {
            assert(p < q);
        }
    }
    assert forall|other: Seq<char>| #[trigger] map_of(after).contains_key(other)
        == want.contains_key(other) by {
        if lists_name(after, other) {
            let i = choose|i: int| 0 <= i < after.len() && (#[trigger] after[i]).0 == other;
            if i != at {
                let p = if i < at { i } else { i - 1 };
                assert(listed[p] == after[i]);
            }
        }
        if lists_name(listed, other) {
            let i = choose|i: int| 0 <= i < listed.len() && (#[trigger] listed[i]).0 == other;
            let p = if i < at { i } else { i + 1 };
            assert(after[p] == listed[i]);
        }
        assert(after[at].0 == name);
    }
    assert forall|other: Seq<char>| #[trigger] map_of(after).contains_key(other) implies map_of(
        after,
    )[other] == want[other] by {
        let i = choose|i: int| 0 <= i < after.len() && (#[trigger] after[i]).0 == other;
        lemma_map_of(after, i);
        if i != at {
            let p = if i < at { i } else { i - 1 };
            assert(listed[p] == after[i]);
            lemma_map_of(listed, p);
            text::lemma_text_lt_irreflexive(name);
        }
    }
    assert(map_of(after) =~= want);
}

/// A map from names to values.
#[derive(Debug, PartialEq, Eq)]
pub struct NameMap<V> {
    entries: Vec<(String, V)>,
}

impl<V> NameMap<V> {
    #[verifier::type_invariant]
    spec fn ordered(self) -> bool {
        forall|i: int, j: int|
            0 <= i < j < self.entries@.len() ==> text::text_lt(
                #[trigger] self.entries@[i].0@,
                #[trigger] self.entries@[j].0@,
            )
    }
}

impl<V: DeepView> NameMap<V> {
    /// The entries, in the order of their names.
    pub closed spec fn listed(self) -> Seq<(Seq<char>, V::V)> {
        self.entries.deep_view()
    }
}

impl<V: DeepView> DeepView for NameMap<V> {
    type V = Map<Seq<char>, V::V>;

    open spec fn deep_view(&self) -> Map<Seq<char>, V::V> {
        map_of(self.listed())
    }
}

impl<V: DeepView> NameMap<V> {
    /// The map without names.
    pub fn new() -> (m: Self)
        ensures
            m.deep_view() == Map::<Seq<char>, V::V>::empty(),
            m.listed() == Seq::<(Seq<char>, V::V)>::empty(),
    {
        let m = NameMap { entries: Vec::new() };
        assert(m.listed() =~= Seq::empty());
        assert(m.deep_view() =~= Map::<Seq<char>, V::V>::empty());
        m
    }

    /// How many names there are.
    pub fn len(&self) -> (n: usize)
        ensures
            n == self.listed().len(),
            in_name_order(self.listed()),
    {
        proof {
            use_type_invariant(&*self);
        }
        self.entries.len()
    }

    /// The name at `at`, in dictionary order.
    pub fn name_at(&self, at: usize) -> (name: &String)
        requires
            at < self.listed().len(),
        ensures
            name@ == self.listed()[at as int].0,
    {
        &self.entries[at].0
    }

    /// The value of the name at `at`, in dictionary order.
    pub fn value_at(&self, at: usize) -> (value: &V)
        requires
            at < self.listed().len(),
        ensures
            value.deep_view() == self.listed()[at as int].1,
    {
        &self.entries[at].1
    }

    /// The first place whose name does not come before `name`.
    fn place_of(&self, name: &str) -> (at: usize)
        ensures
            in_name_order(self.listed()),
            at <= self.listed().len(),
            forall|i: int| 0 <= i < at ==> text::text_lt((#[trigger] self.listed()[i]).0, name@),
            at < self.listed().len() ==> !text::text_lt(self.listed()[at as int].0, name@),
    {
        proof {
            use_type_invariant(&*self);
        }
        let mut at: usize = 0;
        while at < self.entries.len() && text::text_before(self.entries[at].0.as_str(), name)
            invariant
                at <= self.entries@.len(),
                forall|i: int|
                    0 <= i < at ==> text::text_lt((#[trigger] self.listed()[i]).0, name@),
            decreases self.entries@.len() - at,
        {
            assert(self.listed()[at as int].0 == self.entries@[at as int].0@);
            at = at + 1;
        }
        at
    }

    /// The value of `name`, if it has one.
    pub fn get(&self, name: &str) -> (value: Option<&V>)
        ensures
            value is Some <==> self.deep_view().contains_key(name@),
            value is Some ==> value->0.deep_view() == self.deep_view()[name@],
    {
        let at = self.place_of(name);
        if at < self.entries.len() && text::same_text(self.entries[at].0.as_str(), name) {
            proof {
                assert(self.listed()[at as int].0 == name@);
                lemma_map_of(self.listed(), at as int);
            }
            return Some(&self.entries[at].1);
        }
        proof {
            let listed = self.listed();
            if lists_name(listed, name@) {
                let i = choose|i: int| 0 <= i < listed.len() && (#[trigger] listed[i]).0 == name@;
                text::lemma_text_lt_irreflexive(name@);
                assert(i >= at);
                assert(listed[at as int].0 == self.entries@[at as int].0@);
                assert(i != at);
                assert(text::text_lt(listed[at as int].0, listed[i].0));
            }
        }
        None
    }

    /// Whether `name` has a value.
    pub fn contains_key(&self, name: &str) -> (found: bool)
        ensures
            found == self.deep_view().contains_key(name@),
    {
        self.get(name).is_some()
    }

    /// Gives `name` the value `value`, in place of any it had.
    pub fn insert(&mut self, name: String, value: V)
        ensures
            final(self).deep_view() == old(self).deep_view().insert(name@, value.deep_view()),
            in_name_order(final(self).listed()),
    {
        let at = self.place_of(name.as_str());
        let ghost before = self.listed();
        proof {
            use_type_invariant(&*self);
        }
        let mut entries: Vec<(String, V)> = Vec::new();
        std::mem::swap(&mut entries, &mut self.entries);
        assert(entries.deep_view() == before);
        if at < entries.len() && text::same_text(entries[at].0.as_str(), name.as_str()) {
            proof {
                assert(before[at as int].0 == entries@[at as int].0@);
                lemma_map_of_update(before, at as int, value.deep_view());
            }
            let ghost v = value.deep_view();
            entries[at] = (name, value);
            assert(entries.deep_view() =~= before.update(at as int, (before[at as int].0, v)));
        } else {
            proof {
                assert forall|i: int| at <= i < before.len() implies text::text_lt(
                    name@,
                    (#[trigger] before[i]).0,
                ) by {
                    assert(before[at as int].0 == entries@[at as int].0@);
                    text::lemma_text_lt_total(before[at as int].0, name@);
                    if i > at {
                        text::lemma_text_lt_transitive(name@, before[at as int].0, before[i].0);
                    }
                }
                lemma_map_of_insert(before, at as int, name@, value.deep_view());
            }
            let ghost entry = (name@, value.deep_view());
            entries.insert(at, (name, value));
            assert(entries.deep_view() =~= before.insert(at as int, entry));
        }
        proof {
            let after = entries.deep_view();
            assert(in_name_order(after));
            assert forall|i: int, j: int| 0 <= i < j < entries@.len() implies text::text_lt(
                #[trigger] entries@[i].0@,
                #[trigger] entries@[j].0@,
            ) by {
                assert(after[i].0 == entries@[i].0@);
                assert(after[j].0 == entries@[j].0@);
            }
        }
        self.entries = entries;
    }
}

impl<V: DeepView> Default for NameMap<V> {
    fn default() -> (m: Self)
        ensures
            m.deep_view() == Map::<Seq<char>, V::V>::empty(),
            m.listed() == Seq::<(Seq<char>, V::V)>::empty(),
    {
        NameMap::new()
    }
}

impl<V: DeepClone> NameMap<V> {
    /// A copy of the map and of its values.
    pub fn copied(&self) -> (copy: Self)
        ensures
            copy.listed() == self.listed(),
            copy.deep_view() == self.deep_view(),
    {
        proof {
            use_type_invariant(&*self);
        }
        let mut entries: Vec<(String, V)> = Vec::new();
        let mut i: usize = 0;
        while i < self.entries.len()
            invariant
                i <= self.entries@.len(),
                entries@.len() == i,
                forall|j: int|
                    0 <= j < i ==> (#[trigger] entries@[j]).deep_view()
                        == self.entries@[j].deep_view(),
            decreases self.entries@.len() - i,
        {
            entries.push((self.entries[i].0.clone(), self.entries[i].1.deep_clone()));
            i = i + 1;
        }
        proof {
            assert forall|i: int, j: int| 0 <= i < j < entries@.len() implies text::text_lt(
                #[trigger] entries@[i].0@,
                #[trigger] entries@[j].0@,
            ) by {
                assert(entries@[i].deep_view() == self.entries@[i].deep_view());
                assert(entries@[j].deep_view() == self.entries@[j].deep_view());
            }
            assert(entries.deep_view() =~= self.entries.deep_view());
        }
        NameMap { entries }
    }
}

/// A set of names.
#[derive(Debug, PartialEq, Eq)]
pub struct NameSet {
    names: NameMap<()>,
}

impl DeepView for NameSet {
    type V = Set<Seq<char>>;

    closed spec fn deep_view(&self) -> Set<Seq<char>> {
        self.names.deep_view().dom()
    }
}

impl NameSet {
    /// The names, in dictionary order.
    pub closed spec fn listed(self) -> Seq<Seq<char>> {
        Seq::new(self.names.listed().len(), |i: int| self.names.listed()[i].0)
    }

    /// The names in order are the names in the set.
    pub proof fn lemma_lists_its_names(self)
        ensures
            self.listed().to_set() == self.deep_view(),
    {
        let listed = self.names.listed();
        assert forall|name: Seq<char>| self.listed().contains(name)
            == #[trigger] self.deep_view().contains(name) by {
            if self.deep_view().contains(name) {
                let i = choose|i: int| 0 <= i < listed.len() && (#[trigger] listed[i]).0 == name;
                assert(self.listed()[i] == name);
            }
            if self.listed().contains(name) {
                let i = self.listed().index_of(name);
                assert(listed[i].0 == name);
            }
        }
        assert(self.listed().to_set() =~= self.deep_view());
    }

    /// The set without names.
    pub fn new() -> (s: Self)
        ensures
            s.deep_view() == Set::<Seq<char>>::empty(),
            s.listed() == Seq::<Seq<char>>::empty(),
    {
        let s = NameSet { names: NameMap::new() };
        assert(s.deep_view() =~= Set::<Seq<char>>::empty());
        assert(s.listed() =~= Seq::empty());
        s
    }

    /// How many names there are.
    pub fn len(&self) -> (n: usize)
        ensures
            n == self.listed().len(),
            self.listed().to_set() == self.deep_view(),
            forall|i: int, j: int|
                0 <= i < j < self.listed().len() ==> text::text_lt(
                    #[trigger] self.listed()[i],
                    #[trigger] self.listed()[j],
                ),
    {
        let n = self.names.len();
        proof {
            let listed = self.names.listed();
            self.lemma_lists_its_names();
            assert forall|i: int, j: int| 0 <= i < j < self.listed().len() implies text::text_lt(
                #[trigger] self.listed()[i],
                #[trigger] self.listed()[j],
            ) by {
                assert(text::text_lt(listed[i].0, listed[j].0));
            }
        }
        n
    }

    /// The name at `at`, in dictionary order.
    pub fn name_at(&self, at: usize) -> (name: &String)
        requires
            at < self.listed().len(),
        ensures
            name@ == self.listed()[at as int],
    {
        self.names.name_at(at)
    }

    /// Whether `name` is in the set.
    pub fn contains(&self, name: &str) -> (found: bool)
        ensures
            found == self.deep_view().contains(name@),
    {
        self.names.contains_key(name)
    }

    /// Adds `name`.
    pub fn insert(&mut self, name: String)
        ensures
            final(self).deep_view() == old(self).deep_view().insert(name@),
    {
        let ghost before = self.names.deep_view();
        self.names.insert(name, ());
        assert(self.deep_view() =~= before.dom().insert(name@));
    }
}

impl Default for NameSet {
    fn default() -> (s: Self)
        ensures
            s.deep_view() == Set::<Seq<char>>::empty(),
            s.listed() == Seq::<Seq<char>>::empty(),
    {
        NameSet::new()
    }
}

/// Names that are listed in order each come before the next in the dictionary, and what is listed
/// is what the map holds: each listed name with its value, and no other name.
pub proof fn lemma_listed_is_what_the_map_holds<T>(listed: Seq<(Seq<char>, T)>, name: Seq<char>)
    requires
        in_name_order(listed),
    ensures
        forall|i: int, j: int|
            0 <= i < j < listed.len() ==> text::text_lt(
                #[trigger] listed[i].0,
                #[trigger] listed[j].0,
            ),
        map_of(listed).contains_key(name) <==> exists|i: int|
            0 <= i < listed.len() && (#[trigger] listed[i]).0 == name,
        forall|i: int|
            0 <= i < listed.len() ==> map_of(listed)[(#[trigger] listed[i]).0] == listed[i].1,
{
    assert forall|i: int| 0 <= i < listed.len() implies map_of(listed)[(#[trigger] listed[i]).0]
        == listed[i].1 by {
        lemma_map_of(listed, i);
    }
    if map_of(listed).contains_key(name) {
        assert(lists_name(listed, name));
    }
    if exists|i: int| 0 <= i < listed.len() && (#[trigger] listed[i]).0 == name {
        let i = choose|i: int| 0 <= i < listed.len() && (#[trigger] listed[i]).0 == name;
        lemma_map_of(listed, i);
    }
}

} // verus!
