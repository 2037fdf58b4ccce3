//! Capability sets and the test that decides whether a worker can run an
//! action.

use vstd::prelude::*;

verus! {

/// The value of one platform property.
#[derive(Debug)]
pub enum PlatformPropertyValue {
    /// The worker must advertise the very same text.
    Exact(String),
    /// The worker must advertise a number that is at least this one.
    Minimum(u64),
}

/// The mathematical value of a [`PlatformPropertyValue`].
pub enum PropertyValueView {
    Exact(Seq<char>),
    Minimum(u64),
}

impl View for PlatformPropertyValue {
    type V = PropertyValueView;

    open spec fn view(&self) -> PropertyValueView {
        match self {
            PlatformPropertyValue::Exact(text) => PropertyValueView::Exact(text@),
            PlatformPropertyValue::Minimum(amount) => PropertyValueView::Minimum(*amount),
        }
    }
}

impl Clone for PlatformPropertyValue {
    fn clone(&self) -> (copy: Self)
        ensures
            copy@ == self@,
    {
        match self {
            PlatformPropertyValue::Exact(text) => PlatformPropertyValue::Exact(text.clone()),
            PlatformPropertyValue::Minimum(amount) => PlatformPropertyValue::Minimum(*amount),
        }
    }
}

/// Whether what a worker advertises for a property meets what an action
/// requires of it: the same text for an exact property, a number at least as
/// large for a minimum.
pub open spec fn value_satisfied(required: PropertyValueView, advertised: PropertyValueView) -> bool {
    match required {
        PropertyValueView::Exact(text) => advertised == PropertyValueView::Exact(text),
        PropertyValueView::Minimum(amount) => match advertised {
            PropertyValueView::Minimum(available) => available >= amount,
            PropertyValueView::Exact(_) => false,
        },
    }
}

/// Whether a worker that advertises `advertised` can run an action that
/// requires `required`: every required property is advertised with a value
/// that meets it. What the action does not require plays no part.
pub open spec fn satisfied_by(
    required: Map<Seq<char>, PropertyValueView>,
    advertised: Map<Seq<char>, PropertyValueView>,
) -> bool {
    forall|name: Seq<char>| #[trigger]
        required.contains_key(name) ==> advertised.contains_key(name) && value_satisfied(
            required[name],
            advertised[name],
        )
}

impl PlatformPropertyValue {
    /// Whether `advertised` meets this requirement.
    pub fn is_satisfied_by(&self, advertised: &PlatformPropertyValue) -> (answer: bool)
        ensures
            answer == value_satisfied(self@, advertised@),
    {
        match self {
            PlatformPropertyValue::Exact(text) => match advertised {
                PlatformPropertyValue::Exact(other) => *text == *other,
                PlatformPropertyValue::Minimum(_) => false,
            },
            PlatformPropertyValue::Minimum(amount) => match advertised {
                PlatformPropertyValue::Minimum(available) => *available >= *amount,
                PlatformPropertyValue::Exact(_) => false,
            },
        }
    }
}

/// A capability set: property names with their values. A worker advertises
/// one and an action requires one.
#[derive(Debug)]
pub struct PlatformProperties {
    pub entries: Vec<(String, PlatformPropertyValue)>,
}

/// Whether some entry carries the name.
pub open spec fn has_name(entries: Seq<(String, PlatformPropertyValue)>, name: Seq<char>) -> bool {
    exists|i: int| 0 <= i < entries.len() && (#[trigger] entries[i]).0@ == name
}

/// The place of an entry that carries the name.
pub open spec fn name_index(entries: Seq<(String, PlatformPropertyValue)>, name: Seq<char>) -> int {
    choose|i: int| 0 <= i < entries.len() && (#[trigger] entries[i]).0@ == name
}

/// Whether no two entries carry the same name.
pub open spec fn names_distinct(entries: Seq<(String, PlatformPropertyValue)>) -> bool {
    forall|i: int, j: int|
        0 <= i < j < entries.len() ==> (#[trigger] entries[i]).0@ != (#[trigger] entries[j]).0@
}

/// Whether two lists hold the same names with the same values, place by
/// place.
pub open spec fn same_entries(
    left: Seq<(String, PlatformPropertyValue)>,
    right: Seq<(String, PlatformPropertyValue)>,
) -> bool {
    &&& left.len() == right.len()
    &&& forall|j: int|
        0 <= j < left.len() ==> (#[trigger] left[j]).0@ == right[j].0@ && left[j].1@ == right[j].1@
}

impl View for PlatformProperties {
    type V = Map<Seq<char>, PropertyValueView>;

    open spec fn view(&self) -> Map<Seq<char>, PropertyValueView> {
        Map::new(
            |name: Seq<char>| has_name(self.entries@, name),
            |name: Seq<char>| self.entries@[name_index(self.entries@, name)].1@,
        )
    }
}

impl PlatformProperties {
    /// Whether the set is well formed: each name occurs once.
    pub open spec fn wf(&self) -> bool {
        names_distinct(self.entries@)
    }

    /// In a well-formed set the entry at `i` is the one that the set's value
    /// holds under its name.
    pub proof fn lemma_entry(&self, i: int)
        requires
            self.wf(),
            0 <= i < self.entries@.len(),
        ensures
            self@.contains_key(self.entries@[i].0@),
            self@[self.entries@[i].0@] == self.entries@[i].1@,
    {
        let name = self.entries@[i].0@;
        assert(has_name(self.entries@, name));
        let j = name_index(self.entries@, name);
        assert(j == i);
    }

    /// The empty set.
    pub fn new() -> (properties: PlatformProperties)
        ensures
            properties.wf(),
            properties@ == Map::<Seq<char>, PropertyValueView>::empty(),
    {
        let properties = PlatformProperties { entries: Vec::new() };
        assert(properties@ =~= Map::<Seq<char>, PropertyValueView>::empty());
        properties
    }

    /// The place of the entry with the given name, if there is one.
    fn position(&self, name: &String) -> (place: Option<usize>)
        ensures
            match place {
                Some(i) => i < self.entries@.len() && self.entries@[i as int].0@ == name@,
                None => !has_name(self.entries@, name@),
            },
    {
        let mut i: usize = 0;
        while i < self.entries.len()
            invariant
                i <= self.entries.len(),
                forall|j: int| 0 <= j < i ==> (#[trigger] self.entries@[j]).0@ != name@,
            decreases self.entries.len() - i,
        {
            if self.entries[i].0 == *name {
                return Some(i);
            }
            i = i + 1;
        }
        None
    }

    /// The value held under a name, if there is one.
    pub fn get(&self, name: &String) -> (value: Option<&PlatformPropertyValue>)
        requires
            self.wf(),
        ensures
            match value {
                Some(found) => self@.contains_key(name@) && self@[name@] == found@,
                None => !self@.contains_key(name@),
            },
    {
        match self.position(name) {
            Some(i) => {
                proof {
                    self.lemma_entry(i as int);
                }
                Some(&self.entries[i].1)
            },
            None => None,
        }
    }

    /// Puts a value under a name, in place of the one that was there.
    pub fn insert(&mut self, name: String, value: PlatformPropertyValue)
        requires
            old(self).wf(),
        ensures
            final(self).wf(),
            final(self)@ == old(self)@.insert(name@, value@),
    {
        let ghost before = *self;
        match self.position(&name) {
            Some(i) => {
                self.entries[i].1 = value;
                assert(forall|j: int|
                    0 <= j < self.entries@.len() ==> (#[trigger] self.entries@[j]).0@
                        == before.entries@[j].0@);
                assert(self.wf());
                assert forall|key: Seq<char>| #[trigger]
                    self@.contains_key(key) == before@.insert(name@, value@).contains_key(
                        key,
                    ) by {
                    if has_name(before.entries@, key) {
                        let j = name_index(before.entries@, key);
                        assert(self.entries@[j].0@ == key);
                    }
                    if has_name(self.entries@, key) {
                        let j = name_index(self.entries@, key);
                        assert(before.entries@[j].0@ == key);
                    }
                    assert(before.entries@[i as int].0@ == name@);
                }
                assert forall|key: Seq<char>| #[trigger]
                    self@.contains_key(key) implies self@[key] == before@.insert(
                        name@,
                        value@,
                    )[key] by {
                    let j = name_index(self.entries@, key);
                    self.lemma_entry(j);
                    if j != i {
                        before.lemma_entry(j);
                    }
                }
                assert(self@ =~= before@.insert(name@, value@));
            },
            None => {
                self.entries.push((name, value));
                let ghost last = before.entries@.len() as int;
                assert(forall|j: int|
                    0 <= j < last ==> (#[trigger] self.entries@[j]) == before.entries@[j]);
                assert(self.entries@[last].0@ == name@);
                assert(self.wf());
                assert forall|key: Seq<char>| #[trigger]
                    self@.contains_key(key) == before@.insert(name@, value@).contains_key(
                        key,
                    ) by {
                    if has_name(before.entries@, key) {
                        let j = name_index(before.entries@, key);
                        assert(self.entries@[j].0@ == key);
                    }
                    if has_name(self.entries@, key) {
                        let j = name_index(self.entries@, key);
                        if j < last {
                            assert(before.entries@[j].0@ == key);
                        }
                    }
                }
                assert forall|key: Seq<char>| #[trigger]
                    self@.contains_key(key) implies self@[key] == before@.insert(
                        name@,
                        value@,
                    )[key] by {
                    let j = name_index(self.entries@, key);
                    self.lemma_entry(j);
                    if j < last {
                        before.lemma_entry(j);
                    }
                }
                assert(self@ =~= before@.insert(name@, value@));
            },
        }
    }

    /// Whether a worker that advertises `advertised` can run an action that
    /// requires this set.
    pub fn is_satisfied_by(&self, advertised: &PlatformProperties) -> (answer: bool)
        requires
            self.wf(),
            advertised.wf(),
        ensures
            answer == satisfied_by(self@, advertised@),
    {
        let mut i: usize = 0;
        while i < self.entries.len()
            invariant
                self.wf(),
                advertised.wf(),
                i <= self.entries.len(),
                forall|j: int|
                    0 <= j < i ==> advertised@.contains_key((#[trigger] self.entries@[j]).0@)
                        && value_satisfied(self.entries@[j].1@, advertised@[self.entries@[j].0@]),
            decreases self.entries.len() - i,
        {
            proof {
                self.lemma_entry(i as int);
            }
            let met = match advertised.get(&self.entries[i].0) {
                Some(found) => self.entries[i].1.is_satisfied_by(found),
                None => false,
            };
            if !met {
                assert(self@.contains_key(self.entries@[i as int].0@));
                return false;
            }
            i = i + 1;
        }
        assert forall|name: Seq<char>| #[trigger] self@.contains_key(name) implies advertised@.contains_key(
            name,
        ) && value_satisfied(self@[name], advertised@[name]) by {
            let j = name_index(self.entries@, name);
            self.lemma_entry(j);
            assert(self.entries@[j].0@ == name);
        }
        true
    }

    /// Whether the set is well formed. Whoever fills `entries` by hand asks
    /// this before handing the set on.
    pub fn is_well_formed(&self) -> (answer: bool)
        ensures
            answer == self.wf(),
    {
        let mut j: usize = 0;
        while j < self.entries.len()
            invariant
                j <= self.entries.len(),
                forall|a: int, b: int|
                    0 <= a < b < j ==> (#[trigger] self.entries@[a]).0@ != (
                    #[trigger] self.entries@[b]).0@,
            decreases self.entries.len() - j,
        {
            let mut i: usize = 0;
            while i < j
                invariant
                    i <= j < self.entries.len(),
                    forall|a: int|
                        0 <= a < i ==> (#[trigger] self.entries@[a]).0@ != self.entries@[j as int].0@,
                decreases j - i,
            {
                if self.entries[i].0 == self.entries[j].0 {
                    return false;
                }
                i = i + 1;
            }
            j = j + 1;
        }
        true
    }

    /// The number of properties in the set.
    pub fn len(&self) -> (count: usize)
        ensures
            count == self.entries@.len(),
    {
        self.entries.len()
    }
}

impl Clone for PlatformProperties {
    /// A copy with the same entries in the same order. Of a well-formed set
    /// the copy is well formed and has the same value.
    fn clone(&self) -> (copy: Self)
        ensures
            same_entries(copy.entries@, self.entries@),
            self.wf() ==> copy.wf() && copy@ == self@,
    {
        let mut entries: Vec<(String, PlatformPropertyValue)> = Vec::new();
        let mut i: usize = 0;
        while i < self.entries.len()
            invariant
                i <= self.entries.len(),
                entries@.len() == i,
                forall|j: int|
                    0 <= j < i ==> (#[trigger] entries@[j]).0@ == self.entries@[j].0@
                        && entries@[j].1@ == self.entries@[j].1@,
            decreases self.entries.len() - i,
        {
            let name = self.entries[i].0.clone();
            let value = self.entries[i].1.clone();
            entries.push((name, value));
            i = i + 1;
        }
        let copy = PlatformProperties { entries };
        proof {
            if self.wf() {
                assert(copy.wf());
                assert forall|key: Seq<char>| #[trigger]
                    copy@.contains_key(key) == self@.contains_key(key) by {
                    if has_name(copy.entries@, key) {
                        let j = name_index(copy.entries@, key);
                        assert(self.entries@[j].0@ == key);
                    }
                    if has_name(self.entries@, key) {
                        let j = name_index(self.entries@, key);
                        assert(copy.entries@[j].0@ == key);
                    }
                }
                assert forall|key: Seq<char>| #[trigger]
                    copy@.contains_key(key) implies copy@[key] == self@[key] by {
                    let j = name_index(copy.entries@, key);
                    copy.lemma_entry(j);
                    self.lemma_entry(j);
                }
                assert(copy@ =~= self@);
            }
        }
        copy
    }
}

} // verus!
