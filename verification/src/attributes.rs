//! The attributes of an item: names with values, each name at most once.
use vstd::prelude::*;

verus! {

/// Whether no two entries have the same name.
pub open spec fn distinct_names(entries: Seq<(String, String)>) -> bool {
    forall|i: int, j: int|
        0 <= i < entries.len() && 0 <= j < entries.len() && (#[trigger] entries[i]).0@ == (
        #[trigger] entries[j]).0@ ==> i == j
}

/// Whether the entry number `i` carries the name.
pub open spec fn names_at(entries: Seq<(String, String)>, name: Seq<char>, i: int) -> bool {
    0 <= i < entries.len() && entries[i].0@ == name
}

/// The map from names to values that a list of entries stands for.
pub open spec fn entry_map(entries: Seq<(String, String)>) -> Map<Seq<char>, Seq<char>> {
    Map::new(
        |name: Seq<char>| exists|i: int| names_at(entries, name, i),
        |name: Seq<char>| entries[choose|i: int| names_at(entries, name, i)].1@,
    )
}

/// An entry of a list stands in the map that the list stands for.
pub proof fn lemma_entry(entries: Seq<(String, String)>, i: int)
    requires
        distinct_names(entries),
        0 <= i < entries.len(),
    ensures
        entry_map(entries).contains_key(entries[i].0@),
        entry_map(entries)[entries[i].0@] == entries[i].1@,
{
    let name = entries[i].0@;
    assert(names_at(entries, name, i));
    let k = choose|k: int| names_at(entries, name, k);
    assert(names_at(entries, name, k));
    assert(entries[k].0@ == entries[i].0@);
}

/// The searchable attributes of an item.
pub struct Attributes {
    entries: Vec<(String, String)>,
}

impl View for Attributes {
    type V = Map<Seq<char>, Seq<char>>;

    closed spec fn view(&self) -> Map<Seq<char>, Seq<char>> {
        entry_map(self.entries@)
    }
}

impl Attributes {
    #[verifier::type_invariant]
    spec fn well_formed(self) -> bool {
        distinct_names(self.entries@)
    }

    /// No attributes.
    pub fn new() -> (attributes: Attributes)
        ensures
            attributes@ == Map::<Seq<char>, Seq<char>>::empty(),
    {
        let entries: Vec<(String, String)> = Vec::new();
        proof {
            assert(entry_map(entries@) =~= Map::<Seq<char>, Seq<char>>::empty());
        }
        Attributes { entries }
    }

    fn position(&self, name: &String) -> (found: Option<usize>)
        ensures
            match found {
                Some(i) => names_at(self.entries@, name@, i as int),
                None => !self@.contains_key(name@),
            },
    {
        let mut i: usize = 0;
        while i < self.entries.len()
            invariant
                i <= self.entries@.len(),
                forall|j: int| 0 <= j < i ==> !names_at(self.entries@, name@, j),
            decreases self.entries@.len() - i,
        {
            if self.entries[i].0 == *name {
                return Some(i);
            }
            i = i + 1;
        }
        None
    }

    /// Whether there is a value under the name.
    pub fn contains_key(&self, name: &String) -> (found: bool)
        ensures
            found == self@.contains_key(name@),
    {
        proof {
            use_type_invariant(self);
        }
        match self.position(name) {
            Some(i) => {
                proof {
                    lemma_entry(self.entries@, i as int);
                }
                true
            },
            None => false,
        }
    }

    /// The value under the name.
    pub fn get(&self, name: &String) -> (value: Option<&String>)
        ensures
            value is Some <==> self@.contains_key(name@),
            value matches Some(v) ==> v@ == self@[name@],
    {
        proof {
            use_type_invariant(self);
        }
        match self.position(name) {
            Some(i) => {
                proof {
                    lemma_entry(self.entries@, i as int);
                }
                Some(&self.entries[i].1)
            },
            None => None,
        }
    }

    /// These attributes with the value put under the name, in place of the value
    /// that was there.
    pub fn with(self, name: String, value: String) -> (attributes: Attributes)
        ensures
            attributes@ == self@.insert(name@, value@),
    {
        proof {
            use_type_invariant(&self);
        }
        let found = self.position(&name);
        let ghost before = self.entries@;
        let mut entries = self.entries;
        match found {
            Some(i) => {
                entries.set(i, (name, value));
                proof {
                    let after = entries@;
                    assert(after =~= before.update(i as int, (name, value)));
                    assert forall|a: int, b: int|
                        0 <= a < after.len() && 0 <= b < after.len() && (#[trigger] after[a]).0@
                            == (#[trigger] after[b]).0@ implies a == b by {
                        assert(before[a].0@ == after[a].0@);
                        assert(before[b].0@ == after[b].0@);
                    }
                    Self::lemma_changed(before, after, i as int, name@, value@);
                }
            },
            None => {
                entries.push((name, value));
                proof {
                    let after = entries@;
                    assert forall|a: int, b: int|
                        0 <= a < after.len() && 0 <= b < after.len() && (#[trigger] after[a]).0@
                            == (#[trigger] after[b]).0@ implies a == b by {
                        if a < before.len() && b < before.len() {
                            assert(before[a].0@ == before[b].0@);
                        } else if a < before.len() {
                            assert(names_at(before, name@, a));
                        } else if b < before.len() {
                            assert(names_at(before, name@, b));
                        }
                    }
                    Self::lemma_changed(before, after, before.len() as int, name@, value@);
                }
            },
        }
        Attributes { entries }
    }

    proof fn lemma_changed(
        before: Seq<(String, String)>,
        after: Seq<(String, String)>,
        at: int,
        name: Seq<char>,
        value: Seq<char>,
    )
        requires
            distinct_names(before),
            distinct_names(after),
            0 <= at < after.len(),
            before.len() <= after.len() <= before.len() + 1,
            at < before.len() ==> after.len() == before.len() && before[at].0@ == name,
            at >= before.len() ==> at == before.len() && after.len() == before.len() + 1,
            after[at].0@ == name,
            after[at].1@ == value,
            forall|k: int| 0 <= k < before.len() && k != at ==> after[k] == #[trigger] before[k],
        ensures
            entry_map(after) == entry_map(before).insert(name, value),
    {
        let left = entry_map(after);
        let right = entry_map(before).insert(name, value);
        lemma_entry(after, at);
        assert forall|k: Seq<char>| left.contains_key(k) <==> right.contains_key(k) by {
            if left.contains_key(k) && k != name {
                let i = choose|i: int| names_at(after, k, i);
                assert(after[i] == before[i]);
                assert(names_at(before, k, i));
            }
            if right.contains_key(k) && k != name {
                let i = choose|i: int| names_at(before, k, i);
                assert(after[i] == before[i]);
                assert(names_at(after, k, i));
            }
        }
        assert forall|k: Seq<char>| left.contains_key(k) implies left[k] == right[k] by {
            if k != name {
                let i = choose|i: int| names_at(after, k, i);
                assert(after[i] == before[i]);
                lemma_entry(after, i);
                lemma_entry(before, i);
            }
        }
        assert(left =~= right);
    }

    /// A second copy of these attributes.
    pub fn duplicate(&self) -> (attributes: Attributes)
        ensures
            attributes@ == self@,
    {
        proof {
            use_type_invariant(self);
        }
        let entries = self.duplicate_entries();
        Attributes { entries }
    }

    /// The names with their values, each name once.
    pub fn entries(&self) -> (entries: Vec<(String, String)>)
        ensures
            distinct_names(entries@),
            entry_map(entries@) == self@,
    {
        proof {
            use_type_invariant(self);
        }
        self.duplicate_entries()
    }

    fn duplicate_entries(&self) -> (entries: Vec<(String, String)>)
        ensures
            entries@ == self.entries@,
    {
        let mut entries: Vec<(String, String)> = Vec::new();
        let mut i: usize = 0;
        while i < self.entries.len()
            invariant
                i <= self.entries@.len(),
                entries@ =~= self.entries@.take(i as int),
            decreases self.entries@.len() - i,
        {
            entries.push((self.entries[i].0.clone(), self.entries[i].1.clone()));
            i = i + 1;
        }
        assert(entries@ =~= self.entries@);
        entries
    }

    /// Whether every one of these attributes is among the others, with the same
    /// value.
    pub fn within(&self, others: &Attributes) -> (result: bool)
        ensures
            result == self@.submap_of(others@),
    {
        proof {
            use_type_invariant(self);
        }
        let mut i: usize = 0;
        while i < self.entries.len()
            invariant
                distinct_names(self.entries@),
                i <= self.entries@.len(),
                forall|j: int|
                    0 <= j < i ==> others@.contains_key((#[trigger] self.entries@[j]).0@)
                        && others@[self.entries@[j].0@] == self.entries@[j].1@,
            decreases self.entries@.len() - i,
        {
            proof {
                lemma_entry(self.entries@, i as int);
            }
            match others.get(&self.entries[i].0) {
                Some(value) => {
                    if *value != self.entries[i].1 {
                        return false;
                    }
                },
                None => {
                    return false;
                },
            }
            i = i + 1;
        }
        proof {
            assert forall|k: Seq<char>| self@.contains_key(k) implies others@.contains_key(k)
                && self@[k] == others@[k] by {
                let j = choose|j: int| names_at(self.entries@, k, j);
                lemma_entry(self.entries@, j);
            }
        }
        true
    }
}

} // verus!
