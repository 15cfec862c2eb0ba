//! The attributes of a node: a map from names to values, kept in ascending order of the names.

use vstd::prelude::*;
use crate::lexical::{ascending, lemma_str_lt_irreflexive, lemma_str_lt_total, lemma_str_lt_transitive, precedes, same_text, str_lt};

verus! {

/// The names of a list of entries, in the order of the list.
pub open spec fn names_of(entries: Seq<(Seq<char>, Seq<char>)>) -> Seq<Seq<char>> {
    entries.map_values(|e: (Seq<char>, Seq<char>)| e.0)
}

/// A place at which `name` is listed, if it is listed at all.
pub open spec fn place_of(entries: Seq<(Seq<char>, Seq<char>)>, name: Seq<char>) -> int {
    choose|i: int| 0 <= i < entries.len() && (#[trigger] entries[i]).0 == name
}

/// The map that a list of entries stands for: each name is bound to the value listed with it.
pub open spec fn table_of(entries: Seq<(Seq<char>, Seq<char>)>) -> Map<Seq<char>, Seq<char>> {
    Map::new(
        |name: Seq<char>| exists|i: int| 0 <= i < entries.len() && (#[trigger] entries[i]).0 == name,
        |name: Seq<char>| entries[place_of(entries, name)].1,
    )
}

/// In a list with ascending names, each name is bound to the value of its own entry.
pub proof fn lemma_table_lookup(entries: Seq<(Seq<char>, Seq<char>)>, i: int)
    requires
        ascending(names_of(entries)),
        0 <= i < entries.len(),
    ensures
        table_of(entries).contains_key(entries[i].0),
        table_of(entries)[entries[i].0] == entries[i].1,
{
    let name = entries[i].0;
    assert(0 <= i < entries.len() && entries[i].0 == name);
    assert(table_of(entries).contains_key(name));
    let k = place_of(entries, name);
    assert(table_of(entries)[name] == entries[k].1);
    if k != i {
        let names = names_of(entries);
        assert(names[k] == name && names[i] == name);
        lemma_str_lt_irreflexive(name);
        if k < i {
            assert(str_lt(names[k], names[i]));
        } else {
            assert(str_lt(names[i], names[k]));
        }
    }
}

/// A map from attribute names to values. Each name occurs once, and the entries are held in
/// ascending order of the names, which is the order in which they are written out.
pub struct Attributes {
    entries: Vec<(String, String)>,
}

impl View for Attributes {
    type V = Map<Seq<char>, Seq<char>>;

    open spec fn view(&self) -> Map<Seq<char>, Seq<char>> {
        table_of(self.ordered())
    }
}

impl Attributes {
    #[verifier::type_invariant]
    spec fn well_ordered(&self) -> bool {
        ascending(names_of(self.ordered()))
    }

    /// The entries, name and value, in ascending order of the names.
    pub closed spec fn ordered(&self) -> Seq<(Seq<char>, Seq<char>)> {
        self.entries@.map_values(|e: (String, String)| (e.0@, e.1@))
    }

    /// The empty map.
    pub fn new() -> (r: Attributes)
        ensures
            r.ordered() == Seq::<(Seq<char>, Seq<char>)>::empty(),
            r@ == Map::<Seq<char>, Seq<char>>::empty(),
    {
        let r = Attributes { entries: Vec::new() };
        proof {
            assert(r.ordered() =~= Seq::<(Seq<char>, Seq<char>)>::empty());
            assert(r@ =~= Map::<Seq<char>, Seq<char>>::empty());
        }
        r
    }

    /// How many entries the map holds.
    pub fn len(&self) -> (n: usize)
        ensures
            n == self.ordered().len(),
            ascending(names_of(self.ordered())),
    {
        proof {
            use_type_invariant(self);
        }
        self.entries.len()
    }

    pub fn is_empty(&self) -> (r: bool)
        ensures
            r == (self.ordered().len() == 0),
            r == (self@ == Map::<Seq<char>, Seq<char>>::empty()),
    {
        proof {
            if self.ordered().len() > 0 {
                assert(self@.contains_key(self.ordered()[0].0));
            } else {
                assert(self@ =~= Map::<Seq<char>, Seq<char>>::empty());
            }
        }
        self.entries.len() == 0
    }

    /// The entry at place `i` of the ascending order: its name and its value.
    pub fn entry(&self, i: usize) -> (e: (&str, &str))
        requires
            i < self.ordered().len(),
        ensures
            e.0@ == self.ordered()[i as int].0,
            e.1@ == self.ordered()[i as int].1,
    {
        (self.entries[i].0.as_str(), self.entries[i].1.as_str())
    }

    /// The place of `name` among the entries, if it is bound.
    fn find(&self, name: &str) -> (at: Option<usize>)
        ensures
            match at {
                Some(i) => i < self.ordered().len() && self.ordered()[i as int].0 == name@,
                None => !self@.contains_key(name@),
            },
    {
        let mut i: usize = 0;
        while i < self.entries.len()
            invariant
                i <= self.entries@.len(),
                forall|j: int| 0 <= j < i ==> (#[trigger] self.ordered()[j]).0 != name@,
            decreases self.entries@.len() - i,
        {
            if same_text(self.entries[i].0.as_str(), name) {
                return Some(i);
            }
            i += 1;
        }
        None
    }

    /// Whether `name` is bound.
    pub fn contains_key(&self, name: &str) -> (r: bool)
        ensures
            r == self@.contains_key(name@),
    {
        self.find(name).is_some()
    }

    /// The value bound to `name`.
    pub fn get(&self, name: &str) -> (value: Option<&str>)
        ensures
            match value {
                Some(v) => self@.contains_key(name@) && v@ == self@[name@],
                None => !self@.contains_key(name@),
            },
    {
        match self.find(name) {
            Some(i) => {
                proof {
                    use_type_invariant(self);
                    lemma_table_lookup(self.ordered(), i as int);
                }
                Some(self.entries[i].1.as_str())
            },
            None => None,
        }
    }

    /// Binds `name` to `value`. Returns the value that `name` was bound to before, if any.
    pub fn insert(&mut self, name: String, value: String) -> (previous: Option<String>)
        ensures
            final(self)@ == old(self)@.insert(name@, value@),
            match previous {
                Some(v) => old(self)@.contains_key(name@) && v@ == old(self)@[name@],
                None => !old(self)@.contains_key(name@),
            },
            ascending(names_of(final(self).ordered())),
    {
        proof {
            use_type_invariant(&*self);
        }
        let mut i: usize = 0;
        while i < self.entries.len() && precedes(self.entries[i].0.as_str(), name.as_str())
            invariant
                *self == *old(self),
                i <= self.entries@.len(),
                forall|j: int| 0 <= j < i ==> str_lt(#[trigger] names_of(self.ordered())[j], name@),
            decreases self.entries@.len() - i,
        {
            i += 1;
        }
        let ghost before = self.ordered();
        let ghost names = names_of(before);
        let ghost entry = (name@, value@);
        let replace = i < self.entries.len() && same_text(self.entries[i].0.as_str(), name.as_str());
        let mut entries: Vec<(String, String)> = Vec::new();
        proof {
            assert(entries@.map_values(|e: (String, String)| (e.0@, e.1@)) =~= Seq::<
                (Seq<char>, Seq<char>),
            >::empty());
            assert(names_of(Seq::<(Seq<char>, Seq<char>)>::empty()) =~= Seq::<Seq<char>>::empty());
        }
        core::mem::swap(&mut self.entries, &mut entries);
        if replace {
            let old_entry = entries.remove(i);
            entries.insert(i, (name, value));
            proof {
                let after = before.update(i as int, entry);
                assert(entries@.map_values(|e: (String, String)| (e.0@, e.1@)) =~= after);
                assert(names_of(after) =~= names);
                lemma_table_lookup(before, i as int);
                assert forall|k: Seq<char>| #[trigger]
                    table_of(after).contains_key(k) <==> table_of(before).insert(
                        name@,
                        value@,
                    ).contains_key(k) by {
                    if table_of(after).contains_key(k) {
                        let j = place_of(after, k);
                        assert(before[j].0 == k);
                    }
                    if table_of(before).contains_key(k) {
                        let j = place_of(before, k);
                        assert(after[j].0 == k);
                    }
                }
                assert forall|k: Seq<char>| #[trigger]
                    table_of(after).contains_key(k) implies table_of(after)[k] == table_of(
                    before,
                ).insert(name@, value@)[k] by {
                    let j = place_of(after, k);
                    lemma_table_lookup(after, j);
                    if j != i {
                        lemma_table_lookup(before, j);
                        assert(names[j] == k && names[i as int] == name@);
                        lemma_str_lt_irreflexive(k);
                        if j < i {
                            assert(str_lt(names[j], names[i as int]));
                        } else {
                            assert(str_lt(names[i as int], names[j]));
                        }
                    }
                }
                assert(table_of(after) =~= table_of(before).insert(name@, value@));
            }
            self.entries = entries;
            return Some(old_entry.1);
        }
        proof {
            assert forall|j: int| 0 <= j < before.len() implies (#[trigger] before[j]).0 != name@ by {
                assert(names[j] == before[j].0);
                if j < i {
                    lemma_str_lt_irreflexive(name@);
                } else {
                    lemma_str_lt_total(names[i as int], name@);
                    if j > i {
                        lemma_str_lt_transitive(name@, names[i as int], names[j]);
                    }
                    lemma_str_lt_irreflexive(name@);
                }
            }
            let after = before.insert(i as int, entry);
            let after_names = names_of(after);
            assert(entries@.insert(i as int, (name, value)).map_values(
                |e: (String, String)| (e.0@, e.1@),
            ) =~= after);
            assert(after_names =~= names.insert(i as int, name@));
            assert forall|a: int, b: int| 0 <= a < b < after_names.len() implies str_lt(
                #[trigger] after_names[a],
                #[trigger] after_names[b],
            ) by {
                if b == i {
                    assert(after_names[a] == names[a]);
                } else if a == i {
                    lemma_str_lt_total(names[i as int], name@);
                    if b - 1 > i {
                        lemma_str_lt_transitive(name@, names[i as int], names[b - 1]);
                    }
                } else {
                    let a0 = if a < i { a } else { a - 1 };
                    let b0 = if b < i { b } else { b - 1 };
                    assert(after_names[a] == names[a0] && after_names[b] == names[b0]);
                }
            }
            assert forall|k: Seq<char>| #[trigger]
                table_of(after).contains_key(k) <==> table_of(before).insert(
                    name@,
                    value@,
                ).contains_key(k) by {
                if table_of(after).contains_key(k) {
                    let j = place_of(after, k);
                    if j < i {
                        assert(before[j].0 == k);
                    } else if j > i {
                        assert(before[j - 1].0 == k);
                    }
                }
                if table_of(before).contains_key(k) {
                    let j = place_of(before, k);
                    if j < i {
                        assert(after[j].0 == k);
                    } else {
                        assert(after[j + 1].0 == k);
                    }
                }
                if k == name@ {
                    assert(after[i as int].0 == k);
                }
            }
            assert forall|k: Seq<char>| #[trigger]
                table_of(after).contains_key(k) implies table_of(after)[k] == table_of(
                before,
            ).insert(name@, value@)[k] by {
                let j = place_of(after, k);
                lemma_table_lookup(after, j);
                if j < i {
                    lemma_table_lookup(before, j);
                } else if j > i {
                    lemma_table_lookup(before, j - 1);
                }
            }
            assert(table_of(after) =~= table_of(before).insert(name@, value@));
        }
        entries.insert(i, (name, value));
        self.entries = entries;
        None
    }
}

} // verus!
