//! The class labels of a node: a set of strings, kept in ascending order.

use vstd::prelude::*;
use crate::lexical::{ascending, lemma_str_lt_irreflexive, lemma_str_lt_total, lemma_str_lt_transitive, precedes, same_text, str_lt};

verus! {

/// A set of class names. Each name occurs once, and the names are held in ascending order,
/// which is the order in which they are written out.
pub struct Classes {
    names: Vec<String>,
}

impl View for Classes {
    type V = Set<Seq<char>>;

    open spec fn view(&self) -> Set<Seq<char>> {
        self.ordered().to_set()
    }
}

/// Inserting into a sequence adds one element to the set of its elements.
pub proof fn lemma_insert_to_set<T>(s: Seq<T>, at: int, x: T)
    requires
        0 <= at <= s.len(),
    ensures
        s.insert(at, x).to_set() == s.to_set().insert(x),
{
    let t = s.insert(at, x);
    assert forall|e: T| t.to_set().contains(e) <==> s.to_set().insert(x).contains(e) by {
        if t.contains(e) {
            let k = choose|k: int| 0 <= k < t.len() && t[k] == e;
            if k < at {
                assert(s[k] == e);
            } else if k > at {
                assert(s[k - 1] == e);
            }
        }
        if s.contains(e) {
            let k = choose|k: int| 0 <= k < s.len() && s[k] == e;
            if k < at {
                assert(t[k] == e);
            } else {
                assert(t[k + 1] == e);
            }
        }
        if e == x {
            assert(t[at] == e);
        }
    }
    assert(t.to_set() =~= s.to_set().insert(x));
}

impl Classes {
    #[verifier::type_invariant]
    spec fn well_ordered(&self) -> bool {
        ascending(self.ordered())
    }

    /// The names, in ascending order.
    pub closed spec fn ordered(&self) -> Seq<Seq<char>> {
        self.names@.map_values(|s: String| s@)
    }

    /// The empty set.
    pub fn new() -> (r: Classes)
        ensures
            r.ordered() == Seq::<Seq<char>>::empty(),
            r@ == Set::<Seq<char>>::empty(),
    {
        let r = Classes { names: Vec::new() };
        proof {
            assert(r.ordered() =~= Seq::<Seq<char>>::empty());
            assert(r@ =~= Set::<Seq<char>>::empty());
        }
        r
    }

    /// How many names the set holds.
    pub fn len(&self) -> (n: usize)
        ensures
            n == self.ordered().len(),
            ascending(self.ordered()),
    {
        proof {
            use_type_invariant(self);
        }
        self.names.len()
    }

    pub fn is_empty(&self) -> (r: bool)
        ensures
            r == (self.ordered().len() == 0),
            r == (self@ == Set::<Seq<char>>::empty()),
    {
        proof {
            if self.ordered().len() > 0 {
                assert(self.ordered().contains(self.ordered()[0]));
                assert(self@.contains(self.ordered()[0]));
            } else {
                assert(self@ =~= Set::<Seq<char>>::empty());
            }
        }
        self.names.len() == 0
    }

    /// The name at place `i` of the ascending order.
    pub fn get(&self, i: usize) -> (name: &str)
        requires
            i < self.ordered().len(),
        ensures
            name@ == self.ordered()[i as int],
    {
        self.names[i].as_str()
    }

    /// Whether `class` is in the set.
    pub fn contains(&self, class: &str) -> (r: bool)
        ensures
            r == self@.contains(class@),
    {
        let mut i: usize = 0;
        while i < self.names.len()
            invariant
                i <= self.names@.len(),
                forall|j: int| 0 <= j < i ==> self.ordered()[j] != class@,
            decreases self.names@.len() - i,
        {
            if same_text(self.names[i].as_str(), class) {
                proof {
                    assert(self.ordered()[i as int] == class@);
                    assert(self.ordered().contains(class@));
                }
                return true;
            }
            i += 1;
        }
        false
    }

    /// Adds `class` to the set. Returns whether it was new.
    pub fn insert(&mut self, class: String) -> (fresh: bool)
        ensures
            final(self)@ == old(self)@.insert(class@),
            fresh == !old(self)@.contains(class@),
            ascending(final(self).ordered()),
    {
        proof {
            use_type_invariant(&*self);
        }
        let mut i: usize = 0;
        while i < self.names.len() && precedes(self.names[i].as_str(), class.as_str())
            invariant
                *self == *old(self),
                i <= self.names@.len(),
                forall|j: int| 0 <= j < i ==> str_lt(#[trigger] self.ordered()[j], class@),
            decreases self.names@.len() - i,
        {
            i += 1;
        }
        let ghost before = self.ordered();
        if i < self.names.len() && same_text(self.names[i].as_str(), class.as_str()) {
            proof {
                assert(before[i as int] == class@);
                assert(before.contains(class@));
                assert(self@ =~= self@.insert(class@));
            }
            return false;
        }
        proof {
            assert forall|j: int| 0 <= j < before.len() implies before[j] != class@ by {
                if j < i {
                    lemma_str_lt_irreflexive(class@);
                } else {
                    lemma_str_lt_total(before[i as int], class@);
                    if j > i {
                        lemma_str_lt_transitive(class@, before[i as int], before[j]);
                    }
                    lemma_str_lt_irreflexive(class@);
                }
            }
            assert(!before.contains(class@));
            let after = before.insert(i as int, class@);
            assert(self.names@.insert(i as int, class).map_values(|s: String| s@) =~= after);
            assert forall|a: int, b: int| 0 <= a < b < after.len() implies str_lt(
                #[trigger] after[a],
                #[trigger] after[b],
            ) by {
                if b == i {
                    assert(after[a] == before[a]);
                } else if a == i {
                    lemma_str_lt_total(before[i as int], class@);
                    if b - 1 > i {
                        lemma_str_lt_transitive(class@, before[i as int], before[b - 1]);
                    }
                } else {
                    let a0 = if a < i { a } else { a - 1 };
                    let b0 = if b < i { b } else { b - 1 };
                    assert(after[a] == before[a0] && after[b] == before[b0]);
                }
            }
            lemma_insert_to_set(before, i as int, class@);
        }
        let mut names: Vec<String> = Vec::new();
        proof {
            assert(names@.map_values(|s: String| s@) =~= Seq::<Seq<char>>::empty());
        }
        core::mem::swap(&mut self.names, &mut names);
        names.insert(i, class);
        self.names = names;
        true
    }
}

} // verus!
