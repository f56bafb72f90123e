//! Finite sets of names.

use crate::ir::name_views;
use crate::order::name_equal;
use vstd::prelude::*;
use vstd::seq_lib::*;

verus! {

/// A set of names.
pub struct NameSet {
    names: Vec<String>,
}

impl View for NameSet {
    type V = Set<Seq<char>>;

    closed spec fn view(&self) -> Set<Seq<char>> {
        name_views(self.names@).to_set()
    }
}

impl NameSet {
    #[verifier::type_invariant]
    spec fn well_formed(self) -> bool {
        name_views(self.names@).no_duplicates()
    }

    /// The empty set.
    pub fn new() -> (set: NameSet)
        ensures
            set@ == Set::<Seq<char>>::empty(),
    {
        let set = NameSet { names: Vec::new() };
        assert(set@ =~= Set::<Seq<char>>::empty());
        set
    }

    /// The members, each once.
    pub fn names(&self) -> (names: &Vec<String>)
        ensures
            name_views(names@).no_duplicates(),
            name_views(names@).to_set() == self@,
    {
        proof {
            use_type_invariant(self);
        }
        &self.names
    }

    /// The number of members.
    pub fn len(&self) -> (n: usize)
        ensures
            self@.finite(),
            n == self@.len(),
    {
        proof {
            use_type_invariant(self);
            seq_to_set_is_finite(name_views(self.names@));
            name_views(self.names@).unique_seq_to_set();
        }
        self.names.len()
    }

    /// Whether `name` is a member.
    pub fn contains(&self, name: &str) -> (r: bool)
        ensures
            r == self@.contains(name@),
    {
        let mut i: usize = 0;
        while i < self.names.len()
            invariant
                i <= self.names.len(),
                forall|k: int| 0 <= k < i ==> self.names[k]@ != name@,
            decreases self.names.len() - i,
        {
            if name_equal(self.names[i].as_str(), name) {
                assert(name_views(self.names@)[i as int] == name@);
                return true;
            }
            i += 1;
        }
        assert forall|k: int| 0 <= k < self.names.len() implies name_views(self.names@)[k] != name@ by {
            assert(self.names[k]@ != name@);
        }
        false
    }

    /// Adds `name`. Says whether it was new to the set.
    pub fn insert(&mut self, name: String) -> (fresh: bool)
        ensures
            final(self)@ == old(self)@.insert(name@),
            fresh == !old(self)@.contains(name@),
    {
        proof {
            use_type_invariant(&*self);
        }
        if self.contains(name.as_str()) {
            assert(self@.insert(name@) =~= self@);
            return false;
        }
        let ghost before = name_views(self.names@);
        let ghost added = name@;
        let mut names: Vec<String> = Vec::new();
        core::mem::swap(&mut self.names, &mut names);
        names.push(name);
        proof {
            let after = name_views(names@);
            assert(after =~= before.push(added));
            assert forall|k: int| 0 <= k < before.len() implies before[k] != added by {
                if before[k] == added {
                    assert(before.to_set().contains(added));
                }
            }
            assert(after.to_set() =~= before.to_set().insert(added)) by {
                assert forall|n: Seq<char>| after.to_set().contains(n) implies before.to_set().insert(added).contains(n) by {
                    let k = choose|k: int| 0 <= k < after.len() && after[k] == n;
                    if k < before.len() {
                        assert(before[k] == n);
                    }
                }
                assert forall|n: Seq<char>| before.to_set().insert(added).contains(n) implies after.to_set().contains(n) by {
                    if n == added {
                        assert(after[before.len() as int] == n);
                    } else {
                        let k = choose|k: int| 0 <= k < before.len() && before[k] == n;
                        assert(after[k] == n);
                    }
                }
            }
        }
        core::mem::swap(&mut self.names, &mut names);
        true
    }
}

} // verus!
