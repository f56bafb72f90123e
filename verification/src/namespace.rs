//! Declarations keyed by name, and sets of names.

use crate::ir::{decl_views, TopDecl, TopDeclView};
use crate::order::name_equal;
use vstd::prelude::*;
use vstd::seq_lib::*;

verus! {

/// No two declarations of `s` have the same name.
pub open spec fn distinct_names(s: Seq<TopDeclView>) -> bool {
    forall|i: int, j: int| 0 <= i < j < s.len() ==> s[i].name() != s[j].name()
}

/// Some declaration of `s` is named `n`.
pub open spec fn has_name(s: Seq<TopDeclView>, n: Seq<char>) -> bool {
    exists|i: int| 0 <= i < s.len() && #[trigger] s[i].name() == n
}

/// A position in `s` of a declaration named `n`, if there is one.
pub open spec fn index_of(s: Seq<TopDeclView>, n: Seq<char>) -> int {
    choose|i: int| 0 <= i < s.len() && #[trigger] s[i].name() == n
}

/// The mapping from each name in `s` to a declaration of that name.
pub open spec fn to_map(s: Seq<TopDeclView>) -> Map<Seq<char>, TopDeclView> {
    Map::new(|n: Seq<char>| has_name(s, n), |n: Seq<char>| s[index_of(s, n)])
}

/// `s` lists the declarations of `m`: each of them once, and nothing else.
pub open spec fn lists(s: Seq<TopDeclView>, m: Map<Seq<char>, TopDeclView>) -> bool {
    &&& distinct_names(s)
    &&& forall|i: int|
        0 <= i < s.len() ==> m.contains_key(#[trigger] s[i].name()) && m[s[i].name()] == s[i]
    &&& forall|n: Seq<char>| m.contains_key(n) ==> has_name(s, n)
}

/// Every declaration of `m` is filed under its own name.
pub open spec fn keyed_by_name(m: Map<Seq<char>, TopDeclView>) -> bool {
    forall|n: Seq<char>| m.contains_key(n) ==> (#[trigger] m[n]).name() == n
}

/// A sequence without repeated names lists the mapping made from it.
pub proof fn lemma_to_map_lists(s: Seq<TopDeclView>)
    requires
        distinct_names(s),
    ensures
        lists(s, to_map(s)),
{
    let m = to_map(s);
    assert forall|i: int| 0 <= i < s.len() implies m.contains_key(#[trigger] s[i].name()) && m[s[i].name()] == s[i] by {
        let n = s[i].name();
        assert(has_name(s, n));
        let j = index_of(s, n);
        assert(0 <= j < s.len() && s[j].name() == n);
        if i < j {
            assert(s[i].name() != s[j].name());
        }
        if j < i {
            assert(s[j].name() != s[i].name());
        }
    }
}

/// A mapping that some sequence lists has finitely many names, as many as
/// the sequence is long, and files every declaration under its own name.
pub proof fn lemma_listed_map(s: Seq<TopDeclView>, m: Map<Seq<char>, TopDeclView>)
    requires
        lists(s, m),
    ensures
        keyed_by_name(m),
        m.dom().finite(),
        m.dom().len() == s.len(),
{
    assert forall|n: Seq<char>| m.contains_key(n) implies (#[trigger] m[n]).name() == n by {
        assert(has_name(s, n));
        let i = index_of(s, n);
        assert(m[s[i].name()] == s[i]);
    }
    let names = Seq::new(s.len(), |i: int| s[i].name());
    assert(names.no_duplicates());
    assert forall|n: Seq<char>| m.dom().contains(n) <==> names.to_set().contains(n) by {
        if m.dom().contains(n) {
            assert(has_name(s, n));
            let i = index_of(s, n);
            assert(names[i] == n);
        }
        if names.to_set().contains(n) {
            let i = choose|i: int| 0 <= i < names.len() && names[i] == n;
            assert(m.contains_key(s[i].name()));
        }
    }
    assert(m.dom() =~= names.to_set());
    seq_to_set_is_finite(names);
    names.unique_seq_to_set();
}

/// A namespace: at most one declaration under each name.
pub struct Namespace {
    decls: Vec<TopDecl>,
}

impl View for Namespace {
    type V = Map<Seq<char>, TopDeclView>;

    closed spec fn view(&self) -> Map<Seq<char>, TopDeclView> {
        to_map(decl_views(self.decls@))
    }
}

impl Namespace {
    #[verifier::type_invariant]
    spec fn well_formed(self) -> bool {
        distinct_names(decl_views(self.decls@))
    }

    /// The empty namespace.
    pub fn new() -> (ns: Namespace)
        ensures
            ns@ == Map::<Seq<char>, TopDeclView>::empty(),
    {
        let ns = Namespace { decls: Vec::new() };
        assert(ns@ =~= Map::<Seq<char>, TopDeclView>::empty());
        ns
    }

    /// The declarations, each once.
    pub fn decls(&self) -> (decls: &Vec<TopDecl>)
        ensures
            lists(decl_views(decls@), self@),
    {
        proof {
            use_type_invariant(self);
            lemma_to_map_lists(decl_views(self.decls@));
        }
        &self.decls
    }

    /// The number of declarations.
    pub fn len(&self) -> (n: usize)
        ensures
            self@.dom().finite(),
            n == self@.dom().len(),
    {
        proof {
            use_type_invariant(self);
            lemma_to_map_lists(decl_views(self.decls@));
            lemma_listed_map(decl_views(self.decls@), self@);
        }
        self.decls.len()
    }

    fn position(&self, name: &str) -> (r: Option<usize>)
        ensures
            match r {
                Some(i) => i < self.decls.len() && self.decls[i as int]@.name() == name@,
                None => !has_name(decl_views(self.decls@), name@),
            },
    {
        let mut i: usize = 0;
        while i < self.decls.len()
            invariant
                i <= self.decls.len(),
                forall|k: int| 0 <= k < i ==> self.decls[k]@.name() != name@,
            decreases self.decls.len() - i,
        {
            if name_equal(self.decls[i].name().as_str(), name) {
                return Some(i);
            }
            i += 1;
        }
        assert forall|k: int| 0 <= k < self.decls.len() implies #[trigger] decl_views(self.decls@)[k].name() != name@ by {
            assert(self.decls[k]@.name() != name@);
        }
        None
    }

    /// The declaration filed under `name`, if there is one.
    pub fn get(&self, name: &str) -> (r: Option<&TopDecl>)
        ensures
            match r {
                Some(decl) => self@.contains_key(name@) && decl@ == self@[name@],
                None => !self@.contains_key(name@),
            },
    {
        proof {
            use_type_invariant(self);
            lemma_to_map_lists(decl_views(self.decls@));
        }
        match self.position(name) {
            Some(i) => {
                assert(decl_views(self.decls@)[i as int].name() == name@);
                Some(&self.decls[i])
            },
            None => None,
        }
    }

    /// Whether a declaration is filed under `name`.
    pub fn contains_key(&self, name: &str) -> (r: bool)
        ensures
            r == self@.contains_key(name@),
    {
        self.get(name).is_some()
    }

    /// Files `decl` under its name, in place of what was filed there.
    pub fn insert(&mut self, decl: TopDecl)
        ensures
            final(self)@ == old(self)@.insert(decl@.name(), decl@),
    {
        proof {
            use_type_invariant(&*self);
        }
        let ghost before = decl_views(self.decls@);
        let ghost name = decl@.name();
        let ghost added = decl@;
        let position = self.position(decl.name().as_str());
        let mut decls: Vec<TopDecl> = Vec::new();
        core::mem::swap(&mut self.decls, &mut decls);
        match position {
            Some(i) => {
                decls.set(i, decl);
                proof {
                    let after = decl_views(decls@);
                    assert(before[i as int].name() == name);
                    assert(after =~= before.update(i as int, added));
                    assert forall|a: int, b: int| 0 <= a < b < after.len() implies after[a].name() != after[b].name() by {
                        assert(before[a].name() != before[b].name());
                    }
                    lemma_to_map_lists(before);
                    lemma_to_map_lists(after);
                    assert forall|n: Seq<char>| to_map(before).insert(name, added).contains_key(n) implies to_map(after).contains_key(n) by {
                        if n != name {
                            let k = index_of(before, n);
                            assert(after[k].name() == n);
                        } else {
                            assert(after[i as int].name() == n);
                        }
                    }
                    assert forall|n: Seq<char>| to_map(after).contains_key(n) implies to_map(before).insert(name, added).contains_key(n) && to_map(before).insert(name, added)[n] == to_map(after)[n] by {
                        let k = index_of(after, n);
                        assert(to_map(after)[after[k].name()] == after[k]);
                        if k != i {
                            assert(before[k].name() == n);
                            assert(to_map(before)[before[k].name()] == before[k]);
                        }
                    }
                    assert(to_map(after) =~= to_map(before).insert(name, added));
                }
            },
            None => {
                decls.push(decl);
                proof {
                    let after = decl_views(decls@);
                    assert(after =~= before.push(added));
                    assert forall|a: int, b: int| 0 <= a < b < after.len() implies after[a].name() != after[b].name() by {
                        if b < before.len() {
                            assert(before[a].name() != before[b].name());
                        } else {
                            assert(before[a].name() != name);
                        }
                    }
                    lemma_to_map_lists(before);
                    lemma_to_map_lists(after);
                    assert forall|n: Seq<char>| to_map(before).insert(name, added).contains_key(n) implies to_map(after).contains_key(n) by {
                        if n != name {
                            let k = index_of(before, n);
                            assert(after[k].name() == n);
                        } else {
                            assert(after[before.len() as int].name() == n);
                        }
                    }
                    assert forall|n: Seq<char>| to_map(after).contains_key(n) implies to_map(before).insert(name, added).contains_key(n) && to_map(before).insert(name, added)[n] == to_map(after)[n] by {
                        let k = index_of(after, n);
                        assert(to_map(after)[after[k].name()] == after[k]);
                        if k < before.len() {
                            assert(before[k].name() == n);
                            assert(to_map(before)[before[k].name()] == before[k]);
                        }
                    }
                    assert(to_map(after) =~= to_map(before).insert(name, added));
                }
            },
        }
        core::mem::swap(&mut self.decls, &mut decls);
    }
}

} // verus!
