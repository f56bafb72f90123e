//! The canonical order of a namespace: its declarations by ascending name.
//!
//! A namespace has exactly one listing in that order, so what is made from
//! the listing does not depend on the order in which the declarations came
//! in.

use crate::ir::{decl_views, TopDecl, TopDeclView};
use crate::name_set::NameSet;
use crate::namespace::{
    distinct_names, has_name, index_of, lemma_listed_map, lists, Namespace,
};
use crate::order::{
    lemma_name_lt_asymmetric, lemma_name_lt_total, lemma_name_lt_transitive, name_less_than,
    name_lt,
};
use vstd::prelude::*;

verus! {

/// Each declaration of `s` has a name that comes before the names of those
/// behind it.
pub open spec fn strictly_sorted(s: Seq<TopDeclView>) -> bool {
    forall|i: int, j: int| 0 <= i < j < s.len() ==> name_lt(s[i].name(), s[j].name())
}

/// `s` lists the declarations of `m` by ascending name.
pub open spec fn is_canonical(s: Seq<TopDeclView>, m: Map<Seq<char>, TopDeclView>) -> bool {
    lists(s, m) && strictly_sorted(s)
}

/// The declarations of `m` by ascending name.
pub open spec fn canonical(m: Map<Seq<char>, TopDeclView>) -> Seq<TopDeclView> {
    choose|s: Seq<TopDeclView>| is_canonical(s, m)
}

proof fn lemma_canonical_prefix(
    s1: Seq<TopDeclView>,
    s2: Seq<TopDeclView>,
    m: Map<Seq<char>, TopDeclView>,
    i: int,
)
    requires
        is_canonical(s1, m),
        is_canonical(s2, m),
        s1.len() == s2.len(),
        0 <= i <= s1.len(),
    ensures
        forall|k: int| 0 <= k < i ==> s1[k] == s2[k],
    decreases i,
{
    if i > 0 {
        lemma_canonical_prefix(s1, s2, m, i - 1);
        let p = i - 1;
        let n1 = s1[p].name();
        let n2 = s2[p].name();
        assert(m.contains_key(n1) && m[n1] == s1[p]);
        assert(m.contains_key(n2) && m[n2] == s2[p]);
        if n1 != n2 {
            assert(has_name(s2, n1));
            let j = index_of(s2, n1);
            assert(has_name(s1, n2));
            let h = index_of(s1, n2);
            if j < p {
                assert(s1[j] == s2[j]);
                assert(s1[j].name() != s1[p].name());
            }
            if h < p {
                assert(s1[h] == s2[h]);
                assert(s2[h].name() != s2[p].name());
            }
            assert(name_lt(s2[p].name(), s2[j].name()));
            assert(name_lt(s1[p].name(), s1[h].name()));
            lemma_name_lt_asymmetric(n1, n2);
        }
    }
}

/// A namespace has at most one listing by ascending name.
pub proof fn lemma_canonical_unique(
    s1: Seq<TopDeclView>,
    s2: Seq<TopDeclView>,
    m: Map<Seq<char>, TopDeclView>,
)
    requires
        is_canonical(s1, m),
        is_canonical(s2, m),
    ensures
        s1 == s2,
{
    lemma_listed_map(s1, m);
    lemma_listed_map(s2, m);
    lemma_canonical_prefix(s1, s2, m, s1.len() as int);
    assert(s1 =~= s2);
}

/// A listing by ascending name is the canonical one.
pub proof fn lemma_canonical_is(s: Seq<TopDeclView>, m: Map<Seq<char>, TopDeclView>)
    requires
        is_canonical(s, m),
    ensures
        canonical(m) == s,
{
    lemma_canonical_unique(canonical(m), s, m);
}

/// A sequence in ascending order of names holds no name twice.
pub proof fn lemma_sorted_distinct(s: Seq<TopDeclView>)
    requires
        strictly_sorted(s),
    ensures
        distinct_names(s),
{
    assert forall|i: int, j: int| 0 <= i < j < s.len() implies s[i].name() != s[j].name() by {
        lemma_name_lt_asymmetric(s[i].name(), s[j].name());
    }
}

proof fn lemma_insert_keeps_sorted(s: Seq<TopDeclView>, pos: int, d: TopDeclView)
    requires
        strictly_sorted(s),
        0 <= pos <= s.len(),
        forall|k: int| 0 <= k < pos ==> name_lt(#[trigger] s[k].name(), d.name()),
        pos < s.len() ==> name_lt(d.name(), s[pos].name()),
    ensures
        strictly_sorted(s.insert(pos, d)),
{
    let t = s.insert(pos, d);
    assert forall|i: int, j: int| 0 <= i < j < t.len() implies name_lt(t[i].name(), t[j].name()) by {
        if j < pos {
            assert(t[i] == s[i] && t[j] == s[j]);
        } else if j == pos {
            assert(t[i] == s[i]);
        } else if i < pos {
            assert(t[i] == s[i] && t[j] == s[j - 1]);
            if pos < j - 1 {
                lemma_name_lt_transitive(s[i].name(), d.name(), s[pos].name());
                lemma_name_lt_transitive(s[i].name(), s[pos].name(), s[j - 1].name());
            } else {
                lemma_name_lt_transitive(s[i].name(), d.name(), s[pos].name());
            }
        } else if i == pos {
            assert(t[j] == s[j - 1]);
            if pos < j - 1 {
                lemma_name_lt_transitive(d.name(), s[pos].name(), s[j - 1].name());
            }
        } else {
            assert(t[i] == s[i - 1] && t[j] == s[j - 1]);
        }
    }
}

/// Where a declaration named `name` goes in `sorted`: behind the
/// declarations whose names come before `name`.
fn insertion_point(sorted: &Vec<TopDecl>, name: &str) -> (pos: usize)
    ensures
        pos <= sorted.len(),
        forall|k: int| 0 <= k < pos ==> name_lt(#[trigger] sorted[k]@.name(), name@),
        pos < sorted.len() ==> !name_lt(sorted[pos as int]@.name(), name@),
{
    let mut pos: usize = 0;
    while pos < sorted.len()
        invariant
            pos <= sorted.len(),
            forall|k: int| 0 <= k < pos ==> name_lt(#[trigger] sorted[k]@.name(), name@),
        decreases sorted.len() - pos,
    {
        if !name_less_than(sorted[pos].name().as_str(), name) {
            return pos;
        }
        pos += 1;
    }
    pos
}

/// `sv` holds the first `i` declarations of `lv`, in some order, and
/// nothing else.
pub open spec fn holds_first(sv: Seq<TopDeclView>, lv: Seq<TopDeclView>, i: int) -> bool {
    &&& forall|k: int| 0 <= k < sv.len() ==> lv.take(i).contains(#[trigger] sv[k])
    &&& forall|j: int| 0 <= j < i ==> sv.contains(#[trigger] lv[j])
}

proof fn lemma_insert_holds_first(
    sv: Seq<TopDeclView>,
    lv: Seq<TopDeclView>,
    i: int,
    pos: int,
)
    requires
        holds_first(sv, lv, i),
        0 <= i < lv.len(),
        0 <= pos <= sv.len(),
    ensures
        holds_first(sv.insert(pos, lv[i]), lv, i + 1),
{
    let after = sv.insert(pos, lv[i]);
    assert forall|k: int| 0 <= k < after.len() implies lv.take(i + 1).contains(
        #[trigger] after[k],
    ) by {
        if k == pos {
            assert(lv.take(i + 1)[i] == after[k]);
        } else {
            let old_k = if k < pos { k } else { k - 1 };
            assert(after[k] == sv[old_k]);
            assert(lv.take(i).contains(sv[old_k]));
            let j = choose|j: int| 0 <= j < lv.take(i).len() && lv.take(i)[j] == sv[old_k];
            assert(lv.take(i + 1)[j] == after[k]);
        }
    }
    assert forall|j: int| 0 <= j < i + 1 implies after.contains(#[trigger] lv[j]) by {
        if j == i {
            assert(after[pos] == lv[j]);
        } else {
            assert(sv.contains(lv[j]));
            let k = choose|k: int| 0 <= k < sv.len() && sv[k] == lv[j];
            if k < pos {
                assert(after[k] == lv[j]);
            } else {
                assert(after[k + 1] == lv[j]);
            }
        }
    }
}

proof fn lemma_new_name(sv: Seq<TopDeclView>, lv: Seq<TopDeclView>, i: int)
    requires
        holds_first(sv, lv, i),
        distinct_names(lv),
        0 <= i < lv.len(),
    ensures
        forall|k: int| 0 <= k < sv.len() ==> (#[trigger] sv[k]).name() != lv[i].name(),
{
    assert forall|k: int| 0 <= k < sv.len() implies (#[trigger] sv[k]).name() != lv[i].name() by {
        assert(lv.take(i).contains(sv[k]));
        let j = choose|j: int| 0 <= j < lv.take(i).len() && lv.take(i)[j] == sv[k];
        assert(lv[j].name() != lv[i].name());
    }
}

proof fn lemma_sorted_listing(
    sv: Seq<TopDeclView>,
    lv: Seq<TopDeclView>,
    m: Map<Seq<char>, TopDeclView>,
)
    requires
        holds_first(sv, lv, lv.len() as int),
        lists(lv, m),
        strictly_sorted(sv),
    ensures
        is_canonical(sv, m),
{
    lemma_sorted_distinct(sv);
    assert(lv.take(lv.len() as int) =~= lv);
    assert forall|k: int| 0 <= k < sv.len() implies m.contains_key(#[trigger] sv[k].name())
        && m[sv[k].name()] == sv[k] by {
        assert(lv.contains(sv[k]));
        let j = choose|j: int| 0 <= j < lv.len() && lv[j] == sv[k];
        assert(m.contains_key(lv[j].name()) && m[lv[j].name()] == lv[j]);
    }
    assert forall|n: Seq<char>| m.contains_key(n) implies has_name(sv, n) by {
        assert(has_name(lv, n));
        let j = index_of(lv, n);
        assert(sv.contains(lv[j]));
        let k = choose|k: int| 0 <= k < sv.len() && sv[k] == lv[j];
        assert(sv[k].name() == n);
    }
}

/// The declarations of a namespace by ascending name.
pub fn sorted_by_name(decls: &Namespace) -> (sorted: Vec<TopDecl>)
    ensures
        is_canonical(decl_views(sorted@), decls@),
        decl_views(sorted@) == canonical(decls@),
{
    let list = decls.decls();
    let ghost lv = decl_views(list@);
    let mut sorted: Vec<TopDecl> = Vec::new();
    let mut i: usize = 0;
    while i < list.len()
        invariant
            i <= list.len(),
            lv == decl_views(list@),
            lists(lv, decls@),
            sorted.len() == i,
            strictly_sorted(decl_views(sorted@)),
            holds_first(decl_views(sorted@), lv, i as int),
        decreases list.len() - i,
    {
        let decl = &list[i];
        let pos = insertion_point(&sorted, decl.name().as_str());
        let ghost before = decl_views(sorted@);
        let ghost d = decl@;
        proof {
            assert(lv[i as int] == d);
            lemma_new_name(before, lv, i as int);
            assert forall|k: int| 0 <= k < pos implies name_lt(
                #[trigger] before[k].name(),
                d.name(),
            ) by {
                assert(name_lt(sorted[k]@.name(), d.name()));
            }
            if pos < sorted.len() {
                assert(before[pos as int] == sorted[pos as int]@);
                lemma_name_lt_total(before[pos as int].name(), d.name());
            }
            lemma_insert_keeps_sorted(before, pos as int, d);
            lemma_insert_holds_first(before, lv, i as int, pos as int);
        }
        sorted.insert(pos, decl.clone());
        assert(decl_views(sorted@) =~= before.insert(pos as int, d));
        i += 1;
    }
    proof {
        lemma_sorted_listing(decl_views(sorted@), lv, decls@);
        lemma_canonical_is(decl_views(sorted@), decls@);
    }
    sorted
}

/// Some declaration among the first `i` of `lv` is named `n`.
pub open spec fn named_in_first(lv: Seq<TopDeclView>, i: int, n: Seq<char>) -> bool {
    exists|j: int| 0 <= j < i && #[trigger] lv[j].name() == n
}

/// The declarations of `decls` whose names are in `names`.
pub fn retain_names(decls: &Namespace, names: &NameSet) -> (kept: Namespace)
    ensures
        kept@ == decls@.restrict(names@),
{
    let list = decls.decls();
    let ghost lv = decl_views(list@);
    let mut kept = Namespace::new();
    let mut i: usize = 0;
    while i < list.len()
        invariant
            i <= list.len(),
            lv == decl_views(list@),
            lists(lv, decls@),
            forall|n: Seq<char>| #[trigger]
                kept@.contains_key(n) <==> names@.contains(n) && named_in_first(lv, i as int, n),
            forall|n: Seq<char>| #[trigger]
                kept@.contains_key(n) ==> decls@.contains_key(n) && kept@[n] == decls@[n],
        decreases list.len() - i,
    {
        let decl = &list[i];
        let ghost before = kept@;
        let ghost name = decl@.name();
        proof {
            assert(lv[i as int] == decl@);
            assert(decls@.contains_key(lv[i as int].name()) && decls@[lv[i as int].name()]
                == lv[i as int]);
            assert forall|n: Seq<char>|
                named_in_first(lv, i + 1, n) <==> n == name || named_in_first(lv, i as int, n) by {
                if named_in_first(lv, i + 1, n) {
                    let j = choose|j: int| 0 <= j < i + 1 && #[trigger] lv[j].name() == n;
                    if j < i {
                        assert(named_in_first(lv, i as int, n));
                    }
                }
                if named_in_first(lv, i as int, n) {
                    let j = choose|j: int| 0 <= j < i && #[trigger] lv[j].name() == n;
                    assert(lv[j].name() == n);
                }
                if n == name {
                    assert(lv[i as int].name() == n);
                }
            }
        }
        if names.contains(decl.name().as_str()) {
            kept.insert(decl.clone());
            assert forall|n: Seq<char>| #[trigger]
                kept@.contains_key(n) <==> names@.contains(n) && named_in_first(lv, i + 1, n) by {
                assert(kept@.contains_key(n) <==> n == name || before.contains_key(n));
            }
        } else {
            assert forall|n: Seq<char>| #[trigger]
                kept@.contains_key(n) <==> names@.contains(n) && named_in_first(lv, i + 1, n) by {
                assert(kept@ == before);
            }
        }
        i += 1;
    }
    proof {
        assert forall|n: Seq<char>| decls@.restrict(names@).contains_key(n) implies kept@.contains_key(
            n,
        ) by {
            assert(has_name(lv, n));
            let j = index_of(lv, n);
            assert(lv[j].name() == n);
            assert(named_in_first(lv, i as int, n));
        }
        assert(kept@ =~= decls@.restrict(names@));
    }
    kept
}

} // verus!
