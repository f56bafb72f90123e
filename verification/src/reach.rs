//! Which declarations a top-level type needs.
//!
//! A declaration refers to types by name. The names that can be reached
//! from the top-level type's name by following such references are the names
//! that it needs. The primitive type `byte` has no declaration and ends
//! every chain of references.

use crate::error::CompactError;
use crate::ir::{child_types, decl_views, name_views, TopDecl, TopDeclView};
use crate::name_set::NameSet;
use crate::namespace::{has_name, lists, Namespace};
use crate::order::{
    lemma_name_lt_total, lemma_name_lt_transitive, name_equal, name_less_than, name_lt,
};
use vstd::prelude::*;
use vstd::set_lib::*;

verus! {

/// The name of the primitive type.
pub open spec fn byte_name() -> Seq<char> {
    seq!['b', 'y', 't', 'e']
}

/// The declaration under `from` refers to `to`.
pub open spec fn edge(m: Map<Seq<char>, TopDeclView>, from: Seq<char>, to: Seq<char>) -> bool {
    &&& from != byte_name()
    &&& m.contains_key(from)
    &&& m[from].refs().contains(to)
}

/// Each name of `p` but the last refers to the next one.
pub open spec fn is_path(m: Map<Seq<char>, TopDeclView>, p: Seq<Seq<char>>) -> bool {
    &&& p.len() > 0
    &&& forall|i: int| 0 <= i < p.len() - 1 ==> edge(m, #[trigger] p[i], p[i + 1])
}

/// `n` is `root`, or what `root` needs refers to it.
pub open spec fn reachable(m: Map<Seq<char>, TopDeclView>, root: Seq<char>, n: Seq<char>) -> bool {
    exists|p: Seq<Seq<char>>| #[trigger] is_path(m, p) && p[0] == root && p.last() == n
}

/// The names that `root` needs, `root` among them.
pub open spec fn reachable_set(m: Map<Seq<char>, TopDeclView>, root: Seq<char>) -> Set<Seq<char>> {
    Set::new(|n: Seq<char>| reachable(m, root, n))
}

/// `n` is declared, or is the primitive type.
pub open spec fn resolved(m: Map<Seq<char>, TopDeclView>, n: Seq<char>) -> bool {
    m.contains_key(n) || n == byte_name()
}

/// Every name that `root` needs is declared or primitive.
pub open spec fn resolvable(m: Map<Seq<char>, TopDeclView>, root: Seq<char>) -> bool {
    forall|n: Seq<char>| reachable(m, root, n) ==> resolved(m, n)
}

/// `root` needs `n`, and nothing is declared under `n`.
pub open spec fn unresolved(m: Map<Seq<char>, TopDeclView>, root: Seq<char>, n: Seq<char>) -> bool {
    reachable(m, root, n) && !resolved(m, n)
}

/// `n` is the first, in the order of names, of the names that `root` needs
/// and that are not declared.
pub open spec fn least_unresolved(
    m: Map<Seq<char>, TopDeclView>,
    root: Seq<char>,
    n: Seq<char>,
) -> bool {
    &&& unresolved(m, root, n)
    &&& forall|o: Seq<char>| unresolved(m, root, o) ==> o == n || name_lt(n, o)
}

/// `root` needs `r`, and the declaration under `r` refers to `n`.
pub open spec fn refers_to(
    m: Map<Seq<char>, TopDeclView>,
    root: Seq<char>,
    r: Seq<char>,
    n: Seq<char>,
) -> bool {
    reachable(m, root, r) && edge(m, r, n)
}

/// `r` is the first, in the order of names, of the names that `root` needs
/// and whose declarations refer to `n`.
pub open spec fn least_referrer(
    m: Map<Seq<char>, TopDeclView>,
    root: Seq<char>,
    n: Seq<char>,
    r: Seq<char>,
) -> bool {
    &&& refers_to(m, root, r, n)
    &&& forall|o: Seq<char>| refers_to(m, root, o, n) ==> o == r || name_lt(r, o)
}

/// A set of names that holds, with each of its names, the names that this
/// one refers to.
pub open spec fn closed_under_refs(m: Map<Seq<char>, TopDeclView>, v: Set<Seq<char>>) -> bool {
    forall|a: Seq<char>, b: Seq<char>| v.contains(a) && edge(m, a, b) ==> v.contains(b)
}

/// Every name is reachable from itself.
pub proof fn lemma_reachable_root(m: Map<Seq<char>, TopDeclView>, root: Seq<char>)
    ensures
        reachable(m, root, root),
{
    let p = seq![root];
    assert(is_path(m, p) && p[0] == root && p.last() == root);
}

/// What a reachable name refers to is reachable.
pub proof fn lemma_reachable_step(
    m: Map<Seq<char>, TopDeclView>,
    root: Seq<char>,
    a: Seq<char>,
    b: Seq<char>,
)
    requires
        reachable(m, root, a),
        edge(m, a, b),
    ensures
        reachable(m, root, b),
{
    let p = choose|p: Seq<Seq<char>>| #[trigger] is_path(m, p) && p[0] == root && p.last() == a;
    let q = p.push(b);
    assert forall|i: int| 0 <= i < q.len() - 1 implies edge(m, #[trigger] q[i], q[i + 1]) by {
        if i < p.len() - 1 {
            assert(edge(m, p[i], p[i + 1]));
        }
    }
    assert(is_path(m, q) && q[0] == root && q.last() == b);
}

proof fn lemma_path_stays_inside(
    m: Map<Seq<char>, TopDeclView>,
    v: Set<Seq<char>>,
    p: Seq<Seq<char>>,
    k: int,
)
    requires
        closed_under_refs(m, v),
        is_path(m, p),
        v.contains(p[0]),
        0 <= k < p.len(),
    ensures
        v.contains(p[k]),
    decreases k,
{
    if k > 0 {
        lemma_path_stays_inside(m, v, p, k - 1);
        assert(edge(m, p[k - 1], p[k - 1 + 1]));
    }
}

/// A set that holds `root` and is closed under references holds every name
/// that `root` needs.
pub proof fn lemma_closed_set_holds_reachable(
    m: Map<Seq<char>, TopDeclView>,
    root: Seq<char>,
    v: Set<Seq<char>>,
)
    requires
        v.contains(root),
        closed_under_refs(m, v),
    ensures
        forall|n: Seq<char>| reachable(m, root, n) ==> v.contains(n),
{
    assert forall|n: Seq<char>| reachable(m, root, n) implies v.contains(n) by {
        let p = choose|p: Seq<Seq<char>>| #[trigger]
            is_path(m, p) && p[0] == root && p.last() == n;
        lemma_path_stays_inside(m, v, p, p.len() - 1);
    }
}

/// A name that `root` needs and that is not `root` itself is referred to by
/// a declaration that `root` needs.
pub proof fn lemma_reachable_has_referrer(
    m: Map<Seq<char>, TopDeclView>,
    root: Seq<char>,
    n: Seq<char>,
)
    requires
        reachable(m, root, n),
        n != root,
    ensures
        exists|r: Seq<char>| refers_to(m, root, r, n),
{
    let p = choose|p: Seq<Seq<char>>| #[trigger] is_path(m, p) && p[0] == root && p.last() == n;
    let q = p.drop_last();
    assert forall|i: int| 0 <= i < q.len() - 1 implies edge(m, #[trigger] q[i], q[i + 1]) by {
        assert(edge(m, p[i], p[i + 1]));
    }
    let r = q.last();
    assert(is_path(m, q) && q[0] == root && q.last() == r);
    assert(edge(m, p[p.len() - 2], p[p.len() - 2 + 1]));
    assert(refers_to(m, root, r, n));
}

/// A set of reachable names that holds `root` and is closed under
/// references is the set of the names that `root` needs.
pub proof fn lemma_closed_set_is_reachable_set(
    m: Map<Seq<char>, TopDeclView>,
    root: Seq<char>,
    v: Set<Seq<char>>,
)
    requires
        v.contains(root),
        forall|n: Seq<char>| v.contains(n) ==> reachable(m, root, n),
        forall|a: Seq<char>, b: Seq<char>| v.contains(a) && edge(m, a, b) ==> v.contains(b),
    ensures
        v == reachable_set(m, root),
{
    assert(closed_under_refs(m, v));
    lemma_closed_set_holds_reachable(m, root, v);
    assert(v =~= reachable_set(m, root));
}

proof fn lemma_all_resolved(m: Map<Seq<char>, TopDeclView>, root: Seq<char>, v: Set<Seq<char>>)
    requires
        v == reachable_set(m, root),
        forall|n: Seq<char>| v.contains(n) ==> resolved(m, n),
    ensures
        resolvable(m, root),
{
    assert forall|n: Seq<char>| reachable(m, root, n) implies resolved(m, n) by {
        assert(v.contains(n));
    }
}

proof fn lemma_least_unresolved(
    m: Map<Seq<char>, TopDeclView>,
    root: Seq<char>,
    v: Set<Seq<char>>,
    name: Seq<char>,
)
    requires
        v == reachable_set(m, root),
        v.contains(name),
        !resolved(m, name),
        forall|o: Seq<char>| v.contains(o) && !resolved(m, o) ==> o == name || name_lt(name, o),
    ensures
        least_unresolved(m, root, name),
{
    assert forall|o: Seq<char>| unresolved(m, root, o) implies o == name || name_lt(name, o) by {
        assert(v.contains(o));
    }
}

proof fn lemma_least_referrer(
    m: Map<Seq<char>, TopDeclView>,
    root: Seq<char>,
    v: Set<Seq<char>>,
    name: Seq<char>,
    r: Seq<char>,
)
    requires
        v == reachable_set(m, root),
        v.contains(r),
        edge(m, r, name),
        forall|o: Seq<char>| v.contains(o) && edge(m, o, name) ==> o == r || name_lt(r, o),
    ensures
        least_referrer(m, root, name, r),
{
    assert forall|o: Seq<char>| refers_to(m, root, o, name) implies o == r || name_lt(r, o) by {
        assert(v.contains(o));
    }
}

/// A name without a declaration needs no name but itself.
pub proof fn lemma_undeclared_reaches_itself(
    m: Map<Seq<char>, TopDeclView>,
    root: Seq<char>,
    n: Seq<char>,
)
    requires
        reachable(m, root, n),
        n != root,
    ensures
        m.contains_key(root),
        root != byte_name(),
{
    let p = choose|p: Seq<Seq<char>>| #[trigger] is_path(m, p) && p[0] == root && p.last() == n;
    assert(edge(m, p[0], p[0int + 1]));
}

/// The number of declared names that are not in `v`.
pub open spec fn unvisited(m: Map<Seq<char>, TopDeclView>, v: Set<Seq<char>>) -> nat {
    m.dom().difference(v).len()
}

proof fn lemma_unvisited_decreases(
    m: Map<Seq<char>, TopDeclView>,
    before: Set<Seq<char>>,
    now: Set<Seq<char>>,
    name: Seq<char>,
)
    requires
        m.dom().finite(),
        m.contains_key(name),
        !before.contains(name),
        now.contains(name),
        before.subset_of(now),
    ensures
        unvisited(m, now) < unvisited(m, before),
{
    let a = m.dom().difference(before);
    let b = m.dom().difference(now);
    assert(a.contains(name));
    assert(b.subset_of(a.remove(name)));
    lemma_len_subset(b, a.remove(name));
}

/// Whether `name` is the name of the primitive type.
pub fn is_byte(name: &str) -> (r: bool)
    ensures
        r == (name@ == byte_name()),
{
    proof {
        reveal_strlit("byte");
        assert("byte"@ =~= byte_name());
    }
    name_equal(name, "byte")
}

/// Adds `name` to `visited`, and with it every name that it reaches and
/// that is not in `visited` yet. A name that is in `visited` is not
/// followed again, so that a cycle of references ends the walk.
fn rec_decl_child_types(
    visited: &mut NameSet,
    name: &String,
    decls: &Namespace,
    Ghost(root): Ghost<Seq<char>>,
)
    requires
        decls@.dom().finite(),
        reachable(decls@, root, name@),
        forall|n: Seq<char>| old(visited)@.contains(n) ==> reachable(decls@, root, n),
    ensures
        old(visited)@.subset_of(final(visited)@),
        final(visited)@.contains(name@),
        forall|n: Seq<char>| final(visited)@.contains(n) ==> reachable(decls@, root, n),
        forall|a: Seq<char>, b: Seq<char>|
            final(visited)@.contains(a) && !old(visited)@.contains(a) && edge(decls@, a, b)
                ==> final(visited)@.contains(b),
    decreases unvisited(decls@, old(visited)@),
{
    if visited.contains(name.as_str()) {
        return;
    }
    let ghost before = visited@;
    visited.insert(name.clone());
    if is_byte(name.as_str()) {
        return;
    }
    match decls.get(name.as_str()) {
        None => {},
        Some(decl) => {
            let types = child_types(decl);
            let mut i: usize = 0;
            while i < types.len()
                invariant
                    i <= types.len(),
                    decls@.dom().finite(),
                    decls@.contains_key(name@),
                    name@ != byte_name(),
                    name_views(types@) == decls@[name@].refs(),
                    !before.contains(name@),
                    before.subset_of(visited@),
                    visited@.contains(name@),
                    forall|n: Seq<char>| visited@.contains(n) ==> reachable(decls@, root, n),
                    forall|a: Seq<char>, b: Seq<char>|
                        visited@.contains(a) && !before.contains(a) && a != name@ && edge(
                            decls@,
                            a,
                            b,
                        ) ==> visited@.contains(b),
                    forall|k: int| 0 <= k < i ==> visited@.contains(#[trigger] types[k]@),
                    unvisited(decls@, before) == unvisited(decls@, old(visited)@),
                decreases types.len() - i,
            {
                proof {
                    assert(name_views(types@)[i as int] == types[i as int]@);
                    assert(edge(decls@, name@, types[i as int]@));
                    lemma_reachable_step(decls@, root, name@, types[i as int]@);
                    lemma_unvisited_decreases(decls@, before, visited@, name@);
                }
                rec_decl_child_types(visited, &types[i], decls, Ghost(root));
                i += 1;
            }
            proof {
                assert forall|b: Seq<char>| edge(decls@, name@, b) implies visited@.contains(b) by {
                    let k = choose|k: int|
                        0 <= k < name_views(types@).len() && name_views(types@)[k] == b;
                    assert(visited@.contains(types[k]@));
                }
            }
        },
    }
}

/// Whether the declaration refers to the type named `target`.
pub fn refers_to_type(decl: &TopDecl, target: &str) -> (r: bool)
    ensures
        r == decl@.refs().contains(target@),
{
    let types = child_types(decl);
    let mut i: usize = 0;
    while i < types.len()
        invariant
            i <= types.len(),
            name_views(types@) == decl@.refs(),
            forall|k: int| 0 <= k < i ==> types[k]@ != target@,
        decreases types.len() - i,
    {
        if name_equal(types[i].as_str(), target) {
            assert(name_views(types@)[i as int] == target@);
            return true;
        }
        i += 1;
    }
    assert forall|k: int| 0 <= k < decl@.refs().len() implies decl@.refs()[k] != target@ by {
        assert(name_views(types@)[k] == types[k]@);
    }
    false
}

/// The first, in the order of names, of the members of `names` that are
/// neither declared nor primitive.
fn first_unresolved(names: &NameSet, decls: &Namespace) -> (r: Option<String>)
    ensures
        match r {
            None => forall|n: Seq<char>| names@.contains(n) ==> resolved(decls@, n),
            Some(name) => {
                &&& names@.contains(name@)
                &&& !resolved(decls@, name@)
                &&& forall|o: Seq<char>|
                    names@.contains(o) && !resolved(decls@, o) ==> o == name@ || name_lt(name@, o)
            },
        },
{
    let list = names.names();
    let mut best: Option<String> = None;
    let mut i: usize = 0;
    while i < list.len()
        invariant
            i <= list.len(),
            match best {
                None => forall|k: int| 0 <= k < i ==> resolved(decls@, #[trigger] list[k]@),
                Some(name) => {
                    &&& exists|j: int| 0 <= j < i && #[trigger] list[j]@ == name@
                    &&& !resolved(decls@, name@)
                    &&& forall|k: int|
                        0 <= k < i && !resolved(decls@, #[trigger] list[k]@) ==> list[k]@ == name@
                            || name_lt(name@, list[k]@)
                },
            },
        decreases list.len() - i,
    {
        let candidate = &list[i];
        if !is_byte(candidate.as_str()) && !decls.contains_key(candidate.as_str()) {
            match &best {
                None => {
                    best = Some(candidate.clone());
                },
                Some(name) => {
                    if name_less_than(candidate.as_str(), name.as_str()) {
                        proof {
                            assert forall|k: int|
                                0 <= k < i && !resolved(decls@, #[trigger] list[k]@) implies list[k]@
                                == candidate@ || name_lt(candidate@, list[k]@) by {
                                if list[k]@ != name@ {
                                    lemma_name_lt_transitive(candidate@, name@, list[k]@);
                                }
                            }
                        }
                        best = Some(candidate.clone());
                    } else {
                        proof {
                            if candidate@ != name@ {
                                lemma_name_lt_total(candidate@, name@);
                            }
                        }
                    }
                },
            }
        }
        i += 1;
    }
    proof {
        let views = name_views(list@);
        assert forall|n: Seq<char>| names@.contains(n) implies exists|k: int|
            0 <= k < list.len() && #[trigger] list[k]@ == n by {
            assert(views.to_set().contains(n));
            let k = choose|k: int| 0 <= k < views.len() && views[k] == n;
            assert(list[k]@ == n);
        }
        if best is Some {
            let name = best->0;
            let j = choose|j: int| 0 <= j < i && #[trigger] list[j]@ == name@;
            assert(views[j] == name@);
            assert(views.to_set().contains(name@));
        }
    }
    best
}

/// The first, in the order of names, of the members of `visited` whose
/// declarations refer to `target`.
fn first_referrer(decls: &Namespace, visited: &NameSet, target: &str) -> (r: Option<String>)
    ensures
        match r {
            None => forall|o: Seq<char>| !(visited@.contains(o) && edge(decls@, o, target@)),
            Some(name) => {
                &&& visited@.contains(name@)
                &&& edge(decls@, name@, target@)
                &&& forall|o: Seq<char>|
                    visited@.contains(o) && edge(decls@, o, target@) ==> o == name@ || name_lt(
                        name@,
                        o,
                    )
            },
        },
{
    let list = decls.decls();
    let ghost views = decl_views(list@);
    let mut best: Option<String> = None;
    let mut i: usize = 0;
    while i < list.len()
        invariant
            i <= list.len(),
            views == decl_views(list@),
            lists(views, decls@),
            match best {
                None => forall|k: int|
                    0 <= k < i ==> !(visited@.contains(#[trigger] views[k].name()) && edge(
                        decls@,
                        views[k].name(),
                        target@,
                    )),
                Some(name) => {
                    &&& visited@.contains(name@)
                    &&& edge(decls@, name@, target@)
                    &&& forall|k: int|
                        0 <= k < i && visited@.contains(#[trigger] views[k].name()) && edge(
                            decls@,
                            views[k].name(),
                            target@,
                        ) ==> views[k].name() == name@ || name_lt(name@, views[k].name())
                },
            },
        decreases list.len() - i,
    {
        let decl = &list[i];
        let candidate = decl.name();
        proof {
            assert(views[i as int] == decl@);
            assert(decls@[views[i as int].name()] == views[i as int]);
        }
        if visited.contains(candidate.as_str()) && !is_byte(candidate.as_str()) && refers_to_type(
            decl,
            target,
        ) {
            match &best {
                None => {
                    best = Some(candidate.clone());
                },
                Some(name) => {
                    if name_less_than(candidate.as_str(), name.as_str()) {
                        proof {
                            assert forall|k: int|
                                0 <= k < i && visited@.contains(#[trigger] views[k].name()) && edge(
                                    decls@,
                                    views[k].name(),
                                    target@,
                                ) implies views[k].name() == candidate@ || name_lt(
                                candidate@,
                                views[k].name(),
                            ) by {
                                if views[k].name() != name@ {
                                    lemma_name_lt_transitive(candidate@, name@, views[k].name());
                                }
                            }
                        }
                        best = Some(candidate.clone());
                    } else {
                        proof {
                            if candidate@ != name@ {
                                lemma_name_lt_total(candidate@, name@);
                            }
                        }
                    }
                },
            }
        }
        i += 1;
    }
    proof {
        assert forall|o: Seq<char>| visited@.contains(o) && edge(decls@, o, target@) implies exists|
            k: int,
        |
            0 <= k < views.len() && #[trigger] views[k].name() == o by {
            assert(has_name(views, o));
        }
    }
    best
}

/// The names that the top-level type needs: its own name, and every name
/// that a needed declaration refers to.
///
/// Fails where a needed name is neither declared nor primitive. Where that
/// is the top-level type's own name, the error says so. Else it names the
/// first such name and the first declaration that refers to it, both in the
/// order of names.
pub fn decl_child_types(top_level_type: &String, decls: &Namespace) -> (r: Result<
    NameSet,
    CompactError,
>)
    ensures
        match r {
            Ok(names) => {
                &&& resolvable(decls@, top_level_type@)
                &&& names@ == reachable_set(decls@, top_level_type@)
            },
            Err(CompactError::MissingTopLevelType { name }) => {
                &&& !resolved(decls@, top_level_type@)
                &&& name@ == top_level_type@
            },
            Err(CompactError::UnresolvedReference { name, referrer }) => {
                &&& resolved(decls@, top_level_type@)
                &&& least_unresolved(decls@, top_level_type@, name@)
                &&& least_referrer(decls@, top_level_type@, name@, referrer@)
            },
            Err(_) => false,
        },
{
    let ghost m = decls@;
    let ghost root = top_level_type@;
    let _ = decls.len();
    let mut visited = NameSet::new();
    proof {
        lemma_reachable_root(m, root);
    }
    rec_decl_child_types(&mut visited, top_level_type, decls, Ghost(root));
    proof {
        lemma_closed_set_is_reachable_set(m, root, visited@);
    }
    match first_unresolved(&visited, decls) {
        None => {
            proof {
                lemma_all_resolved(m, root, visited@);
            }
            Ok(visited)
        },
        Some(missing) => {
            if name_equal(missing.as_str(), top_level_type.as_str()) {
                Err(CompactError::MissingTopLevelType { name: missing })
            } else {
                proof {
                    lemma_reachable_has_referrer(m, root, missing@);
                    lemma_undeclared_reaches_itself(m, root, missing@);
                    lemma_least_unresolved(m, root, visited@, missing@);
                }
                match first_referrer(decls, &visited, missing.as_str()) {
                    Some(referrer) => {
                        proof {
                            lemma_least_referrer(m, root, visited@, missing@, referrer@);
                        }
                        Err(CompactError::UnresolvedReference { name: missing, referrer })
                    },
                    None => {
                        proof {
                            let r = choose|r: Seq<char>| refers_to(m, root, r, missing@);
                            assert(visited@.contains(r) && edge(m, r, missing@));
                        }
                        vstd::pervasive::unreached()
                    },
                }
            }
        },
    }
}

} // verus!
