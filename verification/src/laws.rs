//! What holds of every run.

use crate::canon::{is_canonical, strictly_sorted};
use crate::error::CompactErrorView;
use crate::ir::{DocumentView, TopDeclView};
use crate::merge::{conflicts, first_conflict, first_rejection, merge_decls, merged, rejection};
use crate::namespace::{distinct_names, has_name};
use crate::pipeline::compacted;
use crate::reach::{reachable, reachable_set};
use crate::EXPECTED_SYNTAX_VERSION;
use vstd::prelude::*;

verus! {

/// The document declares a type under the name `n`.
pub open spec fn declares(doc: DocumentView, n: Seq<char>) -> bool {
    has_name(doc.decls, n)
}

/// No two of the documents declare a type under the same name.
pub open spec fn conflict_free(docs: Seq<DocumentView>) -> bool {
    forall|i: int, j: int, n: Seq<char>|
        0 <= i < docs.len() && 0 <= j < docs.len() && i != j ==> !(declares(docs[i], n)
            && declares(docs[j], n))
}

/// The two lists hold the same documents.
pub open spec fn same_documents(a: Seq<DocumentView>, b: Seq<DocumentView>) -> bool {
    forall|d: DocumentView| a.contains(d) <==> b.contains(d)
}

/// What a document alone files under each of its names.
pub open spec fn own_decls(doc: DocumentView) -> Map<Seq<char>, TopDeclView> {
    merge_decls(Map::empty(), doc.decls)
}

proof fn lemma_merge_decls(m: Map<Seq<char>, TopDeclView>, decls: Seq<TopDeclView>, n: Seq<char>)
    ensures
        merge_decls(m, decls).contains_key(n) <==> m.contains_key(n) || has_name(decls, n),
        has_name(decls, n) ==> merge_decls(m, decls)[n] == merge_decls(Map::empty(), decls)[n],
        !has_name(decls, n) ==> merge_decls(m, decls)[n] == m[n],
    decreases decls.len(),
{
    if decls.len() > 0 {
        let front = decls.drop_last();
        let last = decls.last();
        lemma_merge_decls(m, front, n);
        lemma_merge_decls(Map::empty(), front, n);
        if has_name(front, n) {
            let i = choose|i: int| 0 <= i < front.len() && #[trigger] front[i].name() == n;
            assert(decls[i].name() == n);
        }
        if last.name() == n {
            assert(decls[decls.len() - 1].name() == n);
        }
        if has_name(decls, n) {
            let i = choose|i: int| 0 <= i < decls.len() && #[trigger] decls[i].name() == n;
            if i < front.len() {
                assert(front[i].name() == n);
            }
        }
    }
}

proof fn lemma_merged(docs: Seq<DocumentView>, n: Seq<char>)
    requires
        conflict_free(docs),
    ensures
        merged(docs).contains_key(n) <==> exists|i: int|
            0 <= i < docs.len() && declares(#[trigger] docs[i], n),
        forall|i: int|
            0 <= i < docs.len() && declares(#[trigger] docs[i], n) ==> merged(docs)[n]
                == own_decls(docs[i])[n],
    decreases docs.len(),
{
    if docs.len() > 0 {
        let front = docs.drop_last();
        let last = docs.last();
        assert forall|i: int, j: int, o: Seq<char>|
            0 <= i < front.len() && 0 <= j < front.len() && i != j implies !(declares(
            front[i],
            o,
        ) && declares(front[j], o)) by {
            assert(front[i] == docs[i] && front[j] == docs[j]);
        }
        lemma_merged(front, n);
        lemma_merge_decls(merged(front), last.decls, n);
        assert forall|i: int| 0 <= i < docs.len() && declares(#[trigger] docs[i], n) implies merged(
            docs,
        )[n] == own_decls(docs[i])[n] by {
            if i < front.len() {
                assert(front[i] == docs[i]);
                assert(docs[docs.len() - 1] == last);
                assert(!declares(last, n));
            }
        }
        if merged(docs).contains_key(n) {
            if has_name(last.decls, n) {
                assert(declares(docs[docs.len() - 1], n));
            } else {
                let i = choose|i: int| 0 <= i < front.len() && declares(#[trigger] front[i], n);
                assert(declares(docs[i], n));
            }
        }
        if exists|i: int| 0 <= i < docs.len() && declares(#[trigger] docs[i], n) {
            let i = choose|i: int| 0 <= i < docs.len() && declares(#[trigger] docs[i], n);
            if i < front.len() {
                assert(declares(front[i], n));
            }
        }
    }
}

/// Documents of which no two declare the same name make the same namespace
/// in whatever order they come.
pub proof fn lemma_merged_order_independent(a: Seq<DocumentView>, b: Seq<DocumentView>)
    requires
        same_documents(a, b),
        conflict_free(a),
        conflict_free(b),
    ensures
        merged(a) == merged(b),
{
    let ma = merged(a);
    let mb = merged(b);
    assert forall|n: Seq<char>| #[trigger] ma.contains_key(n) implies mb.contains_key(n) && mb[n]
        == ma[n] by {
        lemma_merged(a, n);
        lemma_merged(b, n);
        let i = choose|i: int| 0 <= i < a.len() && declares(#[trigger] a[i], n);
        assert(a.contains(a[i]));
        assert(b.contains(a[i]));
        let j = choose|j: int| 0 <= j < b.len() && b[j] == a[i];
        assert(declares(b[j], n));
    }
    assert forall|n: Seq<char>| #[trigger] mb.contains_key(n) implies ma.contains_key(n) by {
        lemma_merged(a, n);
        lemma_merged(b, n);
        let j = choose|j: int| 0 <= j < b.len() && declares(#[trigger] b[j], n);
        assert(b.contains(b[j]));
        assert(a.contains(b[j]));
        let i = choose|i: int| 0 <= i < a.len() && a[i] == b[j];
        assert(declares(a[i], n));
    }
    assert(ma =~= mb);
}

/// No document is rejected exactly where none of them would be rejected
/// alone.
pub proof fn lemma_first_rejection_none(
    builtins: Map<Seq<char>, TopDeclView>,
    docs: Seq<DocumentView>,
)
    ensures
        first_rejection(builtins, docs) is None <==> forall|i: int|
            0 <= i < docs.len() ==> rejection(builtins, #[trigger] docs[i]) is None,
    decreases docs.len(),
{
    if docs.len() > 0 {
        let rest = docs.drop_first();
        lemma_first_rejection_none(builtins, rest);
        if first_rejection(builtins, docs) is None {
            assert forall|i: int| 0 <= i < docs.len() implies rejection(
                builtins,
                #[trigger] docs[i],
            ) is None by {
                if i > 0 {
                    assert(rest[i - 1] == docs[i]);
                }
            }
        } else if rejection(builtins, docs[0]) is None {
            let i = choose|i: int|
                0 <= i < rest.len() && !(rejection(builtins, #[trigger] rest[i]) is None);
            assert(rest[i] == docs[i + 1]);
        }
    }
}

/// Where every document is taken in and no two of them declare the same
/// name, the outcome is the same in whatever order the documents come: the
/// same artifact, byte for byte, or the same failure.
pub proof fn lemma_outcome_order_independent(
    builtins: DocumentView,
    a: Seq<DocumentView>,
    b: Seq<DocumentView>,
    root: Seq<char>,
)
    requires
        same_documents(a, b),
        conflict_free(a),
        conflict_free(b),
        first_rejection(merge_decls(Map::empty(), builtins.decls), a) is None,
    ensures
        compacted(builtins, a, root) == compacted(builtins, b, root),
{
    let base = merge_decls(Map::empty(), builtins.decls);
    lemma_first_rejection_none(base, a);
    lemma_first_rejection_none(base, b);
    assert forall|j: int| 0 <= j < b.len() implies rejection(base, #[trigger] b[j]) is None by {
        assert(b.contains(b[j]));
        assert(a.contains(b[j]));
        let i = choose|i: int| 0 <= i < a.len() && a[i] == b[j];
        assert(rejection(base, a[i]) is None);
    }
    lemma_merged_order_independent(a, b);
}

/// What is selected for a top-level type is the declarations that it needs,
/// each once, by ascending name: every selected declaration is the declared
/// one of its name and can be reached from the top-level type, and a
/// declared name is selected exactly where it can be reached.
pub proof fn lemma_selection_is_closure(
    m: Map<Seq<char>, TopDeclView>,
    root: Seq<char>,
    s: Seq<TopDeclView>,
)
    requires
        is_canonical(s, m.restrict(reachable_set(m, root))),
    ensures
        strictly_sorted(s),
        distinct_names(s),
        forall|i: int|
            0 <= i < s.len() ==> reachable(m, root, #[trigger] s[i].name()) && m.contains_key(
                s[i].name(),
            ) && m[s[i].name()] == s[i],
        forall|n: Seq<char>| m.contains_key(n) ==> (has_name(s, n) <==> reachable(m, root, n)),
{
    let kept = m.restrict(reachable_set(m, root));
    assert forall|i: int| 0 <= i < s.len() implies reachable(m, root, #[trigger] s[i].name())
        && m.contains_key(s[i].name()) && m[s[i].name()] == s[i] by {
        assert(kept.contains_key(s[i].name()) && kept[s[i].name()] == s[i]);
    }
    assert forall|n: Seq<char>| m.contains_key(n) implies (has_name(s, n) <==> reachable(
        m,
        root,
        n,
    )) by {
        if has_name(s, n) {
            let i = choose|i: int| 0 <= i < s.len() && #[trigger] s[i].name() == n;
            assert(kept.contains_key(s[i].name()));
        }
        if reachable(m, root, n) {
            assert(kept.contains_key(n));
        }
    }
}

/// No declaration conflicts exactly where each declaration that bears a
/// builtin name is the builtin declaration of that name; else the first
/// conflict is the name of a declaration that differs from the builtin one.
pub proof fn lemma_first_conflict(builtins: Map<Seq<char>, TopDeclView>, decls: Seq<TopDeclView>)
    ensures
        first_conflict(builtins, decls) is None <==> forall|i: int|
            0 <= i < decls.len() ==> !conflicts(builtins, #[trigger] decls[i]),
        first_conflict(builtins, decls) matches Some(name) ==> exists|i: int|
            0 <= i < decls.len() && conflicts(builtins, #[trigger] decls[i]) && decls[i].name()
                == name,
    decreases decls.len(),
{
    if decls.len() > 0 {
        let rest = decls.drop_first();
        lemma_first_conflict(builtins, rest);
        if conflicts(builtins, decls[0]) {
        } else {
            if first_conflict(builtins, decls) is None {
                assert forall|i: int| 0 <= i < decls.len() implies !conflicts(
                    builtins,
                    #[trigger] decls[i],
                ) by {
                    if i > 0 {
                        assert(rest[i - 1] == decls[i]);
                    }
                }
            } else {
                let i = choose|i: int|
                    0 <= i < rest.len() && conflicts(builtins, #[trigger] rest[i])
                        && rest[i].name() == first_conflict(builtins, rest)->0;
                assert(rest[i] == decls[i + 1]);
            }
        }
    }
}

/// A document is taken in exactly where its syntax version is the
/// understood one and none of its declarations conflicts with a builtin
/// declaration. A document of another syntax version is rejected for its
/// version, whatever it declares.
pub proof fn lemma_rejection(builtins: Map<Seq<char>, TopDeclView>, doc: DocumentView)
    ensures
        rejection(builtins, doc) is None <==> doc.syntax_version == EXPECTED_SYNTAX_VERSION
            && forall|i: int|
            0 <= i < doc.decls.len() ==> !conflicts(builtins, #[trigger] doc.decls[i]),
        doc.syntax_version != EXPECTED_SYNTAX_VERSION ==> rejection(builtins, doc) == Some(
            CompactErrorView::VersionMismatch { source: doc.source, found: doc.syntax_version },
        ),
        doc.syntax_version == EXPECTED_SYNTAX_VERSION && (exists|i: int|
            0 <= i < doc.decls.len() && conflicts(builtins, #[trigger] doc.decls[i]))
            ==> (rejection(builtins, doc) matches Some(
            CompactErrorView::BuiltinConflict { source, .. },
        ) && source == doc.source),
{
    lemma_first_conflict(builtins, doc.decls);
}

} // verus!
