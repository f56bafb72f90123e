//! From documents to the artifact.
//!
//! The documents are merged into one namespace. The declarations that the
//! top-level type needs are kept, put in ascending order of their names, and
//! encoded behind the syntax version and the top-level type's name.

use crate::canon::{canonical, is_canonical, retain_names, sorted_by_name};
use crate::encode::{build_compact_definitions, definitions_bytes};
use crate::error::{CompactError, CompactErrorView};
use crate::ir::{decl_views, Document, DocumentView, TopDecl, TopDeclView};
use crate::merge::{
    document_views, first_rejection, load_builtins, merge_decls, merge_documents, merged,
};
use crate::namespace::Namespace;
use crate::order::lemma_name_lt_asymmetric;
use crate::reach::{
    decl_child_types, least_referrer, least_unresolved, reachable_set, resolvable,
};
use crate::wire::MAX_NUMBER;
use crate::EXPECTED_SYNTAX_VERSION;
use vstd::prelude::*;

verus! {

/// The first, in the order of names, of the names that `root` needs and
/// that are not declared.
pub open spec fn first_unresolved_name(m: Map<Seq<char>, TopDeclView>, root: Seq<char>) -> Seq<
    char,
> {
    choose|n: Seq<char>| least_unresolved(m, root, n)
}

/// The first, in the order of names, of the names that `root` needs and
/// whose declarations refer to `n`.
pub open spec fn first_referrer_name(
    m: Map<Seq<char>, TopDeclView>,
    root: Seq<char>,
    n: Seq<char>,
) -> Seq<char> {
    choose|r: Seq<char>| least_referrer(m, root, n, r)
}

/// Why nothing can be selected for `root`, if nothing can.
pub open spec fn selection_error(m: Map<Seq<char>, TopDeclView>, root: Seq<char>) -> Option<
    CompactErrorView,
> {
    if !m.contains_key(root) {
        Some(CompactErrorView::MissingTopLevelType { name: root })
    } else if resolvable(m, root) {
        None
    } else {
        let name = first_unresolved_name(m, root);
        Some(
            CompactErrorView::UnresolvedReference {
                name,
                referrer: first_referrer_name(m, root, name),
            },
        )
    }
}

/// The declarations that `root` needs, by ascending name.
pub open spec fn selected(m: Map<Seq<char>, TopDeclView>, root: Seq<char>) -> Seq<TopDeclView> {
    canonical(m.restrict(reachable_set(m, root)))
}

/// The artifact for `root` over the namespace `m`, or why there is none.
pub open spec fn artifact(m: Map<Seq<char>, TopDeclView>, root: Seq<char>) -> Result<
    Seq<u8>,
    CompactErrorView,
> {
    match selection_error(m, root) {
        Some(e) => Err(e),
        None => {
            let bytes = definitions_bytes(EXPECTED_SYNTAX_VERSION, root, selected(m, root));
            if bytes.len() <= MAX_NUMBER {
                Ok(bytes)
            } else {
                Err(CompactErrorView::ArtifactTooLarge)
            }
        },
    }
}

/// The artifact for `root` over the documents, or why there is none.
pub open spec fn compacted(
    builtins: DocumentView,
    docs: Seq<DocumentView>,
    root: Seq<char>,
) -> Result<Seq<u8>, CompactErrorView> {
    if builtins.syntax_version != EXPECTED_SYNTAX_VERSION {
        Err(
            CompactErrorView::VersionMismatch {
                source: builtins.source,
                found: builtins.syntax_version,
            },
        )
    } else {
        match first_rejection(merge_decls(Map::empty(), builtins.decls), docs) {
            Some(e) => Err(e),
            None => artifact(merged(docs), root),
        }
    }
}

/// What a run returned, as the specification sees it.
pub open spec fn outcome(r: Result<Vec<u8>, CompactError>) -> Result<Seq<u8>, CompactErrorView> {
    match r {
        Ok(bytes) => Ok(bytes@),
        Err(e) => Err(e@),
    }
}

/// Only one name is the first undeclared one.
pub proof fn lemma_least_unresolved_unique(
    m: Map<Seq<char>, TopDeclView>,
    root: Seq<char>,
    a: Seq<char>,
    b: Seq<char>,
)
    requires
        least_unresolved(m, root, a),
        least_unresolved(m, root, b),
    ensures
        a == b,
{
    if a != b {
        lemma_name_lt_asymmetric(a, b);
    }
}

/// Only one name is the first referrer.
pub proof fn lemma_least_referrer_unique(
    m: Map<Seq<char>, TopDeclView>,
    root: Seq<char>,
    n: Seq<char>,
    a: Seq<char>,
    b: Seq<char>,
)
    requires
        least_referrer(m, root, n, a),
        least_referrer(m, root, n, b),
    ensures
        a == b,
{
    if a != b {
        lemma_name_lt_asymmetric(a, b);
    }
}

/// The declarations that the top-level type needs, by ascending name.
///
/// Fails where nothing is declared under the top-level type's name, or
/// where a needed name is neither declared nor primitive.
pub fn select_definitions(top_level_type: &String, decls: &Namespace) -> (r: Result<
    Vec<TopDecl>,
    CompactError,
>)
    ensures
        match r {
            Ok(kept) => {
                &&& selection_error(decls@, top_level_type@) is None
                &&& decl_views(kept@) == selected(decls@, top_level_type@)
                &&& is_canonical(
                    decl_views(kept@),
                    decls@.restrict(reachable_set(decls@, top_level_type@)),
                )
            },
            Err(e) => selection_error(decls@, top_level_type@) == Some(e@),
        },
{
    if !decls.contains_key(top_level_type.as_str()) {
        return Err(CompactError::MissingTopLevelType { name: top_level_type.clone() });
    }
    match decl_child_types(top_level_type, decls) {
        Ok(used) => {
            let kept = retain_names(decls, &used);
            Ok(sorted_by_name(&kept))
        },
        Err(e) => {
            proof {
                match &e {
                    CompactError::UnresolvedReference { name, referrer } => {
                        let n = first_unresolved_name(decls@, top_level_type@);
                        lemma_least_unresolved_unique(decls@, top_level_type@, name@, n);
                        let r = first_referrer_name(decls@, top_level_type@, name@);
                        lemma_least_referrer_unique(decls@, top_level_type@, name@, referrer@, r);
                    },
                    _ => {},
                }
            }
            Err(e)
        },
    }
}

/// The artifact for the top-level type over a namespace.
pub fn compact_namespace(decls: &Namespace, top_level_type: &String) -> (r: Result<
    Vec<u8>,
    CompactError,
>)
    ensures
        outcome(r) == artifact(decls@, top_level_type@),
{
    match select_definitions(top_level_type, decls) {
        Err(e) => Err(e),
        Ok(kept) => {
            match build_compact_definitions(
                EXPECTED_SYNTAX_VERSION,
                top_level_type.as_str(),
                &kept,
            ) {
                Some(bytes) => Ok(bytes),
                None => Err(CompactError::ArtifactTooLarge),
            }
        },
    }
}

/// The artifact for the top-level type over the documents: the builtin
/// document, and the input documents in the order given.
pub fn compact(builtins: &Document, inputs: &Vec<Document>, top_level_type: &String) -> (r: Result<
    Vec<u8>,
    CompactError,
>)
    ensures
        outcome(r) == compacted(builtins@, document_views(inputs@), top_level_type@),
{
    let builtin_decls = match load_builtins(builtins) {
        Ok(ns) => ns,
        Err(e) => {
            return Err(e);
        },
    };
    let decls = match merge_documents(&builtin_decls, inputs) {
        Ok(ns) => ns,
        Err(e) => {
            return Err(e);
        },
    };
    compact_namespace(&decls, top_level_type)
}

} // verus!
