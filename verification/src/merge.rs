//! Merging schema documents into one namespace.
//!
//! A document is taken in where its syntax version is the understood one
//! and where each of its declarations that bears the name of a builtin
//! declaration is that builtin declaration. Its declarations then go into
//! the namespace in order, each in place of an earlier one of its name.

use crate::error::{CompactError, CompactErrorView};
use crate::ir::{decl_views, same_decl, Document, DocumentView, TopDecl, TopDeclView};
use crate::namespace::Namespace;
use crate::EXPECTED_SYNTAX_VERSION;
use vstd::prelude::*;

verus! {

/// The views of a list of documents.
pub open spec fn document_views(docs: Seq<Document>) -> Seq<DocumentView> {
    Seq::new(docs.len(), |i: int| docs[i]@)
}

/// `m` with the declarations of `decls` filed in order.
pub open spec fn merge_decls(m: Map<Seq<char>, TopDeclView>, decls: Seq<TopDeclView>) -> Map<
    Seq<char>,
    TopDeclView,
>
    decreases decls.len(),
{
    if decls.len() == 0 {
        m
    } else {
        merge_decls(m, decls.drop_last()).insert(decls.last().name(), decls.last())
    }
}

/// The namespace that the documents make together.
pub open spec fn merged(docs: Seq<DocumentView>) -> Map<Seq<char>, TopDeclView>
    decreases docs.len(),
{
    if docs.len() == 0 {
        Map::empty()
    } else {
        merge_decls(merged(docs.drop_last()), docs.last().decls)
    }
}

/// `decl` bears the name of a builtin declaration and differs from it.
pub open spec fn conflicts(builtins: Map<Seq<char>, TopDeclView>, decl: TopDeclView) -> bool {
    builtins.contains_key(decl.name()) && builtins[decl.name()] != decl
}

/// The name of the first declaration of `decls` that conflicts with a
/// builtin declaration.
pub open spec fn first_conflict(builtins: Map<Seq<char>, TopDeclView>, decls: Seq<TopDeclView>) -> Option<
    Seq<char>,
>
    decreases decls.len(),
{
    if decls.len() == 0 {
        None
    } else if conflicts(builtins, decls[0]) {
        Some(decls[0].name())
    } else {
        first_conflict(builtins, decls.drop_first())
    }
}

/// Why `doc` is not taken in, if it is not.
pub open spec fn rejection(builtins: Map<Seq<char>, TopDeclView>, doc: DocumentView) -> Option<
    CompactErrorView,
> {
    if doc.syntax_version != EXPECTED_SYNTAX_VERSION {
        Some(
            CompactErrorView::VersionMismatch { source: doc.source, found: doc.syntax_version },
        )
    } else {
        match first_conflict(builtins, doc.decls) {
            Some(name) => Some(CompactErrorView::BuiltinConflict { name, source: doc.source }),
            None => None,
        }
    }
}

/// Why the first document of `docs` that is not taken in is not.
pub open spec fn first_rejection(
    builtins: Map<Seq<char>, TopDeclView>,
    docs: Seq<DocumentView>,
) -> Option<CompactErrorView>
    decreases docs.len(),
{
    if docs.len() == 0 {
        None
    } else {
        match rejection(builtins, docs[0]) {
            Some(e) => Some(e),
            None => first_rejection(builtins, docs.drop_first()),
        }
    }
}

/// The name of the first declaration that conflicts with a builtin one.
fn find_conflict(builtins: &Namespace, decls: &Vec<TopDecl>) -> (r: Option<String>)
    ensures
        match r {
            Some(name) => first_conflict(builtins@, decl_views(decls@)) == Some(name@),
            None => first_conflict(builtins@, decl_views(decls@)) is None,
        },
{
    let ghost views = decl_views(decls@);
    let mut i: usize = 0;
    assert(views.skip(0) =~= views);
    while i < decls.len()
        invariant
            i <= decls.len(),
            views == decl_views(decls@),
            first_conflict(builtins@, views) == first_conflict(builtins@, views.skip(i as int)),
        decreases decls.len() - i,
    {
        let decl = &decls[i];
        proof {
            assert(views.skip(i as int)[0] == decl@);
            assert(views.skip(i as int).drop_first() =~= views.skip(i + 1));
        }
        match builtins.get(decl.name().as_str()) {
            Some(builtin) => {
                if !same_decl(builtin, decl) {
                    return Some(decl.name().clone());
                }
            },
            None => {},
        }
        i += 1;
    }
    None
}

/// Files a copy of each declaration in order.
pub fn insert_all(ns: &mut Namespace, decls: &Vec<TopDecl>)
    ensures
        final(ns)@ == merge_decls(old(ns)@, decl_views(decls@)),
{
    let ghost views = decl_views(decls@);
    let mut i: usize = 0;
    assert(views.take(0) =~= Seq::<TopDeclView>::empty());
    while i < decls.len()
        invariant
            i <= decls.len(),
            views == decl_views(decls@),
            ns@ == merge_decls(old(ns)@, views.take(i as int)),
        decreases decls.len() - i,
    {
        proof {
            assert(views.take(i + 1).drop_last() =~= views.take(i as int));
            assert(views.take(i + 1).last() == decls[i as int]@);
        }
        ns.insert(decls[i].clone());
        i += 1;
    }
    assert(views.take(i as int) =~= views);
}

/// The namespace of the builtin declarations.
///
/// Fails where the builtin document's syntax version is not the understood
/// one.
pub fn load_builtins(doc: &Document) -> (r: Result<Namespace, CompactError>)
    ensures
        match r {
            Ok(ns) => {
                &&& doc@.syntax_version == EXPECTED_SYNTAX_VERSION
                &&& ns@ == merge_decls(Map::empty(), doc@.decls)
            },
            Err(e) => {
                &&& doc@.syntax_version != EXPECTED_SYNTAX_VERSION
                &&& e@ == (CompactErrorView::VersionMismatch {
                    source: doc@.source,
                    found: doc@.syntax_version,
                })
            },
        },
{
    if doc.syntax_version != EXPECTED_SYNTAX_VERSION {
        return Err(
            CompactError::VersionMismatch {
                source: doc.source.clone(),
                found: doc.syntax_version,
            },
        );
    }
    let mut ns = Namespace::new();
    insert_all(&mut ns, &doc.decls);
    Ok(ns)
}

/// Takes one document into the namespace.
///
/// Fails, and leaves the namespace as it was, where the document's syntax
/// version is not the understood one, or else where one of its declarations
/// conflicts with a builtin declaration; the error then names the first
/// such declaration.
pub fn merge_document(ns: &mut Namespace, builtins: &Namespace, doc: &Document) -> (r: Result<
    (),
    CompactError,
>)
    ensures
        match r {
            Ok(()) => {
                &&& rejection(builtins@, doc@) is None
                &&& final(ns)@ == merge_decls(old(ns)@, doc@.decls)
            },
            Err(e) => {
                &&& rejection(builtins@, doc@) == Some(e@)
                &&& final(ns)@ == old(ns)@
            },
        },
{
    if doc.syntax_version != EXPECTED_SYNTAX_VERSION {
        return Err(
            CompactError::VersionMismatch {
                source: doc.source.clone(),
                found: doc.syntax_version,
            },
        );
    }
    match find_conflict(builtins, &doc.decls) {
        Some(name) => Err(CompactError::BuiltinConflict { name, source: doc.source.clone() }),
        None => {
            insert_all(ns, &doc.decls);
            Ok(())
        },
    }
}

/// The namespace that the documents make together.
///
/// Fails at the first document that is not taken in.
pub fn merge_documents(builtins: &Namespace, docs: &Vec<Document>) -> (r: Result<
    Namespace,
    CompactError,
>)
    ensures
        match r {
            Ok(ns) => {
                &&& first_rejection(builtins@, document_views(docs@)) is None
                &&& ns@ == merged(document_views(docs@))
            },
            Err(e) => first_rejection(builtins@, document_views(docs@)) == Some(e@),
        },
{
    let ghost views = document_views(docs@);
    let mut ns = Namespace::new();
    let mut i: usize = 0;
    assert(views.take(0) =~= Seq::<DocumentView>::empty());
    assert(views.skip(0) =~= views);
    while i < docs.len()
        invariant
            i <= docs.len(),
            views == document_views(docs@),
            ns@ == merged(views.take(i as int)),
            first_rejection(builtins@, views) == first_rejection(builtins@, views.skip(i as int)),
        decreases docs.len() - i,
    {
        proof {
            assert(views.skip(i as int)[0] == docs[i as int]@);
            assert(views.skip(i as int).drop_first() =~= views.skip(i + 1));
            assert(views.take(i + 1).drop_last() =~= views.take(i as int));
            assert(views.take(i + 1).last() == docs[i as int]@);
        }
        match merge_document(&mut ns, builtins, &docs[i]) {
            Ok(()) => {},
            Err(e) => {
                return Err(e);
            },
        }
        i += 1;
    }
    assert(views.take(i as int) =~= views);
    Ok(ns)
}

} // verus!
