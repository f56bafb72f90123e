//! The document model: type declarations as a schema front end hands them over.
//!
//! A declaration refers to other declarations by name only. The mathematical
//! model of each type is its view, in which every name is a sequence of
//! characters and every list a sequence.

use crate::order::name_equal;
use vstd::prelude::*;

verus! {

/// One field of a struct or table declaration.
#[derive(Debug, PartialEq, Eq)]
pub struct FieldDecl {
    pub name: String,
    pub typ: String,
}

/// One member of a union declaration, with the number that tags it in data.
#[derive(Debug, PartialEq, Eq)]
pub struct UnionItemDecl {
    pub typ: String,
    pub id: usize,
}

/// A named type declaration.
///
/// `imported_depth` counts the imports between the document and the file that
/// holds the declaration. It takes part in equality and is not encoded.
#[derive(Debug, PartialEq, Eq)]
pub enum TopDecl {
    Option_ { name: String, item: String, imported_depth: usize },
    Union { name: String, items: Vec<UnionItemDecl>, imported_depth: usize },
    Array { name: String, item: String, item_count: usize, imported_depth: usize },
    Struct { name: String, fields: Vec<FieldDecl>, imported_depth: usize },
    FixVec { name: String, item: String, imported_depth: usize },
    DynVec { name: String, item: String, imported_depth: usize },
    Table { name: String, fields: Vec<FieldDecl>, imported_depth: usize },
}

/// One schema document: its syntax version and its declarations, in order.
/// `source` says where the document came from, for error reports.
#[derive(Debug, PartialEq, Eq)]
pub struct Document {
    pub source: String,
    pub syntax_version: usize,
    pub decls: Vec<TopDecl>,
}

pub struct FieldDeclView {
    pub name: Seq<char>,
    pub typ: Seq<char>,
}

pub struct UnionItemDeclView {
    pub typ: Seq<char>,
    pub id: usize,
}

pub enum TopDeclView {
    Option_ { name: Seq<char>, item: Seq<char>, imported_depth: usize },
    Union { name: Seq<char>, items: Seq<UnionItemDeclView>, imported_depth: usize },
    Array { name: Seq<char>, item: Seq<char>, item_count: usize, imported_depth: usize },
    Struct { name: Seq<char>, fields: Seq<FieldDeclView>, imported_depth: usize },
    FixVec { name: Seq<char>, item: Seq<char>, imported_depth: usize },
    DynVec { name: Seq<char>, item: Seq<char>, imported_depth: usize },
    Table { name: Seq<char>, fields: Seq<FieldDeclView>, imported_depth: usize },
}

pub struct DocumentView {
    pub source: Seq<char>,
    pub syntax_version: usize,
    pub decls: Seq<TopDeclView>,
}

impl View for FieldDecl {
    type V = FieldDeclView;

    open spec fn view(&self) -> FieldDeclView {
        FieldDeclView { name: self.name@, typ: self.typ@ }
    }
}

impl View for UnionItemDecl {
    type V = UnionItemDeclView;

    open spec fn view(&self) -> UnionItemDeclView {
        UnionItemDeclView { typ: self.typ@, id: self.id }
    }
}

/// The views of a list of names.
pub open spec fn name_views(names: Seq<String>) -> Seq<Seq<char>> {
    Seq::new(names.len(), |i: int| names[i]@)
}

/// The views of a list of fields.
pub open spec fn field_views(fields: Seq<FieldDecl>) -> Seq<FieldDeclView> {
    Seq::new(fields.len(), |i: int| fields[i]@)
}

/// The views of a list of union members.
pub open spec fn union_item_views(items: Seq<UnionItemDecl>) -> Seq<UnionItemDeclView> {
    Seq::new(items.len(), |i: int| items[i]@)
}

/// The views of a list of declarations.
pub open spec fn decl_views(decls: Seq<TopDecl>) -> Seq<TopDeclView> {
    Seq::new(decls.len(), |i: int| decls[i]@)
}

impl View for TopDecl {
    type V = TopDeclView;

    open spec fn view(&self) -> TopDeclView {
        match *self {
            TopDecl::Option_ { name, item, imported_depth } => TopDeclView::Option_ {
                name: name@,
                item: item@,
                imported_depth,
            },
            TopDecl::Union { name, items, imported_depth } => TopDeclView::Union {
                name: name@,
                items: union_item_views(items@),
                imported_depth,
            },
            TopDecl::Array { name, item, item_count, imported_depth } => TopDeclView::Array {
                name: name@,
                item: item@,
                item_count,
                imported_depth,
            },
            TopDecl::Struct { name, fields, imported_depth } => TopDeclView::Struct {
                name: name@,
                fields: field_views(fields@),
                imported_depth,
            },
            TopDecl::FixVec { name, item, imported_depth } => TopDeclView::FixVec {
                name: name@,
                item: item@,
                imported_depth,
            },
            TopDecl::DynVec { name, item, imported_depth } => TopDeclView::DynVec {
                name: name@,
                item: item@,
                imported_depth,
            },
            TopDecl::Table { name, fields, imported_depth } => TopDeclView::Table {
                name: name@,
                fields: field_views(fields@),
                imported_depth,
            },
        }
    }
}

impl View for Document {
    type V = DocumentView;

    open spec fn view(&self) -> DocumentView {
        DocumentView {
            source: self.source@,
            syntax_version: self.syntax_version,
            decls: decl_views(self.decls@),
        }
    }
}

/// The type names of a list of fields, in order.
pub open spec fn field_types(fields: Seq<FieldDeclView>) -> Seq<Seq<char>> {
    Seq::new(fields.len(), |i: int| fields[i].typ)
}

/// The type names of a list of union members, in order.
pub open spec fn union_item_types(items: Seq<UnionItemDeclView>) -> Seq<Seq<char>> {
    Seq::new(items.len(), |i: int| items[i].typ)
}

impl TopDeclView {
    /// The name under which the declaration is known.
    pub open spec fn name(self) -> Seq<char> {
        match self {
            TopDeclView::Option_ { name, .. } => name,
            TopDeclView::Union { name, .. } => name,
            TopDeclView::Array { name, .. } => name,
            TopDeclView::Struct { name, .. } => name,
            TopDeclView::FixVec { name, .. } => name,
            TopDeclView::DynVec { name, .. } => name,
            TopDeclView::Table { name, .. } => name,
        }
    }

    /// The type names that the declaration refers to, in the order in which
    /// it lists them: the item of an option, array or vector, the members of
    /// a union, the fields of a struct or table.
    pub open spec fn refs(self) -> Seq<Seq<char>> {
        match self {
            TopDeclView::Option_ { item, .. } => seq![item],
            TopDeclView::Union { items, .. } => union_item_types(items),
            TopDeclView::Array { item, .. } => seq![item],
            TopDeclView::Struct { fields, .. } => field_types(fields),
            TopDeclView::FixVec { item, .. } => seq![item],
            TopDeclView::DynVec { item, .. } => seq![item],
            TopDeclView::Table { fields, .. } => field_types(fields),
        }
    }
}

impl Clone for FieldDecl {
    fn clone(&self) -> (res: Self)
        ensures
            res@ == self@,
    {
        FieldDecl { name: self.name.clone(), typ: self.typ.clone() }
    }
}

impl Clone for UnionItemDecl {
    fn clone(&self) -> (res: Self)
        ensures
            res@ == self@,
    {
        UnionItemDecl { typ: self.typ.clone(), id: self.id }
    }
}

/// A copy of a list of fields.
pub fn clone_fields(fields: &Vec<FieldDecl>) -> (res: Vec<FieldDecl>)
    ensures
        field_views(res@) == field_views(fields@),
{
    let mut res: Vec<FieldDecl> = Vec::new();
    let mut i: usize = 0;
    while i < fields.len()
        invariant
            i <= fields.len(),
            res.len() == i,
            forall|k: int| 0 <= k < i ==> res[k]@ == fields[k]@,
        decreases fields.len() - i,
    {
        res.push(fields[i].clone());
        i += 1;
    }
    assert(field_views(res@) =~= field_views(fields@));
    res
}

/// A copy of a list of union members.
pub fn clone_union_items(items: &Vec<UnionItemDecl>) -> (res: Vec<UnionItemDecl>)
    ensures
        union_item_views(res@) == union_item_views(items@),
{
    let mut res: Vec<UnionItemDecl> = Vec::new();
    let mut i: usize = 0;
    while i < items.len()
        invariant
            i <= items.len(),
            res.len() == i,
            forall|k: int| 0 <= k < i ==> res[k]@ == items[k]@,
        decreases items.len() - i,
    {
        res.push(items[i].clone());
        i += 1;
    }
    assert(union_item_views(res@) =~= union_item_views(items@));
    res
}

impl Clone for TopDecl {
    fn clone(&self) -> (res: Self)
        ensures
            res@ == self@,
    {
        match self {
            TopDecl::Option_ { name, item, imported_depth } => TopDecl::Option_ {
                name: name.clone(),
                item: item.clone(),
                imported_depth: *imported_depth,
            },
            TopDecl::Union { name, items, imported_depth } => TopDecl::Union {
                name: name.clone(),
                items: clone_union_items(items),
                imported_depth: *imported_depth,
            },
            TopDecl::Array { name, item, item_count, imported_depth } => TopDecl::Array {
                name: name.clone(),
                item: item.clone(),
                item_count: *item_count,
                imported_depth: *imported_depth,
            },
            TopDecl::Struct { name, fields, imported_depth } => TopDecl::Struct {
                name: name.clone(),
                fields: clone_fields(fields),
                imported_depth: *imported_depth,
            },
            TopDecl::FixVec { name, item, imported_depth } => TopDecl::FixVec {
                name: name.clone(),
                item: item.clone(),
                imported_depth: *imported_depth,
            },
            TopDecl::DynVec { name, item, imported_depth } => TopDecl::DynVec {
                name: name.clone(),
                item: item.clone(),
                imported_depth: *imported_depth,
            },
            TopDecl::Table { name, fields, imported_depth } => TopDecl::Table {
                name: name.clone(),
                fields: clone_fields(fields),
                imported_depth: *imported_depth,
            },
        }
    }
}

impl TopDecl {
    /// The declaration's name, borrowed.
    pub fn name(&self) -> (name: &String)
        ensures
            name@ == self@.name(),
    {
        match self {
            TopDecl::Option_ { name, .. } => name,
            TopDecl::Union { name, .. } => name,
            TopDecl::Array { name, .. } => name,
            TopDecl::Struct { name, .. } => name,
            TopDecl::FixVec { name, .. } => name,
            TopDecl::DynVec { name, .. } => name,
            TopDecl::Table { name, .. } => name,
        }
    }
}

/// The type names that a declaration refers to, in the order in which it
/// lists them.
pub fn child_types(decl: &TopDecl) -> (types: Vec<String>)
    ensures
        name_views(types@) == decl@.refs(),
{
    let mut types: Vec<String> = Vec::new();
    match decl {
        TopDecl::Option_ { item, .. } => {
            types.push(item.clone());
        },
        TopDecl::Union { items, .. } => {
            let mut i: usize = 0;
            while i < items.len()
                invariant
                    i <= items.len(),
                    types.len() == i,
                    forall|k: int| 0 <= k < i ==> types[k]@ == items[k].typ@,
                decreases items.len() - i,
            {
                types.push(items[i].typ.clone());
                i += 1;
            }
        },
        TopDecl::Array { item, .. } => {
            types.push(item.clone());
        },
        TopDecl::Struct { fields, .. } => {
            types = field_type_names(fields);
        },
        TopDecl::FixVec { item, .. } => {
            types.push(item.clone());
        },
        TopDecl::DynVec { item, .. } => {
            types.push(item.clone());
        },
        TopDecl::Table { fields, .. } => {
            types = field_type_names(fields);
        },
    }
    assert(name_views(types@) =~= decl@.refs());
    types
}

fn field_type_names(fields: &Vec<FieldDecl>) -> (types: Vec<String>)
    ensures
        name_views(types@) == field_types(field_views(fields@)),
{
    let mut types: Vec<String> = Vec::new();
    let mut i: usize = 0;
    while i < fields.len()
        invariant
            i <= fields.len(),
            types.len() == i,
            forall|k: int| 0 <= k < i ==> types[k]@ == fields[k].typ@,
        decreases fields.len() - i,
    {
        types.push(fields[i].typ.clone());
        i += 1;
    }
    assert(name_views(types@) =~= field_types(field_views(fields@)));
    types
}

/// The name of a declaration, whatever its kind.
pub fn decl_name(decl: &TopDecl) -> (name: String)
    ensures
        name@ == decl@.name(),
{
    decl.name().clone()
}

/// Whether two lists of fields are the same.
pub fn same_fields(a: &Vec<FieldDecl>, b: &Vec<FieldDecl>) -> (r: bool)
    ensures
        r == (field_views(a@) == field_views(b@)),
{
    if a.len() != b.len() {
        assert(field_views(a@).len() != field_views(b@).len());
        return false;
    }
    let mut i: usize = 0;
    while i < a.len()
        invariant
            i <= a.len(),
            a.len() == b.len(),
            forall|k: int| 0 <= k < i ==> a[k]@ == b[k]@,
        decreases a.len() - i,
    {
        let same = name_equal(a[i].name.as_str(), b[i].name.as_str()) && name_equal(
            a[i].typ.as_str(),
            b[i].typ.as_str(),
        );
        if !same {
            assert(field_views(a@)[i as int] != field_views(b@)[i as int]);
            return false;
        }
        i += 1;
    }
    assert(field_views(a@) =~= field_views(b@));
    true
}

/// Whether two lists of union members are the same.
pub fn same_union_items(a: &Vec<UnionItemDecl>, b: &Vec<UnionItemDecl>) -> (r: bool)
    ensures
        r == (union_item_views(a@) == union_item_views(b@)),
{
    if a.len() != b.len() {
        assert(union_item_views(a@).len() != union_item_views(b@).len());
        return false;
    }
    let mut i: usize = 0;
    while i < a.len()
        invariant
            i <= a.len(),
            a.len() == b.len(),
            forall|k: int| 0 <= k < i ==> a[k]@ == b[k]@,
        decreases a.len() - i,
    {
        let same = name_equal(a[i].typ.as_str(), b[i].typ.as_str()) && a[i].id == b[i].id;
        if !same {
            assert(union_item_views(a@)[i as int] != union_item_views(b@)[i as int]);
            return false;
        }
        i += 1;
    }
    assert(union_item_views(a@) =~= union_item_views(b@));
    true
}

/// Whether two declarations are the same: of one kind, with the same name
/// and the same contents.
pub fn same_decl(a: &TopDecl, b: &TopDecl) -> (r: bool)
    ensures
        r == (a@ == b@),
{
    match (a, b) {
        (
            TopDecl::Option_ { name: n1, item: i1, imported_depth: d1 },
            TopDecl::Option_ { name: n2, item: i2, imported_depth: d2 },
        ) => name_equal(n1.as_str(), n2.as_str()) && name_equal(i1.as_str(), i2.as_str()) && *d1
            == *d2,
        (
            TopDecl::Union { name: n1, items: i1, imported_depth: d1 },
            TopDecl::Union { name: n2, items: i2, imported_depth: d2 },
        ) => name_equal(n1.as_str(), n2.as_str()) && same_union_items(i1, i2) && *d1 == *d2,
        (
            TopDecl::Array { name: n1, item: i1, item_count: c1, imported_depth: d1 },
            TopDecl::Array { name: n2, item: i2, item_count: c2, imported_depth: d2 },
        ) => name_equal(n1.as_str(), n2.as_str()) && name_equal(i1.as_str(), i2.as_str()) && *c1
            == *c2 && *d1 == *d2,
        (
            TopDecl::Struct { name: n1, fields: f1, imported_depth: d1 },
            TopDecl::Struct { name: n2, fields: f2, imported_depth: d2 },
        ) => name_equal(n1.as_str(), n2.as_str()) && same_fields(f1, f2) && *d1 == *d2,
        (
            TopDecl::FixVec { name: n1, item: i1, imported_depth: d1 },
            TopDecl::FixVec { name: n2, item: i2, imported_depth: d2 },
        ) => name_equal(n1.as_str(), n2.as_str()) && name_equal(i1.as_str(), i2.as_str()) && *d1
            == *d2,
        (
            TopDecl::DynVec { name: n1, item: i1, imported_depth: d1 },
            TopDecl::DynVec { name: n2, item: i2, imported_depth: d2 },
        ) => name_equal(n1.as_str(), n2.as_str()) && name_equal(i1.as_str(), i2.as_str()) && *d1
            == *d2,
        (
            TopDecl::Table { name: n1, fields: f1, imported_depth: d1 },
            TopDecl::Table { name: n2, fields: f2, imported_depth: d2 },
        ) => name_equal(n1.as_str(), n2.as_str()) && same_fields(f1, f2) && *d1 == *d2,
        _ => false,
    }
}

} // verus!
