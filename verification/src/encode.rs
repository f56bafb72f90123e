//! The encoding of declarations and of the artifact.
//!
//! A name is a byte vector of its UTF-8 bytes. An item count, a union
//! member's number and the syntax version are 64-bit numbers. Every
//! declaration is a table of its name and what else it holds; the
//! declaration's kind is a tag in front of that table. The artifact is a
//! table of the syntax version, the top-level type's name and the
//! declarations.
//!
//! No encoding is longer than `MAX_NUMBER` bytes: where one would be, the
//! encoder returns `None`.

use crate::ir::{decl_views, field_views, union_item_views};
use crate::ir::{FieldDecl, FieldDeclView, TopDecl, TopDeclView, UnionItemDecl, UnionItemDeclView};
use crate::wire::{
    byte_vector_bytes, encode_byte_vector, encode_table, encode_uint64, le_bytes,
    lemma_le_bytes_len, lemma_table_longer_than_part, number_bytes, part_views, push_bytes,
    push_number, table_bytes, MAX_NUMBER,
};
use vstd::prelude::*;
use vstd::string::*;
use vstd::utf8::*;

verus! {

/// `r` is the encoding `bytes`, or nothing where `bytes` is too long.
pub open spec fn encodes(r: Option<Vec<u8>>, bytes: Seq<u8>) -> bool {
    &&& r is Some <==> bytes.len() <= MAX_NUMBER
    &&& r matches Some(b) ==> b@ == bytes
}

/// The encoding of a name.
pub open spec fn string_bytes(s: Seq<char>) -> Seq<u8> {
    byte_vector_bytes(encode_utf8(s))
}

/// The encoding of a 64-bit number.
pub open spec fn uint64_bytes(n: usize) -> Seq<u8> {
    le_bytes(n as nat, 8)
}

/// The encoding of a field: its name, then its type.
pub open spec fn field_pair_bytes(f: FieldDeclView) -> Seq<u8> {
    table_bytes(seq![string_bytes(f.name), string_bytes(f.typ)])
}

/// The encoding of a union member: its type, then its number.
pub open spec fn union_pair_bytes(u: UnionItemDeclView) -> Seq<u8> {
    table_bytes(seq![string_bytes(u.typ), uint64_bytes(u.id)])
}

/// The encoding of a list of fields.
pub open spec fn field_pair_vec_bytes(fields: Seq<FieldDeclView>) -> Seq<u8> {
    table_bytes(Seq::new(fields.len(), |i: int| field_pair_bytes(fields[i])))
}

/// The encoding of a list of union members.
pub open spec fn union_pair_vec_bytes(items: Seq<UnionItemDeclView>) -> Seq<u8> {
    table_bytes(Seq::new(items.len(), |i: int| union_pair_bytes(items[i])))
}

/// The encoding of a declaration that holds one item type: an option or a
/// vector.
pub open spec fn item_definition_bytes(name: Seq<char>, item: Seq<char>) -> Seq<u8> {
    table_bytes(seq![string_bytes(name), string_bytes(item)])
}

/// The encoding of an array declaration.
pub open spec fn array_definition_bytes(
    name: Seq<char>,
    item: Seq<char>,
    item_count: usize,
) -> Seq<u8> {
    table_bytes(seq![string_bytes(name), string_bytes(item), uint64_bytes(item_count)])
}

/// The encoding of a union declaration.
pub open spec fn union_definition_bytes(name: Seq<char>, items: Seq<UnionItemDeclView>) -> Seq<
    u8,
> {
    table_bytes(seq![string_bytes(name), union_pair_vec_bytes(items)])
}

/// The encoding of a declaration that holds fields: a struct or a table.
pub open spec fn fields_definition_bytes(name: Seq<char>, fields: Seq<FieldDeclView>) -> Seq<u8> {
    table_bytes(seq![string_bytes(name), field_pair_vec_bytes(fields)])
}

/// The tag of each kind of declaration.
pub open spec fn tag(decl: TopDeclView) -> nat {
    match decl {
        TopDeclView::Option_ { .. } => 0,
        TopDeclView::Union { .. } => 1,
        TopDeclView::Array { .. } => 2,
        TopDeclView::Struct { .. } => 3,
        TopDeclView::FixVec { .. } => 4,
        TopDeclView::DynVec { .. } => 5,
        TopDeclView::Table { .. } => 6,
    }
}

/// The encoding of what a declaration holds, without its tag.
pub open spec fn body_bytes(decl: TopDeclView) -> Seq<u8> {
    match decl {
        TopDeclView::Option_ { name, item, .. } => item_definition_bytes(name, item),
        TopDeclView::Union { name, items, .. } => union_definition_bytes(name, items),
        TopDeclView::Array { name, item, item_count, .. } => array_definition_bytes(
            name,
            item,
            item_count,
        ),
        TopDeclView::Struct { name, fields, .. } => fields_definition_bytes(name, fields),
        TopDeclView::FixVec { name, item, .. } => item_definition_bytes(name, item),
        TopDeclView::DynVec { name, item, .. } => item_definition_bytes(name, item),
        TopDeclView::Table { name, fields, .. } => fields_definition_bytes(name, fields),
    }
}

/// The encoding of a declaration: its tag, then what it holds.
pub open spec fn definition_bytes(decl: TopDeclView) -> Seq<u8> {
    number_bytes(tag(decl)) + body_bytes(decl)
}

/// The encoding of a list of declarations.
pub open spec fn definition_vec_bytes(decls: Seq<TopDeclView>) -> Seq<u8> {
    table_bytes(Seq::new(decls.len(), |i: int| definition_bytes(decls[i])))
}

/// The encoding of the artifact.
pub open spec fn definitions_bytes(
    syntax_version: usize,
    top_level_type: Seq<char>,
    decls: Seq<TopDeclView>,
) -> Seq<u8> {
    table_bytes(
        seq![
            uint64_bytes(syntax_version),
            string_bytes(top_level_type),
            definition_vec_bytes(decls),
        ],
    )
}

fn record2(a: Option<Vec<u8>>, b: Option<Vec<u8>>, Ghost(sa): Ghost<Seq<u8>>, Ghost(sb): Ghost<
    Seq<u8>,
>) -> (r: Option<Vec<u8>>)
    requires
        encodes(a, sa),
        encodes(b, sb),
    ensures
        encodes(r, table_bytes(seq![sa, sb])),
{
    proof {
        lemma_table_longer_than_part(seq![sa, sb], 0);
        lemma_table_longer_than_part(seq![sa, sb], 1);
    }
    match (a, b) {
        (Some(a), Some(b)) => {
            let mut parts: Vec<Vec<u8>> = Vec::new();
            parts.push(a);
            parts.push(b);
            assert(part_views(parts@) =~= seq![sa, sb]);
            encode_table(&parts)
        },
        _ => None,
    }
}

fn record3(
    a: Option<Vec<u8>>,
    b: Option<Vec<u8>>,
    c: Option<Vec<u8>>,
    Ghost(sa): Ghost<Seq<u8>>,
    Ghost(sb): Ghost<Seq<u8>>,
    Ghost(sc): Ghost<Seq<u8>>,
) -> (r: Option<Vec<u8>>)
    requires
        encodes(a, sa),
        encodes(b, sb),
        encodes(c, sc),
    ensures
        encodes(r, table_bytes(seq![sa, sb, sc])),
{
    proof {
        lemma_table_longer_than_part(seq![sa, sb, sc], 0);
        lemma_table_longer_than_part(seq![sa, sb, sc], 1);
        lemma_table_longer_than_part(seq![sa, sb, sc], 2);
    }
    match (a, b, c) {
        (Some(a), Some(b), Some(c)) => {
            let mut parts: Vec<Vec<u8>> = Vec::new();
            parts.push(a);
            parts.push(b);
            parts.push(c);
            assert(part_views(parts@) =~= seq![sa, sb, sc]);
            encode_table(&parts)
        },
        _ => None,
    }
}

/// Encodes a name.
pub fn encode_string(s: &str) -> (r: Option<Vec<u8>>)
    ensures
        encodes(r, string_bytes(s@)),
{
    let data = s.as_bytes();
    proof {
        lemma_le_bytes_len(data@.len(), 4);
    }
    if data.len() > MAX_NUMBER - 4 {
        return None;
    }
    encode_byte_vector(data)
}

/// Encodes a 64-bit number.
pub fn encode_count(n: usize) -> (r: Option<Vec<u8>>)
    ensures
        encodes(r, uint64_bytes(n)),
{
    proof {
        lemma_le_bytes_len(n as nat, 8);
    }
    Some(encode_uint64(n as u64))
}

/// Encodes a field.
pub fn encode_field_pair(field: &FieldDecl) -> (r: Option<Vec<u8>>)
    ensures
        encodes(r, field_pair_bytes(field@)),
{
    let name = encode_string(field.name.as_str());
    let typ = encode_string(field.typ.as_str());
    record2(name, typ, Ghost(string_bytes(field@.name)), Ghost(string_bytes(field@.typ)))
}

/// Encodes a union member.
pub fn encode_union_pair(item: &UnionItemDecl) -> (r: Option<Vec<u8>>)
    ensures
        encodes(r, union_pair_bytes(item@)),
{
    let typ = encode_string(item.typ.as_str());
    let id = encode_count(item.id);
    record2(typ, id, Ghost(string_bytes(item@.typ)), Ghost(uint64_bytes(item@.id)))
}

/// Encodes a list of fields.
pub fn encode_field_pairs(fields: &Vec<FieldDecl>) -> (r: Option<Vec<u8>>)
    ensures
        encodes(r, field_pair_vec_bytes(field_views(fields@))),
{
    let ghost views = field_views(fields@);
    let ghost specs = Seq::new(views.len(), |i: int| field_pair_bytes(views[i]));
    let mut parts: Vec<Vec<u8>> = Vec::new();
    let mut i: usize = 0;
    while i < fields.len()
        invariant
            i <= fields.len(),
            views == field_views(fields@),
            specs == Seq::new(views.len(), |i: int| field_pair_bytes(views[i])),
            parts.len() == i,
            forall|k: int| 0 <= k < i ==> (#[trigger] parts[k])@ == specs[k],
        decreases fields.len() - i,
    {
        match encode_field_pair(&fields[i]) {
            Some(part) => {
                parts.push(part);
            },
            None => {
                proof {
                    lemma_table_longer_than_part(specs, i as int);
                }
                return None;
            },
        }
        i += 1;
    }
    assert(part_views(parts@) =~= specs);
    encode_table(&parts)
}

/// Encodes a list of union members.
pub fn encode_union_pairs(items: &Vec<UnionItemDecl>) -> (r: Option<Vec<u8>>)
    ensures
        encodes(r, union_pair_vec_bytes(union_item_views(items@))),
{
    let ghost views = union_item_views(items@);
    let ghost specs = Seq::new(views.len(), |i: int| union_pair_bytes(views[i]));
    let mut parts: Vec<Vec<u8>> = Vec::new();
    let mut i: usize = 0;
    while i < items.len()
        invariant
            i <= items.len(),
            views == union_item_views(items@),
            specs == Seq::new(views.len(), |i: int| union_pair_bytes(views[i])),
            parts.len() == i,
            forall|k: int| 0 <= k < i ==> (#[trigger] parts[k])@ == specs[k],
        decreases items.len() - i,
    {
        match encode_union_pair(&items[i]) {
            Some(part) => {
                parts.push(part);
            },
            None => {
                proof {
                    lemma_table_longer_than_part(specs, i as int);
                }
                return None;
            },
        }
        i += 1;
    }
    assert(part_views(parts@) =~= specs);
    encode_table(&parts)
}

/// Encodes what an option or vector declaration holds.
pub fn encode_item_definition(name: &str, item: &str) -> (r: Option<Vec<u8>>)
    ensures
        encodes(r, item_definition_bytes(name@, item@)),
{
    let name_part = encode_string(name);
    let item_part = encode_string(item);
    record2(name_part, item_part, Ghost(string_bytes(name@)), Ghost(string_bytes(item@)))
}

/// Encodes what an array declaration holds.
pub fn encode_array_definition(name: &str, item: &str, item_count: usize) -> (r: Option<Vec<u8>>)
    ensures
        encodes(r, array_definition_bytes(name@, item@, item_count)),
{
    let name_part = encode_string(name);
    let item_part = encode_string(item);
    let count_part = encode_count(item_count);
    record3(
        name_part,
        item_part,
        count_part,
        Ghost(string_bytes(name@)),
        Ghost(string_bytes(item@)),
        Ghost(uint64_bytes(item_count)),
    )
}

/// Encodes what a union declaration holds.
pub fn encode_union_definition(name: &str, items: &Vec<UnionItemDecl>) -> (r: Option<Vec<u8>>)
    ensures
        encodes(r, union_definition_bytes(name@, union_item_views(items@))),
{
    let name_part = encode_string(name);
    let items_part = encode_union_pairs(items);
    record2(
        name_part,
        items_part,
        Ghost(string_bytes(name@)),
        Ghost(union_pair_vec_bytes(union_item_views(items@))),
    )
}

/// Encodes what a struct or table declaration holds.
pub fn encode_fields_definition(name: &str, fields: &Vec<FieldDecl>) -> (r: Option<Vec<u8>>)
    ensures
        encodes(r, fields_definition_bytes(name@, field_views(fields@))),
{
    let name_part = encode_string(name);
    let fields_part = encode_field_pairs(fields);
    record2(
        name_part,
        fields_part,
        Ghost(string_bytes(name@)),
        Ghost(field_pair_vec_bytes(field_views(fields@))),
    )
}

/// Encodes a declaration: the tag of its kind, then what it holds.
pub fn encode_definition(decl: &TopDecl) -> (r: Option<Vec<u8>>)
    ensures
        encodes(r, definition_bytes(decl@)),
{
    let (tag, body): (u32, Option<Vec<u8>>) = match decl {
        TopDecl::Option_ { name, item, .. } => (
            0,
            encode_item_definition(name.as_str(), item.as_str()),
        ),
        TopDecl::Union { name, items, .. } => (1, encode_union_definition(name.as_str(), items)),
        TopDecl::Array { name, item, item_count, .. } => (
            2,
            encode_array_definition(name.as_str(), item.as_str(), *item_count),
        ),
        TopDecl::Struct { name, fields, .. } => (
            3,
            encode_fields_definition(name.as_str(), fields),
        ),
        TopDecl::FixVec { name, item, .. } => (
            4,
            encode_item_definition(name.as_str(), item.as_str()),
        ),
        TopDecl::DynVec { name, item, .. } => (
            5,
            encode_item_definition(name.as_str(), item.as_str()),
        ),
        TopDecl::Table { name, fields, .. } => (
            6,
            encode_fields_definition(name.as_str(), fields),
        ),
    };
    proof {
        lemma_le_bytes_len(tag as nat, 4);
    }
    match body {
        None => None,
        Some(body) => {
            if body.len() > MAX_NUMBER - 4 {
                return None;
            }
            let mut bytes: Vec<u8> = Vec::new();
            push_number(&mut bytes, tag);
            push_bytes(&mut bytes, body.as_slice());
            Some(bytes)
        },
    }
}

/// Encodes a list of declarations, in the order given.
pub fn encode_definitions(decls: &Vec<TopDecl>) -> (r: Option<Vec<u8>>)
    ensures
        encodes(r, definition_vec_bytes(decl_views(decls@))),
{
    let ghost views = decl_views(decls@);
    let ghost specs = Seq::new(views.len(), |i: int| definition_bytes(views[i]));
    let mut parts: Vec<Vec<u8>> = Vec::new();
    let mut i: usize = 0;
    while i < decls.len()
        invariant
            i <= decls.len(),
            views == decl_views(decls@),
            specs == Seq::new(views.len(), |i: int| definition_bytes(views[i])),
            parts.len() == i,
            forall|k: int| 0 <= k < i ==> (#[trigger] parts[k])@ == specs[k],
        decreases decls.len() - i,
    {
        match encode_definition(&decls[i]) {
            Some(part) => {
                parts.push(part);
            },
            None => {
                proof {
                    lemma_table_longer_than_part(specs, i as int);
                }
                return None;
            },
        }
        i += 1;
    }
    assert(part_views(parts@) =~= specs);
    encode_table(&parts)
}

/// The artifact: the syntax version, the top-level type's name, and the
/// declarations in the order given, in one table.
///
/// Returns `None` where the artifact would be longer than `MAX_NUMBER`
/// bytes, and the artifact on every other input.
pub fn build_compact_definitions(
    syntax_version: usize,
    top_level_type: &str,
    top_decls: &Vec<TopDecl>,
) -> (r: Option<Vec<u8>>)
    ensures
        encodes(r, definitions_bytes(syntax_version, top_level_type@, decl_views(top_decls@))),
{
    let version_part = encode_count(syntax_version);
    let name_part = encode_string(top_level_type);
    let decls_part = encode_definitions(top_decls);
    record3(
        version_part,
        name_part,
        decls_part,
        Ghost(uint64_bytes(syntax_version)),
        Ghost(string_bytes(top_level_type@)),
        Ghost(definition_vec_bytes(decl_views(top_decls@))),
    )
}

} // verus!
