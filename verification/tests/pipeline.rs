use molecule_schema_compacter::error::CompactError;
use molecule_schema_compacter::ir::{decl_name, Document, FieldDecl, TopDecl};
use molecule_schema_compacter::merge::{
    insert_all, load_builtins, merge_document, merge_documents,
};
use molecule_schema_compacter::namespace::Namespace;
use molecule_schema_compacter::pipeline::{compact, compact_namespace, select_definitions};
use molecule_schema_compacter::EXPECTED_SYNTAX_VERSION;

fn s(text: &str) -> String {
    String::from(text)
}

fn table(name: &str, fields: &[(&str, &str)]) -> TopDecl {
    TopDecl::Table {
        name: s(name),
        fields: fields.iter().map(|(n, t)| FieldDecl { name: s(n), typ: s(t) }).collect(),
        imported_depth: 0,
    }
}

fn structure(name: &str, fields: &[(&str, &str)]) -> TopDecl {
    TopDecl::Struct {
        name: s(name),
        fields: fields.iter().map(|(n, t)| FieldDecl { name: s(n), typ: s(t) }).collect(),
        imported_depth: 0,
    }
}

fn array(name: &str, item: &str, item_count: usize) -> TopDecl {
    TopDecl::Array { name: s(name), item: s(item), item_count, imported_depth: 0 }
}

fn document(source: &str, decls: Vec<TopDecl>) -> Document {
    Document { source: s(source), syntax_version: 1, decls }
}

fn builtins() -> Document {
    document("builtins", vec![array("Uint32", "byte", 4), array("Byte32", "byte", 32)])
}

fn file_a() -> Document {
    document("a.json", vec![table("Foo", &[("x", "byte")]), structure("Bar", &[("y", "Foo")])])
}

fn file_b() -> Document {
    document("b.json", vec![array("Baz", "byte", 4)])
}

const FOO_BAR_ARTIFACT: [u8; 154] = [
    154, 0, 0, 0, 16, 0, 0, 0, 24, 0, 0, 0, 31, 0, 0, 0, // artifact: size and offsets
    1, 0, 0, 0, 0, 0, 0, 0, // syntax version
    3, 0, 0, 0, 0x42, 0x61, 0x72, // top-level type "Bar"
    123, 0, 0, 0, 12, 0, 0, 0, 67, 0, 0, 0, // two declarations
    3, 0, 0, 0, // Bar is a struct
    51, 0, 0, 0, 12, 0, 0, 0, 19, 0, 0, 0, // its name and fields
    3, 0, 0, 0, 0x42, 0x61, 0x72, // "Bar"
    32, 0, 0, 0, 8, 0, 0, 0, // one field
    24, 0, 0, 0, 12, 0, 0, 0, 17, 0, 0, 0, // the field
    1, 0, 0, 0, 0x79, // "y"
    3, 0, 0, 0, 0x46, 0x6f, 0x6f, // "Foo"
    6, 0, 0, 0, // Foo is a table
    52, 0, 0, 0, 12, 0, 0, 0, 19, 0, 0, 0, // its name and fields
    3, 0, 0, 0, 0x46, 0x6f, 0x6f, // "Foo"
    33, 0, 0, 0, 8, 0, 0, 0, // one field
    25, 0, 0, 0, 12, 0, 0, 0, 17, 0, 0, 0, // the field
    1, 0, 0, 0, 0x78, // "x"
    4, 0, 0, 0, 0x62, 0x79, 0x74, 0x65, // "byte"
];

#[test]
fn the_understood_syntax_version_is_one() {
    assert_eq!(EXPECTED_SYNTAX_VERSION, 1);
}

#[test]
fn two_files_are_compacted_to_what_the_root_needs() {
    let artifact = compact(&builtins(), &vec![file_a(), file_b()], &s("Bar"));
    assert_eq!(artifact, Ok(FOO_BAR_ARTIFACT.to_vec()));
}

#[test]
fn unneeded_declarations_are_left_out() {
    let mut ns = Namespace::new();
    insert_all(&mut ns, &file_a().decls);
    insert_all(&mut ns, &file_b().decls);
    let kept = select_definitions(&s("Bar"), &ns).unwrap();
    let names: Vec<String> = kept.iter().map(decl_name).collect();
    assert_eq!(names, vec![s("Bar"), s("Foo")]);
    assert_eq!(kept[1], table("Foo", &[("x", "byte")]));
    let alone = select_definitions(&s("Baz"), &ns).unwrap();
    assert_eq!(alone, vec![array("Baz", "byte", 4)]);
}

#[test]
fn the_order_of_the_files_does_not_change_the_artifact() {
    let forward = compact(&builtins(), &vec![file_a(), file_b()], &s("Bar"));
    let backward = compact(&builtins(), &vec![file_b(), file_a()], &s("Bar"));
    assert_eq!(forward, backward);
    assert_eq!(forward, compact(&builtins(), &vec![file_a(), file_b()], &s("Bar")));
}

#[test]
fn the_order_of_the_declarations_does_not_change_the_artifact() {
    let mut reversed = file_a();
    reversed.decls.reverse();
    assert_eq!(
        compact(&builtins(), &vec![reversed], &s("Bar")),
        Ok(FOO_BAR_ARTIFACT.to_vec())
    );
}

#[test]
fn a_missing_root_is_reported() {
    assert_eq!(
        compact(&builtins(), &vec![file_a(), file_b()], &s("Nope")),
        Err(CompactError::MissingTopLevelType { name: s("Nope") })
    );
}

#[test]
fn the_primitive_type_is_no_root() {
    assert_eq!(
        compact(&builtins(), &vec![file_a()], &s("byte")),
        Err(CompactError::MissingTopLevelType { name: s("byte") })
    );
}

#[test]
fn builtin_declarations_are_no_part_of_the_namespace() {
    assert_eq!(
        compact(&builtins(), &vec![file_a()], &s("Uint32")),
        Err(CompactError::MissingTopLevelType { name: s("Uint32") })
    );
}

#[test]
fn an_undeclared_reference_is_reported() {
    let doc = document("c.json", vec![table("Top", &[("a", "Absent")])]);
    assert_eq!(
        compact(&builtins(), &vec![doc], &s("Top")),
        Err(CompactError::UnresolvedReference { name: s("Absent"), referrer: s("Top") })
    );
}

#[test]
fn an_unneeded_undeclared_reference_does_no_harm() {
    let doc = document(
        "c.json",
        vec![table("Top", &[("a", "byte")]), table("Other", &[("a", "Absent")])],
    );
    assert!(compact(&builtins(), &vec![doc], &s("Top")).is_ok());
}

#[test]
fn a_builtin_document_of_another_version_is_rejected() {
    let mut base = builtins();
    base.syntax_version = 2;
    assert_eq!(
        load_builtins(&base).err(),
        Some(CompactError::VersionMismatch { source: s("builtins"), found: 2 })
    );
    assert_eq!(
        compact(&base, &vec![file_a()], &s("Bar")),
        Err(CompactError::VersionMismatch { source: s("builtins"), found: 2 })
    );
}

#[test]
fn load_builtins_files_the_builtin_declarations() {
    let ns = load_builtins(&builtins()).unwrap();
    assert_eq!(ns.len(), 2);
    assert_eq!(ns.get("Uint32"), Some(&array("Uint32", "byte", 4)));
    assert_eq!(ns.get("Byte32"), Some(&array("Byte32", "byte", 32)));
}

#[test]
fn an_input_of_another_version_is_rejected() {
    let mut old = file_b();
    old.syntax_version = 0;
    assert_eq!(
        compact(&builtins(), &vec![file_a(), old], &s("Bar")),
        Err(CompactError::VersionMismatch { source: s("b.json"), found: 0 })
    );
}

#[test]
fn the_version_is_looked_at_before_the_declarations() {
    let mut doc = document("d.json", vec![array("Uint32", "byte", 8)]);
    doc.syntax_version = 3;
    assert_eq!(
        compact(&builtins(), &vec![doc], &s("Uint32")),
        Err(CompactError::VersionMismatch { source: s("d.json"), found: 3 })
    );
}

#[test]
fn a_builtin_declared_again_as_it_is_merges() {
    let first = document("a.json", vec![array("Uint32", "byte", 4), table("T", &[("n", "Uint32")])]);
    let second = document("b.json", vec![array("Uint32", "byte", 4)]);
    let base = load_builtins(&builtins()).unwrap();
    let ns = merge_documents(&base, &vec![first, second]).unwrap();
    assert_eq!(ns.len(), 2);
    assert_eq!(ns.get("Uint32"), Some(&array("Uint32", "byte", 4)));
}

#[test]
fn a_builtin_declared_otherwise_is_a_conflict() {
    let doc = document("e.json", vec![table("T", &[("n", "Uint32")]), array("Uint32", "byte", 8)]);
    assert_eq!(
        compact(&builtins(), &vec![file_a(), doc], &s("T")),
        Err(CompactError::BuiltinConflict { name: s("Uint32"), source: s("e.json") })
    );
}

#[test]
fn a_builtin_of_another_kind_or_depth_is_a_conflict() {
    let kind = document(
        "k.json",
        vec![TopDecl::FixVec { name: s("Byte32"), item: s("byte"), imported_depth: 0 }],
    );
    let depth = document(
        "d.json",
        vec![TopDecl::Array {
            name: s("Byte32"),
            item: s("byte"),
            item_count: 32,
            imported_depth: 1,
        }],
    );
    assert_eq!(
        compact(&builtins(), &vec![kind], &s("Byte32")),
        Err(CompactError::BuiltinConflict { name: s("Byte32"), source: s("k.json") })
    );
    assert_eq!(
        compact(&builtins(), &vec![depth], &s("Byte32")),
        Err(CompactError::BuiltinConflict { name: s("Byte32"), source: s("d.json") })
    );
}

#[test]
fn the_first_conflict_of_the_first_rejected_file_is_reported() {
    let first = document(
        "1.json",
        vec![array("Byte32", "byte", 1), array("Uint32", "byte", 1)],
    );
    let second = document("2.json", vec![array("Uint32", "byte", 2)]);
    assert_eq!(
        compact(&builtins(), &vec![first, second], &s("Uint32")),
        Err(CompactError::BuiltinConflict { name: s("Byte32"), source: s("1.json") })
    );
}

#[test]
fn a_rejected_document_leaves_the_namespace_as_it_was() {
    let base = load_builtins(&builtins()).unwrap();
    let mut ns = Namespace::new();
    assert_eq!(merge_document(&mut ns, &base, &file_a()), Ok(()));
    let bad = document("bad.json", vec![table("New", &[]), array("Uint32", "byte", 8)]);
    assert_eq!(
        merge_document(&mut ns, &base, &bad),
        Err(CompactError::BuiltinConflict { name: s("Uint32"), source: s("bad.json") })
    );
    assert_eq!(ns.len(), 2);
    assert!(!ns.contains_key("New"));
    let mut old = file_b();
    old.syntax_version = 9;
    assert_eq!(
        merge_document(&mut ns, &base, &old),
        Err(CompactError::VersionMismatch { source: s("b.json"), found: 9 })
    );
    assert_eq!(ns.len(), 2);
}

#[test]
fn a_later_file_overwrites_an_earlier_declaration() {
    let first = document("1.json", vec![table("T", &[("a", "byte")])]);
    let second = document("2.json", vec![table("T", &[("b", "byte")])]);
    let base = load_builtins(&builtins()).unwrap();
    let ns = merge_documents(&base, &vec![first, second]).unwrap();
    assert_eq!(ns.len(), 1);
    assert_eq!(ns.get("T"), Some(&table("T", &[("b", "byte")])));
}

#[test]
fn no_documents_make_an_empty_namespace() {
    let base = load_builtins(&builtins()).unwrap();
    let ns = merge_documents(&base, &vec![]).unwrap();
    assert_eq!(ns.len(), 0);
    assert_eq!(
        compact(&builtins(), &vec![], &s("Any")),
        Err(CompactError::MissingTopLevelType { name: s("Any") })
    );
}

#[test]
fn a_cycle_is_compacted_with_each_declaration_once() {
    let doc = document(
        "cycle.json",
        vec![table("B", &[("a", "A")]), table("A", &[("b", "B")]), table("C", &[("a", "A")])],
    );
    let mut ns = Namespace::new();
    insert_all(&mut ns, &doc.decls);
    let kept = select_definitions(&s("A"), &ns).unwrap();
    assert_eq!(kept, vec![table("A", &[("b", "B")]), table("B", &[("a", "A")])]);
    assert_eq!(
        compact(&builtins(), &vec![doc], &s("A")),
        compact_namespace(&ns, &s("A"))
    );
}

#[test]
fn the_selected_declarations_are_in_strictly_ascending_order() {
    let doc = document(
        "order.json",
        vec![
            table("root", &[("a", "b"), ("b", "B"), ("c", "a"), ("d", "Ab"), ("e", "A")]),
            array("b", "byte", 1),
            array("B", "byte", 1),
            array("a", "byte", 1),
            array("Ab", "byte", 1),
            array("A", "byte", 1),
        ],
    );
    let mut ns = Namespace::new();
    insert_all(&mut ns, &doc.decls);
    let names: Vec<String> =
        select_definitions(&s("root"), &ns).unwrap().iter().map(decl_name).collect();
    assert_eq!(names, vec![s("A"), s("Ab"), s("B"), s("a"), s("b"), s("root")]);
    for pair in names.windows(2) {
        assert!(pair[0].as_bytes() < pair[1].as_bytes());
    }
}
