use molecule_schema_compacter::ir::{
    child_types, decl_name, same_decl, same_fields, same_union_items, FieldDecl, TopDecl,
    UnionItemDecl,
};

fn s(text: &str) -> String {
    String::from(text)
}

fn field(name: &str, typ: &str) -> FieldDecl {
    FieldDecl { name: s(name), typ: s(typ) }
}

fn member(typ: &str, id: usize) -> UnionItemDecl {
    UnionItemDecl { typ: s(typ), id }
}

fn one_of_each() -> Vec<TopDecl> {
    vec![
        TopDecl::Option_ { name: s("O"), item: s("A"), imported_depth: 0 },
        TopDecl::Union {
            name: s("U"),
            items: vec![member("A", 0), member("B", 7)],
            imported_depth: 0,
        },
        TopDecl::Array { name: s("Y"), item: s("byte"), item_count: 4, imported_depth: 0 },
        TopDecl::Struct {
            name: s("S"),
            fields: vec![field("a", "Y"), field("b", "byte")],
            imported_depth: 0,
        },
        TopDecl::FixVec { name: s("F"), item: s("byte"), imported_depth: 0 },
        TopDecl::DynVec { name: s("D"), item: s("F"), imported_depth: 0 },
        TopDecl::Table { name: s("T"), fields: vec![field("x", "D")], imported_depth: 0 },
    ]
}

#[test]
fn decl_name_returns_the_name_of_every_kind() {
    let names: Vec<String> = one_of_each().iter().map(decl_name).collect();
    assert_eq!(names, vec![s("O"), s("U"), s("Y"), s("S"), s("F"), s("D"), s("T")]);
}

#[test]
fn borrowed_name_agrees_with_decl_name() {
    for decl in one_of_each() {
        assert_eq!(decl.name(), &decl_name(&decl));
    }
}

#[test]
fn child_types_lists_references_in_order() {
    let decls = one_of_each();
    assert_eq!(child_types(&decls[0]), vec![s("A")]);
    assert_eq!(child_types(&decls[1]), vec![s("A"), s("B")]);
    assert_eq!(child_types(&decls[2]), vec![s("byte")]);
    assert_eq!(child_types(&decls[3]), vec![s("Y"), s("byte")]);
    assert_eq!(child_types(&decls[4]), vec![s("byte")]);
    assert_eq!(child_types(&decls[5]), vec![s("F")]);
    assert_eq!(child_types(&decls[6]), vec![s("D")]);
}

#[test]
fn child_types_of_an_empty_struct_is_empty() {
    let decl = TopDecl::Struct { name: s("E"), fields: vec![], imported_depth: 0 };
    assert!(child_types(&decl).is_empty());
}

#[test]
fn clone_keeps_every_kind() {
    for decl in one_of_each() {
        let copy = decl.clone();
        assert_eq!(copy, decl);
        assert!(same_decl(&copy, &decl));
    }
}

#[test]
fn same_decl_tells_kinds_apart() {
    let fixvec = TopDecl::FixVec { name: s("V"), item: s("byte"), imported_depth: 0 };
    let dynvec = TopDecl::DynVec { name: s("V"), item: s("byte"), imported_depth: 0 };
    let option = TopDecl::Option_ { name: s("V"), item: s("byte"), imported_depth: 0 };
    assert!(!same_decl(&fixvec, &dynvec));
    assert!(!same_decl(&fixvec, &option));
    assert!(!same_decl(&dynvec, &option));
    assert!(same_decl(&fixvec, &fixvec));
}

#[test]
fn same_decl_compares_every_part() {
    let base = TopDecl::Array { name: s("A"), item: s("byte"), item_count: 4, imported_depth: 0 };
    let other_name =
        TopDecl::Array { name: s("B"), item: s("byte"), item_count: 4, imported_depth: 0 };
    let other_item =
        TopDecl::Array { name: s("A"), item: s("Byte"), item_count: 4, imported_depth: 0 };
    let other_count =
        TopDecl::Array { name: s("A"), item: s("byte"), item_count: 5, imported_depth: 0 };
    let other_depth =
        TopDecl::Array { name: s("A"), item: s("byte"), item_count: 4, imported_depth: 1 };
    assert!(!same_decl(&base, &other_name));
    assert!(!same_decl(&base, &other_item));
    assert!(!same_decl(&base, &other_count));
    assert!(!same_decl(&base, &other_depth));
}

#[test]
fn same_fields_compares_length_names_and_types() {
    let a = vec![field("x", "byte"), field("y", "Foo")];
    assert!(same_fields(&a, &vec![field("x", "byte"), field("y", "Foo")]));
    assert!(!same_fields(&a, &vec![field("x", "byte")]));
    assert!(!same_fields(&a, &vec![field("x", "byte"), field("z", "Foo")]));
    assert!(!same_fields(&a, &vec![field("x", "byte"), field("y", "Bar")]));
    assert!(!same_fields(&a, &vec![field("y", "Foo"), field("x", "byte")]));
    assert!(same_fields(&vec![], &vec![]));
}

#[test]
fn same_union_items_compares_types_and_numbers() {
    let a = vec![member("A", 0), member("B", 1)];
    assert!(same_union_items(&a, &vec![member("A", 0), member("B", 1)]));
    assert!(!same_union_items(&a, &vec![member("A", 0), member("B", 2)]));
    assert!(!same_union_items(&a, &vec![member("A", 0), member("C", 1)]));
    assert!(!same_union_items(&a, &vec![member("A", 0)]));
}

#[test]
fn same_decl_of_tables_compares_fields() {
    let a = TopDecl::Table { name: s("T"), fields: vec![field("x", "byte")], imported_depth: 0 };
    let b = TopDecl::Table { name: s("T"), fields: vec![field("x", "Foo")], imported_depth: 0 };
    let c = TopDecl::Struct { name: s("T"), fields: vec![field("x", "byte")], imported_depth: 0 };
    assert!(!same_decl(&a, &b));
    assert!(!same_decl(&a, &c));
    assert!(same_decl(&a, &a.clone()));
}
