use molecule_schema_compacter::encode::{
    build_compact_definitions, encode_array_definition, encode_count, encode_definition,
    encode_definitions, encode_field_pair, encode_field_pairs, encode_fields_definition,
    encode_item_definition, encode_string, encode_union_definition, encode_union_pair,
    encode_union_pairs,
};
use molecule_schema_compacter::ir::{FieldDecl, TopDecl, UnionItemDecl};
use molecule_schema_compacter::wire::{
    encode_byte_vector, encode_table, encode_uint64, push_bytes, push_number, MAX_NUMBER,
};

fn s(text: &str) -> String {
    String::from(text)
}

fn number(n: usize) -> Vec<u8> {
    (n as u32).to_le_bytes().to_vec()
}

fn string(text: &str) -> Vec<u8> {
    let mut out = number(text.len());
    out.extend_from_slice(text.as_bytes());
    out
}

fn uint64(n: u64) -> Vec<u8> {
    n.to_le_bytes().to_vec()
}

fn table(parts: &[Vec<u8>]) -> Vec<u8> {
    let header = 4 * (parts.len() + 1);
    let total: usize = header + parts.iter().map(Vec::len).sum::<usize>();
    let mut out = number(total);
    let mut offset = header;
    for part in parts {
        out.extend(number(offset));
        offset += part.len();
    }
    for part in parts {
        out.extend_from_slice(part);
    }
    out
}

fn tagged(tag: usize, body: Vec<u8>) -> Vec<u8> {
    let mut out = number(tag);
    out.extend(body);
    out
}

fn field(name: &str, typ: &str) -> FieldDecl {
    FieldDecl { name: s(name), typ: s(typ) }
}

#[test]
fn a_number_is_four_bytes_least_significant_first() {
    let mut out = vec![0xaa];
    push_number(&mut out, 0x0403_0201);
    assert_eq!(out, vec![0xaa, 0x01, 0x02, 0x03, 0x04]);
    push_number(&mut out, 0);
    push_number(&mut out, u32::MAX);
    assert_eq!(out[5..], [0, 0, 0, 0, 0xff, 0xff, 0xff, 0xff]);
}

#[test]
fn push_bytes_appends() {
    let mut out = vec![1, 2];
    push_bytes(&mut out, &[3, 4, 5]);
    push_bytes(&mut out, &[]);
    assert_eq!(out, vec![1, 2, 3, 4, 5]);
}

#[test]
fn a_uint64_is_eight_bytes_least_significant_first() {
    assert_eq!(encode_uint64(0), vec![0; 8]);
    assert_eq!(encode_uint64(1), vec![1, 0, 0, 0, 0, 0, 0, 0]);
    assert_eq!(encode_uint64(0x0807_0605_0403_0201), vec![1, 2, 3, 4, 5, 6, 7, 8]);
    assert_eq!(encode_uint64(u64::MAX), vec![0xff; 8]);
    assert_eq!(encode_uint64(256), vec![0, 1, 0, 0, 0, 0, 0, 0]);
}

#[test]
fn encode_count_is_a_uint64() {
    assert_eq!(encode_count(4), Some(vec![4, 0, 0, 0, 0, 0, 0, 0]));
    assert_eq!(encode_count(usize::MAX), Some(uint64(usize::MAX as u64)));
}

#[test]
fn a_byte_vector_is_its_count_and_its_bytes() {
    assert_eq!(encode_byte_vector(&[]), Some(vec![0, 0, 0, 0]));
    assert_eq!(encode_byte_vector(&[9, 8, 7]), Some(vec![3, 0, 0, 0, 9, 8, 7]));
}

#[test]
fn a_name_is_the_byte_vector_of_its_utf8_bytes() {
    assert_eq!(encode_string(""), Some(vec![0, 0, 0, 0]));
    assert_eq!(encode_string("Foo"), Some(vec![3, 0, 0, 0, 0x46, 0x6f, 0x6f]));
    assert_eq!(encode_string("\u{e9}"), Some(vec![2, 0, 0, 0, 0xc3, 0xa9]));
}

#[test]
fn a_table_is_its_size_its_offsets_and_its_parts() {
    assert_eq!(encode_table(&vec![]), Some(vec![4, 0, 0, 0]));
    assert_eq!(encode_table(&vec![vec![]]), Some(vec![8, 0, 0, 0, 8, 0, 0, 0]));
    assert_eq!(
        encode_table(&vec![vec![0xa1, 0xa2], vec![], vec![0xb1]]),
        Some(vec![
            19, 0, 0, 0, 16, 0, 0, 0, 18, 0, 0, 0, 18, 0, 0, 0, 0xa1, 0xa2, 0xb1
        ])
    );
}

#[test]
fn the_largest_size_is_that_of_32_bits() {
    assert_eq!(MAX_NUMBER as u64, u32::MAX as u64);
}

#[test]
fn a_field_is_a_table_of_its_name_and_type() {
    assert_eq!(
        encode_field_pair(&field("x", "byte")),
        Some(vec![
            25, 0, 0, 0, 12, 0, 0, 0, 17, 0, 0, 0, 1, 0, 0, 0, 0x78, 4, 0, 0, 0, 0x62, 0x79, 0x74,
            0x65
        ])
    );
}

#[test]
fn a_union_member_is_a_table_of_its_type_and_number() {
    let item = UnionItemDecl { typ: s("Foo"), id: 0x0102 };
    assert_eq!(
        encode_union_pair(&item),
        Some(vec![
            27, 0, 0, 0, 12, 0, 0, 0, 19, 0, 0, 0, 3, 0, 0, 0, 0x46, 0x6f, 0x6f, 2, 1, 0, 0, 0, 0,
            0, 0
        ])
    );
}

#[test]
fn lists_of_fields_and_members_are_tables_of_their_items() {
    assert_eq!(encode_field_pairs(&vec![]), Some(vec![4, 0, 0, 0]));
    assert_eq!(encode_union_pairs(&vec![]), Some(vec![4, 0, 0, 0]));
    let fields = vec![field("a", "A"), field("bb", "byte")];
    let parts: Vec<Vec<u8>> =
        fields.iter().map(|f| table(&[string(&f.name), string(&f.typ)])).collect();
    assert_eq!(encode_field_pairs(&fields), Some(table(&parts)));
    let items = vec![UnionItemDecl { typ: s("A"), id: 3 }, UnionItemDecl { typ: s("B"), id: 1 }];
    let parts: Vec<Vec<u8>> =
        items.iter().map(|i| table(&[string(&i.typ), uint64(i.id as u64)])).collect();
    assert_eq!(encode_union_pairs(&items), Some(table(&parts)));
}

#[test]
fn what_declarations_hold_is_encoded_field_by_field() {
    assert_eq!(
        encode_item_definition("Opt", "Foo"),
        Some(table(&[string("Opt"), string("Foo")]))
    );
    assert_eq!(
        encode_array_definition("Arr", "byte", 32),
        Some(table(&[string("Arr"), string("byte"), uint64(32)]))
    );
    let items = vec![UnionItemDecl { typ: s("A"), id: 5 }];
    assert_eq!(
        encode_union_definition("Uni", &items),
        Some(table(&[string("Uni"), table(&[table(&[string("A"), uint64(5)])])]))
    );
    let fields = vec![field("x", "byte")];
    assert_eq!(
        encode_fields_definition("Rec", &fields),
        Some(table(&[string("Rec"), table(&[table(&[string("x"), string("byte")])])]))
    );
}

#[test]
fn each_kind_of_declaration_has_its_tag() {
    let item = table(&[string("N"), string("I")]);
    let fields = table(&[string("N"), table(&[])]);
    let cases: Vec<(TopDecl, Vec<u8>)> = vec![
        (TopDecl::Option_ { name: s("N"), item: s("I"), imported_depth: 0 }, tagged(0, item.clone())),
        (
            TopDecl::Union { name: s("N"), items: vec![], imported_depth: 0 },
            tagged(1, table(&[string("N"), table(&[])])),
        ),
        (
            TopDecl::Array { name: s("N"), item: s("I"), item_count: 9, imported_depth: 0 },
            tagged(2, table(&[string("N"), string("I"), uint64(9)])),
        ),
        (TopDecl::Struct { name: s("N"), fields: vec![], imported_depth: 0 }, tagged(3, fields.clone())),
        (TopDecl::FixVec { name: s("N"), item: s("I"), imported_depth: 0 }, tagged(4, item.clone())),
        (TopDecl::DynVec { name: s("N"), item: s("I"), imported_depth: 0 }, tagged(5, item.clone())),
        (TopDecl::Table { name: s("N"), fields: vec![], imported_depth: 0 }, tagged(6, fields.clone())),
    ];
    for (decl, expected) in cases {
        assert_eq!(encode_definition(&decl), Some(expected), "{:?}", decl);
    }
}

#[test]
fn the_import_depth_is_not_encoded() {
    let near = TopDecl::FixVec { name: s("V"), item: s("byte"), imported_depth: 0 };
    let far = TopDecl::FixVec { name: s("V"), item: s("byte"), imported_depth: 3 };
    assert_eq!(encode_definition(&near), encode_definition(&far));
}

#[test]
fn a_table_declaration_is_encoded_byte_for_byte() {
    let decl = TopDecl::Table { name: s("Foo"), fields: vec![field("x", "byte")], imported_depth: 0 };
    assert_eq!(
        encode_definition(&decl),
        Some(vec![
            6, 0, 0, 0, // tag
            52, 0, 0, 0, 12, 0, 0, 0, 19, 0, 0, 0, // table of name and fields
            3, 0, 0, 0, 0x46, 0x6f, 0x6f, // "Foo"
            33, 0, 0, 0, 8, 0, 0, 0, // list of one field
            25, 0, 0, 0, 12, 0, 0, 0, 17, 0, 0, 0, // field
            1, 0, 0, 0, 0x78, // "x"
            4, 0, 0, 0, 0x62, 0x79, 0x74, 0x65, // "byte"
        ])
    );
}

#[test]
fn declarations_are_encoded_in_the_order_given() {
    let a = TopDecl::FixVec { name: s("A"), item: s("byte"), imported_depth: 0 };
    let b = TopDecl::DynVec { name: s("B"), item: s("A"), imported_depth: 0 };
    let ea = encode_definition(&a).unwrap();
    let eb = encode_definition(&b).unwrap();
    assert_eq!(encode_definitions(&vec![]), Some(vec![4, 0, 0, 0]));
    assert_eq!(encode_definitions(&vec![a.clone(), b.clone()]), Some(table(&[ea.clone(), eb.clone()])));
    assert_eq!(encode_definitions(&vec![b, a]), Some(table(&[eb, ea])));
}

#[test]
fn the_artifact_is_a_table_of_version_root_and_declarations() {
    assert_eq!(
        build_compact_definitions(1, "R", &vec![]),
        Some(vec![
            33, 0, 0, 0, 16, 0, 0, 0, 24, 0, 0, 0, 29, 0, 0, 0, // sizes
            1, 0, 0, 0, 0, 0, 0, 0, // version
            1, 0, 0, 0, 0x52, // "R"
            4, 0, 0, 0, // no declarations
        ])
    );
    let decl = TopDecl::Array { name: s("R"), item: s("byte"), item_count: 2, imported_depth: 0 };
    let encoded = encode_definition(&decl).unwrap();
    assert_eq!(
        build_compact_definitions(7, "R", &vec![decl]),
        Some(table(&[uint64(7), string("R"), table(&[encoded])]))
    );
}
