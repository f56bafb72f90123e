use molecule_schema_compacter::ir::TopDecl;
use molecule_schema_compacter::name_set::NameSet;
use molecule_schema_compacter::namespace::Namespace;
use molecule_schema_compacter::order::{bytes_equal, bytes_less_than, name_equal, name_less_than};

fn fixvec(name: &str, item: &str) -> TopDecl {
    TopDecl::FixVec { name: String::from(name), item: String::from(item), imported_depth: 0 }
}

#[test]
fn names_are_ordered_by_their_bytes() {
    assert!(name_less_than("Bar", "Foo"));
    assert!(!name_less_than("Foo", "Bar"));
    assert!(name_less_than("Foo", "Foo2"));
    assert!(!name_less_than("Foo2", "Foo"));
    assert!(name_less_than("", "a"));
    assert!(!name_less_than("", ""));
    assert!(!name_less_than("Foo", "Foo"));
    assert!(name_less_than("Z", "a"));
    assert!(name_less_than("a10", "a9"));
}

#[test]
fn name_order_agrees_with_the_standard_order_of_strings() {
    let names = ["", "A", "B", "Ab", "a", "ab", "abc", "b", "\u{e9}", "z\u{1f600}", "\u{10000}"];
    for a in names {
        for b in names {
            assert_eq!(name_less_than(a, b), a < b, "{:?} < {:?}", a, b);
            assert_eq!(name_equal(a, b), a == b, "{:?} == {:?}", a, b);
        }
    }
}

#[test]
fn byte_strings_are_ordered_lexicographically() {
    assert!(bytes_less_than(&[1, 2], &[1, 3]));
    assert!(bytes_less_than(&[1, 2], &[1, 2, 0]));
    assert!(!bytes_less_than(&[1, 2, 0], &[1, 2]));
    assert!(bytes_less_than(&[], &[0]));
    assert!(!bytes_less_than(&[255], &[0, 255]));
    assert!(bytes_equal(&[1, 2, 3], &[1, 2, 3]));
    assert!(!bytes_equal(&[1, 2, 3], &[1, 2]));
    assert!(!bytes_equal(&[1, 2, 3], &[1, 2, 4]));
    assert!(bytes_equal(&[], &[]));
}

#[test]
fn an_empty_namespace_holds_nothing() {
    let ns = Namespace::new();
    assert_eq!(ns.len(), 0);
    assert!(ns.get("Foo").is_none());
    assert!(!ns.contains_key("Foo"));
    assert!(ns.decls().is_empty());
}

#[test]
fn a_namespace_files_declarations_under_their_names() {
    let mut ns = Namespace::new();
    ns.insert(fixvec("Bytes", "byte"));
    ns.insert(fixvec("Words", "Word"));
    assert_eq!(ns.len(), 2);
    assert!(ns.contains_key("Bytes"));
    assert!(ns.contains_key("Words"));
    assert!(!ns.contains_key("bytes"));
    assert_eq!(ns.get("Words"), Some(&fixvec("Words", "Word")));
    assert_eq!(ns.get("Other"), None);
}

#[test]
fn a_later_declaration_takes_the_place_of_an_earlier_one() {
    let mut ns = Namespace::new();
    ns.insert(fixvec("A", "byte"));
    ns.insert(fixvec("B", "byte"));
    ns.insert(fixvec("A", "B"));
    assert_eq!(ns.len(), 2);
    assert_eq!(ns.get("A"), Some(&fixvec("A", "B")));
    assert_eq!(ns.get("B"), Some(&fixvec("B", "byte")));
    assert_eq!(ns.decls(), &vec![fixvec("A", "B"), fixvec("B", "byte")]);
}

#[test]
fn a_name_set_holds_each_name_once() {
    let mut set = NameSet::new();
    assert_eq!(set.len(), 0);
    assert!(!set.contains("a"));
    assert!(set.insert(String::from("a")));
    assert!(set.insert(String::from("b")));
    assert!(!set.insert(String::from("a")));
    assert_eq!(set.len(), 2);
    assert!(set.contains("a"));
    assert!(set.contains("b"));
    assert!(!set.contains("c"));
    assert_eq!(set.names(), &vec![String::from("a"), String::from("b")]);
}
