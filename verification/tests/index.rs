use rasn_compiler::intermediate::integers::BigInteger;
use rasn_compiler::intermediate::toplevel::{
    ToplevelDefinition, ToplevelTypeDefinition, ToplevelValueDefinition,
};
use rasn_compiler::intermediate::types::ASN1Type;
use rasn_compiler::intermediate::values::ASN1Value;
use rasn_compiler::order::Order;
use rasn_compiler::validator::index::{compare_names, same_name, ReferenceIndex};

fn type_definition(name: &str, ty: ASN1Type) -> ToplevelDefinition {
    ToplevelDefinition::Type(ToplevelTypeDefinition {
        name: name.to_string(),
        tag: None,
        ty,
        supertypes: vec![],
        index: None,
    })
}

fn value_definition(name: &str, value: ASN1Value) -> ToplevelDefinition {
    ToplevelDefinition::Value(ToplevelValueDefinition {
        name: name.to_string(),
        associated_type: "INTEGER".to_string(),
        value,
        supertypes: vec![],
        index: None,
    })
}

fn names(index: &ReferenceIndex) -> Vec<String> {
    (0..index.len()).map(|i| index.entry(i).name().clone()).collect()
}

#[test]
fn names_compare_octet_by_octet() {
    assert_eq!(compare_names("Alpha", "Beta"), Order::Less);
    assert_eq!(compare_names("Beta", "Alpha"), Order::Greater);
    assert_eq!(compare_names("Alpha", "Alpha"), Order::Equal);
    assert_eq!(compare_names("", ""), Order::Equal);
}

#[test]
fn a_prefix_is_the_smaller_name() {
    assert_eq!(compare_names("Msg", "MsgType"), Order::Less);
    assert_eq!(compare_names("MsgType", "Msg"), Order::Greater);
    assert_eq!(compare_names("", "A"), Order::Less);
}

#[test]
fn upper_case_sorts_before_lower_case() {
    assert_eq!(compare_names("Zeta", "alpha"), Order::Less);
    assert_eq!(compare_names("a-b", "aB"), Order::Less);
}

#[test]
fn names_compare_as_strings_do() {
    let samples = ["", "A", "a", "Ab", "B", "\u{e9}t\u{e9}", "z", "\u{4e2d}", "Zz", "a-1", "a1"];
    for a in samples {
        for b in samples {
            let expected = match a.cmp(b) {
                std::cmp::Ordering::Less => Order::Less,
                std::cmp::Ordering::Equal => Order::Equal,
                std::cmp::Ordering::Greater => Order::Greater,
            };
            assert_eq!(compare_names(a, b), expected);
            assert_eq!(same_name(a, b), a == b);
        }
    }
}

#[test]
fn new_index_is_empty() {
    let index = ReferenceIndex::new();
    assert_eq!(index.len(), 0);
    assert!(index.get("A").is_none());
    assert_eq!(index.position("A"), None);
}

#[test]
fn inserted_definitions_stand_in_name_order() {
    let mut index = ReferenceIndex::new();
    for name in ["Mid", "Zeta", "Alpha", "Beta"] {
        assert!(index.insert(type_definition(name, ASN1Type::Boolean)).is_none());
    }
    assert_eq!(names(&index), vec!["Alpha", "Beta", "Mid", "Zeta"]);
    assert_eq!(index.position("Alpha"), Some(0));
    assert_eq!(index.position("Zeta"), Some(3));
    assert_eq!(index.position("Gamma"), None);
}

#[test]
fn insert_displaces_a_definition_of_the_same_name() {
    let mut index = ReferenceIndex::new();
    index.insert(type_definition("A", ASN1Type::Boolean));
    index.insert(type_definition("B", ASN1Type::Boolean));
    let displaced = index.insert(value_definition("A", ASN1Value::Integer(BigInteger::from_i128(7))));
    assert_eq!(displaced, Some(type_definition("A", ASN1Type::Boolean)));
    assert_eq!(index.len(), 2);
    assert_eq!(index.get("A"), Some(&value_definition("A", ASN1Value::Integer(BigInteger::from_i128(7)))));
    assert_eq!(names(&index), vec!["A", "B"]);
}

#[test]
fn remove_hands_out_the_definition() {
    let mut index = ReferenceIndex::new();
    index.insert(type_definition("A", ASN1Type::Boolean));
    index.insert(type_definition("B", ASN1Type::Null));
    index.insert(type_definition("C", ASN1Type::Boolean));
    assert_eq!(index.remove("B"), Some(type_definition("B", ASN1Type::Null)));
    assert_eq!(index.remove("B"), None);
    assert_eq!(names(&index), vec!["A", "C"]);
    assert!(index.get("B").is_none());
    assert_eq!(index.get("C"), Some(&type_definition("C", ASN1Type::Boolean)));
}

#[test]
fn remove_and_reinsert_keeps_the_position() {
    let mut index = ReferenceIndex::new();
    for name in ["A", "B", "C"] {
        index.insert(type_definition(name, ASN1Type::Boolean));
    }
    let taken = index.remove_at(1);
    assert_eq!(taken.name(), "B");
    assert_eq!(names(&index), vec!["A", "C"]);
    index.insert_at(1, type_definition("B", ASN1Type::Null));
    assert_eq!(names(&index), vec!["A", "B", "C"]);
    assert_eq!(index.entry(1), &type_definition("B", ASN1Type::Null));
}

#[test]
fn into_entries_hands_out_all_in_order() {
    let mut index = ReferenceIndex::new();
    for name in ["b", "a", "C"] {
        index.insert(type_definition(name, ASN1Type::Boolean));
    }
    let entries = index.into_entries();
    let names: Vec<&str> = entries.iter().map(|t| t.name().as_str()).collect();
    assert_eq!(names, vec!["C", "a", "b"]);
}
