use rasn_compiler::intermediate::integers::BigInteger;
use rasn_compiler::intermediate::information_object::{FieldKind, InformationObjectClassField};
use rasn_compiler::intermediate::toplevel::{
    ToplevelDefinition, ToplevelTypeDefinition, ToplevelValueDefinition,
};
use rasn_compiler::intermediate::types::{
    ASN1Type, DistinguishedValue, Enumerated, Enumeral, Integer, ObjectFieldIdentifier,
};
use rasn_compiler::intermediate::values::ASN1Value;
use rasn_compiler::validator::index::ReferenceIndex;
use rasn_compiler::validator::linking::utils::{
    find_tld_or_enum_value_by_name, walk_object_field_ref_path,
};

fn type_definition(name: &str, ty: ASN1Type) -> ToplevelDefinition {
    ToplevelDefinition::Type(ToplevelTypeDefinition {
        name: name.to_string(),
        tag: None,
        ty,
        supertypes: vec![],
        index: None,
    })
}

fn value_definition(name: &str, value: ASN1Value) -> ToplevelDefinition {
    ToplevelDefinition::Value(ToplevelValueDefinition {
        name: name.to_string(),
        associated_type: "INTEGER".to_string(),
        value,
        supertypes: vec![],
        index: None,
    })
}

fn enumerated(items: &[(&str, i128)]) -> ASN1Type {
    ASN1Type::Enumerated(Enumerated {
        members: items.iter().map(|(n, i)| Enumeral { name: n.to_string(), index: BigInteger::from_i128(*i) }).collect(),
        extensible: None,
        constraints: vec![],
    })
}

fn index_of(tlds: Vec<ToplevelDefinition>) -> ReferenceIndex {
    let mut index = ReferenceIndex::new();
    for tld in tlds {
        index.insert(tld);
    }
    index
}

fn single(name: &str) -> ObjectFieldIdentifier {
    ObjectFieldIdentifier::SingleValue(name.to_string())
}

fn multiple(name: &str) -> ObjectFieldIdentifier {
    ObjectFieldIdentifier::MultipleValue(name.to_string())
}

fn field(identifier: ObjectFieldIdentifier, ty: Option<ASN1Type>, fields: Vec<InformationObjectClassField>) -> InformationObjectClassField {
    InformationObjectClassField {
        identifier,
        kind: if fields.is_empty() { FieldKind::FixedType } else { FieldKind::Object },
        ty,
        is_optional: false,
        default: None,
        is_unique: false,
        fields,
    }
}

#[test]
fn a_value_definition_is_found_first() {
    let index = index_of(vec![
        value_definition("max", ASN1Value::Integer(BigInteger::from_i128(5))),
        type_definition("Kind", enumerated(&[("max", 9)])),
    ]);
    let found = find_tld_or_enum_value_by_name(&"Kind".to_string(), &"max".to_string(), &index);
    assert_eq!(found, Some(ASN1Value::Integer(BigInteger::from_i128(5))));
}

#[test]
fn an_enumeration_item_of_the_expected_type_is_found() {
    let index = index_of(vec![
        type_definition("Alarm", enumerated(&[("on", 7), ("off", 8)])),
        type_definition("Switch", enumerated(&[("on", 1), ("off", 0)])),
    ]);
    let found = find_tld_or_enum_value_by_name(&"Switch".to_string(), &"on".to_string(), &index);
    assert_eq!(found, Some(ASN1Value::Integer(BigInteger::from_i128(1))));
}

#[test]
fn without_a_type_of_that_name_the_first_item_in_index_order_is_found() {
    let index = index_of(vec![
        type_definition("Switch", enumerated(&[("on", 1), ("off", 0)])),
        type_definition("Alarm", enumerated(&[("on", 7), ("off", 8)])),
    ]);
    let found = find_tld_or_enum_value_by_name(&"Inner".to_string(), &"on".to_string(), &index);
    assert_eq!(found, Some(ASN1Value::Integer(BigInteger::from_i128(7))));
}

#[test]
fn a_distinguished_value_is_found() {
    let index = index_of(vec![type_definition(
        "Level",
        ASN1Type::Integer(Integer {
            constraints: vec![],
            distinguished_values: vec![
                DistinguishedValue { name: "low".to_string(), value: BigInteger::from_i128(-1) },
                DistinguishedValue { name: "high".to_string(), value: BigInteger::from_i128(100) },
            ],
        }),
    )]);
    let found = find_tld_or_enum_value_by_name(&"Level".to_string(), &"high".to_string(), &index);
    assert_eq!(found, Some(ASN1Value::Integer(BigInteger::from_i128(100))));
}

#[test]
fn a_name_that_nothing_declares_is_not_found() {
    let index = index_of(vec![
        type_definition("Switch", enumerated(&[("on", 1)])),
        type_definition("Flag", ASN1Type::Boolean),
    ]);
    assert_eq!(find_tld_or_enum_value_by_name(&"Switch".to_string(), &"off".to_string(), &index), None);
    assert_eq!(
        find_tld_or_enum_value_by_name(&"Switch".to_string(), &"off".to_string(), &ReferenceIndex::new()),
        None
    );
}

#[test]
fn a_type_definition_of_the_name_is_no_value() {
    let index = index_of(vec![type_definition("on", ASN1Type::Boolean)]);
    assert_eq!(find_tld_or_enum_value_by_name(&"Switch".to_string(), &"on".to_string(), &index), None);
}

#[test]
fn get_distinguished_or_enum_value_asks_the_named_type_only() {
    let switch = type_definition("Switch", enumerated(&[("on", 1), ("off", 0)]));
    let on = "on".to_string();
    assert_eq!(switch.get_distinguished_or_enum_value(None, &on), Some(ASN1Value::Integer(BigInteger::from_i128(1))));
    assert_eq!(
        switch.get_distinguished_or_enum_value(Some(&"Switch".to_string()), &on),
        Some(ASN1Value::Integer(BigInteger::from_i128(1)))
    );
    assert_eq!(switch.get_distinguished_or_enum_value(Some(&"Other".to_string()), &on), None);
    assert_eq!(switch.get_distinguished_or_enum_value(None, &"dim".to_string()), None);
    assert_eq!(value_definition("on", ASN1Value::Integer(BigInteger::from_i128(3))).get_distinguished_or_enum_value(None, &on), None);
}

#[test]
fn a_path_of_one_step_finds_the_field() {
    let fields = vec![
        field(single("id"), Some(ASN1Type::Boolean), vec![]),
        field(multiple("Type"), None, vec![]),
    ];
    let path = vec![multiple("Type")];
    assert_eq!(walk_object_field_ref_path(&fields, &path, 0), Some(&fields[1]));
}

#[test]
fn a_path_goes_on_in_the_fields_below() {
    let inner = field(single("code"), Some(ASN1Type::Null), vec![]);
    let fields = vec![
        field(single("code"), Some(ASN1Type::Boolean), vec![]),
        field(single("object"), None, vec![field(single("other"), None, vec![]), inner]),
    ];
    let path = vec![single("object"), single("code")];
    let found = walk_object_field_ref_path(&fields, &path, 0).unwrap();
    assert_eq!(found.ty, Some(ASN1Type::Null));
}

#[test]
fn a_path_with_a_step_that_matches_nothing_finds_nothing() {
    let fields = vec![field(single("object"), None, vec![field(single("code"), None, vec![])])];
    assert_eq!(walk_object_field_ref_path(&fields, &vec![single("missing")], 0), None);
    assert_eq!(walk_object_field_ref_path(&fields, &vec![single("object"), single("missing")], 0), None);
    assert_eq!(walk_object_field_ref_path(&fields, &vec![multiple("object")], 0), None);
}

#[test]
fn the_first_field_of_an_identifier_decides() {
    let fields = vec![
        field(single("object"), None, vec![field(single("a"), None, vec![])]),
        field(single("object"), None, vec![field(single("b"), None, vec![])]),
    ];
    assert_eq!(walk_object_field_ref_path(&fields, &vec![single("object"), single("b")], 0), None);
    assert!(walk_object_field_ref_path(&fields, &vec![single("object"), single("a")], 0).is_some());
}

#[test]
fn an_empty_path_or_a_start_behind_its_end_finds_nothing() {
    let fields = vec![field(single("id"), None, vec![])];
    assert_eq!(walk_object_field_ref_path(&fields, &vec![], 0), None);
    assert_eq!(walk_object_field_ref_path(&fields, &vec![single("id")], 1), None);
    assert_eq!(walk_object_field_ref_path(&fields, &vec![single("x"), single("id")], 1), Some(&fields[0]));
}
