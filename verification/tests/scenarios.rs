use rasn_compiler::intermediate::integers::BigInteger;
use rasn_compiler::intermediate::constraints::{
    Constraint, ElementOrSetOperation, ElementSet, SubtypeElement,
};
use rasn_compiler::intermediate::toplevel::{
    ModuleReference, ToplevelDefinition, ToplevelTypeDefinition,
};
use rasn_compiler::intermediate::types::{
    ASN1Type, BitString, Choice, ChoiceOption, ChoiceSelectionType, DeclarationElsewhere,
    Enumerated, Enumeral, Integer, SequenceComponent, SequenceOrSet, SequenceOrSetMember,
};
use rasn_compiler::intermediate::values::ASN1Value;
use rasn_compiler::intermediate::TaggingEnvironment;
use rasn_compiler::modules::{group_by_module, index_modules};
use rasn_compiler::validator::error::ValidatorErrorType;
use rasn_compiler::validator::Validator;

fn module(name: &str) -> ModuleReference {
    ModuleReference { name: name.to_string(), tagging_environment: TaggingEnvironment::Automatic }
}

fn type_definition(name: &str, ty: ASN1Type) -> ToplevelDefinition {
    ToplevelDefinition::Type(ToplevelTypeDefinition {
        name: name.to_string(),
        tag: None,
        ty,
        supertypes: vec![],
        index: None,
    })
}

fn range(min: ASN1Value, max: ASN1Value) -> Constraint {
    Constraint::SubtypeConstraint(ElementSet {
        set: ElementOrSetOperation::Element(SubtypeElement::ValueRange {
            min: Some(min),
            max: Some(max),
            extensible: false,
        }),
        extensible: false,
    })
}

fn single(value: ASN1Value) -> Constraint {
    Constraint::SubtypeConstraint(ElementSet {
        set: ElementOrSetOperation::Element(SubtypeElement::SingleValue { value, extensible: false }),
        extensible: false,
    })
}

fn integer(constraints: Vec<Constraint>) -> ASN1Type {
    ASN1Type::Integer(Integer { constraints, distinguished_values: vec![] })
}

fn member(name: &str, ty: ASN1Type) -> SequenceComponent {
    SequenceComponent::Member(SequenceOrSetMember {
        name: name.to_string(),
        tag: None,
        ty,
        default_value: None,
        is_optional: false,
    })
}

fn sequence(members: Vec<SequenceComponent>) -> ASN1Type {
    ASN1Type::Sequence(SequenceOrSet { extensible: None, constraints: vec![], members })
}

fn option(name: &str, ty: ASN1Type) -> ChoiceOption {
    ChoiceOption { name: name.to_string(), tag: None, ty }
}

fn type_of(tld: &ToplevelDefinition) -> &ASN1Type {
    match tld {
        ToplevelDefinition::Type(t) => &t.ty,
        _ => panic!("not a type definition"),
    }
}

fn validate(tlds: Vec<ToplevelDefinition>) -> (Vec<ToplevelDefinition>, Vec<rasn_compiler::validator::error::ValidatorError>) {
    let placed = index_modules(vec![(module("Test"), tlds)]);
    Validator::new(placed).validate().unwrap()
}

#[test]
fn integer_range_is_accepted() {
    let a = type_definition("A", integer(vec![range(ASN1Value::Integer(BigInteger::from_i128(1)), ASN1Value::Integer(BigInteger::from_i128(128)))]));
    let (tlds, diagnostics) = validate(vec![a]);
    assert_eq!(tlds.len(), 1);
    assert_eq!(tlds[0].name(), "A");
    assert!(matches!(tlds[0], ToplevelDefinition::Type(_)));
    assert_eq!(
        type_of(&tlds[0]),
        &integer(vec![range(ASN1Value::Integer(BigInteger::from_i128(1)), ASN1Value::Integer(BigInteger::from_i128(128)))])
    );
    assert!(diagnostics.is_empty());
}

#[test]
fn inverted_integer_range_is_rejected() {
    let a = type_definition("A", integer(vec![range(ASN1Value::Integer(BigInteger::from_i128(128)), ASN1Value::Integer(BigInteger::from_i128(1)))]));
    let (tlds, diagnostics) = validate(vec![a]);
    assert!(tlds.is_empty());
    assert_eq!(diagnostics.len(), 1);
    assert_eq!(diagnostics[0].kind, ValidatorErrorType::InvalidConstraintsError);
    assert_eq!(diagnostics[0].data_element, Some("A".to_string()));
    assert_eq!(diagnostics[0].details, "Mininum value exceeds maximum value!");
}

#[test]
fn enumerated_cross_reference_is_resolved() {
    let colour = type_definition(
        "Colour",
        ASN1Type::Enumerated(Enumerated {
            members: vec![
                Enumeral { name: "red".to_string(), index: BigInteger::from_i128(0) },
                Enumeral { name: "green".to_string(), index: BigInteger::from_i128(1) },
                Enumeral { name: "blue".to_string(), index: BigInteger::from_i128(2) },
            ],
            extensible: None,
            constraints: vec![],
        }),
    );
    let favourite = type_definition(
        "Favourite",
        ASN1Type::ElsewhereDeclaredType(DeclarationElsewhere {
            identifier: "Colour".to_string(),
            constraints: vec![single(ASN1Value::NamedReference("green".to_string()))],
        }),
    );
    let (tlds, diagnostics) = validate(vec![colour, favourite]);
    assert!(diagnostics.is_empty());
    assert_eq!(tlds.len(), 2);
    assert_eq!(tlds[0].name(), "Colour");
    assert_eq!(tlds[1].name(), "Favourite");
    assert_eq!(
        type_of(&tlds[1]),
        &ASN1Type::ElsewhereDeclaredType(DeclarationElsewhere {
            identifier: "Colour".to_string(),
            constraints: vec![single(ASN1Value::Integer(BigInteger::from_i128(1)))],
        })
    );
    match &tlds[1] {
        ToplevelDefinition::Type(t) => assert_eq!(t.supertypes, vec!["Colour".to_string()]),
        _ => unreachable!(),
    }
}

#[test]
fn components_of_is_expanded_in_place() {
    let base = type_definition(
        "Base",
        sequence(vec![member("a", integer(vec![])), member("b", ASN1Type::Boolean)]),
    );
    let ext = type_definition(
        "Ext",
        sequence(vec![
            SequenceComponent::ComponentsOf("Base".to_string()),
            member("c", ASN1Type::BitString(BitString { constraints: vec![], distinguished_values: vec![] })),
        ]),
    );
    let (tlds, diagnostics) = validate(vec![base, ext]);
    assert!(diagnostics.is_empty());
    assert_eq!(tlds.len(), 2);
    assert_eq!(tlds[1].name(), "Ext");
    assert_eq!(
        type_of(&tlds[1]),
        &sequence(vec![
            member("a", integer(vec![])),
            member("b", ASN1Type::Boolean),
            member("c", ASN1Type::BitString(BitString { constraints: vec![], distinguished_values: vec![] })),
        ])
    );
}

#[test]
fn choice_selection_is_replaced_by_the_alternative() {
    let msg = type_definition(
        "Msg",
        ASN1Type::Choice(Choice {
            extensible: None,
            options: vec![option("ping", integer(vec![])), option("pong", ASN1Type::Boolean)],
            constraints: vec![],
        }),
    );
    let my_pong = type_definition(
        "MyPong",
        ASN1Type::ChoiceSelectionType(ChoiceSelectionType {
            choice_name: "Msg".to_string(),
            selected_option: "pong".to_string(),
        }),
    );
    let (tlds, diagnostics) = validate(vec![msg, my_pong]);
    assert!(diagnostics.is_empty());
    assert_eq!(tlds.len(), 2);
    assert_eq!(tlds[1].name(), "MyPong");
    assert_eq!(type_of(&tlds[1]), &ASN1Type::Boolean);
}

#[test]
fn choice_selection_of_a_missing_alternative_fails() {
    let msg = type_definition(
        "Msg",
        ASN1Type::Choice(Choice {
            extensible: None,
            options: vec![option("ping", integer(vec![]))],
            constraints: vec![],
        }),
    );
    let my_pong = type_definition(
        "MyPong",
        ASN1Type::ChoiceSelectionType(ChoiceSelectionType {
            choice_name: "Msg".to_string(),
            selected_option: "pong".to_string(),
        }),
    );
    let placed = index_modules(vec![(module("Test"), vec![msg, my_pong])]);
    let error = Validator::new(placed).validate().unwrap_err();
    assert_eq!(error.kind, ValidatorErrorType::MissingDependency);
    assert_eq!(error.data_element, Some("MyPong".to_string()));
}

#[test]
fn unresolved_constraint_value_gives_a_warning() {
    let a = type_definition(
        "A",
        integer(vec![range(ASN1Value::Integer(BigInteger::from_i128(1)), ASN1Value::NamedReference("undefinedMax".to_string()))]),
    );
    let (tlds, diagnostics) = validate(vec![a]);
    assert_eq!(tlds.len(), 1);
    assert_eq!(tlds[0].name(), "A");
    assert_eq!(
        type_of(&tlds[0]),
        &integer(vec![range(ASN1Value::Integer(BigInteger::from_i128(1)), ASN1Value::NamedReference("undefinedMax".to_string()))])
    );
    assert_eq!(diagnostics.len(), 1);
    assert_eq!(diagnostics[0].kind, ValidatorErrorType::MissingDependency);
    assert_eq!(diagnostics[0].data_element, Some("A".to_string()));
    assert_eq!(
        diagnostics[0].details,
        "Failed to link cross-reference to elsewhere defined value in constraint of A"
    );
}

#[test]
fn validated_definitions_are_grouped_by_module() {
    let first = vec![
        type_definition("Zeta", ASN1Type::Boolean),
        type_definition("Alpha", ASN1Type::Null),
    ];
    let second = vec![type_definition("Mid", ASN1Type::Boolean)];
    let placed = index_modules(vec![(module("Second"), first), (module("First"), second)]);
    let (tlds, diagnostics) = Validator::new(placed).validate().unwrap();
    assert!(diagnostics.is_empty());
    let names: Vec<&str> = tlds.iter().map(|t| t.name().as_str()).collect();
    assert_eq!(names, vec!["Alpha", "Mid", "Zeta"]);
    let groups = group_by_module(tlds);
    assert_eq!(groups.len(), 2);
    assert_eq!(groups[0].name, "First");
    assert_eq!(groups[1].name, "Second");
    let in_second: Vec<&str> = groups[1].definitions.iter().map(|t| t.name().as_str()).collect();
    assert_eq!(in_second, vec!["Zeta", "Alpha"]);
}
