use rasn_compiler::intermediate::integers::BigInteger;
use rasn_compiler::intermediate::constraints::{
    Constraint, ElementOrSetOperation, ElementSet, SubtypeElement,
};
use rasn_compiler::intermediate::information_object::{
    ASN1Information, ClassLink, InformationObject, InformationObjectClass,
};
use rasn_compiler::intermediate::toplevel::{
    ModuleReference, ToplevelDefinition, ToplevelInformationDefinition, ToplevelTypeDefinition,
    ToplevelValueDefinition,
};
use rasn_compiler::intermediate::types::{
    ASN1Type, Choice, ChoiceOption, ChoiceSelectionType, DeclarationElsewhere, Enumerated,
    Enumeral, Integer, SequenceComponent, SequenceOrSet, SequenceOrSetMember,
};
use rasn_compiler::intermediate::values::ASN1Value;
use rasn_compiler::intermediate::TaggingEnvironment;
use rasn_compiler::modules::index_modules;
use rasn_compiler::validator::error::{ValidatorError, ValidatorErrorType};
use rasn_compiler::validator::Validator;

fn type_definition(name: &str, ty: ASN1Type) -> ToplevelDefinition {
    ToplevelDefinition::Type(ToplevelTypeDefinition {
        name: name.to_string(),
        tag: None,
        ty,
        supertypes: vec![],
        index: None,
    })
}

fn value_definition(name: &str, value: ASN1Value) -> ToplevelDefinition {
    ToplevelDefinition::Value(ToplevelValueDefinition {
        name: name.to_string(),
        associated_type: "INTEGER".to_string(),
        value,
        supertypes: vec![],
        index: None,
    })
}

fn information(name: &str, class: Option<ClassLink>, value: ASN1Information) -> ToplevelDefinition {
    ToplevelDefinition::Information(ToplevelInformationDefinition {
        name: name.to_string(),
        class,
        value,
        index: None,
    })
}

fn range(min: ASN1Value, max: ASN1Value) -> Constraint {
    Constraint::SubtypeConstraint(ElementSet {
        set: ElementOrSetOperation::Element(SubtypeElement::ValueRange {
            min: Some(min),
            max: Some(max),
            extensible: false,
        }),
        extensible: false,
    })
}

fn integer(constraints: Vec<Constraint>) -> ASN1Type {
    ASN1Type::Integer(Integer { constraints, distinguished_values: vec![] })
}

fn member(name: &str, ty: ASN1Type) -> SequenceComponent {
    SequenceComponent::Member(SequenceOrSetMember {
        name: name.to_string(),
        tag: None,
        ty,
        default_value: None,
        is_optional: false,
    })
}

fn sequence(members: Vec<SequenceComponent>) -> ASN1Type {
    ASN1Type::Sequence(SequenceOrSet { extensible: None, constraints: vec![], members })
}

fn including(name: &str) -> ASN1Type {
    sequence(vec![SequenceComponent::ComponentsOf(name.to_string())])
}

fn copies(tlds: &[ToplevelDefinition]) -> Vec<ToplevelDefinition> {
    tlds.iter().map(|t| t.duplicate()).collect()
}

fn validate(tlds: Vec<ToplevelDefinition>) -> (Vec<ToplevelDefinition>, Vec<ValidatorError>) {
    Validator::new(tlds).validate().unwrap()
}

fn sample() -> Vec<ToplevelDefinition> {
    let placed = index_modules(vec![(
        ModuleReference { name: "Sample".to_string(), tagging_environment: TaggingEnvironment::Explicit },
        vec![
            type_definition(
                "Colour",
                ASN1Type::Enumerated(Enumerated {
                    members: vec![
                        Enumeral { name: "red".to_string(), index: BigInteger::from_i128(0) },
                        Enumeral { name: "green".to_string(), index: BigInteger::from_i128(1) },
                    ],
                    extensible: None,
                    constraints: vec![],
                }),
            ),
            type_definition(
                "Favourite",
                ASN1Type::ElsewhereDeclaredType(DeclarationElsewhere {
                    identifier: "Colour".to_string(),
                    constraints: vec![Constraint::SubtypeConstraint(ElementSet {
                        set: ElementOrSetOperation::Element(SubtypeElement::SingleValue {
                            value: ASN1Value::NamedReference("green".to_string()),
                            extensible: false,
                        }),
                        extensible: false,
                    })],
                }),
            ),
            type_definition("Base", sequence(vec![member("a", integer(vec![])), member("b", ASN1Type::Boolean)])),
            type_definition(
                "Ext",
                sequence(vec![SequenceComponent::ComponentsOf("Base".to_string()), member("c", ASN1Type::Null)]),
            ),
            type_definition(
                "Msg",
                ASN1Type::Choice(Choice {
                    extensible: None,
                    options: vec![ChoiceOption { name: "pong".to_string(), tag: None, ty: ASN1Type::Boolean }],
                    constraints: vec![],
                }),
            ),
            type_definition(
                "MyPong",
                ASN1Type::ChoiceSelectionType(ChoiceSelectionType {
                    choice_name: "Msg".to_string(),
                    selected_option: "pong".to_string(),
                }),
            ),
            value_definition("limit", ASN1Value::Integer(BigInteger::from_i128(10))),
            type_definition(
                "Limited",
                integer(vec![range(ASN1Value::Integer(BigInteger::from_i128(0)), ASN1Value::NamedReference("limit".to_string()))]),
            ),
        ],
    )]);
    placed
}

#[test]
fn validation_does_not_depend_on_the_order_of_the_input() {
    let forward = sample();
    let mut backward = copies(&forward);
    backward.reverse();
    let mut rotated = copies(&forward);
    rotated.rotate_left(3);
    let expected = validate(forward);
    assert_eq!(validate(backward), expected);
    assert_eq!(validate(rotated), expected);
}

#[test]
fn validation_gives_the_same_result_each_time() {
    assert_eq!(validate(sample()), validate(sample()));
}

#[test]
fn the_result_stands_in_the_order_of_the_names() {
    let (tlds, _) = validate(sample());
    let names: Vec<&str> = tlds.iter().map(|t| t.name().as_str()).collect();
    let mut sorted = names.clone();
    sorted.sort();
    assert_eq!(names, sorted);
    assert_eq!(names.len(), 8);
}

#[test]
fn linking_keeps_the_place_of_each_definition() {
    let before = sample();
    let (after, _) = validate(copies(&before));
    for tld in &before {
        let linked = after.iter().find(|t| t.name() == tld.name()).unwrap();
        assert_eq!(linked.get_index(), tld.get_index());
    }
}

#[test]
fn a_second_pass_over_a_linked_set_changes_nothing() {
    let (first, diagnostics) = validate(sample());
    assert!(diagnostics.is_empty());
    let (second, diagnostics) = validate(copies(&first));
    assert!(diagnostics.is_empty());
    assert_eq!(second, first);
}

#[test]
fn a_second_pass_repeats_the_warning_for_a_value_that_is_defined_nowhere() {
    let open = type_definition(
        "A",
        integer(vec![range(ASN1Value::Integer(BigInteger::from_i128(1)), ASN1Value::NamedReference("undefinedMax".to_string()))]),
    );
    let (first, first_warnings) = validate(vec![open]);
    let (second, second_warnings) = validate(copies(&first));
    assert_eq!(second, first);
    assert_eq!(second_warnings, first_warnings);
    assert_eq!(first_warnings.len(), 1);
}

#[test]
fn a_second_pass_expands_what_the_first_pass_copied_unexpanded() {
    let chain = vec![
        type_definition("A", sequence(vec![member("x", ASN1Type::Boolean)])),
        type_definition("M", including("A")),
        type_definition("Z", including("M")),
    ];
    let (first, _) = validate(chain);
    assert_eq!(first[1], type_definition("M", sequence(vec![member("x", ASN1Type::Boolean)])));
    assert_eq!(first[2], type_definition("Z", including("A")));
    let (second, _) = validate(copies(&first));
    assert_eq!(second[2], type_definition("Z", sequence(vec![member("x", ASN1Type::Boolean)])));
    let (third, _) = validate(copies(&second));
    assert_eq!(third, second);
}

#[test]
fn no_class_link_stays_by_name_while_the_class_is_defined() {
    let class = || InformationObjectClass { fields: vec![] };
    let object = || ASN1Information::Object(InformationObject { fields: vec![] });
    let by_name = |n: &str| Some(ClassLink::ByName(n.to_string()));
    let (tlds, diagnostics) = validate(vec![
        information("early", by_name("KIND"), object()),
        information("KIND", None, ASN1Information::ObjectClass(class())),
        information("late", by_name("KIND"), object()),
        information("lost", by_name("NOWHERE"), object()),
        information("odd", by_name("Flag"), object()),
        type_definition("Flag", ASN1Type::Boolean),
    ]);
    assert!(diagnostics.is_empty());
    let link_of = |name: &str| match tlds.iter().find(|t| t.name() == name).unwrap() {
        ToplevelDefinition::Information(i) => i.class.as_ref().map(|c| c.duplicate()),
        _ => unreachable!(),
    };
    assert_eq!(link_of("early"), Some(ClassLink::ByReference(class())));
    assert_eq!(link_of("late"), Some(ClassLink::ByReference(class())));
    assert_eq!(link_of("lost"), by_name("NOWHERE"));
    assert_eq!(link_of("odd"), by_name("Flag"));
    assert_eq!(link_of("KIND"), None);
}

#[test]
fn a_class_that_names_itself_stays_linked_by_name() {
    let (tlds, _) = validate(vec![information(
        "SELF",
        Some(ClassLink::ByName("SELF".to_string())),
        ASN1Information::ObjectClass(InformationObjectClass { fields: vec![] }),
    )]);
    match &tlds[0] {
        ToplevelDefinition::Information(i) => assert_eq!(i.class, Some(ClassLink::ByName("SELF".to_string()))),
        _ => unreachable!(),
    }
}

#[test]
fn adding_a_definition_keeps_the_diagnostic_of_a_definition_that_refers_to_nothing() {
    let bad = || type_definition("Bad", integer(vec![range(ASN1Value::Integer(BigInteger::from_i128(9)), ASN1Value::Integer(BigInteger::from_i128(1)))]));
    let (_, before) = validate(vec![bad()]);
    assert_eq!(before.len(), 1);
    let additions = vec![
        type_definition("Aaa", ASN1Type::Boolean),
        type_definition("Zzz", integer(vec![range(ASN1Value::Integer(BigInteger::from_i128(2)), ASN1Value::Integer(BigInteger::from_i128(1)))])),
        value_definition("Bad2", ASN1Value::Integer(BigInteger::from_i128(0))),
        type_definition(
            "Open",
            integer(vec![range(ASN1Value::Integer(BigInteger::from_i128(2)), ASN1Value::NamedReference("nowhere".to_string()))]),
        ),
    ];
    for added in additions {
        let (_, after) = validate(vec![bad(), added]);
        assert!(after.contains(&before[0]));
        assert_eq!(before[0].kind, ValidatorErrorType::InvalidConstraintsError);
    }
}

#[test]
fn adding_a_definition_that_answers_no_question_keeps_every_diagnostic() {
    let set = || {
        vec![
            type_definition(
                "Open",
                integer(vec![range(ASN1Value::Integer(BigInteger::from_i128(1)), ASN1Value::NamedReference("undefinedMax".to_string()))]),
            ),
            type_definition("Bad", integer(vec![range(ASN1Value::Integer(BigInteger::from_i128(9)), ASN1Value::Integer(BigInteger::from_i128(1)))])),
            type_definition("Alias", ASN1Type::ElsewhereDeclaredType(DeclarationElsewhere {
                identifier: "Quiet".to_string(),
                constraints: vec![],
            })),
            type_definition("Ext", including("Quiet")),
            value_definition("limit", ASN1Value::Integer(BigInteger::from_i128(3))),
        ]
    };
    let (kept, diagnostics) = validate(set());
    assert_eq!(diagnostics.len(), 2);
    let additions = vec![
        type_definition("Quiet", ASN1Type::Boolean),
        type_definition("undefinedMax", ASN1Type::Null),
        type_definition("Aaa", integer(vec![range(ASN1Value::Integer(BigInteger::from_i128(5)), ASN1Value::Integer(BigInteger::from_i128(4)))])),
        type_definition(
            "Zzz",
            integer(vec![range(ASN1Value::Integer(BigInteger::from_i128(5)), ASN1Value::NamedReference("nowhere".to_string()))]),
        ),
    ];
    for added in additions {
        let mut larger = set();
        larger.push(added);
        let (kept_then, diagnostics_then) = validate(larger);
        for diagnostic in &diagnostics {
            assert!(diagnostics_then.contains(diagnostic));
        }
        for definition in &kept {
            assert!(kept_then.contains(definition));
        }
    }
}

#[test]
fn adding_the_value_that_was_missing_takes_the_warning_away() {
    let open = || {
        type_definition(
            "Open",
            integer(vec![range(ASN1Value::Integer(BigInteger::from_i128(1)), ASN1Value::NamedReference("max".to_string()))]),
        )
    };
    let (_, before) = validate(vec![open()]);
    assert_eq!(before.len(), 1);
    let (kept, after) = validate(vec![open(), value_definition("max", ASN1Value::Integer(BigInteger::from_i128(9)))]);
    assert!(after.is_empty());
    assert_eq!(
        kept[0],
        type_definition(
            "Open",
            integer(vec![range(ASN1Value::Integer(BigInteger::from_i128(1)), ASN1Value::Integer(BigInteger::from_i128(9)))])
        )
    );
}
