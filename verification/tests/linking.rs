use rasn_compiler::intermediate::integers::BigInteger;
use rasn_compiler::intermediate::constraints::{
    ComponentPresence, ConstrainedComponent, Constraint, ElementOrSetOperation, ElementSet,
    SetOperation, SetOperator, SubtypeElement, TableConstraint,
};
use rasn_compiler::intermediate::error::GrammarErrorType;
use rasn_compiler::intermediate::information_object::{
    ASN1Information, ClassLink, FieldKind, InformationObject, InformationObjectClass,
    InformationObjectClassField, InformationObjectField, ObjectSet, ObjectSetValue,
};
use rasn_compiler::intermediate::toplevel::{
    ToplevelDefinition, ToplevelInformationDefinition, ToplevelTypeDefinition,
    ToplevelValueDefinition,
};
use rasn_compiler::intermediate::types::{
    ASN1Type, Choice, ChoiceOption, ChoiceSelectionType, DeclarationElsewhere, Enumerated,
    Enumeral, InformationObjectFieldReference, Integer, ObjectFieldIdentifier, OctetString,
    SequenceComponent, SequenceOrSet, SequenceOrSetMember, SequenceOrSetOf,
};
use rasn_compiler::intermediate::values::ASN1Value;
use rasn_compiler::validator::error::ValidatorErrorType;
use rasn_compiler::validator::index::ReferenceIndex;
use rasn_compiler::validator::linking::link_definition;
use rasn_compiler::validator::linking::supertypes::collect_supertypes_from;
use rasn_compiler::validator::linking::types::{LinkPass, Pending};
use rasn_compiler::validator::Validator;

fn type_definition(name: &str, ty: ASN1Type) -> ToplevelDefinition {
    ToplevelDefinition::Type(ToplevelTypeDefinition {
        name: name.to_string(),
        tag: None,
        ty,
        supertypes: vec![],
        index: None,
    })
}

fn value_definition(name: &str, associated_type: &str, value: ASN1Value) -> ToplevelDefinition {
    ToplevelDefinition::Value(ToplevelValueDefinition {
        name: name.to_string(),
        associated_type: associated_type.to_string(),
        value,
        supertypes: vec![],
        index: None,
    })
}

fn information(name: &str, class: Option<ClassLink>, value: ASN1Information) -> ToplevelDefinition {
    ToplevelDefinition::Information(ToplevelInformationDefinition {
        name: name.to_string(),
        class,
        value,
        index: None,
    })
}

fn index_of(tlds: Vec<ToplevelDefinition>) -> ReferenceIndex {
    let mut index = ReferenceIndex::new();
    for tld in tlds {
        index.insert(tld);
    }
    index
}

fn reference(name: &str) -> ASN1Value {
    ASN1Value::NamedReference(name.to_string())
}

fn subtype(set: ElementOrSetOperation) -> Constraint {
    Constraint::SubtypeConstraint(ElementSet { set, extensible: false })
}

fn range(min: ASN1Value, max: ASN1Value) -> SubtypeElement {
    SubtypeElement::ValueRange { min: Some(min), max: Some(max), extensible: false }
}

fn integer(constraints: Vec<Constraint>) -> ASN1Type {
    ASN1Type::Integer(Integer { constraints, distinguished_values: vec![] })
}

fn alias(name: &str) -> ASN1Type {
    ASN1Type::ElsewhereDeclaredType(DeclarationElsewhere { identifier: name.to_string(), constraints: vec![] })
}

fn member(name: &str, ty: ASN1Type) -> SequenceComponent {
    SequenceComponent::Member(SequenceOrSetMember {
        name: name.to_string(),
        tag: None,
        ty,
        default_value: None,
        is_optional: false,
    })
}

fn components_of(name: &str) -> SequenceComponent {
    SequenceComponent::ComponentsOf(name.to_string())
}

fn structure(extensible: Option<usize>, members: Vec<SequenceComponent>) -> SequenceOrSet {
    SequenceOrSet { extensible, constraints: vec![], members }
}

fn sequence(members: Vec<SequenceComponent>) -> ASN1Type {
    ASN1Type::Sequence(structure(None, members))
}

fn class_field(name: &str, ty: Option<ASN1Type>) -> InformationObjectClassField {
    InformationObjectClassField {
        identifier: ObjectFieldIdentifier::SingleValue(name.to_string()),
        kind: FieldKind::FixedType,
        ty,
        is_optional: false,
        default: None,
        is_unique: true,
        fields: vec![],
    }
}

fn class(fields: Vec<InformationObjectClassField>) -> InformationObjectClass {
    InformationObjectClass { fields }
}

fn object(identifier: &str, value: i128) -> InformationObject {
    InformationObject {
        fields: vec![InformationObjectField::FixedValueField {
            identifier: identifier.to_string(),
            value: ASN1Value::Integer(BigInteger::from_i128(value)),
        }],
    }
}

fn names(tlds: &[&str]) -> Vec<String> {
    tlds.iter().map(|n| n.to_string()).collect()
}

#[test]
fn a_class_link_by_name_becomes_a_link_by_reference() {
    let error_class = class(vec![class_field("code", Some(integer(vec![])))]);
    let index = index_of(vec![information(
        "ERROR",
        None,
        ASN1Information::ObjectClass(error_class.duplicate()),
    )]);
    let errors = information(
        "Errors",
        Some(ClassLink::ByName("ERROR".to_string())),
        ASN1Information::ObjectSet(ObjectSet { values: vec![], extensible: None }),
    );
    assert!(errors.references_class_by_name());
    let (linked, warning) = link_definition(errors, &index).unwrap();
    assert!(warning.is_none());
    assert!(!linked.references_class_by_name());
    match linked {
        ToplevelDefinition::Information(i) => assert_eq!(i.class, Some(ClassLink::ByReference(error_class))),
        _ => unreachable!(),
    }
}

#[test]
fn a_class_link_stays_by_name_where_the_class_is_not_defined() {
    let index = index_of(vec![type_definition("ERROR", ASN1Type::Boolean)]);
    let errors = information(
        "Errors",
        Some(ClassLink::ByName("ERROR".to_string())),
        ASN1Information::Object(object("code", 1)),
    );
    let (linked, warning) = link_definition(errors.duplicate(), &index).unwrap();
    assert!(warning.is_none());
    assert_eq!(linked, errors);
}

#[test]
fn a_resolved_class_link_is_not_touched() {
    let old_class = class(vec![class_field("old", None)]);
    let index = index_of(vec![information(
        "ERROR",
        None,
        ASN1Information::ObjectClass(class(vec![class_field("new", None)])),
    )]);
    let errors = information(
        "Errors",
        Some(ClassLink::ByReference(old_class.duplicate())),
        ASN1Information::Object(object("code", 1)),
    );
    let (linked, _) = link_definition(errors, &index).unwrap();
    match linked {
        ToplevelDefinition::Information(i) => assert_eq!(i.class, Some(ClassLink::ByReference(old_class))),
        _ => unreachable!(),
    }
}

#[test]
fn a_reference_to_a_class_field_becomes_the_type_of_the_field() {
    let index = index_of(vec![information(
        "ERROR",
        None,
        ASN1Information::ObjectClass(class(vec![
            class_field("text", None),
            class_field("code", Some(integer(vec![]))),
        ])),
    )]);
    let field_reference = |field: &str| {
        ASN1Type::InformationObjectFieldReference(InformationObjectFieldReference {
            class: "ERROR".to_string(),
            field_path: vec![ObjectFieldIdentifier::SingleValue(field.to_string())],
            constraints: vec![],
        })
    };
    let report = type_definition(
        "Report",
        sequence(vec![member("code", field_reference("code")), member("text", field_reference("text"))]),
    );
    assert!(report.references_class_by_name());
    let (linked, _) = link_definition(report, &index).unwrap();
    assert_eq!(
        linked,
        type_definition(
            "Report",
            sequence(vec![member("code", integer(vec![])), member("text", field_reference("text"))])
        )
    );
}

#[test]
fn an_object_set_reference_is_replaced_by_the_entries() {
    let index = index_of(vec![
        information(
            "Basic",
            None,
            ASN1Information::ObjectSet(ObjectSet {
                values: vec![ObjectSetValue::Inline(object("code", 1)), ObjectSetValue::Inline(object("code", 2))],
                extensible: None,
            }),
        ),
        information("single", None, ASN1Information::Object(object("code", 3))),
    ]);
    let all = information(
        "All",
        None,
        ASN1Information::ObjectSet(ObjectSet {
            values: vec![
                ObjectSetValue::Inline(object("code", 0)),
                ObjectSetValue::Reference("Basic".to_string()),
                ObjectSetValue::Reference("single".to_string()),
                ObjectSetValue::Reference("Unknown".to_string()),
                ObjectSetValue::Inline(object("code", 4)),
            ],
            extensible: Some(3),
        }),
    );
    assert!(all.references_object_set_by_name());
    let (linked, warning) = link_definition(all, &index).unwrap();
    assert!(warning.is_none());
    assert_eq!(
        linked,
        information(
            "All",
            None,
            ASN1Information::ObjectSet(ObjectSet {
                values: vec![
                    ObjectSetValue::Inline(object("code", 0)),
                    ObjectSetValue::Inline(object("code", 1)),
                    ObjectSetValue::Inline(object("code", 2)),
                    ObjectSetValue::Inline(object("code", 3)),
                    ObjectSetValue::Reference("Unknown".to_string()),
                    ObjectSetValue::Inline(object("code", 4)),
                ],
                extensible: Some(4),
            })
        )
    );
}

#[test]
fn components_of_takes_the_components_in_front_of_the_extension_marker() {
    let index = index_of(vec![type_definition(
        "Base",
        ASN1Type::Sequence(structure(
            Some(2),
            vec![
                member("a", integer(vec![])),
                member("b", ASN1Type::Boolean),
                member("later", ASN1Type::Null),
            ],
        )),
    )]);
    let ext = type_definition(
        "Ext",
        ASN1Type::SetType(structure(
            Some(2),
            vec![
                member("first", ASN1Type::Null),
                components_of("Base"),
                member("c", ASN1Type::Boolean),
                components_of("Missing"),
            ],
        )),
    );
    assert!(ext.has_components_of_notation());
    let (linked, _) = link_definition(ext, &index).unwrap();
    assert_eq!(
        linked,
        type_definition(
            "Ext",
            ASN1Type::SetType(structure(
                Some(3),
                vec![
                    member("first", ASN1Type::Null),
                    member("a", integer(vec![])),
                    member("b", ASN1Type::Boolean),
                    member("c", ASN1Type::Boolean),
                    components_of("Missing"),
                ],
            ))
        )
    );
}

#[test]
fn components_of_is_expanded_inside_components() {
    let index = index_of(vec![type_definition("Base", sequence(vec![member("a", ASN1Type::Boolean)]))]);
    let inner = |members| {
        ASN1Type::SequenceOf(SequenceOrSetOf { constraints: vec![], ty: Box::new(sequence(members)) })
    };
    let outer = type_definition("Outer", sequence(vec![member("list", inner(vec![components_of("Base")]))]));
    assert!(outer.has_components_of_notation());
    let (linked, _) = link_definition(outer, &index).unwrap();
    assert_eq!(
        linked,
        type_definition("Outer", sequence(vec![member("list", inner(vec![member("a", ASN1Type::Boolean)]))]))
    );
    assert!(!linked.has_components_of_notation());
}

#[test]
fn a_selection_type_inside_a_component_is_replaced() {
    let index = index_of(vec![type_definition(
        "Msg",
        ASN1Type::Choice(Choice {
            extensible: None,
            options: vec![
                ChoiceOption { name: "ping".to_string(), tag: None, ty: integer(vec![]) },
                ChoiceOption { name: "pong".to_string(), tag: None, ty: ASN1Type::Boolean },
            ],
            constraints: vec![],
        }),
    )]);
    let selection = |option: &str| {
        ASN1Type::ChoiceSelectionType(ChoiceSelectionType {
            choice_name: "Msg".to_string(),
            selected_option: option.to_string(),
        })
    };
    let both = type_definition(
        "Both",
        sequence(vec![member("first", selection("ping")), member("second", selection("pong"))]),
    );
    assert!(both.has_choice_selection_type());
    let (linked, _) = link_definition(both, &index).unwrap();
    assert_eq!(
        linked,
        type_definition(
            "Both",
            sequence(vec![member("first", integer(vec![])), member("second", ASN1Type::Boolean)])
        )
    );
}

#[test]
fn a_selection_from_a_type_that_is_no_choice_fails() {
    let index = index_of(vec![type_definition("Msg", ASN1Type::Boolean)]);
    let selection = type_definition(
        "Mine",
        ASN1Type::ChoiceSelectionType(ChoiceSelectionType {
            choice_name: "Msg".to_string(),
            selected_option: "pong".to_string(),
        }),
    );
    let error = link_definition(selection.duplicate(), &index).unwrap_err();
    assert_eq!(error.kind, ValidatorErrorType::MissingDependency);
    assert_eq!(error.data_element, Some("Mine".to_string()));
    assert_eq!(error.details, "Failed to link the selected alternative of a choice selection type");
    let grammar_error = selection.link_choice_selection_type(&index).unwrap_err();
    assert_eq!(grammar_error.kind, GrammarErrorType::MissingDependency);
}

#[test]
fn references_are_resolved_throughout_a_constraint() {
    let index = index_of(vec![
        value_definition("low", "INTEGER", ASN1Value::Integer(BigInteger::from_i128(2))),
        value_definition("high", "INTEGER", ASN1Value::Integer(BigInteger::from_i128(20))),
    ]);
    let nested = |low: ASN1Value, high: ASN1Value, other: ASN1Value| {
        vec![
            subtype(ElementOrSetOperation::SetOperation(SetOperation {
                base: range(low, high.duplicate()),
                operator: SetOperator::Union,
                operant: Box::new(ElementOrSetOperation::Element(SubtypeElement::SingleValue {
                    value: other.duplicate(),
                    extensible: false,
                })),
            })),
            subtype(ElementOrSetOperation::Element(SubtypeElement::SizeConstraint(Box::new(
                ElementOrSetOperation::Element(range(ASN1Value::Integer(BigInteger::from_i128(1)), high)),
            )))),
            subtype(ElementOrSetOperation::Element(SubtypeElement::InnerType {
                is_partial: true,
                components: vec![ConstrainedComponent {
                    identifier: Some("part".to_string()),
                    constraints: vec![subtype(ElementOrSetOperation::Element(SubtypeElement::SingleValue {
                        value: other,
                        extensible: true,
                    }))],
                    presence: ComponentPresence::Present,
                }],
            })),
            Constraint::TableConstraint(TableConstraint { object_set: "Set".to_string(), linked_fields: vec![] }),
        ]
    };
    let before = type_definition("T", integer(nested(reference("low"), reference("high"), reference("nowhere"))));
    assert!(before.has_constraint_reference());
    let (linked, warning) = link_definition(before, &index).unwrap();
    assert_eq!(
        linked,
        type_definition(
            "T",
            integer(nested(ASN1Value::Integer(BigInteger::from_i128(2)), ASN1Value::Integer(BigInteger::from_i128(20)), reference("nowhere")))
        )
    );
    let warning = warning.unwrap();
    assert_eq!(warning.kind, ValidatorErrorType::MissingDependency);
    assert_eq!(warning.data_element, Some("T".to_string()));
}

#[test]
fn a_definition_without_references_links_to_itself() {
    let index = index_of(vec![value_definition("low", "INTEGER", ASN1Value::Integer(BigInteger::from_i128(2)))]);
    let plain = type_definition(
        "T",
        integer(vec![subtype(ElementOrSetOperation::Element(range(ASN1Value::Integer(BigInteger::from_i128(1)), ASN1Value::Integer(BigInteger::from_i128(2)))))]),
    );
    assert!(!plain.has_constraint_reference());
    assert!(!plain.references_class_by_name());
    assert!(!plain.has_components_of_notation());
    assert!(!plain.has_choice_selection_type());
    assert!(!plain.references_object_set_by_name());
    let (linked, warning) = link_definition(plain.duplicate(), &index).unwrap();
    assert_eq!(linked, plain);
    assert!(warning.is_none());
}

#[test]
fn the_passes_can_be_run_on_a_type_alone() {
    let index = index_of(vec![value_definition("max", "INTEGER", ASN1Value::Integer(BigInteger::from_i128(9)))]);
    let ty = integer(vec![subtype(ElementOrSetOperation::Element(range(ASN1Value::Integer(BigInteger::from_i128(0)), reference("max"))))]);
    assert!(ty.has_pending(Pending::ConstraintReference));
    assert!(!ty.has_pending(Pending::ChoiceSelection));
    assert!(!ty.has_pending(Pending::ComponentsOf));
    assert!(!ty.has_pending(Pending::ClassReference));
    let owner = "T".to_string();
    let (same, settled) = ty.link(LinkPass::ChoiceSelections, &owner, &index);
    assert_eq!(same, ty);
    assert!(settled);
    let (linked, settled) = ty.link(LinkPass::ConstraintReferences, &owner, &index);
    assert!(settled);
    assert!(!linked.has_pending(Pending::ConstraintReference));
    let (unlinked, settled) = ty.link(LinkPass::ConstraintReferences, &owner, &ReferenceIndex::new());
    assert_eq!(unlinked, ty);
    assert!(!settled);
}

#[test]
fn supertypes_are_collected_nearest_first() {
    let index = index_of(vec![
        type_definition("B", alias("C")),
        type_definition("C", alias("D")),
        type_definition("D", ASN1Type::Boolean),
    ]);
    assert_eq!(collect_supertypes_from(&"B".to_string(), &index), names(&["B", "C", "D"]));
    assert_eq!(collect_supertypes_from(&"D".to_string(), &index), names(&["D"]));
    assert_eq!(collect_supertypes_from(&"INTEGER".to_string(), &index), names(&["INTEGER"]));
    let a = type_definition("A", alias("B"));
    let (linked, _) = link_definition(a, &index).unwrap();
    match linked {
        ToplevelDefinition::Type(t) => assert_eq!(t.supertypes, names(&["B", "C", "D"])),
        _ => unreachable!(),
    }
}

#[test]
fn a_cycle_of_references_ends_the_chain() {
    let index = index_of(vec![type_definition("B", alias("C")), type_definition("C", alias("B"))]);
    assert_eq!(collect_supertypes_from(&"B".to_string(), &index), names(&["B", "C"]));
    assert_eq!(collect_supertypes_from(&"C".to_string(), &index), names(&["C", "B"]));
}

#[test]
fn a_bit_string_value_of_an_octet_string_type_becomes_octets() {
    let index = index_of(vec![
        type_definition("Key", alias("Raw")),
        type_definition("Raw", ASN1Type::OctetString(OctetString { constraints: vec![] })),
        type_definition("Flags", ASN1Type::Boolean),
    ]);
    let bits = vec![true, false, true, true, false, false, false, false];
    let key = value_definition("key", "Key", ASN1Value::BitString(bits.clone()));
    let (linked, _) = link_definition(key, &index).unwrap();
    match linked {
        ToplevelDefinition::Value(v) => {
            assert_eq!(v.value, ASN1Value::OctetString(vec![0xB0]));
            assert_eq!(v.supertypes, names(&["Key", "Raw"]));
        }
        _ => unreachable!(),
    }
    let flags = value_definition("flags", "Flags", ASN1Value::BitString(bits.clone()));
    let (linked, _) = link_definition(flags, &index).unwrap();
    match linked {
        ToplevelDefinition::Value(v) => assert_eq!(v.value, ASN1Value::BitString(bits)),
        _ => unreachable!(),
    }
}

#[test]
fn a_ragged_bit_string_value_of_an_octet_string_type_stops_the_linker() {
    let raw = type_definition("Raw", ASN1Type::OctetString(OctetString { constraints: vec![] }));
    let key = value_definition("key", "Raw", ASN1Value::BitString(vec![true; 7]));
    let error = Validator::new(vec![raw, key]).validate().unwrap_err();
    assert_eq!(error.kind, ValidatorErrorType::LinkerError);
    assert_eq!(error.data_element, Some("key".to_string()));
    assert_eq!(error.details, "Binary octet string value needs to be a multiple of 8 bits!");
}

#[test]
fn the_validator_answers_for_the_definition_of_a_key() {
    let validator = Validator::new(vec![
        type_definition("Ext", sequence(vec![components_of("Base")])),
        type_definition(
            "Mine",
            ASN1Type::ChoiceSelectionType(ChoiceSelectionType {
                choice_name: "Msg".to_string(),
                selected_option: "pong".to_string(),
            }),
        ),
        type_definition(
            "Ranged",
            integer(vec![subtype(ElementOrSetOperation::Element(range(ASN1Value::Integer(BigInteger::from_i128(1)), reference("max"))))]),
        ),
        information(
            "Errors",
            Some(ClassLink::ByName("ERROR".to_string())),
            ASN1Information::ObjectSet(ObjectSet {
                values: vec![ObjectSetValue::Reference("Other".to_string())],
                extensible: None,
            }),
        ),
        type_definition(
            "Kind",
            ASN1Type::Enumerated(Enumerated {
                members: vec![Enumeral { name: "a".to_string(), index: BigInteger::from_i128(0) }],
                extensible: None,
                constraints: vec![],
            }),
        ),
    ]);
    let key = |k: &str| k.to_string();
    assert!(validator.has_components_of_notation(&key("Ext")));
    assert!(!validator.has_components_of_notation(&key("Mine")));
    assert!(validator.has_choice_selection_type(&key("Mine")));
    assert!(!validator.has_choice_selection_type(&key("Ext")));
    assert!(validator.has_constraint_reference(&key("Ranged")));
    assert!(!validator.has_constraint_reference(&key("Kind")));
    assert!(validator.references_class_by_name(&key("Errors")));
    assert!(!validator.references_class_by_name(&key("Kind")));
    assert!(validator.references_object_set_by_name(&key("Errors")));
    assert!(!validator.references_object_set_by_name(&key("Ext")));
    assert!(!validator.has_components_of_notation(&key("Unknown")));
    assert!(!validator.has_constraint_reference(&key("Unknown")));
}

#[test]
fn a_later_definition_shadows_an_earlier_one_of_the_same_name() {
    let validator = Validator::new(vec![
        type_definition("A", sequence(vec![components_of("Base")])),
        type_definition("B", ASN1Type::Null),
        type_definition("A", ASN1Type::Boolean),
    ]);
    assert!(!validator.has_components_of_notation(&"A".to_string()));
    let (tlds, diagnostics) = validator.validate().unwrap();
    assert!(diagnostics.is_empty());
    assert_eq!(tlds, vec![type_definition("A", ASN1Type::Boolean), type_definition("B", ASN1Type::Null)]);
}

#[test]
fn values_are_linked_after_the_types() {
    let (validator, warnings) = Validator::new(vec![
        value_definition("key", "Key", ASN1Value::BitString(vec![false; 8])),
        type_definition("Key", alias("Zed")),
        type_definition("Zed", ASN1Type::OctetString(OctetString { constraints: vec![] })),
    ])
    .link()
    .unwrap();
    assert!(warnings.is_empty());
    let (tlds, _) = validator.validate().unwrap();
    assert_eq!(tlds.len(), 3);
    match &tlds[2] {
        ToplevelDefinition::Value(v) => assert_eq!(v.value, ASN1Value::OctetString(vec![0])),
        _ => unreachable!(),
    }
}

#[test]
fn a_copy_of_a_value_is_equal_in_every_part() {
    let value = ASN1Value::Sequence(vec![
        rasn_compiler::intermediate::values::NamedValue {
            name: "real".to_string(),
            value: ASN1Value::Real {
                mantissa: BigInteger::from_i128(-314),
                base: 10,
                exponent: BigInteger::from_i128(-2),
            },
        },
        rasn_compiler::intermediate::values::NamedValue {
            name: "choice".to_string(),
            value: ASN1Value::Choice(
                "list".to_string(),
                Box::new(ASN1Value::SequenceOf(vec![
                    ASN1Value::Null,
                    ASN1Value::Boolean(true),
                    ASN1Value::String("text".to_string()),
                    ASN1Value::BitString(vec![true, false]),
                    ASN1Value::OctetString(vec![1, 2, 3]),
                    ASN1Value::Enumerated { enumerated: "Colour".to_string(), enumerable: "red".to_string() },
                    reference("elsewhere"),
                ])),
            ),
        },
    ]);
    assert_eq!(value.duplicate(), value);
}

#[test]
fn a_reference_to_a_type_field_of_a_class_is_left_alone() {
    let index = index_of(vec![information(
        "ERROR",
        None,
        ASN1Information::ObjectClass(class(vec![InformationObjectClassField {
            identifier: ObjectFieldIdentifier::MultipleValue("Type".to_string()),
            kind: FieldKind::VariableType,
            ty: Some(ASN1Type::Boolean),
            is_optional: false,
            default: None,
            is_unique: false,
            fields: vec![],
        }])),
    )]);
    let open = type_definition(
        "Open",
        ASN1Type::InformationObjectFieldReference(InformationObjectFieldReference {
            class: "ERROR".to_string(),
            field_path: vec![ObjectFieldIdentifier::MultipleValue("Type".to_string())],
            constraints: vec![],
        }),
    );
    assert!(!open.references_class_by_name());
    let (linked, _) = link_definition(open.duplicate(), &index).unwrap();
    assert_eq!(linked, open);
}

#[test]
fn what_is_pending_is_found_at_any_depth() {
    let selection = ASN1Type::ChoiceSelectionType(ChoiceSelectionType {
        choice_name: "Msg".to_string(),
        selected_option: "pong".to_string(),
    });
    let in_choice = ASN1Type::Choice(Choice {
        extensible: None,
        options: vec![
            ChoiceOption { name: "plain".to_string(), tag: None, ty: ASN1Type::Null },
            ChoiceOption {
                name: "deep".to_string(),
                tag: None,
                ty: ASN1Type::SetOf(SequenceOrSetOf {
                    constraints: vec![],
                    ty: Box::new(sequence(vec![member("inner", selection)])),
                }),
            },
        ],
        constraints: vec![],
    });
    assert!(in_choice.has_pending(Pending::ChoiceSelection));
    assert!(!in_choice.has_pending(Pending::ComponentsOf));
    assert!(!in_choice.has_pending(Pending::ConstraintReference));
    assert!(!in_choice.has_pending(Pending::ClassReference));
    let with_reference = sequence(vec![member(
        "n",
        integer(vec![subtype(ElementOrSetOperation::Element(SubtypeElement::SingleValue {
            value: reference("limit"),
            extensible: false,
        }))]),
    )]);
    assert!(with_reference.has_pending(Pending::ConstraintReference));
    assert!(!with_reference.has_pending(Pending::ChoiceSelection));
    assert!(!ASN1Type::Null.has_pending(Pending::ConstraintReference));
    assert!(!sequence(vec![components_of("Base")]).has_pending(Pending::ConstraintReference));
    assert!(sequence(vec![components_of("Base")]).has_pending(Pending::ComponentsOf));
}

#[test]
fn the_expected_type_of_a_constrained_reference_is_the_referenced_type() {
    let kind = |items: &[(&str, i128)]| {
        ASN1Type::Enumerated(Enumerated {
            members: items
                .iter()
                .map(|(n, i)| Enumeral { name: n.to_string(), index: BigInteger::from_i128(*i) })
                .collect(),
            extensible: None,
            constraints: vec![],
        })
    };
    let index = index_of(vec![
        type_definition("Alarm", kind(&[("on", 7)])),
        type_definition("Switch", kind(&[("on", 1)])),
    ]);
    let constrained = |target: &str, value: ASN1Value| {
        ASN1Type::ElsewhereDeclaredType(DeclarationElsewhere {
            identifier: target.to_string(),
            constraints: vec![subtype(ElementOrSetOperation::Element(SubtypeElement::SingleValue {
                value,
                extensible: false,
            }))],
        })
    };
    let (linked, warning) =
        link_definition(type_definition("Mine", constrained("Switch", reference("on"))), &index).unwrap();
    assert!(warning.is_none());
    assert_eq!(linked.name(), "Mine");
    match linked {
        ToplevelDefinition::Type(t) => {
            assert_eq!(t.ty, constrained("Switch", ASN1Value::Integer(BigInteger::from_i128(1))))
        }
        _ => unreachable!(),
    }
}
