use std::rc::Rc;

use rasn_compiler::intermediate::constraints::{
    ComponentPresence, ConstrainedComponent, Constraint, ContentConstraint, ElementOrSetOperation,
    ElementSet, SetOperation, SetOperator, SubtypeElement, TableConstraint,
};
use rasn_compiler::intermediate::information_object::{
    ASN1Information, ClassLink, FieldKind, InformationObject, InformationObjectClass,
    InformationObjectClassField, InformationObjectField, ObjectSet, ObjectSetValue,
};
use rasn_compiler::intermediate::integers::BigInteger;
use rasn_compiler::intermediate::toplevel::{
    ModuleReference, ToplevelDefinition, ToplevelInformationDefinition, ToplevelTypeDefinition,
    ToplevelValueDefinition,
};
use rasn_compiler::intermediate::types::{
    ASN1Type, BitString, CharacterString, CharacterStringType, Choice, ChoiceOption,
    ChoiceSelectionType, DeclarationElsewhere, DistinguishedValue, Enumerated, Enumeral,
    InformationObjectFieldReference, Integer, ObjectFieldIdentifier, ObjectIdentifier, OctetString,
    ParameterizedType, SequenceComponent, SequenceOrSet, SequenceOrSetMember, SequenceOrSetOf,
};
use rasn_compiler::intermediate::values::ASN1Value;
use rasn_compiler::intermediate::{AsnTag, TagClass, TaggingEnvironment};

fn constraints() -> Vec<Constraint> {
    let range = SubtypeElement::ValueRange {
        min: Some(ASN1Value::Integer(BigInteger::from_i128(-5))),
        max: None,
        extensible: true,
    };
    vec![
        Constraint::SubtypeConstraint(ElementSet {
            set: ElementOrSetOperation::SetOperation(SetOperation {
                base: range,
                operator: SetOperator::Except,
                operant: Box::new(ElementOrSetOperation::Element(SubtypeElement::PermittedAlphabet(
                    Box::new(ElementOrSetOperation::Element(SubtypeElement::ContainedSubtype {
                        subtype: "Other".to_string(),
                        extensible: false,
                    })),
                ))),
            }),
            extensible: true,
        }),
        Constraint::SubtypeConstraint(ElementSet {
            set: ElementOrSetOperation::Element(SubtypeElement::InnerType {
                is_partial: false,
                components: vec![
                    ConstrainedComponent {
                        identifier: None,
                        constraints: vec![Constraint::SubtypeConstraint(ElementSet {
                            set: ElementOrSetOperation::Element(SubtypeElement::PatternConstraint(
                                "[a-z]+".to_string(),
                            )),
                            extensible: false,
                        })],
                        presence: ComponentPresence::Optional,
                    },
                    ConstrainedComponent {
                        identifier: Some("gone".to_string()),
                        constraints: vec![],
                        presence: ComponentPresence::Absent,
                    },
                ],
            }),
            extensible: false,
        }),
        Constraint::TableConstraint(TableConstraint {
            object_set: "Errors".to_string(),
            linked_fields: vec!["code".to_string(), "kind".to_string()],
        }),
        Constraint::ContentConstraint(ContentConstraint {
            containing: Some("Inner".to_string()),
            encoded_by: Some(ASN1Value::NamedReference("der".to_string())),
        }),
    ]
}

fn tag(id: u64) -> Option<AsnTag> {
    Some(AsnTag { environment: TaggingEnvironment::Implicit, tag_class: TagClass::Application, id })
}

fn every_type() -> Vec<ASN1Type> {
    let named = || DistinguishedValue { name: "one".to_string(), value: BigInteger::from_i128(1) };
    let structure = || SequenceOrSet {
        extensible: Some(1),
        constraints: constraints(),
        members: vec![
            SequenceComponent::Member(SequenceOrSetMember {
                name: "a".to_string(),
                tag: tag(0),
                ty: ASN1Type::Null,
                default_value: Some(ASN1Value::Null),
                is_optional: true,
            }),
            SequenceComponent::ComponentsOf("Base".to_string()),
        ],
    };
    vec![
        ASN1Type::Null,
        ASN1Type::Boolean,
        ASN1Type::Integer(Integer { constraints: constraints(), distinguished_values: vec![named()] }),
        ASN1Type::BitString(BitString { constraints: vec![], distinguished_values: vec![named(), named()] }),
        ASN1Type::OctetString(OctetString { constraints: constraints() }),
        ASN1Type::ObjectIdentifier(ObjectIdentifier { constraints: vec![] }),
        ASN1Type::CharacterString(CharacterString {
            constraints: constraints(),
            kind: CharacterStringType::PrintableString,
        }),
        ASN1Type::Enumerated(Enumerated {
            members: vec![Enumeral { name: "x".to_string(), index: BigInteger::from_i128(-3) }],
            extensible: Some(1),
            constraints: vec![],
        }),
        ASN1Type::Choice(Choice {
            extensible: None,
            options: vec![ChoiceOption { name: "only".to_string(), tag: tag(7), ty: ASN1Type::Boolean }],
            constraints: constraints(),
        }),
        ASN1Type::Sequence(structure()),
        ASN1Type::SetType(structure()),
        ASN1Type::SequenceOf(SequenceOrSetOf { constraints: constraints(), ty: Box::new(ASN1Type::Sequence(structure())) }),
        ASN1Type::SetOf(SequenceOrSetOf { constraints: vec![], ty: Box::new(ASN1Type::Null) }),
        ASN1Type::ElsewhereDeclaredType(DeclarationElsewhere {
            identifier: "Other".to_string(),
            constraints: constraints(),
        }),
        ASN1Type::InformationObjectFieldReference(InformationObjectFieldReference {
            class: "ERROR".to_string(),
            field_path: vec![
                ObjectFieldIdentifier::MultipleValue("Set".to_string()),
                ObjectFieldIdentifier::SingleValue("code".to_string()),
            ],
            constraints: constraints(),
        }),
        ASN1Type::ChoiceSelectionType(ChoiceSelectionType {
            choice_name: "Msg".to_string(),
            selected_option: "pong".to_string(),
        }),
        ASN1Type::Parameterized(ParameterizedType {
            identifier: "Wrapper".to_string(),
            arguments: vec!["First".to_string(), "second".to_string()],
        }),
    ]
}

#[test]
fn a_copy_of_a_constraint_is_equal() {
    for constraint in constraints() {
        assert_eq!(constraint.duplicate(), constraint);
    }
}

#[test]
fn a_copy_of_a_type_is_equal() {
    for ty in every_type() {
        assert_eq!(ty.duplicate(), ty);
    }
}

#[test]
fn a_copy_of_a_definition_is_equal() {
    let module = Rc::new(ModuleReference {
        name: "M".to_string(),
        tagging_environment: TaggingEnvironment::Explicit,
    });
    let class = || InformationObjectClass {
        fields: vec![InformationObjectClassField {
            identifier: ObjectFieldIdentifier::SingleValue("object".to_string()),
            kind: FieldKind::Object,
            ty: None,
            is_optional: true,
            default: Some(ASN1Value::Boolean(false)),
            is_unique: false,
            fields: vec![InformationObjectClassField {
                identifier: ObjectFieldIdentifier::MultipleValue("Type".to_string()),
                kind: FieldKind::VariableType,
                ty: Some(ASN1Type::Boolean),
                is_optional: false,
                default: None,
                is_unique: true,
                fields: vec![],
            }],
        }],
    };
    let object = || InformationObject {
        fields: vec![
            InformationObjectField::TypeField { identifier: "Type".to_string(), ty: ASN1Type::Null },
            InformationObjectField::FixedValueField {
                identifier: "code".to_string(),
                value: ASN1Value::Integer(BigInteger::from_i128(4)),
            },
        ],
    };
    let mut definitions = vec![
        ToplevelDefinition::Value(ToplevelValueDefinition {
            name: "v".to_string(),
            associated_type: "T".to_string(),
            value: ASN1Value::String("text".to_string()),
            supertypes: vec!["T".to_string()],
            index: Some((module.clone(), 3)),
        }),
        ToplevelDefinition::Information(ToplevelInformationDefinition {
            name: "CLASS".to_string(),
            class: None,
            value: ASN1Information::ObjectClass(class()),
            index: None,
        }),
        ToplevelDefinition::Information(ToplevelInformationDefinition {
            name: "Objects".to_string(),
            class: Some(ClassLink::ByReference(class())),
            value: ASN1Information::ObjectSet(ObjectSet {
                values: vec![ObjectSetValue::Inline(object()), ObjectSetValue::Reference("more".to_string())],
                extensible: Some(2),
            }),
            index: Some((module.clone(), 0)),
        }),
        ToplevelDefinition::Information(ToplevelInformationDefinition {
            name: "object".to_string(),
            class: Some(ClassLink::ByName("CLASS".to_string())),
            value: ASN1Information::Object(object()),
            index: None,
        }),
    ];
    for (position, ty) in every_type().into_iter().enumerate() {
        definitions.push(ToplevelDefinition::Type(ToplevelTypeDefinition {
            name: format!("T{position}"),
            tag: tag(position as u64),
            ty,
            supertypes: vec!["Super".to_string()],
            index: Some((module.clone(), position)),
        }));
    }
    for definition in definitions {
        assert_eq!(definition.duplicate(), definition);
    }
}

#[test]
fn field_identifiers_are_the_same_if_kind_and_name_are() {
    let single = |n: &str| ObjectFieldIdentifier::SingleValue(n.to_string());
    let multiple = |n: &str| ObjectFieldIdentifier::MultipleValue(n.to_string());
    assert!(single("a").same_as(&single("a")));
    assert!(multiple("A").same_as(&multiple("A")));
    assert!(!single("a").same_as(&single("b")));
    assert!(!single("a").same_as(&multiple("a")));
    assert!(!multiple("a").same_as(&single("a")));
    assert_eq!(single("a").duplicate(), single("a"));
}
