use rasn_compiler::intermediate::integers::BigInteger;
use rasn_compiler::intermediate::constraints::{
    Constraint, ContentConstraint, ElementOrSetOperation, ElementSet, SetOperation, SetOperator,
    SubtypeElement,
};
use rasn_compiler::intermediate::error::{GrammarError, GrammarErrorType};
use rasn_compiler::intermediate::toplevel::{
    ToplevelDefinition, ToplevelTypeDefinition, ToplevelValueDefinition,
};
use rasn_compiler::intermediate::types::{
    ASN1Type, BitString, CharacterString, CharacterStringType, Integer, OctetString,
    SequenceComponent, SequenceOrSet, SequenceOrSetMember,
};
use rasn_compiler::intermediate::values::ASN1Value;
use rasn_compiler::validator::error::{ValidatorError, ValidatorErrorType};
use rasn_compiler::validator::{Validate, Validator};

fn range(min: Option<ASN1Value>, max: Option<ASN1Value>) -> Constraint {
    Constraint::SubtypeConstraint(ElementSet {
        set: ElementOrSetOperation::Element(SubtypeElement::ValueRange { min, max, extensible: false }),
        extensible: false,
    })
}

fn int_range(min: i128, max: i128) -> Constraint {
    range(
        Some(ASN1Value::Integer(BigInteger::from_i128(min))),
        Some(ASN1Value::Integer(BigInteger::from_i128(max))),
    )
}

fn integer(constraints: Vec<Constraint>) -> Integer {
    Integer { constraints, distinguished_values: vec![] }
}

fn type_definition(name: &str, ty: ASN1Type) -> ToplevelDefinition {
    ToplevelDefinition::Type(ToplevelTypeDefinition {
        name: name.to_string(),
        tag: None,
        ty,
        supertypes: vec![],
        index: None,
    })
}

fn inverted() -> ValidatorError {
    ValidatorError {
        data_element: None,
        details: "Mininum value exceeds maximum value!".to_string(),
        kind: ValidatorErrorType::InvalidConstraintsError,
    }
}

#[test]
fn a_range_is_valid_up_to_equal_bounds() {
    assert_eq!(int_range(1, 128).validate(), Ok(()));
    assert_eq!(int_range(5, 5).validate(), Ok(()));
    assert_eq!(int_range(-3, 0).validate(), Ok(()));
    assert_eq!(int_range(i128::MIN, i128::MAX).validate(), Ok(()));
}

#[test]
fn a_range_with_the_lower_bound_above_the_upper_is_not_valid() {
    assert_eq!(int_range(128, 1).validate(), Err(inverted()));
    assert_eq!(int_range(0, -1).validate(), Err(inverted()));
    assert_eq!(int_range(i128::MAX, i128::MIN).validate(), Err(inverted()));
}

#[test]
fn bounds_of_any_size_are_compared() {
    let big = |text: &str| Some(ASN1Value::Integer(BigInteger::parse(text).unwrap()));
    let huge = "340282366920938463463374607431768211456000";
    let huger = "340282366920938463463374607431768211456001";
    assert_eq!(range(big(huge), big(huger)).validate(), Ok(()));
    assert_eq!(range(big(huge), big(huge)).validate(), Ok(()));
    assert_eq!(range(big(huger), big(huge)).validate(), Err(inverted()));
    assert_eq!(range(big("-340282366920938463463374607431768211456001"), big(huge)).validate(), Ok(()));
    assert_eq!(
        range(big("-340282366920938463463374607431768211456000"), big("-340282366920938463463374607431768211456001"))
            .validate(),
        Err(inverted())
    );
    assert_eq!(range(big("1"), big("-340282366920938463463374607431768211456001")).validate(), Err(inverted()));
}

#[test]
fn a_range_with_an_open_or_unresolved_bound_is_accepted() {
    assert_eq!(range(Some(ASN1Value::Integer(BigInteger::from_i128(9))), None).validate(), Ok(()));
    assert_eq!(range(None, Some(ASN1Value::Integer(BigInteger::from_i128(-9)))).validate(), Ok(()));
    assert_eq!(range(None, None).validate(), Ok(()));
    assert_eq!(
        range(Some(ASN1Value::Integer(BigInteger::from_i128(9))), Some(ASN1Value::NamedReference("max".to_string()))).validate(),
        Ok(())
    );
    assert_eq!(
        range(Some(ASN1Value::Boolean(true)), Some(ASN1Value::Integer(BigInteger::from_i128(0)))).validate(),
        Ok(())
    );
}

#[test]
fn other_constraints_are_accepted() {
    let inverted_range = SubtypeElement::ValueRange {
        min: Some(ASN1Value::Integer(BigInteger::from_i128(9))),
        max: Some(ASN1Value::Integer(BigInteger::from_i128(1))),
        extensible: false,
    };
    let size = Constraint::SubtypeConstraint(ElementSet {
        set: ElementOrSetOperation::Element(SubtypeElement::SizeConstraint(Box::new(
            ElementOrSetOperation::Element(inverted_range.duplicate()),
        ))),
        extensible: false,
    });
    assert_eq!(size.validate(), Ok(()));
    let union = Constraint::SubtypeConstraint(ElementSet {
        set: ElementOrSetOperation::SetOperation(SetOperation {
            base: inverted_range,
            operator: SetOperator::Union,
            operant: Box::new(ElementOrSetOperation::Element(SubtypeElement::PatternConstraint(
                "a*".to_string(),
            ))),
        }),
        extensible: false,
    });
    assert_eq!(union.validate(), Ok(()));
    let content =
        Constraint::ContentConstraint(ContentConstraint { containing: Some("T".to_string()), encoded_by: None });
    assert_eq!(content.validate(), Ok(()));
}

#[test]
fn an_integer_is_valid_if_each_constraint_is() {
    assert_eq!(integer(vec![]).validate(), Ok(()));
    assert_eq!(integer(vec![int_range(1, 2), int_range(3, 4)]).validate(), Ok(()));
    assert_eq!(integer(vec![int_range(1, 2), int_range(4, 3)]).validate(), Err(inverted()));
    assert_eq!(integer(vec![int_range(2, 1), int_range(3, 4)]).validate(), Err(inverted()));
}

#[test]
fn bit_strings_and_character_strings_are_checked() {
    let bits = |constraints| BitString { constraints, distinguished_values: vec![] };
    assert_eq!(bits(vec![int_range(1, 2)]).validate(), Ok(()));
    assert_eq!(bits(vec![int_range(2, 1)]).validate(), Err(inverted()));
    let text = |constraints| CharacterString { constraints, kind: CharacterStringType::UTF8String };
    assert_eq!(text(vec![int_range(1, 2)]).validate(), Ok(()));
    assert_eq!(text(vec![int_range(2, 1)]).validate(), Err(inverted()));
    assert_eq!(ASN1Type::BitString(bits(vec![int_range(2, 1)])).validate(), Err(inverted()));
    assert_eq!(ASN1Type::CharacterString(text(vec![int_range(2, 1)])).validate(), Err(inverted()));
    assert_eq!(ASN1Type::Integer(integer(vec![int_range(2, 1)])).validate(), Err(inverted()));
}

#[test]
fn other_types_are_accepted_as_they_are() {
    assert_eq!(ASN1Type::OctetString(OctetString { constraints: vec![int_range(2, 1)] }).validate(), Ok(()));
    assert_eq!(ASN1Type::Boolean.validate(), Ok(()));
    let nested = ASN1Type::Sequence(SequenceOrSet {
        extensible: None,
        constraints: vec![int_range(2, 1)],
        members: vec![SequenceComponent::Member(SequenceOrSetMember {
            name: "n".to_string(),
            tag: None,
            ty: ASN1Type::Integer(integer(vec![int_range(2, 1)])),
            default_value: None,
            is_optional: false,
        })],
    });
    assert_eq!(nested.validate(), Ok(()));
}

#[test]
fn the_diagnostic_of_a_definition_names_it() {
    let bad = type_definition("Bad", ASN1Type::Integer(integer(vec![int_range(2, 1)])));
    assert_eq!(
        bad.validate(),
        Err(ValidatorError { data_element: Some("Bad".to_string()), ..inverted() })
    );
    assert_eq!(type_definition("Good", ASN1Type::Integer(integer(vec![int_range(1, 2)]))).validate(), Ok(()));
    let value = ToplevelDefinition::Value(ToplevelValueDefinition {
        name: "v".to_string(),
        associated_type: "Bad".to_string(),
        value: ASN1Value::Integer(BigInteger::from_i128(0)),
        supertypes: vec![],
        index: None,
    });
    assert_eq!(value.validate(), Ok(()));
}

#[test]
fn warnings_come_before_the_diagnostics_of_the_validator() {
    let unresolved = type_definition(
        "Zed",
        ASN1Type::Integer(integer(vec![range(
            Some(ASN1Value::Integer(BigInteger::from_i128(1))),
            Some(ASN1Value::NamedReference("nowhere".to_string())),
        )])),
    );
    let first_bad = type_definition("Bad", ASN1Type::Integer(integer(vec![int_range(2, 1)])));
    let second_bad = type_definition("Worse", ASN1Type::Integer(integer(vec![int_range(9, 1)])));
    let good = type_definition("Good", ASN1Type::Boolean);
    let (tlds, diagnostics) = Validator::new(vec![second_bad, unresolved, good, first_bad]).validate().unwrap();
    let names: Vec<&str> = tlds.iter().map(|t| t.name().as_str()).collect();
    assert_eq!(names, vec!["Good", "Zed"]);
    let reported: Vec<(ValidatorErrorType, Option<&str>)> =
        diagnostics.iter().map(|d| (d.kind, d.data_element.as_deref())).collect();
    assert_eq!(
        reported,
        vec![
            (ValidatorErrorType::MissingDependency, Some("Zed")),
            (ValidatorErrorType::InvalidConstraintsError, Some("Bad")),
            (ValidatorErrorType::InvalidConstraintsError, Some("Worse")),
        ]
    );
}

#[test]
fn an_empty_working_set_validates_to_nothing() {
    let (tlds, diagnostics) = Validator::new(vec![]).validate().unwrap();
    assert!(tlds.is_empty());
    assert!(diagnostics.is_empty());
}

#[test]
fn a_diagnostic_is_made_of_its_parts() {
    let mut error = ValidatorError::new(None, "details", ValidatorErrorType::SemanticError);
    assert_eq!(
        error,
        ValidatorError {
            data_element: None,
            details: "details".to_string(),
            kind: ValidatorErrorType::SemanticError
        }
    );
    error.specify_data_element("First".to_string());
    error.specify_data_element("Second".to_string());
    assert_eq!(error.data_element, Some("Second".to_string()));
    assert_eq!(error.details, "details");
}

#[test]
fn a_linking_failure_becomes_a_diagnostic_of_its_kind() {
    let failure = |kind| GrammarError { details: "why".to_string(), kind };
    let linker = ValidatorError::from_grammar_error(failure(GrammarErrorType::LinkerError), "T".to_string());
    assert_eq!(
        linker,
        ValidatorError {
            data_element: Some("T".to_string()),
            details: "why".to_string(),
            kind: ValidatorErrorType::LinkerError
        }
    );
    let missing =
        ValidatorError::from_grammar_error(failure(GrammarErrorType::MissingDependency), "T".to_string());
    assert_eq!(missing.kind, ValidatorErrorType::MissingDependency);
}

#[test]
fn try_new_accepts_definitions_of_different_names() {
    let validator = Validator::try_new(vec![
        type_definition("B", ASN1Type::Boolean),
        type_definition("A", ASN1Type::Null),
    ])
    .unwrap();
    let (tlds, diagnostics) = validator.validate().unwrap();
    assert_eq!(tlds, vec![type_definition("A", ASN1Type::Null), type_definition("B", ASN1Type::Boolean)]);
    assert!(diagnostics.is_empty());
    assert!(Validator::try_new(vec![]).is_ok());
}

#[test]
fn try_new_reports_the_first_name_that_is_taken() {
    let error = Validator::try_new(vec![
        type_definition("A", ASN1Type::Boolean),
        type_definition("B", ASN1Type::Boolean),
        type_definition("C", ASN1Type::Boolean),
        type_definition("B", ASN1Type::Null),
        type_definition("A", ASN1Type::Null),
    ])
    .unwrap_err();
    assert_eq!(
        error,
        ValidatorError {
            data_element: Some("B".to_string()),
            details: "A definition of the same name exists already".to_string(),
            kind: ValidatorErrorType::SemanticError,
        }
    );
}
