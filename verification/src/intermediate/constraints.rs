//! Constraints that narrow the values of a type.

use vstd::prelude::*;
use crate::intermediate::values::{
    duplicate_names, duplicate_optional_value, optional_value_view, ASN1Value, ValueModel,
};

verus! {

/// A constraint attached to a type.
#[derive(Debug, PartialEq)]
pub enum Constraint {
    SubtypeConstraint(ElementSet),
    TableConstraint(TableConstraint),
    ContentConstraint(ContentConstraint),
}

/// The element set of a subtype constraint, with its extension marker.
#[derive(Debug, PartialEq)]
pub struct ElementSet {
    pub set: ElementOrSetOperation,
    pub extensible: bool,
}

/// A single subtype element, or elements combined by a set operator.
#[derive(Debug, PartialEq)]
pub enum ElementOrSetOperation {
    Element(SubtypeElement),
    SetOperation(SetOperation),
}

/// `base operator operant`
#[derive(Debug, PartialEq)]
pub struct SetOperation {
    pub base: SubtypeElement,
    pub operator: SetOperator,
    pub operant: Box<ElementOrSetOperation>,
}

#[derive(Debug, Clone, Copy, PartialEq, Eq, Structural)]
pub enum SetOperator {
    Intersection,
    Union,
    Except,
}

/// One kind of subtype element.
#[derive(Debug, PartialEq)]
pub enum SubtypeElement {
    SingleValue { value: ASN1Value, extensible: bool },
    /// `INCLUDES subtype`, the included type given by name.
    ContainedSubtype { subtype: String, extensible: bool },
    ValueRange { min: Option<ASN1Value>, max: Option<ASN1Value>, extensible: bool },
    PermittedAlphabet(Box<ElementOrSetOperation>),
    SizeConstraint(Box<ElementOrSetOperation>),
    PatternConstraint(String),
    /// `WITH COMPONENT` (one unnamed component) or `WITH COMPONENTS`.
    InnerType { is_partial: bool, components: Vec<ConstrainedComponent> },
}

/// The constraints that an inner-type constraint puts on one component.
#[derive(Debug, PartialEq)]
pub struct ConstrainedComponent {
    /// `None` for the single component of `WITH COMPONENT`.
    pub identifier: Option<String>,
    pub constraints: Vec<Constraint>,
    pub presence: ComponentPresence,
}

#[derive(Debug, Clone, Copy, PartialEq, Eq, Structural)]
pub enum ComponentPresence {
    Absent,
    Present,
    Optional,
    Unspecified,
}

/// A table constraint: the object set, and the fields that select a row of it.
#[derive(Debug, PartialEq)]
pub struct TableConstraint {
    pub object_set: String,
    pub linked_fields: Vec<String>,
}

/// `CONTAINING type ENCODED BY value`
#[derive(Debug, PartialEq)]
pub struct ContentConstraint {
    pub containing: Option<String>,
    pub encoded_by: Option<ASN1Value>,
}

/// The mathematical content of a [`Constraint`].
pub enum ConstraintModel {
    SubtypeConstraint(ElementSetModel),
    TableConstraint { object_set: Seq<char>, linked_fields: Seq<Seq<char>> },
    ContentConstraint { containing: Option<Seq<char>>, encoded_by: Option<ValueModel> },
}

/// The mathematical content of an [`ElementSet`].
pub struct ElementSetModel {
    pub set: ElementsModel,
    pub extensible: bool,
}

/// The mathematical content of an [`ElementOrSetOperation`].
pub enum ElementsModel {
    Element(ElementModel),
    SetOperation { base: ElementModel, operator: SetOperator, operant: Box<ElementsModel> },
}

/// The mathematical content of a [`SubtypeElement`].
pub enum ElementModel {
    SingleValue { value: ValueModel, extensible: bool },
    ContainedSubtype { subtype: Seq<char>, extensible: bool },
    ValueRange { min: Option<ValueModel>, max: Option<ValueModel>, extensible: bool },
    PermittedAlphabet(Box<ElementsModel>),
    SizeConstraint(Box<ElementsModel>),
    PatternConstraint(Seq<char>),
    InnerType { is_partial: bool, components: Seq<ConstrainedComponentModel> },
}

/// The mathematical content of a [`ConstrainedComponent`].
pub struct ConstrainedComponentModel {
    pub identifier: Option<Seq<char>>,
    pub constraints: Seq<ConstraintModel>,
    pub presence: ComponentPresence,
}

/// The content of an optional name.
pub open spec fn optional_name_view(n: Option<String>) -> Option<Seq<char>> {
    match n {
        Some(s) => Some(s@),
        None => None,
    }
}

/// The content of a list of names.
pub open spec fn names_view(names: Seq<String>) -> Seq<Seq<char>> {
    Seq::new(names.len(), |i: int| names[i]@)
}

pub open spec fn constraint_view(c: Constraint) -> ConstraintModel
    decreases c,
{
    match c {
        Constraint::SubtypeConstraint(s) => ConstraintModel::SubtypeConstraint(
            ElementSetModel { set: elements_view(s.set), extensible: s.extensible },
        ),
        Constraint::TableConstraint(t) => ConstraintModel::TableConstraint {
            object_set: t.object_set@,
            linked_fields: names_view(t.linked_fields@),
        },
        Constraint::ContentConstraint(c) => ConstraintModel::ContentConstraint {
            containing: optional_name_view(c.containing),
            encoded_by: optional_value_view(c.encoded_by),
        },
    }
}

pub open spec fn elements_view(e: ElementOrSetOperation) -> ElementsModel
    decreases e,
{
    match e {
        ElementOrSetOperation::Element(el) => ElementsModel::Element(element_view(el)),
        ElementOrSetOperation::SetOperation(op) => ElementsModel::SetOperation {
            base: element_view(op.base),
            operator: op.operator,
            operant: Box::new(elements_view(*op.operant)),
        },
    }
}

pub open spec fn element_view(e: SubtypeElement) -> ElementModel
    decreases e,
{
    match e {
        SubtypeElement::SingleValue { value, extensible } => ElementModel::SingleValue {
            value: value@,
            extensible,
        },
        SubtypeElement::ContainedSubtype { subtype, extensible } => ElementModel::ContainedSubtype {
            subtype: subtype@,
            extensible,
        },
        SubtypeElement::ValueRange { min, max, extensible } => ElementModel::ValueRange {
            min: optional_value_view(min),
            max: optional_value_view(max),
            extensible,
        },
        SubtypeElement::PermittedAlphabet(inner) => ElementModel::PermittedAlphabet(
            Box::new(elements_view(*inner)),
        ),
        SubtypeElement::SizeConstraint(inner) => ElementModel::SizeConstraint(
            Box::new(elements_view(*inner)),
        ),
        SubtypeElement::PatternConstraint(p) => ElementModel::PatternConstraint(p@),
        SubtypeElement::InnerType { is_partial, components } => ElementModel::InnerType {
            is_partial,
            components: Seq::new(
                components@.len(),
                |i: int|
                    if 0 <= i < components@.len() {
                        component_view(components@[i])
                    } else {
                        arbitrary()
                    },
            ),
        },
    }
}

pub open spec fn component_view(c: ConstrainedComponent) -> ConstrainedComponentModel
    decreases c,
{
    ConstrainedComponentModel {
        identifier: optional_name_view(c.identifier),
        constraints: constraints_view(c.constraints),
        presence: c.presence,
    }
}

/// The content of a list of constraints.
pub open spec fn constraints_view(cs: Vec<Constraint>) -> Seq<ConstraintModel>
    decreases cs,
{
    Seq::new(
        cs@.len(),
        |i: int|
            if 0 <= i < cs@.len() {
                constraint_view(cs@[i])
            } else {
                arbitrary()
            },
    )
}

impl View for Constraint {
    type V = ConstraintModel;

    open spec fn view(&self) -> ConstraintModel {
        constraint_view(*self)
    }
}

impl View for ElementOrSetOperation {
    type V = ElementsModel;

    open spec fn view(&self) -> ElementsModel {
        elements_view(*self)
    }
}

impl View for SubtypeElement {
    type V = ElementModel;

    open spec fn view(&self) -> ElementModel {
        element_view(*self)
    }
}

impl View for ConstrainedComponent {
    type V = ConstrainedComponentModel;

    open spec fn view(&self) -> ConstrainedComponentModel {
        component_view(*self)
    }
}

/// A copy of an optional name.
pub fn duplicate_optional_name(n: &Option<String>) -> (r: Option<String>)
    ensures
        r == *n,
{
    match n {
        Some(s) => Some(s.clone()),
        None => None,
    }
}

impl Constraint {
    /// A copy of the constraint.
    pub fn duplicate(&self) -> (r: Constraint)
        ensures
            r@ == self@,
        decreases self,
    {
        match self {
            Constraint::SubtypeConstraint(s) => Constraint::SubtypeConstraint(
                ElementSet { set: s.set.duplicate(), extensible: s.extensible },
            ),
            Constraint::TableConstraint(t) => Constraint::TableConstraint(
                TableConstraint {
                    object_set: t.object_set.clone(),
                    linked_fields: duplicate_names(&t.linked_fields),
                },
            ),
            Constraint::ContentConstraint(c) => Constraint::ContentConstraint(
                ContentConstraint {
                    containing: duplicate_optional_name(&c.containing),
                    encoded_by: duplicate_optional_value(&c.encoded_by),
                },
            ),
        }
    }
}

impl ElementOrSetOperation {
    /// A copy of the elements.
    pub fn duplicate(&self) -> (r: ElementOrSetOperation)
        ensures
            r@ == self@,
        decreases self,
    {
        match self {
            ElementOrSetOperation::Element(el) => ElementOrSetOperation::Element(el.duplicate()),
            ElementOrSetOperation::SetOperation(op) => ElementOrSetOperation::SetOperation(
                SetOperation {
                    base: op.base.duplicate(),
                    operator: op.operator,
                    operant: Box::new(op.operant.duplicate()),
                },
            ),
        }
    }
}

impl SubtypeElement {
    /// A copy of the element.
    #[verifier::loop_isolation(false)]
    pub fn duplicate(&self) -> (r: SubtypeElement)
        ensures
            r@ == self@,
        decreases self,
    {
        match self {
            SubtypeElement::SingleValue { value, extensible } => SubtypeElement::SingleValue {
                value: value.duplicate(),
                extensible: *extensible,
            },
            SubtypeElement::ContainedSubtype { subtype, extensible } => SubtypeElement::ContainedSubtype {
                subtype: subtype.clone(),
                extensible: *extensible,
            },
            SubtypeElement::ValueRange { min, max, extensible } => SubtypeElement::ValueRange {
                min: duplicate_optional_value(min),
                max: duplicate_optional_value(max),
                extensible: *extensible,
            },
            SubtypeElement::PermittedAlphabet(inner) => SubtypeElement::PermittedAlphabet(
                Box::new(inner.duplicate()),
            ),
            SubtypeElement::SizeConstraint(inner) => SubtypeElement::SizeConstraint(
                Box::new(inner.duplicate()),
            ),
            SubtypeElement::PatternConstraint(p) => SubtypeElement::PatternConstraint(p.clone()),
            SubtypeElement::InnerType { is_partial, components } => {
                let mut out: Vec<ConstrainedComponent> = Vec::new();
                let mut i: usize = 0;
                while i < components.len()
                    invariant
                        i <= components.len(),
                        out.len() == i,
                        forall|j: int| 0 <= j < i ==> out[j]@ == components[j]@,
                    decreases components.len() - i,
                {
                    out.push(
                        ConstrainedComponent {
                            identifier: duplicate_optional_name(&components[i].identifier),
                            constraints: duplicate_constraints(&components[i].constraints),
                            presence: components[i].presence,
                        },
                    );
                    i += 1;
                }
                let r = SubtypeElement::InnerType { is_partial: *is_partial, components: out };
                assert(r@->InnerType_components =~= self@->InnerType_components);
                r
            },
        }
    }
}

/// A copy of a list of constraints.
pub fn duplicate_constraints(cs: &Vec<Constraint>) -> (r: Vec<Constraint>)
    ensures
        constraints_view(r) == constraints_view(*cs),
    decreases cs,
{
    let mut out: Vec<Constraint> = Vec::new();
    let mut i: usize = 0;
    while i < cs.len()
        invariant
            i <= cs.len(),
            out.len() == i,
            forall|j: int| 0 <= j < i ==> out[j]@ == cs[j]@,
        decreases cs.len() - i,
    {
        out.push(cs[i].duplicate());
        i += 1;
    }
    assert(constraints_view(out) =~= constraints_view(*cs));
    out
}

} // verus!
