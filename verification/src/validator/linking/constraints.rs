//! Resolution of the values that constraints refer to by name.

use vstd::prelude::*;
use crate::intermediate::constraints::{
    constraints_view, duplicate_optional_name, ConstrainedComponent, ConstrainedComponentModel,
    Constraint, ConstraintModel, ElementModel, ElementOrSetOperation, ElementSet, ElementSetModel,
    ElementsModel, SetOperation, SubtypeElement,
};
use crate::intermediate::toplevel::DefinitionModel;
use crate::intermediate::values::{optional_value_view, ASN1Value, ValueModel};
use crate::validator::index::ReferenceIndex;
use crate::validator::linking::utils::{find_tld_or_enum_value_by_name, find_value};

verus! {

/// The value with a reference by name replaced by what the name stands for;
/// the reference stays where the name stands for nothing.
pub open spec fn linked_value(v: ValueModel, expected: Seq<char>, s: Seq<DefinitionModel>) -> ValueModel {
    match v {
        ValueModel::NamedReference(n) => match find_value(s, expected, n) {
            Some(x) => x,
            None => v,
        },
        _ => v,
    }
}

/// The value is no reference by name, or the name stands for something.
pub open spec fn value_resolves(v: ValueModel, expected: Seq<char>, s: Seq<DefinitionModel>) -> bool {
    v matches ValueModel::NamedReference(n) ==> find_value(s, expected, n) is Some
}

/// [`linked_value`] of an optional value.
pub open spec fn linked_optional_value(v: Option<ValueModel>, expected: Seq<char>, s: Seq<DefinitionModel>) -> Option<
    ValueModel,
> {
    match v {
        Some(x) => Some(linked_value(x, expected, s)),
        None => None,
    }
}

/// [`value_resolves`] of an optional value.
pub open spec fn optional_value_resolves(v: Option<ValueModel>, expected: Seq<char>, s: Seq<DefinitionModel>) -> bool {
    v matches Some(x) ==> value_resolves(x, expected, s)
}

/// The optional value is a reference by name.
pub open spec fn optional_value_is_reference(v: Option<ValueModel>) -> bool {
    v matches Some(x) && x is NamedReference
}

impl ConstraintModel {
    /// The constraint refers to a value by name.
    pub open spec fn has_reference(self) -> bool
        decreases self,
    {
        match self {
            ConstraintModel::SubtypeConstraint(e) => e.set.has_reference(),
            _ => false,
        }
    }

    /// The constraint with every reference replaced that stands for a value.
    pub open spec fn linked(self, expected: Seq<char>, s: Seq<DefinitionModel>) -> ConstraintModel
        decreases self,
    {
        match self {
            ConstraintModel::SubtypeConstraint(e) => ConstraintModel::SubtypeConstraint(
                ElementSetModel { set: e.set.linked(expected, s), extensible: e.extensible },
            ),
            _ => self,
        }
    }

    /// Every reference of the constraint stands for a value.
    pub open spec fn resolves(self, expected: Seq<char>, s: Seq<DefinitionModel>) -> bool
        decreases self,
    {
        match self {
            ConstraintModel::SubtypeConstraint(e) => e.set.resolves(expected, s),
            _ => true,
        }
    }
}

impl ElementsModel {
    pub open spec fn has_reference(self) -> bool
        decreases self,
    {
        match self {
            ElementsModel::Element(e) => e.has_reference(),
            ElementsModel::SetOperation { base, operant, .. } => base.has_reference() || operant.has_reference(),
        }
    }

    pub open spec fn linked(self, expected: Seq<char>, s: Seq<DefinitionModel>) -> ElementsModel
        decreases self,
    {
        match self {
            ElementsModel::Element(e) => ElementsModel::Element(e.linked(expected, s)),
            ElementsModel::SetOperation { base, operator, operant } => ElementsModel::SetOperation {
                base: base.linked(expected, s),
                operator,
                operant: Box::new(operant.linked(expected, s)),
            },
        }
    }

    pub open spec fn resolves(self, expected: Seq<char>, s: Seq<DefinitionModel>) -> bool
        decreases self,
    {
        match self {
            ElementsModel::Element(e) => e.resolves(expected, s),
            ElementsModel::SetOperation { base, operant, .. } => base.resolves(expected, s) && operant.resolves(
                expected,
                s,
            ),
        }
    }
}

impl ElementModel {
    pub open spec fn has_reference(self) -> bool
        decreases self,
    {
        match self {
            ElementModel::SingleValue { value, .. } => value is NamedReference,
            ElementModel::ValueRange { min, max, .. } => optional_value_is_reference(min)
                || optional_value_is_reference(max),
            ElementModel::PermittedAlphabet(inner) => inner.has_reference(),
            ElementModel::SizeConstraint(inner) => inner.has_reference(),
            ElementModel::InnerType { components, .. } => exists|i: int|
                0 <= i < components.len() && constraints_have_reference((#[trigger] components[i]).constraints),
            _ => false,
        }
    }

    pub open spec fn linked(self, expected: Seq<char>, s: Seq<DefinitionModel>) -> ElementModel
        decreases self,
    {
        match self {
            ElementModel::SingleValue { value, extensible } => ElementModel::SingleValue {
                value: linked_value(value, expected, s),
                extensible,
            },
            ElementModel::ValueRange { min, max, extensible } => ElementModel::ValueRange {
                min: linked_optional_value(min, expected, s),
                max: linked_optional_value(max, expected, s),
                extensible,
            },
            ElementModel::PermittedAlphabet(inner) => ElementModel::PermittedAlphabet(
                Box::new(inner.linked(expected, s)),
            ),
            ElementModel::SizeConstraint(inner) => ElementModel::SizeConstraint(
                Box::new(inner.linked(expected, s)),
            ),
            ElementModel::InnerType { is_partial, components } => ElementModel::InnerType {
                is_partial,
                components: Seq::new(
                    components.len(),
                    |i: int|
                        if 0 <= i < components.len() {
                            ConstrainedComponentModel {
                                identifier: components[i].identifier,
                                constraints: linked_constraints(components[i].constraints, expected, s),
                                presence: components[i].presence,
                            }
                        } else {
                            arbitrary()
                        },
                ),
            },
            _ => self,
        }
    }

    pub open spec fn resolves(self, expected: Seq<char>, s: Seq<DefinitionModel>) -> bool
        decreases self,
    {
        match self {
            ElementModel::SingleValue { value, .. } => value_resolves(value, expected, s),
            ElementModel::ValueRange { min, max, .. } => optional_value_resolves(min, expected, s)
                && optional_value_resolves(max, expected, s),
            ElementModel::PermittedAlphabet(inner) => inner.resolves(expected, s),
            ElementModel::SizeConstraint(inner) => inner.resolves(expected, s),
            ElementModel::InnerType { components, .. } => forall|i: int|
                0 <= i < components.len() ==> constraints_resolve(
                    (#[trigger] components[i]).constraints,
                    expected,
                    s,
                ),
            _ => true,
        }
    }
}

/// One of the constraints refers to a value by name.
pub open spec fn constraints_have_reference(cs: Seq<ConstraintModel>) -> bool
    decreases cs,
{
    exists|i: int| 0 <= i < cs.len() && (#[trigger] cs[i]).has_reference()
}

/// The constraints, each with every reference replaced that stands for a value.
pub open spec fn linked_constraints(cs: Seq<ConstraintModel>, expected: Seq<char>, s: Seq<DefinitionModel>) -> Seq<
    ConstraintModel,
>
    decreases cs,
{
    Seq::new(
        cs.len(),
        |i: int|
            if 0 <= i < cs.len() {
                cs[i].linked(expected, s)
            } else {
                arbitrary()
            },
    )
}

/// Every reference of the constraints stands for a value.
pub open spec fn constraints_resolve(cs: Seq<ConstraintModel>, expected: Seq<char>, s: Seq<DefinitionModel>) -> bool
    decreases cs,
{
    forall|i: int| 0 <= i < cs.len() ==> (#[trigger] cs[i]).resolves(expected, s)
}

/// Whether a value is a reference by name.
fn is_reference(v: &ASN1Value) -> (r: bool)
    ensures
        r == (v@ is NamedReference),
{
    match v {
        ASN1Value::NamedReference(_) => true,
        _ => false,
    }
}

/// Whether an optional value is a reference by name.
fn is_optional_reference(v: &Option<ASN1Value>) -> (r: bool)
    ensures
        r == optional_value_is_reference(optional_value_view(*v)),
{
    match v {
        Some(x) => is_reference(x),
        None => false,
    }
}

/// Replaces a reference by name by the value that the name stands for.
/// The flag says whether nothing was left unresolved.
fn link_value(v: &ASN1Value, expected: &String, tlds: &ReferenceIndex) -> (r: (ASN1Value, bool))
    ensures
        r.0@ == linked_value(v@, expected@, tlds@),
        r.1 == value_resolves(v@, expected@, tlds@),
{
    match v {
        ASN1Value::NamedReference(n) => match find_tld_or_enum_value_by_name(expected, n, tlds) {
            Some(x) => (x, true),
            None => (v.duplicate(), false),
        },
        _ => (v.duplicate(), true),
    }
}

/// [`link_value`] for an optional value.
fn link_optional_value(v: &Option<ASN1Value>, expected: &String, tlds: &ReferenceIndex) -> (r: (
    Option<ASN1Value>,
    bool,
))
    ensures
        optional_value_view(r.0) == linked_optional_value(optional_value_view(*v), expected@, tlds@),
        r.1 == optional_value_resolves(optional_value_view(*v), expected@, tlds@),
{
    match v {
        Some(x) => {
            let (y, ok) = link_value(x, expected, tlds);
            (Some(y), ok)
        },
        None => (None, true),
    }
}

impl Constraint {
    /// Whether the constraint refers to a value by name.
    pub fn has_cross_reference(&self) -> (r: bool)
        ensures
            r == self@.has_reference(),
        decreases self,
    {
        match self {
            Constraint::SubtypeConstraint(e) => e.set.has_cross_reference(),
            _ => false,
        }
    }

    /// The constraint with each reference by name replaced by the value that
    /// the name stands for in `tlds`, where a value of the type `expected` is
    /// expected. A reference whose name stands for nothing stays; the flag
    /// says whether none stayed for that reason.
    pub fn link_cross_reference(&self, expected: &String, tlds: &ReferenceIndex) -> (r: (Constraint, bool))
        ensures
            r.0@ == self@.linked(expected@, tlds@),
            r.1 == self@.resolves(expected@, tlds@),
        decreases self,
    {
        match self {
            Constraint::SubtypeConstraint(e) => {
                let (set, ok) = e.set.link_cross_reference(expected, tlds);
                (Constraint::SubtypeConstraint(ElementSet { set, extensible: e.extensible }), ok)
            },
            _ => (self.duplicate(), true),
        }
    }
}

impl ElementOrSetOperation {
    /// Whether one of the elements refers to a value by name.
    pub fn has_cross_reference(&self) -> (r: bool)
        ensures
            r == self@.has_reference(),
        decreases self,
    {
        match self {
            ElementOrSetOperation::Element(e) => e.has_cross_reference(),
            ElementOrSetOperation::SetOperation(op) => op.base.has_cross_reference()
                || op.operant.has_cross_reference(),
        }
    }

    /// See [`Constraint::link_cross_reference`].
    pub fn link_cross_reference(&self, expected: &String, tlds: &ReferenceIndex) -> (r: (
        ElementOrSetOperation,
        bool,
    ))
        ensures
            r.0@ == self@.linked(expected@, tlds@),
            r.1 == self@.resolves(expected@, tlds@),
        decreases self,
    {
        match self {
            ElementOrSetOperation::Element(e) => {
                let (x, ok) = e.link_cross_reference(expected, tlds);
                (ElementOrSetOperation::Element(x), ok)
            },
            ElementOrSetOperation::SetOperation(op) => {
                let (base, ok_base) = op.base.link_cross_reference(expected, tlds);
                let (operant, ok_operant) = op.operant.link_cross_reference(expected, tlds);
                (
                    ElementOrSetOperation::SetOperation(
                        SetOperation { base, operator: op.operator, operant: Box::new(operant) },
                    ),
                    ok_base && ok_operant,
                )
            },
        }
    }
}

impl SubtypeElement {
    /// Whether the element refers to a value by name.
    #[verifier::loop_isolation(false)]
    pub fn has_cross_reference(&self) -> (r: bool)
        ensures
            r == self@.has_reference(),
        decreases self,
    {
        match self {
            SubtypeElement::SingleValue { value, .. } => is_reference(value),
            SubtypeElement::ValueRange { min, max, .. } => is_optional_reference(min) || is_optional_reference(
                max,
            ),
            SubtypeElement::PermittedAlphabet(inner) => inner.has_cross_reference(),
            SubtypeElement::SizeConstraint(inner) => inner.has_cross_reference(),
            SubtypeElement::InnerType { components, .. } => {
                let mut i: usize = 0;
                while i < components.len()
                    invariant
                        i <= components.len(),
                        forall|j: int|
                            0 <= j < i ==> !constraints_have_reference(
                                (#[trigger] self@->InnerType_components[j]).constraints,
                            ),
                    decreases components.len() - i,
                {
                    if have_cross_reference(&components[i].constraints) {
                        assert(constraints_have_reference(self@->InnerType_components[i as int].constraints));
                        return true;
                    }
                    i += 1;
                }
                false
            },
            _ => false,
        }
    }

    /// See [`Constraint::link_cross_reference`].
    #[verifier::loop_isolation(false)]
    pub fn link_cross_reference(&self, expected: &String, tlds: &ReferenceIndex) -> (r: (SubtypeElement, bool))
        ensures
            r.0@ == self@.linked(expected@, tlds@),
            r.1 == self@.resolves(expected@, tlds@),
        decreases self,
    {
        match self {
            SubtypeElement::SingleValue { value, extensible } => {
                let (v, ok) = link_value(value, expected, tlds);
                (SubtypeElement::SingleValue { value: v, extensible: *extensible }, ok)
            },
            SubtypeElement::ValueRange { min, max, extensible } => {
                let (lo, ok_lo) = link_optional_value(min, expected, tlds);
                let (hi, ok_hi) = link_optional_value(max, expected, tlds);
                (SubtypeElement::ValueRange { min: lo, max: hi, extensible: *extensible }, ok_lo && ok_hi)
            },
            SubtypeElement::PermittedAlphabet(inner) => {
                let (x, ok) = inner.link_cross_reference(expected, tlds);
                (SubtypeElement::PermittedAlphabet(Box::new(x)), ok)
            },
            SubtypeElement::SizeConstraint(inner) => {
                let (x, ok) = inner.link_cross_reference(expected, tlds);
                (SubtypeElement::SizeConstraint(Box::new(x)), ok)
            },
            SubtypeElement::InnerType { is_partial, components } => {
                let ghost before = self@->InnerType_components;
                let mut out: Vec<ConstrainedComponent> = Vec::new();
                let mut ok = true;
                let mut i: usize = 0;
                while i < components.len()
                    invariant
                        i <= components.len(),
                        out.len() == i,
                        forall|j: int|
                            0 <= j < i ==> (#[trigger] out[j])@ == self@.linked(
                                expected@,
                                tlds@,
                            )->InnerType_components[j],
                        ok ==> forall|j: int|
                            0 <= j < i ==> constraints_resolve((#[trigger] before[j]).constraints, expected@, tlds@),
                        !ok ==> exists|j: int|
                            0 <= j < i && !constraints_resolve((#[trigger] before[j]).constraints, expected@, tlds@),
                    decreases components.len() - i,
                {
                    let (cs, ok_here) = link_cross_references(&components[i].constraints, expected, tlds);
                    assert(before[i as int] == components[i as int]@);
                    out.push(
                        ConstrainedComponent {
                            identifier: duplicate_optional_name(&components[i].identifier),
                            constraints: cs,
                            presence: components[i].presence,
                        },
                    );
                    ok = ok && ok_here;
                    i += 1;
                }
                let r = SubtypeElement::InnerType { is_partial: *is_partial, components: out };
                assert(r@->InnerType_components =~= self@.linked(expected@, tlds@)->InnerType_components);
                (r, ok)
            },
            _ => (self.duplicate(), true),
        }
    }
}

/// Whether one of the constraints refers to a value by name.
pub fn have_cross_reference(cs: &Vec<Constraint>) -> (r: bool)
    ensures
        r == constraints_have_reference(constraints_view(*cs)),
    decreases cs,
{
    let mut i: usize = 0;
    while i < cs.len()
        invariant
            i <= cs.len(),
            forall|j: int| 0 <= j < i ==> !(#[trigger] constraints_view(*cs)[j]).has_reference(),
        decreases cs.len() - i,
    {
        if cs[i].has_cross_reference() {
            assert(constraints_view(*cs)[i as int].has_reference());
            return true;
        }
        i += 1;
    }
    false
}

/// The constraints, each linked as [`Constraint::link_cross_reference`] says.
/// The flag says whether no reference stayed unresolved.
pub fn link_cross_references(cs: &Vec<Constraint>, expected: &String, tlds: &ReferenceIndex) -> (r: (
    Vec<Constraint>,
    bool,
))
    ensures
        constraints_view(r.0) == linked_constraints(constraints_view(*cs), expected@, tlds@),
        r.1 == constraints_resolve(constraints_view(*cs), expected@, tlds@),
    decreases cs,
{
    let ghost before = constraints_view(*cs);
    let mut out: Vec<Constraint> = Vec::new();
    let mut ok = true;
    let mut i: usize = 0;
    while i < cs.len()
        invariant
            i <= cs.len(),
            out.len() == i,
            before == constraints_view(*cs),
            forall|j: int| 0 <= j < i ==> (#[trigger] out[j])@ == before[j].linked(expected@, tlds@),
            ok ==> forall|j: int| 0 <= j < i ==> (#[trigger] before[j]).resolves(expected@, tlds@),
            !ok ==> exists|j: int| 0 <= j < i && !(#[trigger] before[j]).resolves(expected@, tlds@),
        decreases cs.len() - i,
    {
        let (c, ok_here) = cs[i].link_cross_reference(expected, tlds);
        assert(before[i as int] == cs[i as int]@);
        out.push(c);
        ok = ok && ok_here;
        i += 1;
    }
    assert(constraints_view(out) =~= linked_constraints(before, expected@, tlds@));
    (out, ok)
}

} // verus!
