//! The linker: resolution of references among the definitions of a working set.
//!
//! A definition is linked against the other definitions of the set. The
//! sub-tasks run in a fixed order: class references, `COMPONENTS OF`,
//! selection types, object sets, values in constraints, and at the end the
//! chain of supertypes.

pub mod components;
pub mod constraints;
pub mod information;
pub mod supertypes;
pub mod types;
pub mod utils;

use vstd::prelude::*;
use vstd::string::StringExecFns;
use crate::intermediate::constraints::names_view;
use crate::intermediate::error::{GrammarError, GrammarErrorModel, GrammarErrorType};
use crate::intermediate::toplevel::{
    duplicate_place, DefinitionModel, InformationDefinitionModel, ToplevelDefinition,
    ToplevelInformationDefinition, ToplevelTypeDefinition, ToplevelValueDefinition,
    TypeDefinitionModel, ValueDefinitionModel,
};
use crate::intermediate::types::ASN1Type;
use crate::intermediate::values::{duplicate_names, ASN1Value, ValueModel};
use crate::validator::error::{ValidatorError, ValidatorErrorModel, ValidatorErrorType};
use crate::validator::index::ReferenceIndex;
use crate::validator::linking::supertypes::{
    collect_supertypes_from, is_octet_string_based, octet_string_based, supertypes_from,
    supertypes_of,
};
use crate::validator::linking::types::{LinkPass, Pending};
use crate::validator::linking::utils::{
    bit_string_to_octet_string, octets_of, ragged_bit_string_error,
};
use crate::intermediate::information_object::duplicate_optional_class_link;

verus! {

/// The error for a selection type whose alternative is not defined.
pub open spec fn missing_alternative_error() -> GrammarErrorModel {
    GrammarErrorModel {
        details: "Failed to link the selected alternative of a choice selection type"@,
        kind: GrammarErrorType::MissingDependency,
    }
}

/// The warning for a definition with a constraint that refers to a value
/// which is defined nowhere.
pub open spec fn unresolved_constraint_warning(name: Seq<char>) -> ValidatorErrorModel {
    ValidatorErrorModel {
        data_element: Some(name),
        details: "Failed to link cross-reference to elsewhere defined value in constraint of "@ + name,
        kind: ValidatorErrorType::MissingDependency,
    }
}

impl DefinitionModel {
    /// The definition refers to an information object class by name.
    pub open spec fn references_class_by_name(self) -> bool {
        match self {
            DefinitionModel::Type(t) => t.ty.has_pending(Pending::ClassReference),
            DefinitionModel::Information(i) => i.references_class_by_name(),
            _ => false,
        }
    }

    /// The definition is a type that holds a `COMPONENTS OF` notation.
    pub open spec fn has_components_of_notation(self) -> bool {
        self matches DefinitionModel::Type(t) && t.ty.has_pending(Pending::ComponentsOf)
    }

    /// The definition is a type that holds a selection type.
    pub open spec fn has_choice_selection_type(self) -> bool {
        self matches DefinitionModel::Type(t) && t.ty.has_pending(Pending::ChoiceSelection)
    }

    /// The definition is an object set that refers to objects by name.
    pub open spec fn references_object_set_by_name(self) -> bool {
        self matches DefinitionModel::Information(i) && i.value.references_object_set_by_name()
    }

    /// The definition is a type with a constraint that refers to a value by name.
    pub open spec fn has_constraint_reference(self) -> bool {
        self matches DefinitionModel::Type(t) && t.ty.has_pending(Pending::ConstraintReference)
    }

    /// The definition with its class references resolved against `s`.
    pub open spec fn with_class_resolved(self, s: Seq<DefinitionModel>) -> DefinitionModel {
        match self {
            DefinitionModel::Type(t) => DefinitionModel::Type(
                TypeDefinitionModel { ty: t.ty.linked(LinkPass::ClassReferences, t.name, s), ..t },
            ),
            DefinitionModel::Information(i) => DefinitionModel::Information(i.with_class_resolved(s)),
            _ => self,
        }
    }

    /// The definition with its `COMPONENTS OF` notations expanded against `s`.
    pub open spec fn with_components_expanded(self, s: Seq<DefinitionModel>) -> DefinitionModel {
        match self {
            DefinitionModel::Type(t) => DefinitionModel::Type(TypeDefinitionModel { ty: t.ty.expanded(s), ..t }),
            _ => self,
        }
    }

    /// Every selection type of the definition names an alternative that `s` defines.
    pub open spec fn selections_resolve(self, s: Seq<DefinitionModel>) -> bool {
        self matches DefinitionModel::Type(t) ==> t.ty.settles(LinkPass::ChoiceSelections, t.name, s)
    }

    /// The definition with its selection types replaced by the selected types.
    pub open spec fn with_selections_resolved(self, s: Seq<DefinitionModel>) -> DefinitionModel {
        match self {
            DefinitionModel::Type(t) => DefinitionModel::Type(
                TypeDefinitionModel { ty: t.ty.linked(LinkPass::ChoiceSelections, t.name, s), ..t },
            ),
            _ => self,
        }
    }

    /// The definition with the references of its object set resolved against `s`.
    pub open spec fn with_object_sets_resolved(self, s: Seq<DefinitionModel>) -> DefinitionModel {
        match self {
            DefinitionModel::Information(i) => DefinitionModel::Information(
                InformationDefinitionModel { value: i.value.with_object_sets_resolved(s), ..i },
            ),
            _ => self,
        }
    }

    /// Every value that a constraint of the definition refers to is defined in `s`.
    pub open spec fn constraints_resolve(self, s: Seq<DefinitionModel>) -> bool {
        self matches DefinitionModel::Type(t) ==> t.ty.settles(LinkPass::ConstraintReferences, t.name, s)
    }

    /// The definition with the values that its constraints refer to put in.
    pub open spec fn with_constraints_linked(self, s: Seq<DefinitionModel>) -> DefinitionModel {
        match self {
            DefinitionModel::Type(t) => DefinitionModel::Type(
                TypeDefinitionModel { ty: t.ty.linked(LinkPass::ConstraintReferences, t.name, s), ..t },
            ),
            _ => self,
        }
    }

    /// The definition is a value written as a bit string that does not fill
    /// whole octets, of a type that is derived from an OCTET STRING.
    pub open spec fn has_ragged_octets(self, s: Seq<DefinitionModel>) -> bool {
        self matches DefinitionModel::Value(v) && (v.value matches ValueModel::BitString(bits) && bits.len() % 8
            != 0 && octet_string_based(s, supertypes_from(s, v.associated_type)))
    }

    /// The definition with its chain of supertypes recorded. A value written
    /// as a bit string, of a type that is derived from an OCTET STRING, is
    /// turned into octets.
    pub open spec fn with_supertypes(self, s: Seq<DefinitionModel>) -> DefinitionModel {
        match self {
            DefinitionModel::Type(t) => DefinitionModel::Type(
                TypeDefinitionModel { supertypes: supertypes_of(t.ty, s), ..t },
            ),
            DefinitionModel::Value(v) => {
                let chain = supertypes_from(s, v.associated_type);
                DefinitionModel::Value(
                    ValueDefinitionModel {
                        supertypes: chain,
                        value: match v.value {
                            ValueModel::BitString(bits) => if octet_string_based(s, chain) {
                                ValueModel::OctetString(octets_of(bits))
                            } else {
                                v.value
                            },
                            _ => v.value,
                        },
                        ..v
                    },
                )
            },
            _ => self,
        }
    }

    /// The definition as it stands before the chain of supertypes is
    /// recorded: after the passes over class references, `COMPONENTS OF` and
    /// selection types.
    pub open spec fn structurally_linked(self, s: Seq<DefinitionModel>) -> DefinitionModel {
        let d1 = if self.references_class_by_name() {
            self.with_class_resolved(s)
        } else {
            self
        };
        if d1.has_components_of_notation() {
            d1.with_components_expanded(s)
        } else {
            d1
        }
    }

    /// The definition after the passes up to the one over the values in
    /// constraints, where the selection types resolve.
    pub open spec fn reference_linked(self, s: Seq<DefinitionModel>) -> DefinitionModel {
        let d2 = self.structurally_linked(s);
        let d3 = if d2.has_choice_selection_type() {
            d2.with_selections_resolved(s)
        } else {
            d2
        };
        if d3.references_object_set_by_name() {
            d3.with_object_sets_resolved(s)
        } else {
            d3
        }
    }

    /// The error that stops the linking of the definition against `s`, if there is one.
    pub open spec fn link_error(self, s: Seq<DefinitionModel>) -> Option<ValidatorErrorModel> {
        let d2 = self.structurally_linked(s);
        if d2.has_choice_selection_type() && !d2.selections_resolve(s) {
            Some(ValidatorErrorModel::from_grammar(missing_alternative_error(), self.name()))
        } else {
            let d4 = self.reference_linked(s);
            let d5 = if d4.has_constraint_reference() {
                d4.with_constraints_linked(s)
            } else {
                d4
            };
            if d5.has_ragged_octets(s) {
                Some(ValidatorErrorModel::from_grammar(ragged_bit_string_error(), self.name()))
            } else {
                None
            }
        }
    }

    /// The warning that the linking of the definition against `s` gives, if
    /// it gives one: a constraint refers to a value that is defined nowhere.
    pub open spec fn link_warning(self, s: Seq<DefinitionModel>) -> Option<ValidatorErrorModel> {
        let d4 = self.reference_linked(s);
        if d4.has_constraint_reference() && !d4.constraints_resolve(s) {
            Some(unresolved_constraint_warning(self.name()))
        } else {
            None
        }
    }

    /// The definition linked against `s`.
    pub open spec fn linked(self, s: Seq<DefinitionModel>) -> DefinitionModel {
        let d4 = self.reference_linked(s);
        let d5 = if d4.has_constraint_reference() {
            d4.with_constraints_linked(s)
        } else {
            d4
        };
        d5.with_supertypes(s)
    }
}

impl ToplevelTypeDefinition {
    /// The definition with another type in place of its own.
    fn with_type(&self, ty: ASN1Type) -> (r: ToplevelTypeDefinition)
        ensures
            r@ == (TypeDefinitionModel { ty: ty@, ..self@ }),
    {
        ToplevelTypeDefinition {
            name: self.name.clone(),
            tag: self.tag,
            ty,
            supertypes: duplicate_names(&self.supertypes),
            index: duplicate_place(&self.index),
        }
    }
}

impl ToplevelDefinition {
    /// Whether the definition refers to an information object class by name.
    pub fn references_class_by_name(&self) -> (r: bool)
        ensures
            r == self@.references_class_by_name(),
    {
        match self {
            ToplevelDefinition::Type(t) => t.ty.has_pending(Pending::ClassReference),
            ToplevelDefinition::Information(i) => i.references_class_by_name(),
            _ => false,
        }
    }

    /// Whether the definition is a type that holds a `COMPONENTS OF` notation.
    pub fn has_components_of_notation(&self) -> (r: bool)
        ensures
            r == self@.has_components_of_notation(),
    {
        match self {
            ToplevelDefinition::Type(t) => t.ty.has_pending(Pending::ComponentsOf),
            _ => false,
        }
    }

    /// Whether the definition is a type that holds a selection type.
    pub fn has_choice_selection_type(&self) -> (r: bool)
        ensures
            r == self@.has_choice_selection_type(),
    {
        match self {
            ToplevelDefinition::Type(t) => t.ty.has_pending(Pending::ChoiceSelection),
            _ => false,
        }
    }

    /// Whether the definition is an object set that refers to objects by name.
    pub fn references_object_set_by_name(&self) -> (r: bool)
        ensures
            r == self@.references_object_set_by_name(),
    {
        match self {
            ToplevelDefinition::Information(i) => i.value.references_object_set_by_name(),
            _ => false,
        }
    }

    /// Whether the definition is a type with a constraint that refers to a value by name.
    pub fn has_constraint_reference(&self) -> (r: bool)
        ensures
            r == self@.has_constraint_reference(),
    {
        match self {
            ToplevelDefinition::Type(t) => t.ty.has_pending(Pending::ConstraintReference),
            _ => false,
        }
    }

    /// The definition with its class references resolved against `tlds`.
    pub fn resolve_class_reference(&self, tlds: &ReferenceIndex) -> (r: ToplevelDefinition)
        ensures
            r@ == self@.with_class_resolved(tlds@),
    {
        match self {
            ToplevelDefinition::Type(t) => {
                let (ty, _) = t.ty.link(LinkPass::ClassReferences, &t.name, tlds);
                ToplevelDefinition::Type(t.with_type(ty))
            },
            ToplevelDefinition::Information(i) => ToplevelDefinition::Information(i.resolve_class_reference(tlds)),
            _ => self.duplicate(),
        }
    }

    /// The definition with its `COMPONENTS OF` notations expanded against `tlds`.
    pub fn link_components_of_notation(&self, tlds: &ReferenceIndex) -> (r: ToplevelDefinition)
        ensures
            r@ == self@.with_components_expanded(tlds@),
    {
        match self {
            ToplevelDefinition::Type(t) => ToplevelDefinition::Type(
                t.with_type(t.ty.link_components_of_notation(tlds)),
            ),
            _ => self.duplicate(),
        }
    }

    /// The definition with its selection types replaced by the types of the
    /// selected alternatives. A selection whose alternative `tlds` does not
    /// define is an error.
    pub fn link_choice_selection_type(&self, tlds: &ReferenceIndex) -> (r: Result<ToplevelDefinition, GrammarError>)
        ensures
            match r {
                Ok(d) => self@.selections_resolve(tlds@) && d@ == self@.with_selections_resolved(tlds@),
                Err(e) => !self@.selections_resolve(tlds@) && e@ == missing_alternative_error(),
            },
    {
        match self {
            ToplevelDefinition::Type(t) => {
                let (ty, found) = t.ty.link(LinkPass::ChoiceSelections, &t.name, tlds);
                if found {
                    Ok(ToplevelDefinition::Type(t.with_type(ty)))
                } else {
                    Err(
                        GrammarError {
                            details: String::from_str(
                                "Failed to link the selected alternative of a choice selection type",
                            ),
                            kind: GrammarErrorType::MissingDependency,
                        },
                    )
                }
            },
            _ => Ok(self.duplicate()),
        }
    }

    /// The definition with the references of its object set resolved against `tlds`.
    pub fn link_object_set_reference(&self, tlds: &ReferenceIndex) -> (r: ToplevelDefinition)
        ensures
            r@ == self@.with_object_sets_resolved(tlds@),
    {
        match self {
            ToplevelDefinition::Information(i) => ToplevelDefinition::Information(
                ToplevelInformationDefinition {
                    name: i.name.clone(),
                    class: duplicate_optional_class_link(&i.class),
                    value: i.value.link_object_set_reference(tlds),
                    index: duplicate_place(&i.index),
                },
            ),
            _ => self.duplicate(),
        }
    }

    /// The definition with the values put in that its constraints refer to
    /// by name, and whether every such value is defined in `tlds`. A
    /// reference to a value that is not defined stays.
    pub fn link_constraint_reference(&self, tlds: &ReferenceIndex) -> (r: (ToplevelDefinition, bool))
        ensures
            r.0@ == self@.with_constraints_linked(tlds@),
            r.1 == self@.constraints_resolve(tlds@),
    {
        match self {
            ToplevelDefinition::Type(t) => {
                let (ty, ok) = t.ty.link(LinkPass::ConstraintReferences, &t.name, tlds);
                (ToplevelDefinition::Type(t.with_type(ty)), ok)
            },
            _ => (self.duplicate(), true),
        }
    }

    /// The definition with its chain of supertypes recorded. A value written
    /// as a bit string, of a type that is derived from an OCTET STRING, is
    /// turned into octets; it is an error if the bits do not fill whole octets.
    pub fn collect_supertypes(&self, tlds: &ReferenceIndex) -> (r: Result<ToplevelDefinition, GrammarError>)
        ensures
            match r {
                Ok(d) => !self@.has_ragged_octets(tlds@) && d@ == self@.with_supertypes(tlds@),
                Err(e) => self@.has_ragged_octets(tlds@) && e@ == ragged_bit_string_error(),
            },
    {
        match self {
            ToplevelDefinition::Type(t) => {
                let supertypes = match &t.ty {
                    ASN1Type::ElsewhereDeclaredType(d) => collect_supertypes_from(&d.identifier, tlds),
                    _ => Vec::new(),
                };
                assert(names_view(supertypes@) =~= supertypes_of(t.ty@, tlds@));
                Ok(
                    ToplevelDefinition::Type(
                        ToplevelTypeDefinition {
                            name: t.name.clone(),
                            tag: t.tag,
                            ty: t.ty.duplicate(),
                            supertypes,
                            index: duplicate_place(&t.index),
                        },
                    ),
                )
            },
            ToplevelDefinition::Value(v) => {
                let supertypes = collect_supertypes_from(&v.associated_type, tlds);
                let value = match &v.value {
                    ASN1Value::BitString(bits) => {
                        if is_octet_string_based(&supertypes, tlds) {
                            match bit_string_to_octet_string(bits) {
                                Ok(octets) => ASN1Value::OctetString(octets),
                                Err(e) => {
                                    return Err(e);
                                },
                            }
                        } else {
                            v.value.duplicate()
                        }
                    },
                    _ => v.value.duplicate(),
                };
                Ok(
                    ToplevelDefinition::Value(
                        ToplevelValueDefinition {
                            name: v.name.clone(),
                            associated_type: v.associated_type.clone(),
                            value,
                            supertypes,
                            index: duplicate_place(&v.index),
                        },
                    ),
                )
            },
            _ => Ok(self.duplicate()),
        }
    }
}

/// Links one definition against the other definitions of its working set.
/// Hands back the linked definition and, where a constraint refers to a
/// value that is defined nowhere, a warning. An error stops the linking.
pub fn link_definition(tld: ToplevelDefinition, tlds: &ReferenceIndex) -> (r: Result<
    (ToplevelDefinition, Option<ValidatorError>),
    ValidatorError,
>)
    ensures
        match r {
            Ok((d, w)) => tld@.link_error(tlds@) is None && d@ == tld@.linked(tlds@) && (match w {
                Some(x) => Some(x@),
                None => None,
            }) == tld@.link_warning(tlds@),
            Err(e) => tld@.link_error(tlds@) == Some(e@),
        },
{
    let ghost d0 = tld@;
    let tld = if tld.references_class_by_name() {
        tld.resolve_class_reference(tlds)
    } else {
        tld
    };
    let tld = if tld.has_components_of_notation() {
        tld.link_components_of_notation(tlds)
    } else {
        tld
    };
    assert(tld@ == d0.structurally_linked(tlds@));
    proof {
        lemma_passes_keep_name(d0, tlds@);
    }
    let tld = if tld.has_choice_selection_type() {
        match tld.link_choice_selection_type(tlds) {
            Ok(d) => d,
            Err(e) => {
                return Err(ValidatorError::from_grammar_error(e, tld.name().clone()));
            },
        }
    } else {
        tld
    };
    let tld = if tld.references_object_set_by_name() {
        tld.link_object_set_reference(tlds)
    } else {
        tld
    };
    assert(tld@ == d0.reference_linked(tlds@));
    let mut warning: Option<ValidatorError> = None;
    let tld = if tld.has_constraint_reference() {
        let (d, resolved) = tld.link_constraint_reference(tlds);
        if !resolved {
            let details = String::from_str(
                "Failed to link cross-reference to elsewhere defined value in constraint of ",
            ).concat(tld.name().as_str());
            warning = Some(
                ValidatorError {
                    data_element: Some(tld.name().clone()),
                    details,
                    kind: ValidatorErrorType::MissingDependency,
                },
            );
        }
        d
    } else {
        tld
    };
    match tld.collect_supertypes(tlds) {
        Ok(d) => Ok((d, warning)),
        Err(e) => Err(ValidatorError::from_grammar_error(e, tld.name().clone())),
    }
}

/// No pass of the linker changes the name of a definition or what kind of
/// definition it is.
pub proof fn lemma_passes_keep_name(d: DefinitionModel, s: Seq<DefinitionModel>)
    ensures
        d.structurally_linked(s).name() == d.name(),
        d.reference_linked(s).name() == d.name(),
        d.linked(s).name() == d.name(),
        d.linked(s).place() == d.place(),
        d.linked(s) is Value <==> d is Value,
        d.linked(s) is Type <==> d is Type,
{
}

} // verus!
