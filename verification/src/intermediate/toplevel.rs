//! Top-level definitions and the modules they belong to.

use std::rc::Rc;
use vstd::prelude::*;
use crate::intermediate::constraints::names_view;
use crate::intermediate::information_object::{
    duplicate_optional_class_link, optional_class_link_view, ASN1Information, ClassLink,
    ClassLinkModel, InformationModel,
};
use crate::intermediate::types::{ASN1Type, TypeModel};
use crate::intermediate::tagging::type_in_environment;
use crate::intermediate::values::{duplicate_names, ASN1Value, ValueModel};
use crate::intermediate::{AsnTag, TaggingEnvironment};
use crate::intermediate::apply_environment_to_tag;
use crate::intermediate::tag_in_environment;

verus! {

/// The header of a module, shared by all definitions of the module.
#[derive(Debug, PartialEq)]
pub struct ModuleReference {
    pub name: String,
    pub tagging_environment: TaggingEnvironment,
}

/// The mathematical content of a [`ModuleReference`].
pub struct ModuleModel {
    pub name: Seq<char>,
    pub tagging_environment: TaggingEnvironment,
}

impl View for ModuleReference {
    type V = ModuleModel;

    open spec fn view(&self) -> ModuleModel {
        ModuleModel { name: self.name@, tagging_environment: self.tagging_environment }
    }
}

/// Where a definition stands: its module, and its position in the module.
pub struct PlaceModel {
    pub module: ModuleModel,
    pub position: nat,
}

/// The content of an optional place.
pub open spec fn place_view(index: Option<(Rc<ModuleReference>, usize)>) -> Option<PlaceModel> {
    match index {
        Some((m, p)) => Some(PlaceModel { module: (*m)@, position: p as nat }),
        None => None,
    }
}

/// `Rc::clone`: a second handle to the same module header. The contract
/// says that the new handle points at an equal header.
#[verifier::external_body]
pub(crate) fn share_module(module: &Rc<ModuleReference>) -> (r: Rc<ModuleReference>)
    ensures
        r == *module,
{
    Rc::clone(module)
}

/// A copy of an optional place, sharing the module header.
pub fn duplicate_place(index: &Option<(Rc<ModuleReference>, usize)>) -> (r: Option<(Rc<ModuleReference>, usize)>)
    ensures
        r == *index,
{
    match index {
        Some((m, p)) => Some((share_module(m), *p)),
        None => None,
    }
}

/// A named type.
#[derive(Debug, PartialEq)]
pub struct ToplevelTypeDefinition {
    pub name: String,
    pub tag: Option<AsnTag>,
    pub ty: ASN1Type,
    /// The names of the types that this type is derived from, nearest first.
    pub supertypes: Vec<String>,
    pub index: Option<(Rc<ModuleReference>, usize)>,
}

/// A named value.
#[derive(Debug, PartialEq)]
pub struct ToplevelValueDefinition {
    pub name: String,
    /// The name of the value's type.
    pub associated_type: String,
    pub value: ASN1Value,
    /// The names of the types that the value's type is derived from, nearest first.
    pub supertypes: Vec<String>,
    pub index: Option<(Rc<ModuleReference>, usize)>,
}

/// A named information object class, information object or object set.
#[derive(Debug, PartialEq)]
pub struct ToplevelInformationDefinition {
    pub name: String,
    pub class: Option<ClassLink>,
    pub value: ASN1Information,
    pub index: Option<(Rc<ModuleReference>, usize)>,
}

/// A definition at module level.
#[derive(Debug, PartialEq)]
pub enum ToplevelDefinition {
    Type(ToplevelTypeDefinition),
    Value(ToplevelValueDefinition),
    Information(ToplevelInformationDefinition),
}

/// The mathematical content of a [`ToplevelTypeDefinition`].
pub struct TypeDefinitionModel {
    pub name: Seq<char>,
    pub tag: Option<AsnTag>,
    pub ty: TypeModel,
    pub supertypes: Seq<Seq<char>>,
    pub place: Option<PlaceModel>,
}

/// The mathematical content of a [`ToplevelValueDefinition`].
pub struct ValueDefinitionModel {
    pub name: Seq<char>,
    pub associated_type: Seq<char>,
    pub value: ValueModel,
    pub supertypes: Seq<Seq<char>>,
    pub place: Option<PlaceModel>,
}

/// The mathematical content of a [`ToplevelInformationDefinition`].
pub struct InformationDefinitionModel {
    pub name: Seq<char>,
    pub class: Option<ClassLinkModel>,
    pub value: InformationModel,
    pub place: Option<PlaceModel>,
}

/// The mathematical content of a [`ToplevelDefinition`].
pub enum DefinitionModel {
    Type(TypeDefinitionModel),
    Value(ValueDefinitionModel),
    Information(InformationDefinitionModel),
}

impl View for ToplevelTypeDefinition {
    type V = TypeDefinitionModel;

    open spec fn view(&self) -> TypeDefinitionModel {
        TypeDefinitionModel {
            name: self.name@,
            tag: self.tag,
            ty: self.ty@,
            supertypes: names_view(self.supertypes@),
            place: place_view(self.index),
        }
    }
}

impl View for ToplevelValueDefinition {
    type V = ValueDefinitionModel;

    open spec fn view(&self) -> ValueDefinitionModel {
        ValueDefinitionModel {
            name: self.name@,
            associated_type: self.associated_type@,
            value: self.value@,
            supertypes: names_view(self.supertypes@),
            place: place_view(self.index),
        }
    }
}

impl View for ToplevelInformationDefinition {
    type V = InformationDefinitionModel;

    open spec fn view(&self) -> InformationDefinitionModel {
        InformationDefinitionModel {
            name: self.name@,
            class: optional_class_link_view(self.class),
            value: self.value@,
            place: place_view(self.index),
        }
    }
}

impl View for ToplevelDefinition {
    type V = DefinitionModel;

    open spec fn view(&self) -> DefinitionModel {
        match self {
            ToplevelDefinition::Type(t) => DefinitionModel::Type(t@),
            ToplevelDefinition::Value(v) => DefinitionModel::Value(v@),
            ToplevelDefinition::Information(i) => DefinitionModel::Information(i@),
        }
    }
}

impl DefinitionModel {
    /// The name under which the definition is known.
    pub open spec fn name(self) -> Seq<char> {
        match self {
            DefinitionModel::Type(t) => t.name,
            DefinitionModel::Value(v) => v.name,
            DefinitionModel::Information(i) => i.name,
        }
    }

    /// Where the definition stands, if it was given a place.
    pub open spec fn place(self) -> Option<PlaceModel> {
        match self {
            DefinitionModel::Type(t) => t.place,
            DefinitionModel::Value(v) => v.place,
            DefinitionModel::Information(i) => i.place,
        }
    }

    /// The definition as it reads in a module whose tagging default is
    /// `environment`: the tag of a type definition, and the tags of the
    /// components or alternatives of its type, take the default where they
    /// name no mode of their own.
    pub open spec fn in_environment(self, environment: TaggingEnvironment) -> DefinitionModel {
        match self {
            DefinitionModel::Type(t) => DefinitionModel::Type(
                TypeDefinitionModel {
                    tag: tag_in_environment(t.tag, environment),
                    ty: type_in_environment(t.ty, environment),
                    ..t
                },
            ),
            _ => self,
        }
    }

    /// The definition, placed at `position` of `module`.
    pub open spec fn with_place(self, module: ModuleModel, position: nat) -> DefinitionModel {
        let place = Some(PlaceModel { module, position });
        match self {
            DefinitionModel::Type(t) => DefinitionModel::Type(TypeDefinitionModel { place, ..t }),
            DefinitionModel::Value(v) => DefinitionModel::Value(ValueDefinitionModel { place, ..v }),
            DefinitionModel::Information(i) => DefinitionModel::Information(
                InformationDefinitionModel { place, ..i },
            ),
        }
    }
}

/// The content of a list of definitions.
pub open spec fn definitions_view(tlds: Seq<ToplevelDefinition>) -> Seq<DefinitionModel> {
    Seq::new(tlds.len(), |i: int| tlds[i]@)
}

impl ToplevelTypeDefinition {
    /// A copy of the definition.
    pub fn duplicate(&self) -> (r: ToplevelTypeDefinition)
        ensures
            r@ == self@,
    {
        ToplevelTypeDefinition {
            name: self.name.clone(),
            tag: self.tag,
            ty: self.ty.duplicate(),
            supertypes: duplicate_names(&self.supertypes),
            index: duplicate_place(&self.index),
        }
    }
}

impl ToplevelValueDefinition {
    /// A copy of the definition.
    pub fn duplicate(&self) -> (r: ToplevelValueDefinition)
        ensures
            r@ == self@,
    {
        ToplevelValueDefinition {
            name: self.name.clone(),
            associated_type: self.associated_type.clone(),
            value: self.value.duplicate(),
            supertypes: duplicate_names(&self.supertypes),
            index: duplicate_place(&self.index),
        }
    }
}

impl ToplevelInformationDefinition {
    /// A copy of the definition.
    pub fn duplicate(&self) -> (r: ToplevelInformationDefinition)
        ensures
            r@ == self@,
    {
        ToplevelInformationDefinition {
            name: self.name.clone(),
            class: duplicate_optional_class_link(&self.class),
            value: self.value.duplicate(),
            index: duplicate_place(&self.index),
        }
    }
}

impl ToplevelDefinition {
    /// A copy of the definition.
    pub fn duplicate(&self) -> (r: ToplevelDefinition)
        ensures
            r@ == self@,
    {
        match self {
            ToplevelDefinition::Type(t) => ToplevelDefinition::Type(t.duplicate()),
            ToplevelDefinition::Value(v) => ToplevelDefinition::Value(v.duplicate()),
            ToplevelDefinition::Information(i) => ToplevelDefinition::Information(i.duplicate()),
        }
    }

    /// The name under which the definition is known.
    pub fn name(&self) -> (r: &String)
        ensures
            r@ == self@.name(),
    {
        match self {
            ToplevelDefinition::Type(t) => &t.name,
            ToplevelDefinition::Value(v) => &v.name,
            ToplevelDefinition::Information(i) => &i.name,
        }
    }

    /// The module and position of the definition, if it was given a place.
    pub fn get_index(&self) -> (r: Option<&(Rc<ModuleReference>, usize)>)
        ensures
            match r {
                Some(p) => place_view(Some(*p)) == self@.place(),
                None => self@.place() is None,
            },
    {
        match self {
            ToplevelDefinition::Type(t) => t.index.as_ref(),
            ToplevelDefinition::Value(v) => v.index.as_ref(),
            ToplevelDefinition::Information(i) => i.index.as_ref(),
        }
    }

    /// Applies the tagging default of the definition's module.
    pub fn apply_tagging_environment(&mut self, environment: &TaggingEnvironment)
        ensures
            final(self)@ == old(self)@.in_environment(*environment),
    {
        match self {
            ToplevelDefinition::Type(t) => {
                let tag = apply_environment_to_tag(&t.tag, *environment);
                let ty = t.ty.apply_tagging_environment(*environment);
                t.tag = tag;
                t.ty = ty;
            },
            _ => {},
        }
    }

    /// Places the definition at `item_no` of the module `module_reference`.
    pub fn set_index(&mut self, module_reference: Rc<ModuleReference>, item_no: usize)
        ensures
            final(self)@ == old(self)@.with_place((*module_reference)@, item_no as nat),
    {
        match self {
            ToplevelDefinition::Type(t) => {
                t.index = Some((module_reference, item_no));
            },
            ToplevelDefinition::Value(v) => {
                v.index = Some((module_reference, item_no));
            },
            ToplevelDefinition::Information(i) => {
                i.index = Some((module_reference, item_no));
            },
        }
    }
}

} // verus!
