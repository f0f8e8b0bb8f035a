//! Information object classes, objects and object sets.

use vstd::prelude::*;
use crate::intermediate::types::{
    duplicate_optional_count, duplicate_optional_type, optional_count_view, optional_type_view,
    ASN1Type, FieldIdModel, ObjectFieldIdentifier, TypeModel,
};
use crate::intermediate::values::{
    duplicate_optional_value, optional_value_view, ASN1Value, ValueModel,
};

verus! {

/// How an information object or object set is tied to its class.
///
/// A link starts out by name and is turned into a copy of the class
/// definition once the class is found. It never goes back.
#[derive(Debug, PartialEq)]
pub enum ClassLink {
    ByName(String),
    ByReference(InformationObjectClass),
}

#[derive(Debug, PartialEq)]
pub struct InformationObjectClass {
    pub fields: Vec<InformationObjectClassField>,
}

#[derive(Debug, Clone, Copy, PartialEq, Eq, Structural)]
pub enum FieldKind {
    FixedType,
    VariableType,
    Object,
    ObjectSet,
}

/// A field of an information object class.
#[derive(Debug, PartialEq)]
pub struct InformationObjectClassField {
    pub identifier: ObjectFieldIdentifier,
    pub kind: FieldKind,
    /// The type of a fixed-type field.
    pub ty: Option<ASN1Type>,
    pub is_optional: bool,
    pub default: Option<ASN1Value>,
    pub is_unique: bool,
    /// For an object or object-set field, the fields of the governing class.
    pub fields: Vec<InformationObjectClassField>,
}

/// What an information definition defines.
#[derive(Debug, PartialEq)]
pub enum ASN1Information {
    ObjectClass(InformationObjectClass),
    ObjectSet(ObjectSet),
    Object(InformationObject),
}

#[derive(Debug, PartialEq)]
pub struct ObjectSet {
    pub values: Vec<ObjectSetValue>,
    /// The number of entries in front of the extension marker, if there is one.
    pub extensible: Option<usize>,
}

/// An entry of an object set.
#[derive(Debug, PartialEq)]
pub enum ObjectSetValue {
    /// An object or object set known by name.
    Reference(String),
    Inline(InformationObject),
}

#[derive(Debug, PartialEq)]
pub struct InformationObject {
    pub fields: Vec<InformationObjectField>,
}

/// A field setting of an information object.
#[derive(Debug, PartialEq)]
pub enum InformationObjectField {
    TypeField { identifier: String, ty: ASN1Type },
    FixedValueField { identifier: String, value: ASN1Value },
}

/// The mathematical content of a [`ClassLink`].
pub enum ClassLinkModel {
    ByName(Seq<char>),
    ByReference(ClassModel),
}

/// The mathematical content of an [`InformationObjectClass`].
pub struct ClassModel {
    pub fields: Seq<ClassFieldModel>,
}

/// The mathematical content of an [`InformationObjectClassField`].
pub struct ClassFieldModel {
    pub identifier: FieldIdModel,
    pub kind: FieldKind,
    pub ty: Option<TypeModel>,
    pub is_optional: bool,
    pub default: Option<ValueModel>,
    pub is_unique: bool,
    pub fields: Seq<ClassFieldModel>,
}

/// The mathematical content of an [`ASN1Information`].
pub enum InformationModel {
    ObjectClass(ClassModel),
    ObjectSet(ObjectSetModel),
    Object(ObjectModel),
}

/// The mathematical content of an [`ObjectSet`].
pub struct ObjectSetModel {
    pub values: Seq<ObjectSetValueModel>,
    pub extensible: Option<nat>,
}

/// The mathematical content of an [`ObjectSetValue`].
pub enum ObjectSetValueModel {
    Reference(Seq<char>),
    Inline(ObjectModel),
}

/// The mathematical content of an [`InformationObject`].
pub struct ObjectModel {
    pub fields: Seq<ObjectFieldModel>,
}

/// The mathematical content of an [`InformationObjectField`].
pub enum ObjectFieldModel {
    TypeField { identifier: Seq<char>, ty: TypeModel },
    FixedValueField { identifier: Seq<char>, value: ValueModel },
}

pub open spec fn class_field_view(f: InformationObjectClassField) -> ClassFieldModel
    decreases f,
{
    ClassFieldModel {
        identifier: f.identifier@,
        kind: f.kind,
        ty: optional_type_view(f.ty),
        is_optional: f.is_optional,
        default: optional_value_view(f.default),
        is_unique: f.is_unique,
        fields: class_fields_view(f.fields),
    }
}

/// The content of a list of class fields.
pub open spec fn class_fields_view(fs: Vec<InformationObjectClassField>) -> Seq<ClassFieldModel>
    decreases fs,
{
    Seq::new(
        fs@.len(),
        |i: int|
            if 0 <= i < fs@.len() {
                class_field_view(fs@[i])
            } else {
                arbitrary()
            },
    )
}

impl View for InformationObjectClassField {
    type V = ClassFieldModel;

    open spec fn view(&self) -> ClassFieldModel {
        class_field_view(*self)
    }
}

impl View for InformationObjectClass {
    type V = ClassModel;

    open spec fn view(&self) -> ClassModel {
        ClassModel { fields: class_fields_view(self.fields) }
    }
}

impl View for ClassLink {
    type V = ClassLinkModel;

    open spec fn view(&self) -> ClassLinkModel {
        match self {
            ClassLink::ByName(n) => ClassLinkModel::ByName(n@),
            ClassLink::ByReference(c) => ClassLinkModel::ByReference(c@),
        }
    }
}

impl View for InformationObjectField {
    type V = ObjectFieldModel;

    open spec fn view(&self) -> ObjectFieldModel {
        match self {
            InformationObjectField::TypeField { identifier, ty } => ObjectFieldModel::TypeField {
                identifier: identifier@,
                ty: ty@,
            },
            InformationObjectField::FixedValueField { identifier, value } => ObjectFieldModel::FixedValueField {
                identifier: identifier@,
                value: value@,
            },
        }
    }
}

impl View for InformationObject {
    type V = ObjectModel;

    open spec fn view(&self) -> ObjectModel {
        ObjectModel { fields: Seq::new(self.fields@.len(), |i: int| self.fields@[i]@) }
    }
}

impl View for ObjectSetValue {
    type V = ObjectSetValueModel;

    open spec fn view(&self) -> ObjectSetValueModel {
        match self {
            ObjectSetValue::Reference(n) => ObjectSetValueModel::Reference(n@),
            ObjectSetValue::Inline(o) => ObjectSetValueModel::Inline(o@),
        }
    }
}

/// The content of a list of object-set entries.
pub open spec fn object_set_values_view(vs: Seq<ObjectSetValue>) -> Seq<ObjectSetValueModel> {
    Seq::new(vs.len(), |i: int| vs[i]@)
}

impl View for ObjectSet {
    type V = ObjectSetModel;

    open spec fn view(&self) -> ObjectSetModel {
        ObjectSetModel {
            values: object_set_values_view(self.values@),
            extensible: optional_count_view(self.extensible),
        }
    }
}

impl View for ASN1Information {
    type V = InformationModel;

    open spec fn view(&self) -> InformationModel {
        match self {
            ASN1Information::ObjectClass(c) => InformationModel::ObjectClass(c@),
            ASN1Information::ObjectSet(s) => InformationModel::ObjectSet(s@),
            ASN1Information::Object(o) => InformationModel::Object(o@),
        }
    }
}

/// The content of an optional class link.
pub open spec fn optional_class_link_view(l: Option<ClassLink>) -> Option<ClassLinkModel> {
    match l {
        Some(x) => Some(x@),
        None => None,
    }
}

impl InformationObjectClassField {
    /// A copy of the field.
    pub fn duplicate(&self) -> (r: InformationObjectClassField)
        ensures
            r@ == self@,
        decreases self,
    {
        InformationObjectClassField {
            identifier: self.identifier.duplicate(),
            kind: self.kind,
            ty: duplicate_optional_type(&self.ty),
            is_optional: self.is_optional,
            default: duplicate_optional_value(&self.default),
            is_unique: self.is_unique,
            fields: duplicate_class_fields(&self.fields),
        }
    }
}

/// A copy of a list of class fields.
pub fn duplicate_class_fields(fs: &Vec<InformationObjectClassField>) -> (r: Vec<InformationObjectClassField>)
    ensures
        class_fields_view(r) == class_fields_view(*fs),
    decreases fs,
{
    let mut out: Vec<InformationObjectClassField> = Vec::new();
    let mut i: usize = 0;
    while i < fs.len()
        invariant
            i <= fs.len(),
            out.len() == i,
            forall|j: int| 0 <= j < i ==> out[j]@ == fs[j]@,
        decreases fs.len() - i,
    {
        out.push(fs[i].duplicate());
        i += 1;
    }
    assert(class_fields_view(out) =~= class_fields_view(*fs));
    out
}

impl InformationObjectClass {
    /// A copy of the class.
    pub fn duplicate(&self) -> (r: InformationObjectClass)
        ensures
            r@ == self@,
    {
        InformationObjectClass { fields: duplicate_class_fields(&self.fields) }
    }
}

impl ClassLink {
    /// A copy of the link.
    pub fn duplicate(&self) -> (r: ClassLink)
        ensures
            r@ == self@,
    {
        match self {
            ClassLink::ByName(n) => ClassLink::ByName(n.clone()),
            ClassLink::ByReference(c) => ClassLink::ByReference(c.duplicate()),
        }
    }
}

/// A copy of an optional class link.
pub fn duplicate_optional_class_link(l: &Option<ClassLink>) -> (r: Option<ClassLink>)
    ensures
        optional_class_link_view(r) == optional_class_link_view(*l),
{
    match l {
        Some(x) => Some(x.duplicate()),
        None => None,
    }
}

impl InformationObjectField {
    /// A copy of the field setting.
    pub fn duplicate(&self) -> (r: InformationObjectField)
        ensures
            r@ == self@,
    {
        match self {
            InformationObjectField::TypeField { identifier, ty } => InformationObjectField::TypeField {
                identifier: identifier.clone(),
                ty: ty.duplicate(),
            },
            InformationObjectField::FixedValueField { identifier, value } => InformationObjectField::FixedValueField {
                identifier: identifier.clone(),
                value: value.duplicate(),
            },
        }
    }
}

impl InformationObject {
    /// A copy of the object.
    pub fn duplicate(&self) -> (r: InformationObject)
        ensures
            r@ == self@,
    {
        let mut out: Vec<InformationObjectField> = Vec::new();
        let mut i: usize = 0;
        while i < self.fields.len()
            invariant
                i <= self.fields.len(),
                out.len() == i,
                forall|j: int| 0 <= j < i ==> out[j]@ == self.fields[j]@,
            decreases self.fields.len() - i,
        {
            out.push(self.fields[i].duplicate());
            i += 1;
        }
        let r = InformationObject { fields: out };
        assert(r@.fields =~= self@.fields);
        r
    }
}

impl ObjectSetValue {
    /// A copy of the entry.
    pub fn duplicate(&self) -> (r: ObjectSetValue)
        ensures
            r@ == self@,
    {
        match self {
            ObjectSetValue::Reference(n) => ObjectSetValue::Reference(n.clone()),
            ObjectSetValue::Inline(o) => ObjectSetValue::Inline(o.duplicate()),
        }
    }
}

impl ObjectSet {
    /// A copy of the set.
    pub fn duplicate(&self) -> (r: ObjectSet)
        ensures
            r@ == self@,
    {
        let mut out: Vec<ObjectSetValue> = Vec::new();
        let mut i: usize = 0;
        while i < self.values.len()
            invariant
                i <= self.values.len(),
                out.len() == i,
                forall|j: int| 0 <= j < i ==> out[j]@ == self.values[j]@,
            decreases self.values.len() - i,
        {
            out.push(self.values[i].duplicate());
            i += 1;
        }
        let r = ObjectSet { values: out, extensible: duplicate_optional_count(&self.extensible) };
        assert(r@.values =~= self@.values);
        r
    }
}

impl ASN1Information {
    /// A copy of the definition's content.
    pub fn duplicate(&self) -> (r: ASN1Information)
        ensures
            r@ == self@,
    {
        match self {
            ASN1Information::ObjectClass(c) => ASN1Information::ObjectClass(c.duplicate()),
            ASN1Information::ObjectSet(s) => ASN1Information::ObjectSet(s.duplicate()),
            ASN1Information::Object(o) => ASN1Information::Object(o.duplicate()),
        }
    }
}

} // verus!
