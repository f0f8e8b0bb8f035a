//! ASN.1 types.

use vstd::prelude::*;
use crate::intermediate::constraints::{
    constraints_view, duplicate_constraints, names_view, Constraint, ConstraintModel,
};
use crate::intermediate::values::{
    duplicate_names, duplicate_optional_value, optional_value_view, ASN1Value, ValueModel,
};
use crate::intermediate::integers::BigInteger;
use crate::intermediate::AsnTag;

verus! {

/// A type as written on the right of `::=`, or in a component.
#[derive(Debug, PartialEq)]
pub enum ASN1Type {
    Null,
    Boolean,
    Integer(Integer),
    BitString(BitString),
    OctetString(OctetString),
    ObjectIdentifier(ObjectIdentifier),
    CharacterString(CharacterString),
    Enumerated(Enumerated),
    Choice(Choice),
    Sequence(SequenceOrSet),
    SetType(SequenceOrSet),
    SequenceOf(SequenceOrSetOf),
    SetOf(SequenceOrSetOf),
    /// A type known by its name.
    ElsewhereDeclaredType(DeclarationElsewhere),
    /// The type of a field of an information object class, such as `CLASS.&field`.
    InformationObjectFieldReference(InformationObjectFieldReference),
    /// `selected_option < choice_name`
    ChoiceSelectionType(ChoiceSelectionType),
    /// A parameterized type with its actual parameters.
    Parameterized(ParameterizedType),
}

#[derive(Debug, PartialEq)]
pub struct Integer {
    pub constraints: Vec<Constraint>,
    pub distinguished_values: Vec<DistinguishedValue>,
}

/// A named number of an INTEGER, or a named bit of a BIT STRING.
#[derive(Debug, PartialEq)]
pub struct DistinguishedValue {
    pub name: String,
    pub value: BigInteger,
}

#[derive(Debug, PartialEq)]
pub struct BitString {
    pub constraints: Vec<Constraint>,
    pub distinguished_values: Vec<DistinguishedValue>,
}

#[derive(Debug, PartialEq)]
pub struct OctetString {
    pub constraints: Vec<Constraint>,
}

#[derive(Debug, PartialEq)]
pub struct ObjectIdentifier {
    pub constraints: Vec<Constraint>,
}

#[derive(Debug, Clone, Copy, PartialEq, Eq, Structural)]
pub enum CharacterStringType {
    NumericString,
    VisibleString,
    IA5String,
    TeletexString,
    VideotexString,
    GraphicString,
    GeneralString,
    UniversalString,
    UTF8String,
    BMPString,
    PrintableString,
}

#[derive(Debug, PartialEq)]
pub struct CharacterString {
    pub constraints: Vec<Constraint>,
    pub kind: CharacterStringType,
}

#[derive(Debug, PartialEq)]
pub struct Enumerated {
    pub members: Vec<Enumeral>,
    /// The number of items in front of the extension marker, if there is one.
    pub extensible: Option<usize>,
    pub constraints: Vec<Constraint>,
}

/// One item of an ENUMERATED type.
#[derive(Debug, PartialEq)]
pub struct Enumeral {
    pub name: String,
    pub index: BigInteger,
}

#[derive(Debug, PartialEq)]
pub struct Choice {
    /// The number of alternatives in front of the extension marker, if there is one.
    pub extensible: Option<usize>,
    pub options: Vec<ChoiceOption>,
    pub constraints: Vec<Constraint>,
}

/// One alternative of a CHOICE.
#[derive(Debug, PartialEq)]
pub struct ChoiceOption {
    pub name: String,
    pub tag: Option<AsnTag>,
    pub ty: ASN1Type,
}

#[derive(Debug, PartialEq)]
pub struct SequenceOrSet {
    /// The number of components in front of the extension marker, if there is one.
    pub extensible: Option<usize>,
    pub constraints: Vec<Constraint>,
    pub members: Vec<SequenceComponent>,
}

/// An entry of a component list.
#[derive(Debug, PartialEq)]
pub enum SequenceComponent {
    Member(SequenceOrSetMember),
    /// `COMPONENTS OF` the type with this name.
    ComponentsOf(String),
}

/// A named component of a SEQUENCE or SET.
#[derive(Debug, PartialEq)]
pub struct SequenceOrSetMember {
    pub name: String,
    pub tag: Option<AsnTag>,
    pub ty: ASN1Type,
    pub default_value: Option<ASN1Value>,
    pub is_optional: bool,
}

#[derive(Debug, PartialEq)]
pub struct SequenceOrSetOf {
    pub constraints: Vec<Constraint>,
    pub ty: Box<ASN1Type>,
}

#[derive(Debug, PartialEq)]
pub struct DeclarationElsewhere {
    pub identifier: String,
    pub constraints: Vec<Constraint>,
}

/// One step of a path through the fields of an information object class.
#[derive(Debug, PartialEq)]
pub enum ObjectFieldIdentifier {
    /// A field that holds one value or object, written `&lowercase`.
    SingleValue(String),
    /// A field that holds a type or a set, written `&Uppercase`.
    MultipleValue(String),
}

#[derive(Debug, PartialEq)]
pub struct InformationObjectFieldReference {
    pub class: String,
    pub field_path: Vec<ObjectFieldIdentifier>,
    pub constraints: Vec<Constraint>,
}

#[derive(Debug, PartialEq)]
pub struct ChoiceSelectionType {
    pub choice_name: String,
    pub selected_option: String,
}

#[derive(Debug, PartialEq)]
pub struct ParameterizedType {
    pub identifier: String,
    /// The actual parameters, each given by name.
    pub arguments: Vec<String>,
}

/// The mathematical content of an [`ObjectFieldIdentifier`].
pub enum FieldIdModel {
    SingleValue(Seq<char>),
    MultipleValue(Seq<char>),
}

impl View for ObjectFieldIdentifier {
    type V = FieldIdModel;

    open spec fn view(&self) -> FieldIdModel {
        match self {
            ObjectFieldIdentifier::SingleValue(s) => FieldIdModel::SingleValue(s@),
            ObjectFieldIdentifier::MultipleValue(s) => FieldIdModel::MultipleValue(s@),
        }
    }
}

/// The content of a field path.
pub open spec fn field_path_view(path: Seq<ObjectFieldIdentifier>) -> Seq<FieldIdModel> {
    Seq::new(path.len(), |i: int| path[i]@)
}

/// The mathematical content of a [`DistinguishedValue`] or an [`Enumeral`].
pub struct NamedNumberModel {
    pub name: Seq<char>,
    pub number: int,
}

impl View for DistinguishedValue {
    type V = NamedNumberModel;

    open spec fn view(&self) -> NamedNumberModel {
        NamedNumberModel { name: self.name@, number: self.value@ }
    }
}

impl View for Enumeral {
    type V = NamedNumberModel;

    open spec fn view(&self) -> NamedNumberModel {
        NamedNumberModel { name: self.name@, number: self.index@ }
    }
}

/// The content of a list of distinguished values.
pub open spec fn distinguished_values_view(vs: Seq<DistinguishedValue>) -> Seq<NamedNumberModel> {
    Seq::new(vs.len(), |i: int| vs[i]@)
}

/// The content of a list of enumeration items.
pub open spec fn enumerals_view(vs: Seq<Enumeral>) -> Seq<NamedNumberModel> {
    Seq::new(vs.len(), |i: int| vs[i]@)
}

/// The content of an optional count.
pub open spec fn optional_count_view(n: Option<usize>) -> Option<nat> {
    match n {
        Some(k) => Some(k as nat),
        None => None,
    }
}

/// The mathematical content of an [`ASN1Type`].
pub enum TypeModel {
    Null,
    Boolean,
    Integer { constraints: Seq<ConstraintModel>, distinguished_values: Seq<NamedNumberModel> },
    BitString { constraints: Seq<ConstraintModel>, distinguished_values: Seq<NamedNumberModel> },
    OctetString { constraints: Seq<ConstraintModel> },
    ObjectIdentifier { constraints: Seq<ConstraintModel> },
    CharacterString { constraints: Seq<ConstraintModel>, kind: CharacterStringType },
    Enumerated { members: Seq<NamedNumberModel>, extensible: Option<nat>, constraints: Seq<ConstraintModel> },
    Choice { extensible: Option<nat>, options: Seq<OptionModel>, constraints: Seq<ConstraintModel> },
    Sequence(StructureModel),
    SetType(StructureModel),
    SequenceOf { constraints: Seq<ConstraintModel>, ty: Box<TypeModel> },
    SetOf { constraints: Seq<ConstraintModel>, ty: Box<TypeModel> },
    ElsewhereDeclaredType { identifier: Seq<char>, constraints: Seq<ConstraintModel> },
    InformationObjectFieldReference {
        class: Seq<char>,
        field_path: Seq<FieldIdModel>,
        constraints: Seq<ConstraintModel>,
    },
    ChoiceSelectionType { choice_name: Seq<char>, selected_option: Seq<char> },
    Parameterized { identifier: Seq<char>, arguments: Seq<Seq<char>> },
}

/// The mathematical content of a [`ChoiceOption`].
pub struct OptionModel {
    pub name: Seq<char>,
    pub tag: Option<AsnTag>,
    pub ty: TypeModel,
}

/// The mathematical content of a [`SequenceOrSet`].
pub struct StructureModel {
    pub extensible: Option<nat>,
    pub constraints: Seq<ConstraintModel>,
    pub members: Seq<ComponentModel>,
}

/// The mathematical content of a [`SequenceComponent`].
pub enum ComponentModel {
    Member(MemberModel),
    ComponentsOf(Seq<char>),
}

/// The mathematical content of a [`SequenceOrSetMember`].
pub struct MemberModel {
    pub name: Seq<char>,
    pub tag: Option<AsnTag>,
    pub ty: TypeModel,
    pub default_value: Option<ValueModel>,
    pub is_optional: bool,
}

pub open spec fn type_view(t: ASN1Type) -> TypeModel
    decreases t,
{
    match t {
        ASN1Type::Null => TypeModel::Null,
        ASN1Type::Boolean => TypeModel::Boolean,
        ASN1Type::Integer(i) => TypeModel::Integer {
            constraints: constraints_view(i.constraints),
            distinguished_values: distinguished_values_view(i.distinguished_values@),
        },
        ASN1Type::BitString(b) => TypeModel::BitString {
            constraints: constraints_view(b.constraints),
            distinguished_values: distinguished_values_view(b.distinguished_values@),
        },
        ASN1Type::OctetString(o) => TypeModel::OctetString { constraints: constraints_view(o.constraints) },
        ASN1Type::ObjectIdentifier(o) => TypeModel::ObjectIdentifier {
            constraints: constraints_view(o.constraints),
        },
        ASN1Type::CharacterString(c) => TypeModel::CharacterString {
            constraints: constraints_view(c.constraints),
            kind: c.kind,
        },
        ASN1Type::Enumerated(e) => TypeModel::Enumerated {
            members: enumerals_view(e.members@),
            extensible: optional_count_view(e.extensible),
            constraints: constraints_view(e.constraints),
        },
        ASN1Type::Choice(c) => TypeModel::Choice {
            extensible: optional_count_view(c.extensible),
            options: Seq::new(
                c.options@.len(),
                |i: int|
                    if 0 <= i < c.options@.len() {
                        option_view(c.options@[i])
                    } else {
                        arbitrary()
                    },
            ),
            constraints: constraints_view(c.constraints),
        },
        ASN1Type::Sequence(s) => TypeModel::Sequence(structure_view(s)),
        ASN1Type::SetType(s) => TypeModel::SetType(structure_view(s)),
        ASN1Type::SequenceOf(s) => TypeModel::SequenceOf {
            constraints: constraints_view(s.constraints),
            ty: Box::new(type_view(*s.ty)),
        },
        ASN1Type::SetOf(s) => TypeModel::SetOf {
            constraints: constraints_view(s.constraints),
            ty: Box::new(type_view(*s.ty)),
        },
        ASN1Type::ElsewhereDeclaredType(d) => TypeModel::ElsewhereDeclaredType {
            identifier: d.identifier@,
            constraints: constraints_view(d.constraints),
        },
        ASN1Type::InformationObjectFieldReference(r) => TypeModel::InformationObjectFieldReference {
            class: r.class@,
            field_path: field_path_view(r.field_path@),
            constraints: constraints_view(r.constraints),
        },
        ASN1Type::ChoiceSelectionType(c) => TypeModel::ChoiceSelectionType {
            choice_name: c.choice_name@,
            selected_option: c.selected_option@,
        },
        ASN1Type::Parameterized(p) => TypeModel::Parameterized {
            identifier: p.identifier@,
            arguments: names_view(p.arguments@),
        },
    }
}

pub open spec fn option_view(o: ChoiceOption) -> OptionModel
    decreases o,
{
    OptionModel { name: o.name@, tag: o.tag, ty: type_view(o.ty) }
}

pub open spec fn structure_view(s: SequenceOrSet) -> StructureModel
    decreases s,
{
    StructureModel {
        extensible: optional_count_view(s.extensible),
        constraints: constraints_view(s.constraints),
        members: Seq::new(
            s.members@.len(),
            |i: int|
                if 0 <= i < s.members@.len() {
                    component_view(s.members@[i])
                } else {
                    arbitrary()
                },
        ),
    }
}

pub open spec fn component_view(c: SequenceComponent) -> ComponentModel
    decreases c,
{
    match c {
        SequenceComponent::Member(m) => ComponentModel::Member(member_view(m)),
        SequenceComponent::ComponentsOf(n) => ComponentModel::ComponentsOf(n@),
    }
}

pub open spec fn member_view(m: SequenceOrSetMember) -> MemberModel
    decreases m,
{
    MemberModel {
        name: m.name@,
        tag: m.tag,
        ty: type_view(m.ty),
        default_value: optional_value_view(m.default_value),
        is_optional: m.is_optional,
    }
}

impl View for ASN1Type {
    type V = TypeModel;

    open spec fn view(&self) -> TypeModel {
        type_view(*self)
    }
}

impl View for ChoiceOption {
    type V = OptionModel;

    open spec fn view(&self) -> OptionModel {
        option_view(*self)
    }
}

impl View for SequenceOrSet {
    type V = StructureModel;

    open spec fn view(&self) -> StructureModel {
        structure_view(*self)
    }
}

impl View for SequenceComponent {
    type V = ComponentModel;

    open spec fn view(&self) -> ComponentModel {
        component_view(*self)
    }
}

impl View for SequenceOrSetMember {
    type V = MemberModel;

    open spec fn view(&self) -> MemberModel {
        member_view(*self)
    }
}

/// The content of a list of components.
pub open spec fn components_view(cs: Seq<SequenceComponent>) -> Seq<ComponentModel> {
    Seq::new(cs.len(), |i: int| cs[i]@)
}

impl ObjectFieldIdentifier {
    /// A copy of the identifier.
    pub fn duplicate(&self) -> (r: ObjectFieldIdentifier)
        ensures
            r@ == self@,
    {
        match self {
            ObjectFieldIdentifier::SingleValue(s) => ObjectFieldIdentifier::SingleValue(s.clone()),
            ObjectFieldIdentifier::MultipleValue(s) => ObjectFieldIdentifier::MultipleValue(s.clone()),
        }
    }

    /// Whether two identifiers are of the same kind and spell the same name.
    pub fn same_as(&self, other: &ObjectFieldIdentifier) -> (r: bool)
        ensures
            r == (self@ == other@),
    {
        match (self, other) {
            (ObjectFieldIdentifier::SingleValue(a), ObjectFieldIdentifier::SingleValue(b)) => *a == *b,
            (ObjectFieldIdentifier::MultipleValue(a), ObjectFieldIdentifier::MultipleValue(b)) => *a == *b,
            _ => false,
        }
    }
}

/// A copy of a field path.
pub fn duplicate_field_path(path: &Vec<ObjectFieldIdentifier>) -> (r: Vec<ObjectFieldIdentifier>)
    ensures
        field_path_view(r@) == field_path_view(path@),
{
    let mut out: Vec<ObjectFieldIdentifier> = Vec::new();
    let mut i: usize = 0;
    while i < path.len()
        invariant
            i <= path.len(),
            out.len() == i,
            forall|j: int| 0 <= j < i ==> out[j]@ == path[j]@,
        decreases path.len() - i,
    {
        out.push(path[i].duplicate());
        i += 1;
    }
    assert(field_path_view(out@) =~= field_path_view(path@));
    out
}

/// A copy of a list of distinguished values.
pub fn duplicate_distinguished_values(vs: &Vec<DistinguishedValue>) -> (r: Vec<DistinguishedValue>)
    ensures
        distinguished_values_view(r@) == distinguished_values_view(vs@),
{
    let mut out: Vec<DistinguishedValue> = Vec::new();
    let mut i: usize = 0;
    while i < vs.len()
        invariant
            i <= vs.len(),
            out.len() == i,
            forall|j: int| 0 <= j < i ==> out[j]@ == vs[j]@,
        decreases vs.len() - i,
    {
        out.push(DistinguishedValue { name: vs[i].name.clone(), value: vs[i].value.duplicate() });
        i += 1;
    }
    assert(distinguished_values_view(out@) =~= distinguished_values_view(vs@));
    out
}

/// A copy of a list of enumeration items.
pub fn duplicate_enumerals(vs: &Vec<Enumeral>) -> (r: Vec<Enumeral>)
    ensures
        enumerals_view(r@) == enumerals_view(vs@),
{
    let mut out: Vec<Enumeral> = Vec::new();
    let mut i: usize = 0;
    while i < vs.len()
        invariant
            i <= vs.len(),
            out.len() == i,
            forall|j: int| 0 <= j < i ==> out[j]@ == vs[j]@,
        decreases vs.len() - i,
    {
        out.push(Enumeral { name: vs[i].name.clone(), index: vs[i].index.duplicate() });
        i += 1;
    }
    assert(enumerals_view(out@) =~= enumerals_view(vs@));
    out
}

/// A copy of an optional count.
pub fn duplicate_optional_count(n: &Option<usize>) -> (r: Option<usize>)
    ensures
        r == *n,
{
    match n {
        Some(k) => Some(*k),
        None => None,
    }
}

impl SequenceOrSetMember {
    /// A copy of the component.
    pub fn duplicate(&self) -> (r: SequenceOrSetMember)
        ensures
            r@ == self@,
        decreases self,
    {
        SequenceOrSetMember {
            name: self.name.clone(),
            tag: self.tag,
            ty: self.ty.duplicate(),
            default_value: duplicate_optional_value(&self.default_value),
            is_optional: self.is_optional,
        }
    }
}

impl SequenceComponent {
    /// A copy of the entry.
    pub fn duplicate(&self) -> (r: SequenceComponent)
        ensures
            r@ == self@,
        decreases self,
    {
        match self {
            SequenceComponent::Member(m) => SequenceComponent::Member(m.duplicate()),
            SequenceComponent::ComponentsOf(n) => SequenceComponent::ComponentsOf(n.clone()),
        }
    }
}

impl SequenceOrSet {
    /// A copy of the component list and what belongs to it.
    #[verifier::loop_isolation(false)]
    pub fn duplicate(&self) -> (r: SequenceOrSet)
        ensures
            r@ == self@,
        decreases self,
    {
        let mut out: Vec<SequenceComponent> = Vec::new();
        let mut i: usize = 0;
        while i < self.members.len()
            invariant
                i <= self.members.len(),
                out.len() == i,
                forall|j: int| 0 <= j < i ==> out[j]@ == self.members[j]@,
            decreases self.members.len() - i,
        {
            out.push(self.members[i].duplicate());
            i += 1;
        }
        let r = SequenceOrSet {
            extensible: duplicate_optional_count(&self.extensible),
            constraints: duplicate_constraints(&self.constraints),
            members: out,
        };
        assert(r@.members =~= self@.members);
        r
    }
}

impl ChoiceOption {
    /// A copy of the alternative.
    pub fn duplicate(&self) -> (r: ChoiceOption)
        ensures
            r@ == self@,
        decreases self,
    {
        ChoiceOption { name: self.name.clone(), tag: self.tag, ty: self.ty.duplicate() }
    }
}

impl ASN1Type {
    /// A copy of the type.
    #[verifier::loop_isolation(false)]
    pub fn duplicate(&self) -> (r: ASN1Type)
        ensures
            r@ == self@,
        decreases self,
    {
        match self {
            ASN1Type::Null => ASN1Type::Null,
            ASN1Type::Boolean => ASN1Type::Boolean,
            ASN1Type::Integer(i) => ASN1Type::Integer(
                Integer {
                    constraints: duplicate_constraints(&i.constraints),
                    distinguished_values: duplicate_distinguished_values(&i.distinguished_values),
                },
            ),
            ASN1Type::BitString(b) => ASN1Type::BitString(
                BitString {
                    constraints: duplicate_constraints(&b.constraints),
                    distinguished_values: duplicate_distinguished_values(&b.distinguished_values),
                },
            ),
            ASN1Type::OctetString(o) => ASN1Type::OctetString(
                OctetString { constraints: duplicate_constraints(&o.constraints) },
            ),
            ASN1Type::ObjectIdentifier(o) => ASN1Type::ObjectIdentifier(
                ObjectIdentifier { constraints: duplicate_constraints(&o.constraints) },
            ),
            ASN1Type::CharacterString(c) => ASN1Type::CharacterString(
                CharacterString { constraints: duplicate_constraints(&c.constraints), kind: c.kind },
            ),
            ASN1Type::Enumerated(e) => ASN1Type::Enumerated(
                Enumerated {
                    members: duplicate_enumerals(&e.members),
                    extensible: duplicate_optional_count(&e.extensible),
                    constraints: duplicate_constraints(&e.constraints),
                },
            ),
            ASN1Type::Choice(c) => {
                let mut out: Vec<ChoiceOption> = Vec::new();
                let mut i: usize = 0;
                while i < c.options.len()
                    invariant
                        i <= c.options.len(),
                        out.len() == i,
                        forall|j: int| 0 <= j < i ==> out[j]@ == c.options[j]@,
                    decreases c.options.len() - i,
                {
                    out.push(c.options[i].duplicate());
                    i += 1;
                }
                let r = ASN1Type::Choice(
                    Choice {
                        extensible: duplicate_optional_count(&c.extensible),
                        options: out,
                        constraints: duplicate_constraints(&c.constraints),
                    },
                );
                assert(r@->Choice_options =~= self@->Choice_options);
                r
            },
            ASN1Type::Sequence(s) => ASN1Type::Sequence(s.duplicate()),
            ASN1Type::SetType(s) => ASN1Type::SetType(s.duplicate()),
            ASN1Type::SequenceOf(s) => ASN1Type::SequenceOf(
                SequenceOrSetOf {
                    constraints: duplicate_constraints(&s.constraints),
                    ty: Box::new(s.ty.duplicate()),
                },
            ),
            ASN1Type::SetOf(s) => ASN1Type::SetOf(
                SequenceOrSetOf {
                    constraints: duplicate_constraints(&s.constraints),
                    ty: Box::new(s.ty.duplicate()),
                },
            ),
            ASN1Type::ElsewhereDeclaredType(d) => ASN1Type::ElsewhereDeclaredType(
                DeclarationElsewhere {
                    identifier: d.identifier.clone(),
                    constraints: duplicate_constraints(&d.constraints),
                },
            ),
            ASN1Type::InformationObjectFieldReference(r) => ASN1Type::InformationObjectFieldReference(
                InformationObjectFieldReference {
                    class: r.class.clone(),
                    field_path: duplicate_field_path(&r.field_path),
                    constraints: duplicate_constraints(&r.constraints),
                },
            ),
            ASN1Type::ChoiceSelectionType(c) => ASN1Type::ChoiceSelectionType(
                ChoiceSelectionType {
                    choice_name: c.choice_name.clone(),
                    selected_option: c.selected_option.clone(),
                },
            ),
            ASN1Type::Parameterized(p) => ASN1Type::Parameterized(
                ParameterizedType {
                    identifier: p.identifier.clone(),
                    arguments: duplicate_names(&p.arguments),
                },
            ),
        }
    }
}

/// A copy of an optional type.
pub fn duplicate_optional_type(t: &Option<ASN1Type>) -> (r: Option<ASN1Type>)
    ensures
        optional_type_view(r) == optional_type_view(*t),
{
    match t {
        Some(x) => Some(x.duplicate()),
        None => None,
    }
}

/// The content of an optional type.
pub open spec fn optional_type_view(t: Option<ASN1Type>) -> Option<TypeModel> {
    match t {
        Some(x) => Some(x@),
        None => None,
    }
}

} // verus!
