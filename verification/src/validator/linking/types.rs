//! Linking inside types: what a type still refers to by name, and the type
//! with such references resolved.

use vstd::prelude::*;
use crate::intermediate::constraints::{
    constraints_view, duplicate_constraints, Constraint, ConstraintModel,
};
use crate::intermediate::information_object::{ASN1Information, InformationModel};
use crate::intermediate::toplevel::{DefinitionModel, ToplevelDefinition};
use crate::intermediate::types::{
    duplicate_distinguished_values, duplicate_enumerals, duplicate_field_path,
    duplicate_optional_count, ASN1Type, BitString, CharacterString, Choice, ChoiceOption,
    ComponentModel, DeclarationElsewhere, Enumerated, FieldIdModel, InformationObjectFieldReference,
    Integer, MemberModel, ObjectFieldIdentifier, ObjectIdentifier, OctetString, OptionModel,
    SequenceComponent, SequenceOrSet, SequenceOrSetMember, SequenceOrSetOf, StructureModel,
    TypeModel,
};
use crate::intermediate::values::duplicate_optional_value;
use crate::validator::index::{
    first_some, lemma_first_some_prefix, lemma_first_some_step, lookup, ReferenceIndex,
};
use crate::validator::linking::constraints::{
    constraints_have_reference, constraints_resolve, have_cross_reference, link_cross_references,
    linked_constraints,
};
use crate::validator::linking::utils::{walk_object_field_ref_path, walk_path};
use crate::intermediate::types::duplicate_optional_type;
use crate::intermediate::types::field_path_view;
use crate::intermediate::types::option_view;
use crate::intermediate::types::optional_type_view;

verus! {

/// A kind of reference that linking resolves inside a type.
#[derive(Debug, Clone, Copy, PartialEq, Eq, Structural)]
pub enum Pending {
    /// A reference to a value field of an information object class.
    ClassReference,
    /// A `COMPONENTS OF` notation.
    ComponentsOf,
    /// A selection type, `alternative < Choice`.
    ChoiceSelection,
    /// A value that a constraint refers to by name.
    ConstraintReference,
}

/// A pass of the linker over a type.
#[derive(Debug, Clone, Copy, PartialEq, Eq, Structural)]
pub enum LinkPass {
    /// Replaces references to class fields by the types of the fields.
    ClassReferences,
    /// Replaces selection types by the types of the selected alternatives.
    ChoiceSelections,
    /// Replaces the values that constraints refer to by name.
    ConstraintReferences,
}

/// The type of the field that `path` leads to in the class `class`.
pub open spec fn class_field_type(s: Seq<DefinitionModel>, class: Seq<char>, path: Seq<FieldIdModel>) -> Option<
    TypeModel,
> {
    match lookup(s, class) {
        Some(DefinitionModel::Information(i)) => match i.value {
            InformationModel::ObjectClass(c) => match walk_path(c.fields, path, 0) {
                Some(f) => f.ty,
                None => None,
            },
            _ => None,
        },
        _ => None,
    }
}

/// The type of the alternative if it goes by `name`.
pub open spec fn alternative_named(name: Seq<char>) -> spec_fn(OptionModel) -> Option<TypeModel> {
    |o: OptionModel|
        if o.name == name {
            Some(o.ty)
        } else {
            None
        }
}

/// The type of the alternative `selected` of the CHOICE type `choice`.
pub open spec fn selected_alternative(s: Seq<DefinitionModel>, choice: Seq<char>, selected: Seq<char>) -> Option<
    TypeModel,
> {
    match lookup(s, choice) {
        Some(DefinitionModel::Type(t)) => match t.ty {
            TypeModel::Choice { options, .. } => first_some(options, alternative_named(selected)),
            _ => None,
        },
        _ => None,
    }
}

/// The constraints as a pass leaves them.
pub open spec fn passed_constraints(
    cs: Seq<ConstraintModel>,
    pass: LinkPass,
    expected: Seq<char>,
    s: Seq<DefinitionModel>,
) -> Seq<ConstraintModel> {
    if pass == LinkPass::ConstraintReferences {
        linked_constraints(cs, expected, s)
    } else {
        cs
    }
}

/// The pass leaves nothing unresolved in the constraints.
pub open spec fn constraints_settle(
    cs: Seq<ConstraintModel>,
    pass: LinkPass,
    expected: Seq<char>,
    s: Seq<DefinitionModel>,
) -> bool {
    pass == LinkPass::ConstraintReferences ==> constraints_resolve(cs, expected, s)
}

impl TypeModel {
    /// The constraints attached to the type itself.
    pub open spec fn constraints(self) -> Seq<ConstraintModel> {
        match self {
            TypeModel::Integer { constraints, .. } => constraints,
            TypeModel::BitString { constraints, .. } => constraints,
            TypeModel::OctetString { constraints } => constraints,
            TypeModel::ObjectIdentifier { constraints } => constraints,
            TypeModel::CharacterString { constraints, .. } => constraints,
            TypeModel::Enumerated { constraints, .. } => constraints,
            TypeModel::Choice { constraints, .. } => constraints,
            TypeModel::Sequence(s) => s.constraints,
            TypeModel::SetType(s) => s.constraints,
            TypeModel::SequenceOf { constraints, .. } => constraints,
            TypeModel::SetOf { constraints, .. } => constraints,
            TypeModel::ElsewhereDeclaredType { constraints, .. } => constraints,
            TypeModel::InformationObjectFieldReference { constraints, .. } => constraints,
            _ => Seq::empty(),
        }
    }

    /// The type itself, not a type inside it, holds a reference of the kind `what`.
    pub open spec fn pending_here(self, what: Pending) -> bool {
        match what {
            Pending::ClassReference => self matches TypeModel::InformationObjectFieldReference { field_path, .. }
                && field_path.len() > 0 && field_path.last() is SingleValue,
            Pending::ComponentsOf => match self {
                TypeModel::Sequence(s) => exists|i: int|
                    0 <= i < s.members.len() && (#[trigger] s.members[i]) is ComponentsOf,
                TypeModel::SetType(s) => exists|i: int|
                    0 <= i < s.members.len() && (#[trigger] s.members[i]) is ComponentsOf,
                _ => false,
            },
            Pending::ChoiceSelection => self is ChoiceSelectionType,
            Pending::ConstraintReference => constraints_have_reference(self.constraints()),
        }
    }

    /// The type, or a type in one of its alternatives, components or
    /// elements, holds a reference of the kind `what`.
    pub open spec fn has_pending(self, what: Pending) -> bool
        decreases self,
    {
        self.pending_here(what) || match self {
            TypeModel::Choice { options, .. } => exists|i: int|
                0 <= i < options.len() && (#[trigger] options[i]).ty.has_pending(what),
            TypeModel::Sequence(s) => exists|i: int|
                0 <= i < s.members.len() && component_has_pending(#[trigger] s.members[i], what),
            TypeModel::SetType(s) => exists|i: int|
                0 <= i < s.members.len() && component_has_pending(#[trigger] s.members[i], what),
            TypeModel::SequenceOf { ty, .. } => ty.has_pending(what),
            TypeModel::SetOf { ty, .. } => ty.has_pending(what),
            _ => false,
        }
    }

    /// The type after a pass of the linker. `owner` is the name of the
    /// definition that the type belongs to, `s` the definitions it is linked
    /// against. What the pass cannot resolve stays as it is.
    pub open spec fn linked(self, pass: LinkPass, owner: Seq<char>, s: Seq<DefinitionModel>) -> TypeModel
        decreases self,
    {
        match self {
            TypeModel::Null => self,
            TypeModel::Boolean => self,
            TypeModel::Integer { constraints, distinguished_values } => TypeModel::Integer {
                constraints: passed_constraints(constraints, pass, owner, s),
                distinguished_values,
            },
            TypeModel::BitString { constraints, distinguished_values } => TypeModel::BitString {
                constraints: passed_constraints(constraints, pass, owner, s),
                distinguished_values,
            },
            TypeModel::OctetString { constraints } => TypeModel::OctetString {
                constraints: passed_constraints(constraints, pass, owner, s),
            },
            TypeModel::ObjectIdentifier { constraints } => TypeModel::ObjectIdentifier {
                constraints: passed_constraints(constraints, pass, owner, s),
            },
            TypeModel::CharacterString { constraints, kind } => TypeModel::CharacterString {
                constraints: passed_constraints(constraints, pass, owner, s),
                kind,
            },
            TypeModel::Enumerated { members, extensible, constraints } => TypeModel::Enumerated {
                members,
                extensible,
                constraints: passed_constraints(constraints, pass, owner, s),
            },
            TypeModel::Choice { extensible, options, constraints } => TypeModel::Choice {
                extensible,
                options: Seq::new(
                    options.len(),
                    |i: int|
                        if 0 <= i < options.len() {
                            OptionModel {
                                name: options[i].name,
                                tag: options[i].tag,
                                ty: options[i].ty.linked(pass, owner, s),
                            }
                        } else {
                            arbitrary()
                        },
                ),
                constraints: passed_constraints(constraints, pass, owner, s),
            },
            TypeModel::Sequence(st) => TypeModel::Sequence(linked_structure(st, pass, owner, s)),
            TypeModel::SetType(st) => TypeModel::SetType(linked_structure(st, pass, owner, s)),
            TypeModel::SequenceOf { constraints, ty } => TypeModel::SequenceOf {
                constraints: passed_constraints(constraints, pass, owner, s),
                ty: Box::new(ty.linked(pass, owner, s)),
            },
            TypeModel::SetOf { constraints, ty } => TypeModel::SetOf {
                constraints: passed_constraints(constraints, pass, owner, s),
                ty: Box::new(ty.linked(pass, owner, s)),
            },
            TypeModel::ElsewhereDeclaredType { identifier, constraints } => TypeModel::ElsewhereDeclaredType {
                identifier,
                constraints: passed_constraints(constraints, pass, identifier, s),
            },
            TypeModel::InformationObjectFieldReference { class, field_path, constraints } => {
                if pass == LinkPass::ClassReferences && class_field_type(s, class, field_path) is Some {
                    class_field_type(s, class, field_path)->Some_0
                } else {
                    TypeModel::InformationObjectFieldReference {
                        class,
                        field_path,
                        constraints: passed_constraints(constraints, pass, owner, s),
                    }
                }
            },
            TypeModel::ChoiceSelectionType { choice_name, selected_option } => {
                if pass == LinkPass::ChoiceSelections && selected_alternative(s, choice_name, selected_option)
                    is Some {
                    selected_alternative(s, choice_name, selected_option)->Some_0
                } else {
                    self
                }
            },
            TypeModel::Parameterized { .. } => self,
        }
    }

    /// The pass resolves all that it looks for in the type: every class
    /// field, every selected alternative, or every value that a constraint
    /// refers to is found.
    pub open spec fn settles(self, pass: LinkPass, owner: Seq<char>, s: Seq<DefinitionModel>) -> bool
        decreases self,
    {
        match self {
            TypeModel::Choice { options, constraints, .. } => constraints_settle(constraints, pass, owner, s)
                && forall|i: int| 0 <= i < options.len() ==> (#[trigger] options[i]).ty.settles(pass, owner, s),
            TypeModel::Sequence(st) => structure_settles(st, pass, owner, s),
            TypeModel::SetType(st) => structure_settles(st, pass, owner, s),
            TypeModel::SequenceOf { constraints, ty } => constraints_settle(constraints, pass, owner, s)
                && ty.settles(pass, owner, s),
            TypeModel::SetOf { constraints, ty } => constraints_settle(constraints, pass, owner, s) && ty.settles(
                pass,
                owner,
                s,
            ),
            TypeModel::ElsewhereDeclaredType { identifier, constraints } => constraints_settle(
                constraints,
                pass,
                identifier,
                s,
            ),
            TypeModel::InformationObjectFieldReference { class, field_path, constraints } => {
                if pass == LinkPass::ClassReferences {
                    class_field_type(s, class, field_path) is Some
                } else {
                    constraints_settle(constraints, pass, owner, s)
                }
            },
            TypeModel::ChoiceSelectionType { choice_name, selected_option } => {
                pass == LinkPass::ChoiceSelections ==> selected_alternative(s, choice_name, selected_option)
                    is Some
            },
            _ => constraints_settle(self.constraints(), pass, owner, s),
        }
    }
}

/// The component is a member whose type holds a reference of the kind `what`.
pub open spec fn component_has_pending(c: ComponentModel, what: Pending) -> bool
    decreases c,
{
    match c {
        ComponentModel::Member(m) => m.ty.has_pending(what),
        ComponentModel::ComponentsOf(_) => false,
    }
}

/// The component after a pass of the linker over the type of a member.
pub open spec fn linked_component(c: ComponentModel, pass: LinkPass, owner: Seq<char>, s: Seq<DefinitionModel>) -> ComponentModel
    decreases c,
{
    match c {
        ComponentModel::Member(m) => ComponentModel::Member(
            MemberModel {
                name: m.name,
                tag: m.tag,
                ty: m.ty.linked(pass, owner, s),
                default_value: m.default_value,
                is_optional: m.is_optional,
            },
        ),
        ComponentModel::ComponentsOf(_) => c,
    }
}

/// The pass resolves all that it looks for in the type of a member.
pub open spec fn component_settles(c: ComponentModel, pass: LinkPass, owner: Seq<char>, s: Seq<DefinitionModel>) -> bool
    decreases c,
{
    match c {
        ComponentModel::Member(m) => m.ty.settles(pass, owner, s),
        ComponentModel::ComponentsOf(_) => true,
    }
}

/// A SEQUENCE or SET after a pass of the linker.
pub open spec fn linked_structure(st: StructureModel, pass: LinkPass, owner: Seq<char>, s: Seq<DefinitionModel>) -> StructureModel
    decreases st,
{
    StructureModel {
        extensible: st.extensible,
        constraints: passed_constraints(st.constraints, pass, owner, s),
        members: Seq::new(
            st.members.len(),
            |i: int|
                if 0 <= i < st.members.len() {
                    linked_component(st.members[i], pass, owner, s)
                } else {
                    arbitrary()
                },
        ),
    }
}

/// The pass resolves all that it looks for in a SEQUENCE or SET.
pub open spec fn structure_settles(st: StructureModel, pass: LinkPass, owner: Seq<char>, s: Seq<DefinitionModel>) -> bool
    decreases st,
{
    constraints_settle(st.constraints, pass, owner, s) && forall|i: int|
        0 <= i < st.members.len() ==> component_settles(#[trigger] st.members[i], pass, owner, s)
}

/// The constraints as the pass leaves them, and whether nothing stayed unresolved.
fn pass_constraints(cs: &Vec<Constraint>, pass: LinkPass, expected: &String, tlds: &ReferenceIndex) -> (r: (
    Vec<Constraint>,
    bool,
))
    ensures
        constraints_view(r.0) == passed_constraints(constraints_view(*cs), pass, expected@, tlds@),
        r.1 == constraints_settle(constraints_view(*cs), pass, expected@, tlds@),
{
    match pass {
        LinkPass::ConstraintReferences => link_cross_references(cs, expected, tlds),
        _ => (duplicate_constraints(cs), true),
    }
}

/// Looks up the type of the field that `path` leads to in the class `class`.
fn find_class_field_type(class: &String, path: &Vec<ObjectFieldIdentifier>, tlds: &ReferenceIndex) -> (r: Option<
    ASN1Type,
>)
    ensures
        optional_type_view(r) == class_field_type(
            tlds@,
            class@,
            field_path_view(path@),
        ),
{
    match tlds.get(class.as_str()) {
        Some(ToplevelDefinition::Information(i)) => match &i.value {
            ASN1Information::ObjectClass(c) => match walk_object_field_ref_path(&c.fields, path, 0) {
                Some(f) => duplicate_optional_type(&f.ty),
                None => None,
            },
            _ => None,
        },
        _ => None,
    }
}

/// Looks up the type of the alternative `selected` of the CHOICE type `choice`.
#[verifier::loop_isolation(false)]
fn find_selected_alternative(choice: &String, selected: &String, tlds: &ReferenceIndex) -> (r: Option<ASN1Type>)
    ensures
        optional_type_view(r) == selected_alternative(tlds@, choice@, selected@),
{
    match tlds.get(choice.as_str()) {
        Some(ToplevelDefinition::Type(t)) => match &t.ty {
            ASN1Type::Choice(c) => {
                let ghost options = t.ty@->Choice_options;
                let ghost f = alternative_named(selected@);
                let mut i: usize = 0;
                while i < c.options.len()
                    invariant
                        i <= c.options.len(),
                        options.len() == c.options.len(),
                        forall|j: int| 0 <= j < options.len() ==> options[j] == (#[trigger] c.options[j])@,
                        f == alternative_named(selected@),
                        first_some(options.take(i as int), f) is None,
                    decreases c.options.len() - i,
                {
                    proof {
                        lemma_first_some_step(options, f, i as int);
                    }
                    assert(options[i as int] == c.options[i as int]@);
                    if c.options[i].name == *selected {
                        proof {
                            lemma_first_some_prefix(options, f, i + 1);
                        }
                        return Some(c.options[i].ty.duplicate());
                    }
                    i += 1;
                }
                assert(options.take(i as int) =~= options);
                None
            },
            _ => None,
        },
        _ => None,
    }
}

impl SequenceOrSet {
    /// Whether the list holds a `COMPONENTS OF` notation.
    pub fn has_components_of(&self) -> (r: bool)
        ensures
            r == exists|i: int| 0 <= i < self@.members.len() && (#[trigger] self@.members[i]) is ComponentsOf,
    {
        let mut i: usize = 0;
        while i < self.members.len()
            invariant
                i <= self.members.len(),
                forall|j: int| 0 <= j < i ==> !((#[trigger] self@.members[j]) is ComponentsOf),
            decreases self.members.len() - i,
        {
            match &self.members[i] {
                SequenceComponent::ComponentsOf(_) => {
                    assert(self@.members[i as int] is ComponentsOf);
                    return true;
                },
                _ => {},
            }
            i += 1;
        }
        false
    }

    /// Whether the type of a member holds a reference of the kind `what`.
    #[verifier::loop_isolation(false)]
    fn member_has_pending(&self, what: Pending) -> (r: bool)
        ensures
            r == exists|i: int|
                0 <= i < self@.members.len() && component_has_pending(#[trigger] self@.members[i], what),
        decreases self,
    {
        let mut i: usize = 0;
        while i < self.members.len()
            invariant
                i <= self.members.len(),
                forall|j: int| 0 <= j < i ==> !component_has_pending(#[trigger] self@.members[j], what),
            decreases self.members.len() - i,
        {
            match &self.members[i] {
                SequenceComponent::Member(m) => {
                    if m.ty.has_pending(what) {
                        assert(component_has_pending(self@.members[i as int], what));
                        return true;
                    }
                },
                _ => {},
            }
            i += 1;
        }
        false
    }

    /// The list after a pass of the linker, and whether nothing stayed unresolved.
    #[verifier::loop_isolation(false)]
    fn link(&self, pass: LinkPass, owner: &String, tlds: &ReferenceIndex) -> (r: (SequenceOrSet, bool))
        ensures
            r.0@ == linked_structure(self@, pass, owner@, tlds@),
            r.1 == structure_settles(self@, pass, owner@, tlds@),
        decreases self,
    {
        let ghost before = self@.members;
        let (constraints, ok_constraints) = pass_constraints(&self.constraints, pass, owner, tlds);
        let mut out: Vec<SequenceComponent> = Vec::new();
        let mut ok = true;
        let mut i: usize = 0;
        while i < self.members.len()
            invariant
                i <= self.members.len(),
                out.len() == i,
                forall|j: int| 0 <= j < i ==> (#[trigger] out[j])@ == linked_component(before[j], pass, owner@, tlds@),
                ok ==> forall|j: int| 0 <= j < i ==> component_settles(#[trigger] before[j], pass, owner@, tlds@),
                !ok ==> exists|j: int| 0 <= j < i && !component_settles(#[trigger] before[j], pass, owner@, tlds@),
            decreases self.members.len() - i,
        {
            assert(before[i as int] == self.members[i as int]@);
            match &self.members[i] {
                SequenceComponent::Member(m) => {
                    let (ty, ok_here) = m.ty.link(pass, owner, tlds);
                    out.push(
                        SequenceComponent::Member(
                            SequenceOrSetMember {
                                name: m.name.clone(),
                                tag: m.tag,
                                ty,
                                default_value: duplicate_optional_value(&m.default_value),
                                is_optional: m.is_optional,
                            },
                        ),
                    );
                    ok = ok && ok_here;
                },
                SequenceComponent::ComponentsOf(n) => {
                    out.push(SequenceComponent::ComponentsOf(n.clone()));
                },
            }
            i += 1;
        }
        let r = SequenceOrSet { extensible: duplicate_optional_count(&self.extensible), constraints, members: out };
        assert(r@.members =~= linked_structure(self@, pass, owner@, tlds@).members);
        (r, ok_constraints && ok)
    }
}

impl Choice {
    /// Whether the type of an alternative holds a reference of the kind `what`.
    #[verifier::loop_isolation(false)]
    fn option_has_pending(&self, what: Pending) -> (r: bool)
        ensures
            r == exists|i: int|
                0 <= i < self.options@.len() && (#[trigger] option_view(self.options@[i])).ty.has_pending(what),
        decreases self,
    {
        let mut i: usize = 0;
        while i < self.options.len()
            invariant
                i <= self.options.len(),
                forall|j: int|
                    0 <= j < i ==> !(#[trigger] option_view(self.options@[j])).ty.has_pending(what),
            decreases self.options.len() - i,
        {
            if self.options[i].ty.has_pending(what) {
                assert(option_view(self.options@[i as int]).ty.has_pending(what));
                return true;
            }
            i += 1;
        }
        false
    }
}

impl ASN1Type {
    /// Whether the type itself holds a reference of the kind `what`.
    fn pending_here(&self, what: Pending) -> (r: bool)
        ensures
            r == self@.pending_here(what),
    {
        match what {
            Pending::ClassReference => match self {
                ASN1Type::InformationObjectFieldReference(r) => {
                    let n = r.field_path.len();
                    if n == 0 {
                        false
                    } else {
                        assert(self@->InformationObjectFieldReference_field_path.last() == r.field_path[n - 1]@);
                        match &r.field_path[n - 1] {
                            ObjectFieldIdentifier::SingleValue(_) => true,
                            _ => false,
                        }
                    }
                },
                _ => false,
            },
            Pending::ComponentsOf => match self {
                ASN1Type::Sequence(s) => s.has_components_of(),
                ASN1Type::SetType(s) => s.has_components_of(),
                _ => false,
            },
            Pending::ChoiceSelection => match self {
                ASN1Type::ChoiceSelectionType(_) => true,
                _ => false,
            },
            Pending::ConstraintReference => match self {
                ASN1Type::Integer(x) => have_cross_reference(&x.constraints),
                ASN1Type::BitString(x) => have_cross_reference(&x.constraints),
                ASN1Type::OctetString(x) => have_cross_reference(&x.constraints),
                ASN1Type::ObjectIdentifier(x) => have_cross_reference(&x.constraints),
                ASN1Type::CharacterString(x) => have_cross_reference(&x.constraints),
                ASN1Type::Enumerated(x) => have_cross_reference(&x.constraints),
                ASN1Type::Choice(x) => have_cross_reference(&x.constraints),
                ASN1Type::Sequence(x) => have_cross_reference(&x.constraints),
                ASN1Type::SetType(x) => have_cross_reference(&x.constraints),
                ASN1Type::SequenceOf(x) => have_cross_reference(&x.constraints),
                ASN1Type::SetOf(x) => have_cross_reference(&x.constraints),
                ASN1Type::ElsewhereDeclaredType(x) => have_cross_reference(&x.constraints),
                ASN1Type::InformationObjectFieldReference(x) => have_cross_reference(&x.constraints),
                _ => {
                    assert(!constraints_have_reference(Seq::<ConstraintModel>::empty()));
                    false
                },
            },
        }
    }

    /// Whether the type, or a type in one of its alternatives, components or
    /// elements, holds a reference of the kind `what`.
    pub fn has_pending(&self, what: Pending) -> (r: bool)
        ensures
            r == self@.has_pending(what),
        decreases self,
    {
        if self.pending_here(what) {
            return true;
        }
        match self {
            ASN1Type::Choice(c) => {
                let r = c.option_has_pending(what);
                proof {
                    let options = self@->Choice_options;
                    if r {
                        let i = choose|i: int|
                            0 <= i < c.options@.len() && (#[trigger] option_view(c.options@[i])).ty.has_pending(what);
                        assert(options[i].ty.has_pending(what));
                    } else {
                        assert forall|i: int| 0 <= i < options.len() implies !(#[trigger] options[i]).ty.has_pending(
                            what,
                        ) by {
                            assert(options[i] == option_view(c.options@[i]));
                        }
                    }
                }
                r
            },
            ASN1Type::Sequence(s) => s.member_has_pending(what),
            ASN1Type::SetType(s) => s.member_has_pending(what),
            ASN1Type::SequenceOf(s) => s.ty.has_pending(what),
            ASN1Type::SetOf(s) => s.ty.has_pending(what),
            _ => false,
        }
    }

    /// The type after the pass `pass` of the linker, and whether the pass
    /// resolved all that it looks for. `owner` names the definition that the
    /// type belongs to; `tlds` holds the definitions it is linked against.
    #[verifier::loop_isolation(false)]
    pub fn link(&self, pass: LinkPass, owner: &String, tlds: &ReferenceIndex) -> (r: (ASN1Type, bool))
        ensures
            r.0@ == self@.linked(pass, owner@, tlds@),
            r.1 == self@.settles(pass, owner@, tlds@),
        decreases self,
    {
        match self {
            ASN1Type::Null => (ASN1Type::Null, true),
            ASN1Type::Boolean => (ASN1Type::Boolean, true),
            ASN1Type::Integer(x) => {
                let (constraints, ok) = pass_constraints(&x.constraints, pass, owner, tlds);
                (
                    ASN1Type::Integer(
                        Integer {
                            constraints,
                            distinguished_values: duplicate_distinguished_values(&x.distinguished_values),
                        },
                    ),
                    ok,
                )
            },
            ASN1Type::BitString(x) => {
                let (constraints, ok) = pass_constraints(&x.constraints, pass, owner, tlds);
                (
                    ASN1Type::BitString(
                        BitString {
                            constraints,
                            distinguished_values: duplicate_distinguished_values(&x.distinguished_values),
                        },
                    ),
                    ok,
                )
            },
            ASN1Type::OctetString(x) => {
                let (constraints, ok) = pass_constraints(&x.constraints, pass, owner, tlds);
                (ASN1Type::OctetString(OctetString { constraints }), ok)
            },
            ASN1Type::ObjectIdentifier(x) => {
                let (constraints, ok) = pass_constraints(&x.constraints, pass, owner, tlds);
                (ASN1Type::ObjectIdentifier(ObjectIdentifier { constraints }), ok)
            },
            ASN1Type::CharacterString(x) => {
                let (constraints, ok) = pass_constraints(&x.constraints, pass, owner, tlds);
                (ASN1Type::CharacterString(CharacterString { constraints, kind: x.kind }), ok)
            },
            ASN1Type::Enumerated(x) => {
                let (constraints, ok) = pass_constraints(&x.constraints, pass, owner, tlds);
                (
                    ASN1Type::Enumerated(
                        Enumerated {
                            members: duplicate_enumerals(&x.members),
                            extensible: duplicate_optional_count(&x.extensible),
                            constraints,
                        },
                    ),
                    ok,
                )
            },
            ASN1Type::Choice(c) => {
                let ghost before = self@->Choice_options;
                let (constraints, ok_constraints) = pass_constraints(&c.constraints, pass, owner, tlds);
                let mut out: Vec<ChoiceOption> = Vec::new();
                let mut ok = true;
                let mut i: usize = 0;
                while i < c.options.len()
                    invariant
                        i <= c.options.len(),
                        out.len() == i,
                        forall|j: int|
                            0 <= j < i ==> (#[trigger] out[j])@ == self@.linked(
                                pass,
                                owner@,
                                tlds@,
                            )->Choice_options[j],
                        ok ==> forall|j: int| 0 <= j < i ==> (#[trigger] before[j]).ty.settles(pass, owner@, tlds@),
                        !ok ==> exists|j: int| 0 <= j < i && !(#[trigger] before[j]).ty.settles(pass, owner@, tlds@),
                    decreases c.options.len() - i,
                {
                    assert(before[i as int] == c.options[i as int]@);
                    let (ty, ok_here) = c.options[i].ty.link(pass, owner, tlds);
                    out.push(ChoiceOption { name: c.options[i].name.clone(), tag: c.options[i].tag, ty });
                    ok = ok && ok_here;
                    i += 1;
                }
                let r = ASN1Type::Choice(
                    Choice { extensible: duplicate_optional_count(&c.extensible), options: out, constraints },
                );
                assert(r@->Choice_options =~= self@.linked(pass, owner@, tlds@)->Choice_options);
                (r, ok_constraints && ok)
            },
            ASN1Type::Sequence(s) => {
                let (st, ok) = s.link(pass, owner, tlds);
                (ASN1Type::Sequence(st), ok)
            },
            ASN1Type::SetType(s) => {
                let (st, ok) = s.link(pass, owner, tlds);
                (ASN1Type::SetType(st), ok)
            },
            ASN1Type::SequenceOf(x) => {
                let (constraints, ok_constraints) = pass_constraints(&x.constraints, pass, owner, tlds);
                let (ty, ok) = x.ty.link(pass, owner, tlds);
                (ASN1Type::SequenceOf(SequenceOrSetOf { constraints, ty: Box::new(ty) }), ok_constraints && ok)
            },
            ASN1Type::SetOf(x) => {
                let (constraints, ok_constraints) = pass_constraints(&x.constraints, pass, owner, tlds);
                let (ty, ok) = x.ty.link(pass, owner, tlds);
                (ASN1Type::SetOf(SequenceOrSetOf { constraints, ty: Box::new(ty) }), ok_constraints && ok)
            },
            ASN1Type::ElsewhereDeclaredType(x) => {
                let (constraints, ok) = pass_constraints(&x.constraints, pass, &x.identifier, tlds);
                (
                    ASN1Type::ElsewhereDeclaredType(
                        DeclarationElsewhere { identifier: x.identifier.clone(), constraints },
                    ),
                    ok,
                )
            },
            ASN1Type::InformationObjectFieldReference(x) => {
                match pass {
                    LinkPass::ClassReferences => match find_class_field_type(&x.class, &x.field_path, tlds) {
                        Some(t) => (t, true),
                        None => (self.duplicate(), false),
                    },
                    _ => {
                        let (constraints, ok) = pass_constraints(&x.constraints, pass, owner, tlds);
                        (
                            ASN1Type::InformationObjectFieldReference(
                                InformationObjectFieldReference {
                                    class: x.class.clone(),
                                    field_path: duplicate_field_path(&x.field_path),
                                    constraints,
                                },
                            ),
                            ok,
                        )
                    },
                }
            },
            ASN1Type::ChoiceSelectionType(x) => {
                match pass {
                    LinkPass::ChoiceSelections => match find_selected_alternative(
                        &x.choice_name,
                        &x.selected_option,
                        tlds,
                    ) {
                        Some(t) => (t, true),
                        None => (self.duplicate(), false),
                    },
                    _ => (self.duplicate(), true),
                }
            },
            ASN1Type::Parameterized(_) => (self.duplicate(), true),
        }
    }
}

} // verus!
