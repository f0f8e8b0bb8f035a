//! Application of a module's tagging default to the tags of a type.

use vstd::prelude::*;
use crate::intermediate::constraints::duplicate_constraints;
use crate::intermediate::types::{
    duplicate_optional_count, ASN1Type, Choice, ChoiceOption, ComponentModel, MemberModel,
    OptionModel, SequenceComponent, SequenceOrSet, SequenceOrSetMember, StructureModel, TypeModel,
};
use crate::intermediate::values::duplicate_optional_value;
use crate::intermediate::{apply_environment_to_tag, tag_in_environment, TaggingEnvironment};

verus! {

/// A component with the tagging default applied to its tag.
pub open spec fn component_in_environment(c: ComponentModel, environment: TaggingEnvironment) -> ComponentModel {
    match c {
        ComponentModel::Member(m) => ComponentModel::Member(
            MemberModel { tag: tag_in_environment(m.tag, environment), ..m },
        ),
        ComponentModel::ComponentsOf(_) => c,
    }
}

/// A SEQUENCE or SET with the tagging default applied to the tags of its components.
pub open spec fn structure_in_environment(st: StructureModel, environment: TaggingEnvironment) -> StructureModel {
    StructureModel {
        members: Seq::new(st.members.len(), |i: int| component_in_environment(st.members[i], environment)),
        ..st
    }
}

/// A type with the tagging default applied to the tags of its components or
/// alternatives. A tag that names a mode of its own keeps it.
pub open spec fn type_in_environment(ty: TypeModel, environment: TaggingEnvironment) -> TypeModel {
    match ty {
        TypeModel::Choice { extensible, options, constraints } => TypeModel::Choice {
            extensible,
            options: Seq::new(
                options.len(),
                |i: int| OptionModel { tag: tag_in_environment(options[i].tag, environment), ..options[i] },
            ),
            constraints,
        },
        TypeModel::Sequence(st) => TypeModel::Sequence(structure_in_environment(st, environment)),
        TypeModel::SetType(st) => TypeModel::SetType(structure_in_environment(st, environment)),
        _ => ty,
    }
}

/// Applying the same tagging default a second time changes nothing.
pub proof fn lemma_type_in_environment_idempotent(ty: TypeModel, environment: TaggingEnvironment)
    ensures
        type_in_environment(type_in_environment(ty, environment), environment) == type_in_environment(
            ty,
            environment,
        ),
{
    let once = type_in_environment(ty, environment);
    let twice = type_in_environment(once, environment);
    match ty {
        TypeModel::Choice { options, .. } => {
            assert(twice->Choice_options =~= once->Choice_options);
        },
        TypeModel::Sequence(st) => {
            assert(twice->Sequence_0.members =~= once->Sequence_0.members);
        },
        TypeModel::SetType(st) => {
            assert(twice->SetType_0.members =~= once->SetType_0.members);
        },
        _ => {},
    }
}

impl SequenceOrSet {
    /// The list with the tagging default applied to the tags of its components.
    pub fn apply_tagging_environment(&self, environment: TaggingEnvironment) -> (r: SequenceOrSet)
        ensures
            r@ == structure_in_environment(self@, environment),
    {
        let mut out: Vec<SequenceComponent> = Vec::new();
        let mut i: usize = 0;
        while i < self.members.len()
            invariant
                i <= self.members.len(),
                out.len() == i,
                forall|j: int|
                    0 <= j < i ==> (#[trigger] out[j])@ == component_in_environment(self@.members[j], environment),
            decreases self.members.len() - i,
        {
            assert(self@.members[i as int] == self.members[i as int]@);
            match &self.members[i] {
                SequenceComponent::Member(m) => {
                    out.push(
                        SequenceComponent::Member(
                            SequenceOrSetMember {
                                name: m.name.clone(),
                                tag: apply_environment_to_tag(&m.tag, environment),
                                ty: m.ty.duplicate(),
                                default_value: duplicate_optional_value(&m.default_value),
                                is_optional: m.is_optional,
                            },
                        ),
                    );
                },
                SequenceComponent::ComponentsOf(n) => {
                    out.push(SequenceComponent::ComponentsOf(n.clone()));
                },
            }
            i += 1;
        }
        let r = SequenceOrSet {
            extensible: duplicate_optional_count(&self.extensible),
            constraints: duplicate_constraints(&self.constraints),
            members: out,
        };
        assert(r@.members =~= structure_in_environment(self@, environment).members);
        r
    }
}

impl ASN1Type {
    /// The type with the tagging default applied to the tags of its
    /// components or alternatives.
    #[verifier::loop_isolation(false)]
    pub fn apply_tagging_environment(&self, environment: TaggingEnvironment) -> (r: ASN1Type)
        ensures
            r@ == type_in_environment(self@, environment),
    {
        match self {
            ASN1Type::Choice(c) => {
                let ghost before = self@->Choice_options;
                let mut out: Vec<ChoiceOption> = Vec::new();
                let mut i: usize = 0;
                while i < c.options.len()
                    invariant
                        i <= c.options.len(),
                        out.len() == i,
                        forall|j: int|
                            0 <= j < i ==> (#[trigger] out[j])@ == (OptionModel {
                                tag: tag_in_environment(before[j].tag, environment),
                                ..before[j]
                            }),
                    decreases c.options.len() - i,
                {
                    assert(before[i as int] == c.options[i as int]@);
                    out.push(
                        ChoiceOption {
                            name: c.options[i].name.clone(),
                            tag: apply_environment_to_tag(&c.options[i].tag, environment),
                            ty: c.options[i].ty.duplicate(),
                        },
                    );
                    i += 1;
                }
                let r = ASN1Type::Choice(
                    Choice {
                        extensible: duplicate_optional_count(&c.extensible),
                        options: out,
                        constraints: duplicate_constraints(&c.constraints),
                    },
                );
                assert(r@->Choice_options =~= type_in_environment(self@, environment)->Choice_options);
                r
            },
            ASN1Type::Sequence(s) => ASN1Type::Sequence(s.apply_tagging_environment(environment)),
            ASN1Type::SetType(s) => ASN1Type::SetType(s.apply_tagging_environment(environment)),
            _ => self.duplicate(),
        }
    }
}

} // verus!
