//! Expansion of `COMPONENTS OF`.

use vstd::prelude::*;
use crate::intermediate::constraints::duplicate_constraints;
use crate::intermediate::toplevel::{DefinitionModel, ToplevelDefinition};
use crate::intermediate::types::{
    components_view, duplicate_optional_count, ASN1Type, Choice, ChoiceOption, ComponentModel,
    MemberModel, OptionModel, SequenceComponent, SequenceOrSet, SequenceOrSetMember,
    SequenceOrSetOf, StructureModel, TypeModel,
};
use crate::intermediate::values::duplicate_optional_value;
use crate::validator::index::{lookup, ReferenceIndex};

verus! {

/// The number of components in front of the extension marker.
pub open spec fn root_count(st: StructureModel) -> nat {
    match st.extensible {
        Some(e) => if e <= st.members.len() {
            e
        } else {
            st.members.len()
        },
        None => st.members.len(),
    }
}

/// The components that `COMPONENTS OF name` stands for: those that the
/// SEQUENCE or SET type `name` lists in front of its extension marker.
pub open spec fn included_components(s: Seq<DefinitionModel>, name: Seq<char>) -> Option<Seq<ComponentModel>> {
    match lookup(s, name) {
        Some(DefinitionModel::Type(t)) => match t.ty {
            TypeModel::Sequence(st) => Some(st.members.take(root_count(st) as int)),
            TypeModel::SetType(st) => Some(st.members.take(root_count(st) as int)),
            _ => None,
        },
        _ => None,
    }
}

/// The number of components that a component becomes when it is expanded.
pub open spec fn expansion_width(c: ComponentModel, s: Seq<DefinitionModel>) -> nat {
    match c {
        ComponentModel::Member(_) => 1,
        ComponentModel::ComponentsOf(n) => match included_components(s, n) {
            Some(cs) => cs.len(),
            None => 1,
        },
    }
}

/// The length of a component list once every component is expanded.
pub open spec fn expanded_length(ms: Seq<ComponentModel>, s: Seq<DefinitionModel>) -> nat
    decreases ms.len(),
{
    if ms.len() == 0 {
        0
    } else {
        expanded_length(ms.drop_last(), s) + expansion_width(ms.last(), s)
    }
}

/// What a component becomes: a member keeps its place, with its type
/// expanded; a `COMPONENTS OF` notation gives way to the components it stands
/// for, and stays where it stands for none.
pub open spec fn expanded_component(c: ComponentModel, s: Seq<DefinitionModel>) -> Seq<ComponentModel>
    decreases c,
{
    match c {
        ComponentModel::Member(m) => seq![
            ComponentModel::Member(
                MemberModel {
                    name: m.name,
                    tag: m.tag,
                    ty: m.ty.expanded(s),
                    default_value: m.default_value,
                    is_optional: m.is_optional,
                },
            ),
        ],
        ComponentModel::ComponentsOf(n) => match included_components(s, n) {
            Some(cs) => cs,
            None => seq![c],
        },
    }
}

/// The component list with every component expanded, in the order written.
pub open spec fn expanded_components(ms: Seq<ComponentModel>, s: Seq<DefinitionModel>) -> Seq<ComponentModel>
    decreases ms,
{
    if ms.len() == 0 {
        Seq::empty()
    } else {
        expanded_components(ms.drop_last(), s) + expanded_component(ms.last(), s)
    }
}

/// A SEQUENCE or SET with its component list expanded. The extension marker
/// stays behind the components that it stood behind.
pub open spec fn expanded_structure(st: StructureModel, s: Seq<DefinitionModel>) -> StructureModel
    decreases st,
{
    StructureModel {
        extensible: match st.extensible {
            Some(e) => if e <= st.members.len() {
                Some(expanded_length(st.members.take(e as int), s))
            } else {
                Some(e)
            },
            None => None,
        },
        constraints: st.constraints,
        members: expanded_components(st.members, s),
    }
}

impl TypeModel {
    /// The type with every `COMPONENTS OF` notation expanded that stands for
    /// the components of a type in `s`.
    pub open spec fn expanded(self, s: Seq<DefinitionModel>) -> TypeModel
        decreases self,
    {
        match self {
            TypeModel::Choice { extensible, options, constraints } => TypeModel::Choice {
                extensible,
                options: Seq::new(
                    options.len(),
                    |i: int|
                        if 0 <= i < options.len() {
                            OptionModel {
                                name: options[i].name,
                                tag: options[i].tag,
                                ty: options[i].ty.expanded(s),
                            }
                        } else {
                            arbitrary()
                        },
                ),
                constraints,
            },
            TypeModel::Sequence(st) => TypeModel::Sequence(expanded_structure(st, s)),
            TypeModel::SetType(st) => TypeModel::SetType(expanded_structure(st, s)),
            TypeModel::SequenceOf { constraints, ty } => TypeModel::SequenceOf {
                constraints,
                ty: Box::new(ty.expanded(s)),
            },
            TypeModel::SetOf { constraints, ty } => TypeModel::SetOf { constraints, ty: Box::new(ty.expanded(s)) },
            _ => self,
        }
    }
}

/// [`expanded_length`] is the length of the expanded list.
pub proof fn lemma_expanded_length(ms: Seq<ComponentModel>, s: Seq<DefinitionModel>)
    ensures
        expanded_components(ms, s).len() == expanded_length(ms, s),
    decreases ms.len(),
{
    if ms.len() > 0 {
        lemma_expanded_length(ms.drop_last(), s);
        let c = ms.last();
        assert(expanded_component(c, s).len() == expansion_width(c, s)) by {
            match c {
                ComponentModel::Member(m) => {
                    assert(expanded_component(c, s).len() == 1);
                },
                ComponentModel::ComponentsOf(n) => {},
            }
        }
        assert(expanded_components(ms, s) == expanded_components(ms.drop_last(), s) + expanded_component(c, s));
    }
}

/// Expanding one more component appends what that component becomes.
pub proof fn lemma_expanded_components_step(ms: Seq<ComponentModel>, s: Seq<DefinitionModel>, i: int)
    requires
        0 <= i < ms.len(),
    ensures
        expanded_components(ms.take(i + 1), s) == expanded_components(ms.take(i), s) + expanded_component(
            ms[i],
            s,
        ),
{
    assert(ms.take(i + 1).drop_last() =~= ms.take(i));
}

/// Copies of the components that `COMPONENTS OF name` stands for.
#[verifier::loop_isolation(false)]
fn find_included_components(name: &String, tlds: &ReferenceIndex) -> (r: Option<Vec<SequenceComponent>>)
    ensures
        match r {
            Some(cs) => included_components(tlds@, name@) == Some(components_view(cs@)),
            None => included_components(tlds@, name@) is None,
        },
{
    let st = match tlds.get(name.as_str()) {
        Some(ToplevelDefinition::Type(t)) => match &t.ty {
            ASN1Type::Sequence(st) => st,
            ASN1Type::SetType(st) => st,
            _ => {
                return None;
            },
        },
        _ => {
            return None;
        },
    };
    let count = match st.extensible {
        Some(e) => if e <= st.members.len() {
            e
        } else {
            st.members.len()
        },
        None => st.members.len(),
    };
    let mut out: Vec<SequenceComponent> = Vec::new();
    let mut i: usize = 0;
    while i < count
        invariant
            i <= count,
            count <= st.members.len(),
            out.len() == i,
            forall|j: int| 0 <= j < i ==> (#[trigger] out[j])@ == st.members[j]@,
        decreases count - i,
    {
        out.push(st.members[i].duplicate());
        i += 1;
    }
    assert(components_view(out@) =~= st@.members.take(count as int));
    Some(out)
}

impl SequenceOrSet {
    /// The list with every `COMPONENTS OF` notation expanded that stands for
    /// the components of a type in `tlds`.
    #[verifier::loop_isolation(false)]
    pub fn link_components_of_notation(&self, tlds: &ReferenceIndex) -> (r: SequenceOrSet)
        ensures
            r@ == expanded_structure(self@, tlds@),
        decreases self,
    {
        let ghost before = self@.members;
        let mut out: Vec<SequenceComponent> = Vec::new();
        let mut marker: Option<usize> = None;
        let mut i: usize = 0;
        while i < self.members.len()
            invariant
                i <= self.members.len(),
                components_view(out@) == expanded_components(before.take(i as int), tlds@),
                match self.extensible {
                    Some(e) => if e < i {
                        marker == Some(expanded_components(before.take(e as int), tlds@).len() as usize)
                            && expanded_components(before.take(e as int), tlds@).len() <= usize::MAX
                    } else {
                        marker is None
                    },
                    None => marker is None,
                },
            decreases self.members.len() - i,
        {
            if self.extensible == Some(i) {
                marker = Some(out.len());
            }
            proof {
                lemma_expanded_components_step(before, tlds@, i as int);
                assert(before[i as int] == self.members[i as int]@);
            }
            match &self.members[i] {
                SequenceComponent::Member(m) => {
                    out.push(
                        SequenceComponent::Member(
                            SequenceOrSetMember {
                                name: m.name.clone(),
                                tag: m.tag,
                                ty: m.ty.link_components_of_notation(tlds),
                                default_value: duplicate_optional_value(&m.default_value),
                                is_optional: m.is_optional,
                            },
                        ),
                    );
                    assert(components_view(out@) =~= expanded_components(before.take(i as int), tlds@)
                        + expanded_component(before[i as int], tlds@));
                },
                SequenceComponent::ComponentsOf(n) => {
                    match find_included_components(n, tlds) {
                        Some(mut included) => {
                            let ghost added = components_view(included@);
                            let ghost old_out = out@;
                            out.append(&mut included);
                            assert(components_view(out@) =~= components_view(old_out) + added);
                        },
                        None => {
                            out.push(SequenceComponent::ComponentsOf(n.clone()));
                            assert(components_view(out@) =~= expanded_components(before.take(i as int), tlds@)
                                + expanded_component(before[i as int], tlds@));
                        },
                    }
                },
            }
            i += 1;
        }
        assert(before.take(i as int) =~= before);
        proof {
            if let Some(e) = self.extensible {
                if e <= self.members.len() {
                    lemma_expanded_length(before.take(e as int), tlds@);
                }
            }
        }
        let extensible = match self.extensible {
            Some(e) => if e == self.members.len() {
                Some(out.len())
            } else if e > self.members.len() {
                Some(e)
            } else {
                marker
            },
            None => None,
        };
        let r = SequenceOrSet { extensible, constraints: duplicate_constraints(&self.constraints), members: out };
        assert(r@.members =~= expanded_structure(self@, tlds@).members);
        r
    }
}

impl ASN1Type {
    /// The type with every `COMPONENTS OF` notation expanded that stands for
    /// the components of a type in `tlds`.
    #[verifier::loop_isolation(false)]
    pub fn link_components_of_notation(&self, tlds: &ReferenceIndex) -> (r: ASN1Type)
        ensures
            r@ == self@.expanded(tlds@),
        decreases self,
    {
        match self {
            ASN1Type::Choice(c) => {
                let mut out: Vec<ChoiceOption> = Vec::new();
                let mut i: usize = 0;
                while i < c.options.len()
                    invariant
                        i <= c.options.len(),
                        out.len() == i,
                        forall|j: int|
                            0 <= j < i ==> (#[trigger] out[j])@ == self@.expanded(tlds@)->Choice_options[j],
                    decreases c.options.len() - i,
                {
                    assert(self@->Choice_options[i as int] == c.options[i as int]@);
                    out.push(
                        ChoiceOption {
                            name: c.options[i].name.clone(),
                            tag: c.options[i].tag,
                            ty: c.options[i].ty.link_components_of_notation(tlds),
                        },
                    );
                    i += 1;
                }
                let r = ASN1Type::Choice(
                    Choice {
                        extensible: duplicate_optional_count(&c.extensible),
                        options: out,
                        constraints: duplicate_constraints(&c.constraints),
                    },
                );
                assert(r@->Choice_options =~= self@.expanded(tlds@)->Choice_options);
                r
            },
            ASN1Type::Sequence(s) => ASN1Type::Sequence(s.link_components_of_notation(tlds)),
            ASN1Type::SetType(s) => ASN1Type::SetType(s.link_components_of_notation(tlds)),
            ASN1Type::SequenceOf(x) => ASN1Type::SequenceOf(
                SequenceOrSetOf {
                    constraints: duplicate_constraints(&x.constraints),
                    ty: Box::new(x.ty.link_components_of_notation(tlds)),
                },
            ),
            ASN1Type::SetOf(x) => ASN1Type::SetOf(
                SequenceOrSetOf {
                    constraints: duplicate_constraints(&x.constraints),
                    ty: Box::new(x.ty.link_components_of_notation(tlds)),
                },
            ),
            _ => self.duplicate(),
        }
    }
}

} // verus!
