//! Independence: a definition that answers none of the linker's questions
//! is unrelated to all others. Adding it to a working set changes neither
//! how the others are linked nor what is reported of them.

use vstd::prelude::*;
use crate::intermediate::constraints::{ConstraintModel, ElementModel, ElementsModel};
use crate::intermediate::information_object::{InformationModel, ObjectSetValueModel};
use crate::intermediate::toplevel::DefinitionModel;
use crate::intermediate::types::{ComponentModel, FieldIdModel, StructureModel, TypeModel};
use crate::validator::linking::components::{
    expanded_component, expanded_components, expanded_length, expanded_structure,
};
use crate::validator::linking::constraints::{constraints_resolve, linked_constraints};
use crate::validator::linking::information::resolved_entries;
use crate::validator::linking::types::{
    component_settles, linked_component, linked_structure, structure_settles, LinkPass,
};
use crate::validator::error::ValidatorErrorModel;
use crate::validator::index::{
    first_some, lemma_insert_lookup, lemma_lookup_absent, lookup, name_lt, sorted_by_name,
};
use crate::validator::laws::{
    keys_in_range, lemma_linked_keeps_frame, lemma_validation_covers, lemma_worklist_complete,
};
use crate::validator::{
    invalid_range_error, lemma_positions_in_range, link_from, linked_set, positions,
    valid_definitions, validated, validation_errors, worklist, Linked,
};
use crate::validator::linking::components::included_components;
use crate::validator::linking::information::{class_named, included_objects};
use crate::validator::linking::supertypes::{
    octet_string_based, supertype_chain, supertypes_from,
};
use crate::validator::linking::types::{class_field_type, selected_alternative};
use crate::validator::linking::utils::{declares, find_value};

verus! {

/// The definition answers none of the linker's questions: it is a type, but
/// no structure, no choice, no enumeration, no reference to another type
/// and no octet string, and it names no numbers.
pub open spec fn is_silent(d: DefinitionModel) -> bool {
    d matches DefinitionModel::Type(t) && match t.ty {
        TypeModel::Null => true,
        TypeModel::Boolean => true,
        TypeModel::Integer { distinguished_values, .. } => distinguished_values.len() == 0,
        TypeModel::BitString { .. } => true,
        TypeModel::CharacterString { .. } => true,
        TypeModel::ObjectIdentifier { .. } => true,
        TypeModel::Parameterized { .. } => true,
        _ => false,
    }
}

/// Two sets of definitions answer every question of the linker alike.
pub open spec fn same_answers(a: Seq<DefinitionModel>, b: Seq<DefinitionModel>) -> bool {
    &&& forall|n: Seq<char>| class_named(a, n) == class_named(b, n)
    &&& forall|n: Seq<char>| included_components(a, n) == included_components(b, n)
    &&& forall|n: Seq<char>| included_objects(a, n) == included_objects(b, n)
    &&& forall|c: Seq<char>, o: Seq<char>| selected_alternative(a, c, o) == selected_alternative(b, c, o)
    &&& forall|c: Seq<char>, p: Seq<FieldIdModel>|
        class_field_type(a, c, p) == class_field_type(b, c, p)
    &&& forall|t: Seq<char>, n: Seq<char>| find_value(a, t, n) == find_value(b, t, n)
    &&& forall|n: Seq<char>| supertypes_from(a, n) == supertypes_from(b, n)
    &&& forall|c: Seq<Seq<char>>| octet_string_based(a, c) == octet_string_based(b, c)
}

/// An item that gives nothing does not change what is found first.
pub proof fn lemma_first_some_insert<T, R>(s: Seq<T>, f: spec_fn(T) -> Option<R>, p: int, x: T)
    requires
        0 <= p <= s.len(),
        f(x) is None,
    ensures
        first_some(s.insert(p, x), f) == first_some(s, f),
    decreases s.len(),
{
    let t = s.insert(p, x);
    if p == s.len() {
        assert(t.drop_last() =~= s);
        assert(t.last() == x);
    } else {
        assert(t.drop_last() =~= s.drop_last().insert(p, x));
        assert(t.last() == s.last());
        lemma_first_some_insert(s.drop_last(), f, p, x);
    }
}

/// The number of definitions whose names are not among `seen`.
pub open spec fn unseen(s: Seq<DefinitionModel>, seen: Seq<Seq<char>>) -> nat
    decreases s.len(),
{
    if s.len() == 0 {
        0
    } else {
        unseen(s.drop_last(), seen) + if seen.contains(s.last().name()) {
            0nat
        } else {
            1nat
        }
    }
}

/// Seeing one more name leaves no more definitions unseen, and fewer if a
/// definition goes by that name.
proof fn lemma_unseen_shrinks(s: Seq<DefinitionModel>, seen: Seq<Seq<char>>, name: Seq<char>)
    requires
        !seen.contains(name),
    ensures
        unseen(s, seen.push(name)) <= unseen(s, seen),
        unseen(s, seen) <= s.len(),
        (exists|i: int| 0 <= i < s.len() && (#[trigger] s[i]).name() == name) ==> unseen(s, seen.push(name))
            < unseen(s, seen),
        unseen(s, seen) == 0 ==> forall|i: int| 0 <= i < s.len() ==> seen.contains((#[trigger] s[i]).name()),
    decreases s.len(),
{
    if s.len() > 0 {
        let front = s.drop_last();
        lemma_unseen_shrinks(front, seen, name);
        let more = seen.push(name);
        assert forall|n: Seq<char>| seen.contains(n) implies more.contains(n) by {
            let j = choose|j: int| 0 <= j < seen.len() && seen[j] == n;
            assert(more[j] == n);
        }
        assert(more[more.len() - 1] == name);
        if exists|i: int| 0 <= i < s.len() && (#[trigger] s[i]).name() == name {
            let i = choose|i: int| 0 <= i < s.len() && (#[trigger] s[i]).name() == name;
            if i < s.len() - 1 {
                assert(front[i].name() == name);
            }
        }
        if unseen(s, seen) == 0 {
            assert forall|i: int| 0 <= i < s.len() implies seen.contains((#[trigger] s[i]).name()) by {
                if i < s.len() - 1 {
                    assert(front[i] == s[i]);
                }
            }
        }
    }
}

/// Fuel beyond the number of unseen definitions is never used.
proof fn lemma_fuel_suffices(s: Seq<DefinitionModel>, name: Seq<char>, seen: Seq<Seq<char>>, fuel: nat)
    requires
        unseen(s, seen) <= fuel,
    ensures
        supertype_chain(s, name, seen, fuel + 1) == supertype_chain(s, name, seen, fuel),
    decreases fuel,
{
    if !seen.contains(name) {
        lemma_unseen_shrinks(s, seen, name);
        lemma_lookup_absent(s, name);
        if fuel == 0 {
            assert(lookup(s, name) is None) by {
                assert forall|i: int| 0 <= i < s.len() implies (#[trigger] s[i]).name() != name by {
                    assert(seen.contains(s[i].name()));
                }
            }
        } else {
            match lookup(s, name) {
                Some(DefinitionModel::Type(t)) => match t.ty {
                    TypeModel::ElsewhereDeclaredType { identifier, .. } => {
                        lemma_fuel_suffices(s, identifier, seen.push(name), (fuel - 1) as nat);
                    },
                    _ => {},
                },
                _ => {},
            }
        }
    }
}

/// The type that the definition `name` refers to, if it is a reference to another type.
pub open spec fn referred_type(s: Seq<DefinitionModel>, name: Seq<char>) -> Option<Seq<char>> {
    match lookup(s, name) {
        Some(DefinitionModel::Type(t)) => match t.ty {
            TypeModel::ElsewhereDeclaredType { identifier, .. } => Some(identifier),
            _ => None,
        },
        _ => None,
    }
}

/// The chain of supertypes depends only on which types refer to which.
proof fn lemma_chain_follows_references(
    a: Seq<DefinitionModel>,
    b: Seq<DefinitionModel>,
    name: Seq<char>,
    seen: Seq<Seq<char>>,
    fuel: nat,
)
    requires
        forall|n: Seq<char>| referred_type(a, n) == referred_type(b, n),
    ensures
        supertype_chain(a, name, seen, fuel) == supertype_chain(b, name, seen, fuel),
    decreases fuel,
{
    if !seen.contains(name) && fuel > 0 {
        assert(referred_type(a, name) == referred_type(b, name));
        if let Some(identifier) = referred_type(a, name) {
            lemma_chain_follows_references(a, b, identifier, seen.push(name), (fuel - 1) as nat);
        }
    }
}

/// A silent definition is not heard: with it or without it, a sorted set
/// of definitions answers every question of the linker alike.
pub proof fn lemma_silent_is_unheard(s: Seq<DefinitionModel>, p: int, added: DefinitionModel)
    requires
        0 <= p <= s.len(),
        sorted_by_name(s.insert(p, added)),
        is_silent(added),
    ensures
        sorted_by_name(s),
        same_answers(s, s.insert(p, added)),
{
    let t = s.insert(p, added);
    assert(t[p] == added);
    assert forall|i: int, j: int| 0 <= i < j < s.len() implies name_lt(
        #[trigger] s[i].name(),
        #[trigger] s[j].name(),
    ) by {
        let ti = if i < p { i } else { i + 1 };
        let tj = if j < p { j } else { j + 1 };
        assert(t[ti] == s[i] && t[tj] == s[j]);
    }
    assert forall|j: int| 0 <= j < p implies name_lt(#[trigger] s[j].name(), added.name()) by {
        assert(t[j] == s[j]);
        assert(name_lt(t[j].name(), t[p].name()));
    }
    assert forall|j: int| p <= j < s.len() implies name_lt(added.name(), #[trigger] s[j].name()) by {
        assert(t[j + 1] == s[j]);
        assert(name_lt(t[p].name(), t[j + 1].name()));
    }
    lemma_insert_lookup(s, p, added);
    assert forall|n: Seq<char>| referred_type(s, n) == referred_type(t, n) by {
        if n != added.name() {
            assert(lookup(t, n) == lookup(s, n));
        }
    }
    assert forall|n: Seq<char>| class_named(s, n) == class_named(t, n) by {
        if n != added.name() {
            assert(lookup(t, n) == lookup(s, n));
        }
    }
    assert forall|n: Seq<char>| included_components(s, n) == included_components(t, n) by {
        if n != added.name() {
            assert(lookup(t, n) == lookup(s, n));
        }
    }
    assert forall|n: Seq<char>| included_objects(s, n) == included_objects(t, n) by {
        if n != added.name() {
            assert(lookup(t, n) == lookup(s, n));
        }
    }
    assert forall|c: Seq<char>, o: Seq<char>| selected_alternative(s, c, o) == selected_alternative(t, c, o) by {
        if c != added.name() {
            assert(lookup(t, c) == lookup(s, c));
        }
    }
    assert forall|c: Seq<char>, q: Seq<FieldIdModel>|
        class_field_type(s, c, q) == class_field_type(t, c, q) by {
        if c != added.name() {
            assert(lookup(t, c) == lookup(s, c));
        }
    }
    assert forall|x: Seq<char>, n: Seq<char>| find_value(s, x, n) == find_value(t, x, n) by {
        if n != added.name() {
            assert(lookup(t, n) == lookup(s, n));
        }
        lemma_first_some_insert(s, declares(Some(x), n), p, added);
        lemma_first_some_insert(s, declares(None, n), p, added);
    }
    assert forall|n: Seq<char>| supertypes_from(s, n) == supertypes_from(t, n) by {
        lemma_chain_follows_references(s, t, n, Seq::empty(), t.len());
        lemma_unseen_shrinks(s, Seq::empty(), n);
        lemma_fuel_suffices(s, n, Seq::empty(), s.len());
    }
    assert forall|c: Seq<Seq<char>>| octet_string_based(s, c) == octet_string_based(t, c) by {
        if c.len() > 0 && c.last() != added.name() {
            assert(lookup(t, c.last()) == lookup(s, c.last()));
        }
    }
}

/// Constraints are linked alike against sets that answer alike.
pub proof fn lemma_constraint_alike(c: ConstraintModel, e: Seq<char>, a: Seq<DefinitionModel>, b: Seq<DefinitionModel>)
    requires
        same_answers(a, b),
    ensures
        c.linked(e, a) == c.linked(e, b),
        c.resolves(e, a) == c.resolves(e, b),
    decreases c,
{
    if let ConstraintModel::SubtypeConstraint(set) = c {
        lemma_elements_alike(set.set, e, a, b);
    }
}

/// See [`lemma_constraint_alike`].
pub proof fn lemma_elements_alike(es: ElementsModel, e: Seq<char>, a: Seq<DefinitionModel>, b: Seq<DefinitionModel>)
    requires
        same_answers(a, b),
    ensures
        es.linked(e, a) == es.linked(e, b),
        es.resolves(e, a) == es.resolves(e, b),
    decreases es,
{
    match es {
        ElementsModel::Element(el) => {
            lemma_element_alike(el, e, a, b);
        },
        ElementsModel::SetOperation { base, operant, .. } => {
            lemma_element_alike(base, e, a, b);
            lemma_elements_alike(*operant, e, a, b);
        },
    }
}

/// See [`lemma_constraint_alike`].
pub proof fn lemma_element_alike(el: ElementModel, e: Seq<char>, a: Seq<DefinitionModel>, b: Seq<DefinitionModel>)
    requires
        same_answers(a, b),
    ensures
        el.linked(e, a) == el.linked(e, b),
        el.resolves(e, a) == el.resolves(e, b),
    decreases el,
{
    match el {
        ElementModel::PermittedAlphabet(inner) => {
            lemma_elements_alike(*inner, e, a, b);
        },
        ElementModel::SizeConstraint(inner) => {
            lemma_elements_alike(*inner, e, a, b);
        },
        ElementModel::InnerType { components, .. } => {
            assert forall|i: int| 0 <= i < components.len() implies linked_constraints(
                (#[trigger] components[i]).constraints,
                e,
                a,
            ) == linked_constraints(components[i].constraints, e, b) && constraints_resolve(
                components[i].constraints,
                e,
                a,
            ) == constraints_resolve(components[i].constraints, e, b) by {
                lemma_constraints_alike(components[i].constraints, e, a, b);
            }
            assert(el.linked(e, a)->InnerType_components =~= el.linked(e, b)->InnerType_components);
        },
        _ => {},
    }
}

/// See [`lemma_constraint_alike`].
pub proof fn lemma_constraints_alike(
    cs: Seq<ConstraintModel>,
    e: Seq<char>,
    a: Seq<DefinitionModel>,
    b: Seq<DefinitionModel>,
)
    requires
        same_answers(a, b),
    ensures
        linked_constraints(cs, e, a) == linked_constraints(cs, e, b),
        constraints_resolve(cs, e, a) == constraints_resolve(cs, e, b),
    decreases cs,
{
    assert forall|i: int| 0 <= i < cs.len() implies (#[trigger] cs[i]).linked(e, a) == cs[i].linked(e, b)
        && cs[i].resolves(e, a) == cs[i].resolves(e, b) by {
        lemma_constraint_alike(cs[i], e, a, b);
    }
    assert(linked_constraints(cs, e, a) =~= linked_constraints(cs, e, b));
}

/// A pass of the linker leaves a type alike against sets that answer alike.
pub proof fn lemma_type_alike(
    ty: TypeModel,
    pass: LinkPass,
    owner: Seq<char>,
    a: Seq<DefinitionModel>,
    b: Seq<DefinitionModel>,
)
    requires
        same_answers(a, b),
    ensures
        ty.linked(pass, owner, a) == ty.linked(pass, owner, b),
        ty.settles(pass, owner, a) == ty.settles(pass, owner, b),
    decreases ty,
{
    lemma_constraints_alike(ty.constraints(), owner, a, b);
    match ty {
        TypeModel::Choice { options, .. } => {
            assert forall|i: int| 0 <= i < options.len() implies (#[trigger] options[i]).ty.linked(pass, owner, a)
                == options[i].ty.linked(pass, owner, b) && options[i].ty.settles(pass, owner, a)
                == options[i].ty.settles(pass, owner, b) by {
                lemma_type_alike(options[i].ty, pass, owner, a, b);
            }
            assert(ty.linked(pass, owner, a)->Choice_options =~= ty.linked(pass, owner, b)->Choice_options);
        },
        TypeModel::Sequence(st) => {
            lemma_structure_alike(st, pass, owner, a, b);
        },
        TypeModel::SetType(st) => {
            lemma_structure_alike(st, pass, owner, a, b);
        },
        TypeModel::SequenceOf { ty: inner, .. } => {
            lemma_type_alike(*inner, pass, owner, a, b);
        },
        TypeModel::SetOf { ty: inner, .. } => {
            lemma_type_alike(*inner, pass, owner, a, b);
        },
        TypeModel::ElsewhereDeclaredType { identifier, constraints } => {
            lemma_constraints_alike(constraints, identifier, a, b);
        },
        TypeModel::InformationObjectFieldReference { class, field_path, .. } => {
            assert(class_field_type(a, class, field_path) == class_field_type(b, class, field_path));
        },
        TypeModel::ChoiceSelectionType { choice_name, selected_option } => {
            assert(selected_alternative(a, choice_name, selected_option) == selected_alternative(
                b,
                choice_name,
                selected_option,
            ));
        },
        _ => {},
    }
}

/// See [`lemma_type_alike`].
pub proof fn lemma_structure_alike(
    st: StructureModel,
    pass: LinkPass,
    owner: Seq<char>,
    a: Seq<DefinitionModel>,
    b: Seq<DefinitionModel>,
)
    requires
        same_answers(a, b),
    ensures
        linked_structure(st, pass, owner, a) == linked_structure(st, pass, owner, b),
        structure_settles(st, pass, owner, a) == structure_settles(st, pass, owner, b),
    decreases st,
{
    lemma_constraints_alike(st.constraints, owner, a, b);
    assert forall|i: int| 0 <= i < st.members.len() implies linked_component(
        #[trigger] st.members[i],
        pass,
        owner,
        a,
    ) == linked_component(st.members[i], pass, owner, b) && component_settles(st.members[i], pass, owner, a)
        == component_settles(st.members[i], pass, owner, b) by {
        if let ComponentModel::Member(m) = st.members[i] {
            lemma_type_alike(m.ty, pass, owner, a, b);
        }
    }
    assert(linked_structure(st, pass, owner, a).members =~= linked_structure(st, pass, owner, b).members);
}

/// `COMPONENTS OF` is expanded alike against sets that answer alike.
pub proof fn lemma_expanded_alike(ty: TypeModel, a: Seq<DefinitionModel>, b: Seq<DefinitionModel>)
    requires
        same_answers(a, b),
    ensures
        ty.expanded(a) == ty.expanded(b),
    decreases ty,
{
    match ty {
        TypeModel::Choice { options, .. } => {
            assert forall|i: int| 0 <= i < options.len() implies (#[trigger] options[i]).ty.expanded(a)
                == options[i].ty.expanded(b) by {
                lemma_expanded_alike(options[i].ty, a, b);
            }
            assert(ty.expanded(a)->Choice_options =~= ty.expanded(b)->Choice_options);
        },
        TypeModel::Sequence(st) => {
            lemma_expanded_structure_alike(st, a, b);
        },
        TypeModel::SetType(st) => {
            lemma_expanded_structure_alike(st, a, b);
        },
        TypeModel::SequenceOf { ty: inner, .. } => {
            lemma_expanded_alike(*inner, a, b);
        },
        TypeModel::SetOf { ty: inner, .. } => {
            lemma_expanded_alike(*inner, a, b);
        },
        _ => {},
    }
}

/// See [`lemma_expanded_alike`].
pub proof fn lemma_expanded_structure_alike(st: StructureModel, a: Seq<DefinitionModel>, b: Seq<DefinitionModel>)
    requires
        same_answers(a, b),
    ensures
        expanded_structure(st, a) == expanded_structure(st, b),
    decreases st,
{
    lemma_expanded_components_alike(st.members, a, b);
    if let Some(e) = st.extensible {
        if e <= st.members.len() {
            lemma_expanded_length_alike(st.members.take(e as int), a, b);
        }
    }
}

/// See [`lemma_expanded_alike`].
pub proof fn lemma_expanded_components_alike(
    ms: Seq<ComponentModel>,
    a: Seq<DefinitionModel>,
    b: Seq<DefinitionModel>,
)
    requires
        same_answers(a, b),
    ensures
        expanded_components(ms, a) == expanded_components(ms, b),
    decreases ms,
{
    if ms.len() > 0 {
        lemma_expanded_components_alike(ms.drop_last(), a, b);
        match ms.last() {
            ComponentModel::Member(m) => {
                lemma_expanded_alike(m.ty, a, b);
            },
            ComponentModel::ComponentsOf(n) => {
                assert(included_components(a, n) == included_components(b, n));
            },
        }
        assert(expanded_component(ms.last(), a) == expanded_component(ms.last(), b));
    }
}

/// See [`lemma_expanded_alike`].
pub proof fn lemma_expanded_length_alike(ms: Seq<ComponentModel>, a: Seq<DefinitionModel>, b: Seq<DefinitionModel>)
    requires
        same_answers(a, b),
    ensures
        expanded_length(ms, a) == expanded_length(ms, b),
    decreases ms.len(),
{
    if ms.len() > 0 {
        lemma_expanded_length_alike(ms.drop_last(), a, b);
        if let ComponentModel::ComponentsOf(n) = ms.last() {
            assert(included_components(a, n) == included_components(b, n));
        }
    }
}

/// The entries of an object set are resolved alike against sets that answer alike.
pub proof fn lemma_resolved_entries_alike(
    vs: Seq<ObjectSetValueModel>,
    a: Seq<DefinitionModel>,
    b: Seq<DefinitionModel>,
)
    requires
        same_answers(a, b),
    ensures
        resolved_entries(vs, a) == resolved_entries(vs, b),
    decreases vs.len(),
{
    if vs.len() > 0 {
        lemma_resolved_entries_alike(vs.drop_last(), a, b);
        if let ObjectSetValueModel::Reference(n) = vs.last() {
            assert(included_objects(a, n) == included_objects(b, n));
        }
    }
}

/// A definition is linked alike against sets that answer alike: the same
/// linked definition, the same warning, the same error.
pub proof fn lemma_definition_alike(d: DefinitionModel, a: Seq<DefinitionModel>, b: Seq<DefinitionModel>)
    requires
        same_answers(a, b),
    ensures
        d.linked(a) == d.linked(b),
        d.link_error(a) == d.link_error(b),
        d.link_warning(a) == d.link_warning(b),
{
    match d {
        DefinitionModel::Type(t) => {
            lemma_type_alike(t.ty, LinkPass::ClassReferences, t.name, a, b);
            let d1 = if d.references_class_by_name() {
                d.with_class_resolved(a)
            } else {
                d
            };
            lemma_expanded_alike(d1->Type_0.ty, a, b);
            let d2 = d.structurally_linked(a);
            assert(d2 == d.structurally_linked(b));
            lemma_type_alike(d2->Type_0.ty, LinkPass::ChoiceSelections, t.name, a, b);
            let d4 = d.reference_linked(a);
            assert(d4 == d.reference_linked(b));
            lemma_type_alike(d4->Type_0.ty, LinkPass::ConstraintReferences, t.name, a, b);
            let d5 = if d4.has_constraint_reference() {
                d4.with_constraints_linked(a)
            } else {
                d4
            };
            assert(supertypes_from(a, t.name) == supertypes_from(b, t.name));
            if let TypeModel::ElsewhereDeclaredType { identifier, .. } = d5->Type_0.ty {
                assert(supertypes_from(a, identifier) == supertypes_from(b, identifier));
            }
        },
        DefinitionModel::Value(v) => {
            assert(supertypes_from(a, v.associated_type) == supertypes_from(b, v.associated_type));
            let chain = supertypes_from(a, v.associated_type);
            assert(octet_string_based(a, chain) == octet_string_based(b, chain));
        },
        DefinitionModel::Information(i) => {
            if let Some(crate::intermediate::information_object::ClassLinkModel::ByName(n)) = i.class {
                assert(class_named(a, n) == class_named(b, n));
            }
            if let InformationModel::ObjectSet(os) = i.value {
                lemma_resolved_entries_alike(os.values, a, b);
                if let Some(e) = os.extensible {
                    if e <= os.values.len() {
                        lemma_resolved_entries_alike(os.values.take(e as int), a, b);
                    }
                }
            }
        },
    }
}

/// A silent definition links without error, and it stays silent.
pub proof fn lemma_silent_stays_silent(d: DefinitionModel, s: Seq<DefinitionModel>)
    requires
        is_silent(d),
    ensures
        d.link_error(s) is None,
        is_silent(d.linked(s)),
        d.linked(s).name() == d.name(),
{
}

/// The position of a definition once another has entered the set at `at`.
pub open spec fn shifted(k: int, at: int) -> int {
    if k < at {
        k
    } else {
        k + 1
    }
}

/// The keys of a working set as they read once a definition has entered at `at`.
pub open spec fn shifted_keys(keys: Seq<int>, at: int) -> Seq<int> {
    Seq::new(keys.len(), |j: int| shifted(keys[j], at))
}

/// The keys of the larger set: those of the smaller one, shifted, with the
/// new definition's position behind the first `pending` of them, or
/// without it if its turn is over.
pub open spec fn keys_with(keys: Seq<int>, at: int, pending: Option<int>) -> Seq<int> {
    match pending {
        Some(q) => shifted_keys(keys.take(q), at) + seq![at] + shifted_keys(keys.skip(q), at),
        None => shifted_keys(keys, at),
    }
}

/// Every diagnostic of the one list is in the other.
pub open spec fn all_among(a: Seq<ValidatorErrorModel>, b: Seq<ValidatorErrorModel>) -> bool {
    forall|e: ValidatorErrorModel| a.contains(e) ==> b.contains(e)
}

/// The results of linking a set and the set with one more definition at
/// `at` correspond: the same error; or the same linked definitions, the new
/// one among them, and no warning lost.
pub open spec fn corresponds(small: Linked, large: Linked, at: int) -> bool {
    match (small, large) {
        (Ok((t, w)), Ok((t2, w2))) => {
            &&& t2.len() == t.len() + 1
            &&& 0 <= at < t2.len()
            &&& t2.remove(at) == t
            &&& is_silent(t2[at])
            &&& all_among(w, w2)
        },
        (Err(e), Err(e2)) => e == e2,
        _ => false,
    }
}

/// One more diagnostic in both lists, or in the second only, loses none.
proof fn lemma_all_among_push(
    a: Seq<ValidatorErrorModel>,
    b: Seq<ValidatorErrorModel>,
    x: Option<ValidatorErrorModel>,
)
    requires
        all_among(a, b),
    ensures
        all_among(
            match x {
                Some(e) => a.push(e),
                None => a,
            },
            match x {
                Some(e) => b.push(e),
                None => b,
            },
        ),
        all_among(
            a,
            match x {
                Some(e) => b.push(e),
                None => b,
            },
        ),
{
    if let Some(x) = x {
        let a2 = a.push(x);
        let b2 = b.push(x);
        assert(b2[b2.len() - 1] == x);
        assert forall|e: ValidatorErrorModel| b.contains(e) implies b2.contains(e) by {
            let j = choose|j: int| 0 <= j < b.len() && b[j] == e;
            assert(b2[j] == e);
        }
        assert forall|e: ValidatorErrorModel| a2.contains(e) implies b2.contains(e) by {
            let j = choose|j: int| 0 <= j < a2.len() && a2[j] == e;
            if j < a.len() {
                assert(a[j] == e);
            }
        }
    }
}

/// A set with a definition put in at `at` and another taken out is the set
/// with the other taken out and the definition put in.
proof fn lemma_insert_remove(s: Seq<DefinitionModel>, at: int, x: DefinitionModel, k: int)
    requires
        0 <= at <= s.len(),
        0 <= k < s.len(),
    ensures
        s.insert(at, x).remove(shifted(k, at)) == s.remove(k).insert(
            if k < at {
                at - 1
            } else {
                at
            },
            x,
        ),
        s.insert(at, x)[shifted(k, at)] == s[k],
        forall|d: DefinitionModel| s.insert(at, x).update(shifted(k, at), d) == s.update(k, d).insert(at, x),
{
    let at2 = if k < at { at - 1 } else { at };
    assert(s.insert(at, x).remove(shifted(k, at)) =~= s.remove(k).insert(at2, x));
    assert forall|d: DefinitionModel| s.insert(at, x).update(shifted(k, at), d) == s.update(k, d).insert(at, x) by {
        assert(s.insert(at, x).update(shifted(k, at), d) =~= s.update(k, d).insert(at, x));
    }
}

/// A sorted set stays sorted when a definition is taken out, or replaced
/// by one of the same name.
proof fn lemma_sorted_parts(s: Seq<DefinitionModel>, k: int, d: DefinitionModel)
    requires
        sorted_by_name(s),
        0 <= k < s.len(),
        d.name() == s[k].name(),
    ensures
        sorted_by_name(s.remove(k)),
        sorted_by_name(s.update(k, d)),
{
    let r = s.remove(k);
    assert forall|i: int, j: int| 0 <= i < j < r.len() implies name_lt(
        #[trigger] r[i].name(),
        #[trigger] r[j].name(),
    ) by {
        let si = if i < k { i } else { i + 1 };
        let sj = if j < k { j } else { j + 1 };
        assert(r[i] == s[si] && r[j] == s[sj]);
    }
    let u = s.update(k, d);
    assert forall|i: int, j: int| 0 <= i < j < u.len() implies name_lt(
        #[trigger] u[i].name(),
        #[trigger] u[j].name(),
    ) by {
        assert(u[i].name() == s[i].name() && u[j].name() == s[j].name());
    }
}

/// The linker runs alike on a working set and on the set with one more,
/// silent definition: step by step the other definitions are linked to the
/// same, with the same warnings and the same error.
pub proof fn lemma_linking_alike(
    s: Seq<DefinitionModel>,
    x: DefinitionModel,
    at: int,
    keys: Seq<int>,
    pending: Option<int>,
    w: Seq<ValidatorErrorModel>,
    w2: Seq<ValidatorErrorModel>,
)
    requires
        0 <= at <= s.len(),
        sorted_by_name(s.insert(at, x)),
        is_silent(x),
        keys_in_range(keys, s.len()),
        pending matches Some(q) ==> 0 <= q <= keys.len(),
        all_among(w, w2),
    ensures
        corresponds(link_from(s, keys, w), link_from(s.insert(at, x), keys_with(keys, at, pending), w2), at),
    decreases keys.len(), (if pending is Some { 1int } else { 0int }),
{
    let s2 = s.insert(at, x);
    let keys2 = keys_with(keys, at, pending);
    if pending == Some(keys.len() as int) {
        assert(keys.take(keys.len() as int) =~= keys);
        assert(keys2.last() == at);
        assert(keys2.drop_last() =~= keys_with(keys, at, None));
        assert(s2.remove(at) =~= s);
        assert(s2[at] == x);
        lemma_silent_stays_silent(x, s);
        let x2 = x.linked(s);
        assert(s2.update(at, x2) =~= s.insert(at, x2));
        lemma_sorted_parts(s2, at, x2);
        lemma_all_among_push(w, w2, x.link_warning(s));
        let w3 = match x.link_warning(s) {
            Some(e) => w2.push(e),
            None => w2,
        };
        lemma_linking_alike(s, x2, at, keys, None, w, w3);
    } else if keys.len() == 0 {
        assert(keys2 =~= Seq::<int>::empty());
        assert(s2.remove(at) =~= s);
    } else {
        let k = keys.last();
        let k2 = shifted(k, at);
        let rest = keys.drop_last();
        let pending_rest = pending;
        assert(keys2.last() == k2 && keys2.drop_last() =~= keys_with(rest, at, pending_rest)) by {
            if let Some(q) = pending {
                assert(keys.skip(q).len() > 0);
                assert(rest.take(q) =~= keys.take(q));
                assert(rest.skip(q) =~= keys.skip(q).drop_last());
            }
        }
        assert(keys_in_range(rest, s.len())) by {
            assert forall|j: int| 0 <= j < rest.len() implies 0 <= #[trigger] rest[j] < s.len() by {
                assert(rest[j] == keys[j]);
            }
        }
        assert(keys[keys.len() - 1] == k);
        lemma_insert_remove(s, at, x, k);
        let others = s.remove(k);
        let others2 = s2.remove(k2);
        let at2 = if k < at { at - 1 } else { at };
        lemma_sorted_parts(s2, k2, s2[k2]);
        lemma_silent_is_unheard(others, at2, x);
        lemma_definition_alike(s[k], others, others2);
        if s[k].link_error(others) is None {
            let d = s[k].linked(others);
            lemma_linked_keeps_frame(s[k], others);
            lemma_sorted_parts(s2, k2, d);
            let next = s.update(k, d);
            assert(s2.update(k2, d) == next.insert(at, x));
            lemma_all_among_push(w, w2, s[k].link_warning(others));
            let wa = match s[k].link_warning(others) {
                Some(e) => w.push(e),
                None => w,
            };
            let wb = match s[k].link_warning(others) {
                Some(e) => w2.push(e),
                None => w2,
            };
            lemma_linking_alike(next, x, at, rest, pending_rest, wa, wb);
        }
    }
}

/// In front of the place where a definition enters, the positions are as before.
proof fn lemma_positions_before(s: Seq<DefinitionModel>, x: DefinitionModel, at: int, values: bool, n: nat)
    requires
        0 <= at <= s.len(),
        n <= at,
    ensures
        positions(s.insert(at, x), values, n) == positions(s, values, n),
    decreases n,
{
    if n > 0 {
        lemma_positions_before(s, x, at, values, (n - 1) as nat);
        assert(s.insert(at, x)[n - 1] == s[n - 1]);
    }
}

/// The positions of the first definitions are the first of the positions.
proof fn lemma_positions_prefix(s: Seq<DefinitionModel>, values: bool, m: nat, n: nat)
    requires
        m <= n <= s.len(),
    ensures
        positions(s, values, m).len() <= positions(s, values, n).len(),
        positions(s, values, n).take(positions(s, values, m).len() as int) == positions(s, values, m),
    decreases n,
{
    if m == n {
        assert(positions(s, values, n).take(positions(s, values, n).len() as int) =~= positions(s, values, n));
    } else {
        lemma_positions_prefix(s, values, m, (n - 1) as nat);
        let short = positions(s, values, m);
        let before = positions(s, values, (n - 1) as nat);
        let now = positions(s, values, n);
        assert(now.take(short.len() as int) =~= before.take(short.len() as int));
    }
}

/// Behind the place where a definition that is no value enters, the
/// positions are shifted by one, and the place itself is among the
/// positions of the definitions that are no values.
proof fn lemma_positions_behind(s: Seq<DefinitionModel>, x: DefinitionModel, at: int, n: nat)
    requires
        0 <= at <= n <= s.len(),
        !(x is Value),
    ensures
        positions(s.insert(at, x), true, n + 1) == shifted_keys(positions(s, true, n), at),
        positions(s.insert(at, x), false, n + 1) == keys_with(
            positions(s, false, n),
            at,
            Some(positions(s, false, at as nat).len() as int),
        ),
        positions(s, false, at as nat).len() <= positions(s, false, n).len(),
    decreases n,
{
    let s2 = s.insert(at, x);
    lemma_positions_prefix(s, false, at as nat, n);
    let front = positions(s, false, at as nat);
    let q = front.len() as int;
    if n == at {
        lemma_positions_before(s, x, at, true, n);
        lemma_positions_before(s, x, at, false, n);
        lemma_positions_in_range(s, true, n);
        lemma_positions_in_range(s, false, n);
        assert(s2[at] == x);
        assert(positions(s2, true, n + 1) =~= shifted_keys(positions(s, true, n), at));
        assert(front.take(q) =~= front);
        assert(front.skip(q) =~= Seq::<int>::empty());
        assert(positions(s2, false, n + 1) =~= keys_with(front, at, Some(q)));
    } else {
        lemma_positions_behind(s, x, at, (n - 1) as nat);
        lemma_positions_prefix(s, false, at as nat, (n - 1) as nat);
        assert(s2[n as int] == s[n - 1]);
        let before_values = positions(s, true, (n - 1) as nat);
        let now_values = positions(s, true, n);
        assert(positions(s2, true, n + 1) =~= shifted_keys(now_values, at));
        let before = positions(s, false, (n - 1) as nat);
        let now = positions(s, false, n);
        assert(now.take(q) =~= before.take(q));
        if s[n - 1] is Value {
            assert(now == before);
        } else {
            assert(now.skip(q) =~= before.skip(q).push(n - 1));
            assert(shifted_keys(now.skip(q), at) =~= shifted_keys(before.skip(q), at).push(n as int));
        }
        assert(positions(s2, false, n + 1) =~= keys_with(now, at, Some(q)));
    }
}

/// The worklist of a set with one more definition that is no value is the
/// worklist of the set, shifted, with the place of the new definition in it.
proof fn lemma_worklist_with(s: Seq<DefinitionModel>, x: DefinitionModel, at: int)
    requires
        0 <= at <= s.len(),
        !(x is Value),
    ensures
        exists|q: int|
            0 <= q <= worklist(s).len() && worklist(s.insert(at, x)) == #[trigger] keys_with(worklist(s), at, Some(q)),
{
    lemma_positions_behind(s, x, at, s.len());
    let values = positions(s, true, s.len());
    let others = positions(s, false, s.len());
    let qo = positions(s, false, at as nat).len() as int;
    let q = values.len() + qo;
    let keys = worklist(s);
    assert(keys.take(q) =~= values + others.take(qo));
    assert(keys.skip(q) =~= others.skip(qo));
    assert(shifted_keys(keys.take(q), at) =~= shifted_keys(values, at) + shifted_keys(others.take(qo), at));
    assert(worklist(s.insert(at, x)) =~= keys_with(keys, at, Some(q)));
}

/// Each diagnostic of the validator comes of a definition that is not valid.
proof fn lemma_validation_sources(s: Seq<DefinitionModel>, e: ValidatorErrorModel)
    requires
        validation_errors(s).contains(e),
    ensures
        exists|i: int| 0 <= i < s.len() && !(#[trigger] s[i]).valid() && e == invalid_range_error(Some(s[i].name())),
    decreases s.len(),
{
    let errors = validation_errors(s);
    let j = choose|j: int| 0 <= j < errors.len() && errors[j] == e;
    if s.len() > 0 {
        let before = validation_errors(s.drop_last());
        if j < before.len() {
            assert(before[j] == e);
            lemma_validation_sources(s.drop_last(), e);
            let i = choose|i: int|
                0 <= i < s.drop_last().len() && !(#[trigger] s.drop_last()[i]).valid() && e == invalid_range_error(
                    Some(s.drop_last()[i].name()),
                );
            assert(s[i] == s.drop_last()[i]);
        } else {
            assert(!s[s.len() - 1].valid());
        }
    }
}

/// Each definition that validation keeps is a valid one of those checked.
proof fn lemma_kept_sources(s: Seq<DefinitionModel>, d: DefinitionModel)
    requires
        valid_definitions(s).contains(d),
    ensures
        exists|i: int| 0 <= i < s.len() && (#[trigger] s[i]) == d && d.valid(),
    decreases s.len(),
{
    let kept = valid_definitions(s);
    let j = choose|j: int| 0 <= j < kept.len() && kept[j] == d;
    if s.len() > 0 {
        let before = valid_definitions(s.drop_last());
        if j < before.len() {
            assert(before[j] == d);
            lemma_kept_sources(s.drop_last(), d);
            let i = choose|i: int| 0 <= i < s.drop_last().len() && (#[trigger] s.drop_last()[i]) == d && d.valid();
            assert(s[i] == s.drop_last()[i]);
        } else {
            assert(s[s.len() - 1] == d);
        }
    }
}

/// Diagnostics are monotone: a silent definition is unrelated to all
/// others. Where it is added to a working set, the linker runs into the
/// same error or into none; every definition that validation kept is kept
/// as it was, and every warning and every diagnostic that was reported is
/// reported still.
pub proof fn lemma_silent_addition_keeps_diagnostics(s: Seq<DefinitionModel>, at: int, added: DefinitionModel)
    requires
        0 <= at <= s.len(),
        sorted_by_name(s.insert(at, added)),
        is_silent(added),
    ensures
        corresponds(linked_set(s), linked_set(s.insert(at, added)), at),
        validated(s) is Ok <==> validated(s.insert(at, added)) is Ok,
        validated(s) is Err ==> validated(s.insert(at, added)) == validated(s),
        validated(s) matches Ok((kept, diagnostics)) ==> (validated(s.insert(at, added)) matches Ok(
            (kept2, diagnostics2),
        ) && all_among(diagnostics, diagnostics2) && forall|d: DefinitionModel|
            kept.contains(d) ==> kept2.contains(d)),
{
    let s2 = s.insert(at, added);
    lemma_worklist_with(s, added, at);
    let q = choose|q: int|
        0 <= q <= worklist(s).len() && worklist(s2) == #[trigger] keys_with(worklist(s), at, Some(q));
    lemma_worklist_complete(s);
    lemma_linking_alike(s, added, at, worklist(s), Some(q), Seq::empty(), Seq::empty());
    if let Ok((t, w)) = linked_set(s) {
        let t2 = linked_set(s2)->Ok_0.0;
        let w2 = linked_set(s2)->Ok_0.1;
        assert forall|i: int| 0 <= i < t.len() implies t2[shifted(i, at)] == #[trigger] t[i] by {
            assert(t2.remove(at)[i] == t[i]);
        }
        let diagnostics = w + validation_errors(t);
        let diagnostics2 = w2 + validation_errors(t2);
        assert forall|e: ValidatorErrorModel| diagnostics.contains(e) implies diagnostics2.contains(e) by {
            let j = choose|j: int| 0 <= j < diagnostics.len() && diagnostics[j] == e;
            if j < w.len() {
                assert(w[j] == e);
                assert(w2.contains(e));
                let j2 = choose|j2: int| 0 <= j2 < w2.len() && w2[j2] == e;
                assert(diagnostics2[j2] == e);
            } else {
                assert(validation_errors(t)[j - w.len()] == e);
                lemma_validation_sources(t, e);
                let i = choose|i: int|
                    0 <= i < t.len() && !(#[trigger] t[i]).valid() && e == invalid_range_error(Some(t[i].name()));
                lemma_validation_covers(t2, shifted(i, at));
                let errors2 = validation_errors(t2);
                let j2 = choose|j2: int| 0 <= j2 < errors2.len() && errors2[j2] == e;
                assert(diagnostics2[w2.len() + j2] == e);
            }
        }
        assert forall|d: DefinitionModel| valid_definitions(t).contains(d) implies valid_definitions(t2).contains(
            d,
        ) by {
            lemma_kept_sources(t, d);
            let i = choose|i: int| 0 <= i < t.len() && (#[trigger] t[i]) == d && d.valid();
            lemma_validation_covers(t2, shifted(i, at));
        }
    }
}

} // verus!
