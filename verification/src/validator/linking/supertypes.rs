//! The chain of types that a definition is derived from.

use vstd::prelude::*;
use crate::intermediate::constraints::names_view;
use crate::intermediate::toplevel::{DefinitionModel, ToplevelDefinition};
use crate::intermediate::types::{ASN1Type, TypeModel};
use crate::validator::index::{lookup, same_name, ReferenceIndex};

verus! {

/// The names `seen`, followed by `name` and the names of the types that the
/// type `name` is derived from, nearest first. The chain ends at a name that
/// is not defined as a reference to another type, or that was seen before.
/// `fuel` bounds the number of definitions that are followed.
pub open spec fn supertype_chain(s: Seq<DefinitionModel>, name: Seq<char>, seen: Seq<Seq<char>>, fuel: nat) -> Seq<
    Seq<char>,
>
    decreases fuel,
{
    if seen.contains(name) {
        seen
    } else if fuel == 0 {
        seen.push(name)
    } else {
        match lookup(s, name) {
            Some(DefinitionModel::Type(t)) => match t.ty {
                TypeModel::ElsewhereDeclaredType { identifier, .. } => supertype_chain(
                    s,
                    identifier,
                    seen.push(name),
                    (fuel - 1) as nat,
                ),
                _ => seen.push(name),
            },
            _ => seen.push(name),
        }
    }
}

/// The names of the types that the type `name` is derived from, `name`
/// itself first, as far as `s` defines them.
pub open spec fn supertypes_from(s: Seq<DefinitionModel>, name: Seq<char>) -> Seq<Seq<char>> {
    supertype_chain(s, name, Seq::empty(), s.len())
}

/// The supertypes of a type: none unless it is a reference to another type.
pub open spec fn supertypes_of(ty: TypeModel, s: Seq<DefinitionModel>) -> Seq<Seq<char>> {
    match ty {
        TypeModel::ElsewhereDeclaredType { identifier, .. } => supertypes_from(s, identifier),
        _ => Seq::empty(),
    }
}

/// The chain ends at a type that is defined in `s` as an OCTET STRING.
pub open spec fn octet_string_based(s: Seq<DefinitionModel>, chain: Seq<Seq<char>>) -> bool {
    chain.len() > 0 && (lookup(s, chain.last()) matches Some(DefinitionModel::Type(t)) && t.ty is OctetString)
}

/// Whether `name` is among `names`.
fn contains_name(names: &Vec<String>, name: &String) -> (r: bool)
    ensures
        r == names_view(names@).contains(name@),
{
    let mut i: usize = 0;
    while i < names.len()
        invariant
            i <= names.len(),
            forall|j: int| 0 <= j < i ==> names_view(names@)[j] != name@,
        decreases names.len() - i,
    {
        if same_name(names[i].as_str(), name.as_str()) {
            assert(names_view(names@)[i as int] == name@);
            return true;
        }
        i += 1;
    }
    false
}

/// Follows the references from the type `name` through `tlds` and lists the
/// names on the way, `name` first.
pub fn collect_supertypes_from(name: &String, tlds: &ReferenceIndex) -> (r: Vec<String>)
    ensures
        names_view(r@) == supertypes_from(tlds@, name@),
{
    let mut seen: Vec<String> = Vec::new();
    let mut current: String = name.clone();
    let mut fuel: usize = tlds.len();
    assert(names_view(seen@) =~= Seq::<Seq<char>>::empty());
    loop
        invariant
            fuel <= tlds@.len(),
            supertypes_from(tlds@, name@) == supertype_chain(tlds@, current@, names_view(seen@), fuel as nat),
        decreases fuel,
    {
        if contains_name(&seen, &current) {
            return seen;
        }
        let ghost before = names_view(seen@);
        let next = match tlds.get(current.as_str()) {
            Some(ToplevelDefinition::Type(t)) => match &t.ty {
                ASN1Type::ElsewhereDeclaredType(d) => Some(d.identifier.clone()),
                _ => None,
            },
            _ => None,
        };
        seen.push(current);
        assert(names_view(seen@) =~= before.push(current@));
        match next {
            Some(n) => {
                if fuel == 0 {
                    return seen;
                }
                current = n;
                fuel -= 1;
            },
            None => {
                return seen;
            },
        }
    }
}

/// Whether the chain ends at a type that `tlds` defines as an OCTET STRING.
pub fn is_octet_string_based(chain: &Vec<String>, tlds: &ReferenceIndex) -> (r: bool)
    ensures
        r == octet_string_based(tlds@, names_view(chain@)),
{
    if chain.len() == 0 {
        return false;
    }
    assert(names_view(chain@).last() == chain[chain.len() - 1]@);
    match tlds.get(chain[chain.len() - 1].as_str()) {
        Some(ToplevelDefinition::Type(t)) => match &t.ty {
            ASN1Type::OctetString(_) => true,
            _ => false,
        },
        _ => false,
    }
}

} // verus!
