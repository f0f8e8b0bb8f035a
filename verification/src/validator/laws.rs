//! Laws of linking and validation: what holds of every working set.

use vstd::prelude::*;
use crate::intermediate::information_object::ClassLinkModel;
use crate::intermediate::toplevel::DefinitionModel;
use crate::validator::error::ValidatorErrorModel;
use crate::validator::index::{
    lemma_lookup_sorted, lemma_name_lt_asymmetric, lemma_remove_lookup, lookup, name_lt,
    sorted_by_name,
};
use crate::validator::linking::information::class_named;
use crate::validator::linking::lemma_passes_keep_name;
use crate::validator::{
    invalid_range_error, lemma_positions_in_range, link_from, linked_set, positions,
    valid_definitions, validated, validation_errors, worklist,
};
use crate::intermediate::TaggingEnvironment;
use crate::intermediate::tagging::lemma_type_in_environment_idempotent;
use crate::validator::index::lemma_lookup_absent;

verus! {

/// The definition defines an information object class.
pub open spec fn is_class_definition(d: DefinitionModel) -> bool {
    d matches DefinitionModel::Information(i) && i.value is ObjectClass
}

/// Every key is a position of a working set of `n` definitions.
pub open spec fn keys_in_range(keys: Seq<int>, n: nat) -> bool {
    forall|j: int| 0 <= j < keys.len() ==> 0 <= #[trigger] keys[j] < n
}

/// `t` holds, position by position, definitions of the names, places and
/// kinds of those of `s`.
pub open spec fn same_frame(s: Seq<DefinitionModel>, t: Seq<DefinitionModel>) -> bool {
    &&& t.len() == s.len()
    &&& forall|i: int|
        0 <= i < s.len() ==> {
            &&& (#[trigger] t[i]).name() == s[i].name()
            &&& t[i].place() == s[i].place()
            &&& is_class_definition(t[i]) == is_class_definition(s[i])
            &&& (t[i] is Value) == (s[i] is Value)
            &&& (t[i] is Type) == (s[i] is Type)
        }
}

/// Linking a definition leaves its name, its place and its kind as they
/// are, and a class definition stays one.
pub proof fn lemma_linked_keeps_frame(d: DefinitionModel, s: Seq<DefinitionModel>)
    ensures
        d.linked(s).name() == d.name(),
        d.linked(s).place() == d.place(),
        is_class_definition(d.linked(s)) == is_class_definition(d),
        (d.linked(s) is Value) == (d is Value),
        (d.linked(s) is Type) == (d is Type),
{
    lemma_passes_keep_name(d, s);
}

/// The worklist holds positions of the working set, and each of them.
pub proof fn lemma_worklist_complete(s: Seq<DefinitionModel>)
    ensures
        keys_in_range(worklist(s), s.len()),
        forall|i: int| 0 <= i < s.len() ==> worklist(s).contains(i),
{
    lemma_positions_in_range(s, true, s.len());
    lemma_positions_in_range(s, false, s.len());
    let values = positions(s, true, s.len());
    let others = positions(s, false, s.len());
    assert forall|j: int| 0 <= j < worklist(s).len() implies 0 <= #[trigger] worklist(s)[j] < s.len() by {
        if j < values.len() {
            assert(worklist(s)[j] == values[j]);
        } else {
            assert(worklist(s)[j] == others[j - values.len()]);
        }
    }
    assert forall|i: int| 0 <= i < s.len() implies worklist(s).contains(i) by {
        lemma_positions_hold(s, s[i] is Value, s.len(), i);
        if s[i] is Value {
            let j = choose|j: int| 0 <= j < values.len() && values[j] == i;
            assert(worklist(s)[j] == i);
        } else {
            let j = choose|j: int| 0 <= j < others.len() && others[j] == i;
            assert(worklist(s)[j + values.len()] == i);
        }
    }
}

/// A position is listed among the positions of its kind.
proof fn lemma_positions_hold(s: Seq<DefinitionModel>, values: bool, n: nat, i: int)
    requires
        0 <= i < n <= s.len(),
        (s[i] is Value) == values,
    ensures
        positions(s, values, n).contains(i),
    decreases n,
{
    let now = positions(s, values, n);
    if i == n - 1 {
        assert(now[now.len() - 1] == i);
    } else {
        lemma_positions_hold(s, values, (n - 1) as nat, i);
        let before = positions(s, values, (n - 1) as nat);
        let j = choose|j: int| 0 <= j < before.len() && before[j] == i;
        assert(now[j] == i);
    }
}

/// Linking changes no name, no place and no kind, and keeps the definitions
/// in their positions: the order of a working set is stable.
pub proof fn lemma_link_keeps_frame(s: Seq<DefinitionModel>, keys: Seq<int>, warnings: Seq<ValidatorErrorModel>)
    requires
        keys_in_range(keys, s.len()),
    ensures
        link_from(s, keys, warnings) matches Ok((t, _)) ==> same_frame(s, t),
    decreases keys.len(),
{
    if keys.len() > 0 {
        let k = keys.last();
        let others = s.remove(k);
        if s[k].link_error(others) is None {
            let next = s.update(k, s[k].linked(others));
            let w = match s[k].link_warning(others) {
                Some(x) => warnings.push(x),
                None => warnings,
            };
            lemma_linked_keeps_frame(s[k], others);
            assert(same_frame(s, next));
            assert(keys_in_range(keys.drop_last(), next.len())) by {
                assert forall|j: int| 0 <= j < keys.drop_last().len() implies 0 <= #[trigger] keys.drop_last()[j]
                    < next.len() by {
                    assert(keys.drop_last()[j] == keys[j]);
                }
            }
            lemma_link_keeps_frame(next, keys.drop_last(), w);
        }
    }
}

/// Definitions of the same names in the same positions stand in the same order.
pub proof fn lemma_same_frame_sorted(s: Seq<DefinitionModel>, t: Seq<DefinitionModel>)
    requires
        sorted_by_name(s),
        same_frame(s, t),
    ensures
        sorted_by_name(t),
{
    assert forall|i: int, j: int| 0 <= i < j < t.len() implies name_lt(
        #[trigger] t[i].name(),
        #[trigger] t[j].name(),
    ) by {
        assert(name_lt(s[i].name(), s[j].name()));
    }
}

/// The definitions that pass validation keep their order, and each of them
/// is one of the definitions that were checked.
pub proof fn lemma_valid_definitions_sorted(s: Seq<DefinitionModel>)
    requires
        sorted_by_name(s),
    ensures
        sorted_by_name(valid_definitions(s)),
        forall|i: int| 0 <= i < valid_definitions(s).len() ==> s.contains(#[trigger] valid_definitions(s)[i]),
        forall|i: int| 0 <= i < valid_definitions(s).len() ==> (#[trigger] valid_definitions(s)[i]).valid(),
    decreases s.len(),
{
    if s.len() > 0 {
        let front = s.drop_last();
        assert(sorted_by_name(front)) by {
            assert forall|i: int, j: int| 0 <= i < j < front.len() implies name_lt(
                #[trigger] front[i].name(),
                #[trigger] front[j].name(),
            ) by {
                assert(front[i] == s[i] && front[j] == s[j]);
            }
        }
        lemma_valid_definitions_sorted(front);
        let v = valid_definitions(s);
        let vf = valid_definitions(front);
        assert forall|i: int| 0 <= i < v.len() implies s.contains(#[trigger] v[i]) by {
            if i < vf.len() {
                assert(v[i] == vf[i]);
                let j = choose|j: int| 0 <= j < front.len() && front[j] == vf[i];
                assert(s[j] == v[i]);
            } else {
                assert(s[s.len() - 1] == v[i]);
            }
        }
        assert forall|i: int, j: int| 0 <= i < j < v.len() implies name_lt(
            #[trigger] v[i].name(),
            #[trigger] v[j].name(),
        ) by {
            if j < vf.len() {
                assert(v[i] == vf[i] && v[j] == vf[j]);
            } else {
                assert(v[i] == vf[i]);
                let k = choose|k: int| 0 <= k < front.len() && front[k] == vf[i];
                assert(s[k] == v[i]);
                assert(name_lt(s[k].name(), s[s.len() - 1].name()));
            }
        }
    }
}

/// What validation hands back stands in the order of the names: the
/// definitions that it keeps of a sorted working set are in strictly
/// ascending order of their names.
pub proof fn lemma_validated_in_name_order(s: Seq<DefinitionModel>)
    requires
        sorted_by_name(s),
    ensures
        validated(s) matches Ok((t, _)) ==> sorted_by_name(t),
{
    lemma_worklist_complete(s);
    lemma_link_keeps_frame(s, worklist(s), Seq::empty());
    if let Ok((linked, _)) = linked_set(s) {
        lemma_same_frame_sorted(s, linked);
        lemma_valid_definitions_sorted(linked);
    }
}

/// Linking moves no definition: after linking, each definition stands at
/// the position and in the place where it stood before, under its name.
pub proof fn lemma_linking_keeps_positions(s: Seq<DefinitionModel>)
    ensures
        linked_set(s) matches Ok((t, _)) ==> same_frame(s, t),
{
    lemma_worklist_complete(s);
    lemma_link_keeps_frame(s, worklist(s), Seq::empty());
}

/// A class link does not go back: a definition that holds its class itself
/// before linking holds the same class after it, and a definition without a
/// class link has none after it.
pub proof fn lemma_class_link_never_reverts(d: DefinitionModel, s: Seq<DefinitionModel>)
    requires
        d is Information,
        !(d->Information_0.class matches Some(ClassLinkModel::ByName(_))),
    ensures
        d.linked(s) is Information,
        d.linked(s)->Information_0.class == d->Information_0.class,
{
}

/// The definition at `i` leaves no class unlinked: if it is tied to a class
/// by name, no other definition of the set defines a class of that name.
pub open spec fn class_link_settled(s: Seq<DefinitionModel>, i: int) -> bool {
    s[i] matches DefinitionModel::Information(x) ==> (x.class matches Some(ClassLinkModel::ByName(n))
        ==> forall|j: int| 0 <= j < s.len() && j != i && (#[trigger] s[j]).name() == n ==> !is_class_definition(s[j]))
}

/// After a definition is linked against a sorted set, a class link by name
/// means that the set defines no class of that name.
proof fn lemma_linked_class_link(s: Seq<DefinitionModel>, k: int)
    requires
        sorted_by_name(s),
        0 <= k < s.len(),
    ensures
        class_link_settled(s.update(k, s[k].linked(s.remove(k))), k),
{
    let others = s.remove(k);
    let d = s[k].linked(others);
    let next = s.update(k, d);
    lemma_remove_lookup(s, k);
    if let DefinitionModel::Information(x) = d {
        if let Some(ClassLinkModel::ByName(n)) = x.class {
            assert(class_named(others, n) is None);
            assert forall|j: int| 0 <= j < next.len() && j != k && (#[trigger] next[j]).name() == n implies 
                !is_class_definition(next[j]) by {
                let jo = if j < k { j } else { j - 1 };
                assert(others[jo] == s[j]);
                lemma_lookup_sorted(others, jo);
            }
        }
    }
}

/// The invariant of the linker's loop for class links: once a definition is
/// linked, its class link stays settled while the others are linked.
proof fn lemma_link_settles_class_links(
    s: Seq<DefinitionModel>,
    keys: Seq<int>,
    warnings: Seq<ValidatorErrorModel>,
    done: Set<int>,
)
    requires
        sorted_by_name(s),
        keys_in_range(keys, s.len()),
        forall|i: int| 0 <= i < s.len() ==> done.contains(i) || keys.contains(i),
        forall|i: int| 0 <= i < s.len() && done.contains(i) ==> class_link_settled(s, i),
    ensures
        link_from(s, keys, warnings) matches Ok((t, _)) ==> forall|i: int|
            0 <= i < t.len() ==> class_link_settled(t, i),
    decreases keys.len(),
{
    if keys.len() == 0 {
        assert forall|i: int| 0 <= i < s.len() implies class_link_settled(s, i) by {
            assert(!keys.contains(i));
        }
    } else {
        let k = keys.last();
        let others = s.remove(k);
        if s[k].link_error(others) is None {
            let next = s.update(k, s[k].linked(others));
            let w = match s[k].link_warning(others) {
                Some(x) => warnings.push(x),
                None => warnings,
            };
            let rest = keys.drop_last();
            lemma_linked_keeps_frame(s[k], others);
            assert(same_frame(s, next));
            lemma_same_frame_sorted(s, next);
            assert(keys_in_range(rest, next.len())) by {
                assert forall|j: int| 0 <= j < rest.len() implies 0 <= #[trigger] rest[j] < next.len() by {
                    assert(rest[j] == keys[j]);
                }
            }
            let done2 = done.insert(k);
            assert forall|i: int| 0 <= i < next.len() implies done2.contains(i) || rest.contains(i) by {
                if !done.contains(i) && i != k {
                    let j = choose|j: int| 0 <= j < keys.len() && keys[j] == i;
                    assert(rest[j] == i);
                }
            }
            lemma_linked_class_link(s, k);
            assert forall|i: int| 0 <= i < next.len() && done2.contains(i) implies class_link_settled(next, i) by {
                if i != k {
                    assert(next[i] == s[i]);
                    assert(class_link_settled(s, i));
                    if let DefinitionModel::Information(x) = next[i] {
                        if let Some(ClassLinkModel::ByName(n)) = x.class {
                            assert forall|j: int| 0 <= j < next.len() && j != i && (#[trigger] next[j]).name()
                                == n implies !is_class_definition(next[j]) by {
                                assert(s[j].name() == n);
                            }
                        }
                    }
                }
            }
            lemma_link_settles_class_links(next, rest, w, done2);
        }
    }
}

/// The linker misses no class: after linking, no definition is tied by name
/// to a class that another definition of the set defines.
pub proof fn lemma_no_class_link_missed(s: Seq<DefinitionModel>)
    requires
        sorted_by_name(s),
    ensures
        linked_set(s) matches Ok((t, _)) ==> forall|i: int| 0 <= i < t.len() ==> class_link_settled(t, i),
{
    lemma_worklist_complete(s);
    lemma_link_settles_class_links(s, worklist(s), Seq::empty(), Set::empty());
}

/// A sorted working set is determined by what its names stand for: two
/// sorted sets in which every name finds the same definition are the same.
pub proof fn lemma_index_determined(a: Seq<DefinitionModel>, b: Seq<DefinitionModel>)
    requires
        sorted_by_name(a),
        sorted_by_name(b),
        forall|n: Seq<char>| lookup(a, n) == lookup(b, n),
    ensures
        a == b,
    decreases a.len(),
{
    if a.len() == 0 {
        if b.len() > 0 {
            lemma_lookup_sorted(b, 0);
            lemma_lookup_absent(a, b[0].name());
        }
        assert(a =~= b);
    } else {
        let la = a.len() - 1;
        lemma_lookup_sorted(a, la);
        lemma_lookup_absent(b, a[la].name());
        assert(b.len() > 0);
        let lb = b.len() - 1;
        lemma_lookup_sorted(b, lb);
        lemma_lookup_absent(a, b[lb].name());
        let ia = choose|i: int| 0 <= i < a.len() && a[i] == b[lb];
        let ib = choose|i: int| 0 <= i < b.len() && b[i] == a[la];
        assert(a[la] == b[lb]) by {
            if ia < la {
                assert(name_lt(a[ia].name(), a[la].name()));
                if ib < lb {
                    assert(name_lt(b[ib].name(), b[lb].name()));
                    lemma_name_lt_asymmetric(a[ia].name(), a[la].name());
                }
            }
        }
        lemma_remove_lookup(a, la);
        lemma_remove_lookup(b, lb);
        assert(a.remove(la) =~= a.drop_last());
        assert(b.remove(lb) =~= b.drop_last());
        assert forall|n: Seq<char>| lookup(a.drop_last(), n) == lookup(b.drop_last(), n) by {
            if n != a[la].name() {
                assert(lookup(a.drop_last(), n) == lookup(a, n));
                assert(lookup(b.drop_last(), n) == lookup(b, n));
            }
        }
        lemma_index_determined(a.drop_last(), b.drop_last());
        assert(a =~= a.drop_last().push(a[la]));
        assert(b =~= b.drop_last().push(b[lb]));
    }
}

/// Linking the definition at `k` against the others changes nothing and
/// gives no error: the definition is linked already.
pub open spec fn is_linked(s: Seq<DefinitionModel>, k: int) -> bool {
    s[k].link_error(s.remove(k)) is None && s[k].linked(s.remove(k)) == s[k]
}

/// Where every definition is linked already, the linker leaves the set as it is.
pub proof fn lemma_link_of_linked_set(s: Seq<DefinitionModel>, keys: Seq<int>, warnings: Seq<ValidatorErrorModel>)
    requires
        keys_in_range(keys, s.len()),
        forall|k: int| 0 <= k < s.len() ==> is_linked(s, k),
    ensures
        link_from(s, keys, warnings) matches Ok((t, _)) && t == s,
    decreases keys.len(),
{
    if keys.len() > 0 {
        let k = keys.last();
        assert(is_linked(s, k));
        assert(s.update(k, s[k]) =~= s);
        let w = match s[k].link_warning(s.remove(k)) {
            Some(x) => warnings.push(x),
            None => warnings,
        };
        assert(keys_in_range(keys.drop_last(), s.len())) by {
            assert forall|j: int| 0 <= j < keys.drop_last().len() implies 0 <= #[trigger] keys.drop_last()[j]
                < s.len() by {
                assert(keys.drop_last()[j] == keys[j]);
            }
        }
        lemma_link_of_linked_set(s, keys.drop_last(), w);
    }
}

/// Where every definition is valid, validation keeps them all.
pub proof fn lemma_all_valid(s: Seq<DefinitionModel>)
    requires
        forall|k: int| 0 <= k < s.len() ==> (#[trigger] s[k]).valid(),
    ensures
        valid_definitions(s) == s,
        validation_errors(s) == Seq::<ValidatorErrorModel>::empty(),
    decreases s.len(),
{
    if s.len() > 0 {
        assert forall|k: int| 0 <= k < s.drop_last().len() implies (#[trigger] s.drop_last()[k]).valid() by {
            assert(s.drop_last()[k] == s[k]);
        }
        lemma_all_valid(s.drop_last());
        assert(s.drop_last().push(s.last()) =~= s);
    }
}

/// A second pass is the identity on a set that a first pass has fully
/// linked: where every definition is linked already and valid, validation
/// hands back the same definitions, and no diagnostics but the warnings of
/// the linker.
pub proof fn lemma_validation_of_linked_set(s: Seq<DefinitionModel>)
    requires
        forall|k: int| 0 <= k < s.len() ==> is_linked(s, k),
        forall|k: int| 0 <= k < s.len() ==> (#[trigger] s[k]).valid(),
    ensures
        validated(s) matches Ok((t, _)) && t == s,
        validated(s) matches Ok((_, diagnostics)) && (linked_set(s) matches Ok((_, warnings)) && diagnostics
            == warnings),
{
    lemma_worklist_complete(s);
    lemma_link_of_linked_set(s, worklist(s), Seq::empty());
    lemma_all_valid(s);
}

/// The definition is a type that refers to nothing by name: it holds no
/// reference to a class, no `COMPONENTS OF`, no selection type and no
/// constraint that refers to a value.
pub open spec fn refers_to_nothing(d: DefinitionModel) -> bool {
    &&& d is Type
    &&& !d.references_class_by_name()
    &&& !d.has_components_of_notation()
    &&& !d.has_choice_selection_type()
    &&& !d.has_constraint_reference()
}

/// The linker leaves the type of a definition that refers to nothing as it
/// is, whatever the other definitions of the working set are.
pub proof fn lemma_link_keeps_unrelated(
    s: Seq<DefinitionModel>,
    keys: Seq<int>,
    warnings: Seq<ValidatorErrorModel>,
    i: int,
)
    requires
        keys_in_range(keys, s.len()),
        0 <= i < s.len(),
        refers_to_nothing(s[i]),
    ensures
        link_from(s, keys, warnings) matches Ok((t, _)) ==> t.len() == s.len() && t[i] is Type
            && t[i]->Type_0.ty == s[i]->Type_0.ty && t[i].name() == s[i].name(),
    decreases keys.len(),
{
    if keys.len() > 0 {
        let k = keys.last();
        let others = s.remove(k);
        if s[k].link_error(others) is None {
            let next = s.update(k, s[k].linked(others));
            let w = match s[k].link_warning(others) {
                Some(x) => warnings.push(x),
                None => warnings,
            };
            assert(keys_in_range(keys.drop_last(), next.len())) by {
                assert forall|j: int| 0 <= j < keys.drop_last().len() implies 0 <= #[trigger] keys.drop_last()[j]
                    < next.len() by {
                    assert(keys.drop_last()[j] == keys[j]);
                }
            }
            assert(refers_to_nothing(next[i]) && next[i]->Type_0.ty == s[i]->Type_0.ty && next[i].name()
                == s[i].name());
            lemma_link_keeps_unrelated(next, keys.drop_last(), w, i);
        }
    }
}

/// The diagnostic of each definition that is not valid is among the
/// diagnostics of validation, and each valid definition among those kept.
pub proof fn lemma_validation_covers(s: Seq<DefinitionModel>, i: int)
    requires
        0 <= i < s.len(),
    ensures
        !s[i].valid() ==> validation_errors(s).contains(invalid_range_error(Some(s[i].name()))),
        s[i].valid() ==> valid_definitions(s).contains(s[i]),
    decreases s.len(),
{
    let errors = validation_errors(s);
    let kept = valid_definitions(s);
    if i == s.len() - 1 {
        if s[i].valid() {
            assert(kept[kept.len() - 1] == s[i]);
        } else {
            assert(errors[errors.len() - 1] == invalid_range_error(Some(s[i].name())));
        }
    } else {
        lemma_validation_covers(s.drop_last(), i);
        assert(s.drop_last()[i] == s[i]);
        if s[i].valid() {
            let before = valid_definitions(s.drop_last());
            let j = choose|j: int| 0 <= j < before.len() && before[j] == s[i];
            assert(kept[j] == s[i]);
        } else {
            let before = validation_errors(s.drop_last());
            let e = invalid_range_error(Some(s[i].name()));
            let j = choose|j: int| 0 <= j < before.len() && before[j] == e;
            assert(errors[j] == e);
        }
    }
}

/// Diagnostics are monotone for definitions that refer to nothing: the
/// diagnostic of such a definition is reported by every working set that
/// holds the definition and links without error. So adding a definition to
/// a working set never takes that diagnostic away.
pub proof fn lemma_diagnostic_survives_addition(
    s: Seq<DefinitionModel>,
    i: int,
    added: DefinitionModel,
    at: int,
)
    requires
        0 <= i < s.len(),
        0 <= at <= s.len(),
        refers_to_nothing(s[i]),
        !s[i].valid(),
    ensures
        validated(s) matches Ok((_, diagnostics)) ==> diagnostics.contains(
            invalid_range_error(Some(s[i].name())),
        ),
        validated(s.insert(at, added)) matches Ok((_, diagnostics)) ==> diagnostics.contains(
            invalid_range_error(Some(s[i].name())),
        ),
{
    lemma_diagnostic_of_unrelated(s, i);
    let larger = s.insert(at, added);
    let moved = if i < at { i } else { i + 1 };
    assert(larger[moved] == s[i]);
    lemma_diagnostic_of_unrelated(larger, moved);
}

/// The diagnostic of a definition that refers to nothing and is not valid
/// is reported by the working set that holds it.
pub proof fn lemma_diagnostic_of_unrelated(s: Seq<DefinitionModel>, i: int)
    requires
        0 <= i < s.len(),
        refers_to_nothing(s[i]),
        !s[i].valid(),
    ensures
        validated(s) matches Ok((_, diagnostics)) ==> diagnostics.contains(
            invalid_range_error(Some(s[i].name())),
        ),
{
    lemma_worklist_complete(s);
    lemma_link_keeps_unrelated(s, worklist(s), Seq::empty(), i);
    if let Ok((linked, warnings)) = linked_set(s) {
        lemma_validation_covers(linked, i);
        let e = invalid_range_error(Some(s[i].name()));
        let errors = validation_errors(linked);
        let j = choose|j: int| 0 <= j < errors.len() && errors[j] == e;
        assert((warnings + errors)[warnings.len() + j] == e);
    }
}

/// Applying the tagging default of a module a second time changes nothing.
pub proof fn lemma_tagging_idempotent(d: DefinitionModel, environment: TaggingEnvironment)
    ensures
        d.in_environment(environment).in_environment(environment) == d.in_environment(environment),
{
    if let DefinitionModel::Type(t) = d {
        lemma_type_in_environment_idempotent(t.ty, environment);
    }
}

/// No position occurs twice among the keys.
pub open spec fn keys_distinct(keys: Seq<int>) -> bool {
    forall|i: int, j: int| 0 <= i < j < keys.len() ==> keys[i] != keys[j]
}

/// The positions of one kind are listed in ascending order, and each is of that kind.
proof fn lemma_positions_ascending(s: Seq<DefinitionModel>, values: bool, n: nat)
    requires
        n <= s.len(),
    ensures
        forall|i: int, j: int|
            0 <= i < j < positions(s, values, n).len() ==> positions(s, values, n)[i] < positions(s, values, n)[j],
        forall|j: int|
            0 <= j < positions(s, values, n).len() ==> 0 <= #[trigger] positions(s, values, n)[j] < n && (s[positions(
                s,
                values,
                n,
            )[j]] is Value) == values,
    decreases n,
{
    if n > 0 {
        lemma_positions_ascending(s, values, (n - 1) as nat);
        let now = positions(s, values, n);
        let before = positions(s, values, (n - 1) as nat);
        assert forall|j: int| 0 <= j < now.len() implies 0 <= #[trigger] now[j] < n && (s[now[j]] is Value)
            == values by {
            if j < before.len() {
                assert(now[j] == before[j]);
            }
        }
        assert forall|i: int, j: int| 0 <= i < j < now.len() implies now[i] < now[j] by {
            assert(now[i] == before[i]);
            if j < before.len() {
                assert(now[j] == before[j]);
            }
        }
    }
}

/// The worklist takes up each definition once.
pub proof fn lemma_worklist_distinct(s: Seq<DefinitionModel>)
    ensures
        keys_distinct(worklist(s)),
{
    lemma_positions_ascending(s, true, s.len());
    lemma_positions_ascending(s, false, s.len());
    let values = positions(s, true, s.len());
    let others = positions(s, false, s.len());
    let keys = worklist(s);
    assert forall|i: int, j: int| 0 <= i < j < keys.len() implies keys[i] != keys[j] by {
        if j < values.len() {
            assert(keys[i] == values[i] && keys[j] == values[j]);
        } else if i >= values.len() {
            assert(keys[i] == others[i - values.len()] && keys[j] == others[j - values.len()]);
        } else {
            assert(keys[i] == values[i] && keys[j] == others[j - values.len()]);
        }
    }
}

/// The linker touches only the definitions whose positions are among the keys.
pub proof fn lemma_link_touches_keys_only(
    s: Seq<DefinitionModel>,
    keys: Seq<int>,
    warnings: Seq<ValidatorErrorModel>,
    i: int,
)
    requires
        keys_in_range(keys, s.len()),
        0 <= i < s.len(),
        !keys.contains(i),
    ensures
        link_from(s, keys, warnings) matches Ok((t, _)) ==> t.len() == s.len() && t[i] == s[i],
    decreases keys.len(),
{
    if keys.len() > 0 {
        let k = keys.last();
        assert(keys[keys.len() - 1] == k);
        let others = s.remove(k);
        if s[k].link_error(others) is None {
            let next = s.update(k, s[k].linked(others));
            let w = match s[k].link_warning(others) {
                Some(x) => warnings.push(x),
                None => warnings,
            };
            let rest = keys.drop_last();
            assert(keys_in_range(rest, next.len())) by {
                assert forall|j: int| 0 <= j < rest.len() implies 0 <= #[trigger] rest[j] < next.len() by {
                    assert(rest[j] == keys[j]);
                }
            }
            assert(!rest.contains(i)) by {
                if rest.contains(i) {
                    let j = choose|j: int| 0 <= j < rest.len() && rest[j] == i;
                    assert(keys[j] == i);
                }
            }
            lemma_link_touches_keys_only(next, rest, w, i);
        }
    }
}

/// Where the linker hands a set back as it was, every definition that it
/// took up was linked already.
pub proof fn lemma_unchanged_means_linked(s: Seq<DefinitionModel>, keys: Seq<int>, warnings: Seq<ValidatorErrorModel>)
    requires
        keys_in_range(keys, s.len()),
        keys_distinct(keys),
        link_from(s, keys, warnings) matches Ok((t, _)) && t == s,
    ensures
        forall|j: int| 0 <= j < keys.len() ==> is_linked(s, #[trigger] keys[j]),
    decreases keys.len(),
{
    if keys.len() > 0 {
        let k = keys.last();
        assert(keys[keys.len() - 1] == k);
        let others = s.remove(k);
        let next = s.update(k, s[k].linked(others));
        let w = match s[k].link_warning(others) {
            Some(x) => warnings.push(x),
            None => warnings,
        };
        let rest = keys.drop_last();
        assert(keys_in_range(rest, next.len())) by {
            assert forall|j: int| 0 <= j < rest.len() implies 0 <= #[trigger] rest[j] < next.len() by {
                assert(rest[j] == keys[j]);
            }
        }
        assert(!rest.contains(k)) by {
            if rest.contains(k) {
                let j = choose|j: int| 0 <= j < rest.len() && rest[j] == k;
                assert(keys[j] == k);
            }
        }
        lemma_link_touches_keys_only(next, rest, w, k);
        assert(next[k] == s[k]);
        assert(next =~= s);
        assert(keys_distinct(rest)) by {
            assert forall|i: int, j: int| 0 <= i < j < rest.len() implies rest[i] != rest[j] by {
                assert(rest[i] == keys[i] && rest[j] == keys[j]);
            }
        }
        lemma_unchanged_means_linked(s, rest, w);
        assert forall|j: int| 0 <= j < keys.len() implies is_linked(s, #[trigger] keys[j]) by {
            if j < rest.len() {
                assert(rest[j] == keys[j]);
            }
        }
    }
}

/// The definitions kept by validation are no more than were checked, and
/// they are all of them only where all are valid.
proof fn lemma_valid_definitions_length(s: Seq<DefinitionModel>)
    ensures
        valid_definitions(s).len() <= s.len(),
        valid_definitions(s).len() == s.len() ==> forall|k: int| 0 <= k < s.len() ==> (#[trigger] s[k]).valid(),
    decreases s.len(),
{
    if s.len() > 0 {
        lemma_valid_definitions_length(s.drop_last());
        if valid_definitions(s).len() == s.len() {
            assert forall|k: int| 0 <= k < s.len() implies (#[trigger] s[k]).valid() by {
                if k < s.len() - 1 {
                    assert(s.drop_last()[k] == s[k]);
                }
            }
        }
    }
}

/// When a pass over a set is the identity: validation hands back the very
/// definitions it was given if and only if each of them is linked already
/// and valid. A second pass over the result of a first pass changes nothing
/// exactly where the first pass left its result in that state.
pub proof fn lemma_second_pass_identity(s: Seq<DefinitionModel>)
    ensures
        (validated(s) matches Ok((t, _)) && t == s) <==> ((forall|k: int| 0 <= k < s.len() ==> is_linked(s, k))
            && (forall|k: int| 0 <= k < s.len() ==> (#[trigger] s[k]).valid())),
{
    lemma_worklist_complete(s);
    if (forall|k: int| 0 <= k < s.len() ==> is_linked(s, k)) && (forall|k: int|
        0 <= k < s.len() ==> (#[trigger] s[k]).valid()) {
        lemma_validation_of_linked_set(s);
    }
    if let Ok((t, _)) = validated(s) {
        if t == s {
            let linked = linked_set(s)->Ok_0.0;
            lemma_link_keeps_frame(s, worklist(s), Seq::empty());
            lemma_valid_definitions_length(linked);
            lemma_all_valid(linked);
            assert(linked == s);
            lemma_worklist_distinct(s);
            lemma_unchanged_means_linked(s, worklist(s), Seq::empty());
            assert forall|k: int| 0 <= k < s.len() implies is_linked(s, k) by {
                assert(worklist(s).contains(k));
                let j = choose|j: int| 0 <= j < worklist(s).len() && worklist(s)[j] == k;
                assert(is_linked(s, worklist(s)[j]));
            }
        }
    }
}

/// What validation hands on is valid: each definition that it keeps passes
/// the checks of the validator. And it keeps a definition or reports it:
/// the definitions kept and the diagnostics of the validator together are
/// as many as the definitions linked.
pub proof fn lemma_validated_are_valid(s: Seq<DefinitionModel>)
    ensures
        validated(s) matches Ok((t, _)) ==> forall|i: int| 0 <= i < t.len() ==> (#[trigger] t[i]).valid(),
        validated(s) matches Ok((t, diagnostics)) ==> linked_set(s) matches Ok((_, warnings)) && t.len()
            + diagnostics.len() == s.len() + warnings.len(),
{
    lemma_worklist_complete(s);
    lemma_link_keeps_frame(s, worklist(s), Seq::empty());
    if let Ok((linked, warnings)) = linked_set(s) {
        lemma_validation_splits(linked);
    }
}

/// Validation keeps a definition or reports it, and keeps valid ones only.
proof fn lemma_validation_splits(s: Seq<DefinitionModel>)
    ensures
        valid_definitions(s).len() + validation_errors(s).len() == s.len(),
        forall|i: int| 0 <= i < valid_definitions(s).len() ==> (#[trigger] valid_definitions(s)[i]).valid(),
    decreases s.len(),
{
    if s.len() > 0 {
        lemma_validation_splits(s.drop_last());
        let kept = valid_definitions(s);
        let before = valid_definitions(s.drop_last());
        assert forall|i: int| 0 <= i < kept.len() implies (#[trigger] kept[i]).valid() by {
            if i < before.len() {
                assert(kept[i] == before[i]);
            }
        }
    }
}

/// Class links that are settled in a sorted set are settled among the
/// definitions of it that pass validation.
pub proof fn lemma_settled_among_valid(t: Seq<DefinitionModel>)
    requires
        sorted_by_name(t),
        forall|i: int| 0 <= i < t.len() ==> class_link_settled(t, i),
    ensures
        forall|i: int| 0 <= i < valid_definitions(t).len() ==> class_link_settled(valid_definitions(t), i),
{
    let kept = valid_definitions(t);
    lemma_valid_definitions_sorted(t);
    assert forall|i: int| 0 <= i < kept.len() implies class_link_settled(kept, i) by {
        assert(t.contains(kept[i]));
        let a = choose|a: int| 0 <= a < t.len() && t[a] == kept[i];
        assert(class_link_settled(t, a));
        if let DefinitionModel::Information(x) = kept[i] {
            if let Some(ClassLinkModel::ByName(n)) = x.class {
                assert forall|j: int| 0 <= j < kept.len() && j != i && (#[trigger] kept[j]).name() == n implies 
                    !is_class_definition(kept[j]) by {
                    assert(t.contains(kept[j]));
                    let b = choose|b: int| 0 <= b < t.len() && t[b] == kept[j];
                    if a == b {
                        if i < j {
                            lemma_name_lt_asymmetric(kept[i].name(), kept[j].name());
                        } else {
                            lemma_name_lt_asymmetric(kept[j].name(), kept[i].name());
                        }
                    }
                    assert(t[b].name() == n);
                }
            }
        }
    }
}

} // verus!
