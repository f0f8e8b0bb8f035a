//! The passes at module level: placing the definitions of parsed modules in
//! one working set, and grouping linked definitions by their modules.

use std::rc::Rc;
use vstd::prelude::*;
use crate::intermediate::toplevel::{
    definitions_view, share_module, DefinitionModel, ModuleModel, ModuleReference,
    ToplevelDefinition,
};
use crate::order::Order;
use crate::validator::index::{
    compare_names, lemma_name_lt_total, lemma_name_lt_transitive, name_lt,
};

verus! {

/// The content of a list of parsed modules.
pub open spec fn modules_view(modules: Seq<(ModuleReference, Vec<ToplevelDefinition>)>) -> Seq<
    (ModuleModel, Seq<DefinitionModel>),
> {
    Seq::new(modules.len(), |i: int| (modules[i].0@, definitions_view(modules[i].1@)))
}

/// The definitions of one module as they enter the working set: each with
/// the tagging default of the module applied, and placed at its position in
/// the module.
pub open spec fn placed_module(module: ModuleModel, tlds: Seq<DefinitionModel>) -> Seq<DefinitionModel> {
    Seq::new(
        tlds.len(),
        |i: int| tlds[i].in_environment(module.tagging_environment).with_place(module, i as nat),
    )
}

/// The definitions of all modules as they enter the working set, module by module.
pub open spec fn placed(modules: Seq<(ModuleModel, Seq<DefinitionModel>)>) -> Seq<DefinitionModel>
    decreases modules.len(),
{
    if modules.len() == 0 {
        Seq::empty()
    } else {
        placed(modules.drop_last()) + placed_module(modules.last().0, modules.last().1)
    }
}

/// Gathers the definitions of parsed modules in one list. Each definition
/// gets the tagging default of its module applied and is placed at its
/// position in the module; the definitions of a module share its header.
pub fn index_modules(modules: Vec<(ModuleReference, Vec<ToplevelDefinition>)>) -> (r: Vec<ToplevelDefinition>)
    ensures
        definitions_view(r@) == placed(modules_view(modules@)),
{
    let ghost input = modules_view(modules@);
    let mut out: Vec<ToplevelDefinition> = Vec::new();
    assert(definitions_view(out@) =~= Seq::<DefinitionModel>::empty());
    for module in it: modules
        invariant
            input == modules_view(modules@),
            definitions_view(out@) == placed(input.take(it.index())),
    {
        assert(input.take(it.index() + 1).drop_last() =~= input.take(it.index()));
        assert(input[it.index()] == (module.0@, definitions_view(module.1@)));
        let ghost done = definitions_view(out@);
        let (header, tlds) = module;
        let header_ref = Rc::new(header);
        let environment = header_ref.tagging_environment;
        let ghost model = header@;
        let ghost members = definitions_view(tlds@);
        let count = tlds.len();
        let mut position: usize = 0;
        for tld in inner: tlds
            invariant
                count == tlds@.len(),
                position == inner.index(),
                members == definitions_view(tlds@),
                (*header_ref)@ == model,
                environment == model.tagging_environment,
                definitions_view(out@) == done + placed_module(model, members).take(inner.index()),
        {
            let ghost before = out@;
            assert(members[inner.index()] == tld@);
            assert(position < count);
            let mut tld = tld;
            tld.apply_tagging_environment(&environment);
            tld.set_index(share_module(&header_ref), position);
            out.push(tld);
            assert(definitions_view(out@) =~= definitions_view(before).push(
                placed_module(model, members)[inner.index()],
            ));
            assert(definitions_view(out@) =~= done + placed_module(model, members).take(inner.index() + 1));
            position += 1;
        }
        assert(placed_module(model, members).take(members.len() as int) =~= placed_module(model, members));
    }
    assert(input.take(modules@.len() as int) =~= input);
    out
}

/// The definitions of one module, for the emitter.
#[derive(Debug, PartialEq)]
pub struct ModuleGroup {
    pub name: String,
    pub definitions: Vec<ToplevelDefinition>,
}

/// The mathematical content of a [`ModuleGroup`].
pub struct GroupModel {
    pub name: Seq<char>,
    pub definitions: Seq<DefinitionModel>,
}

impl View for ModuleGroup {
    type V = GroupModel;

    open spec fn view(&self) -> GroupModel {
        GroupModel { name: self.name@, definitions: definitions_view(self.definitions@) }
    }
}

/// The content of a list of groups.
pub open spec fn groups_view(groups: Seq<ModuleGroup>) -> Seq<GroupModel> {
    Seq::new(groups.len(), |i: int| groups[i]@)
}

/// The name of the module that a definition belongs to; the empty name for
/// a definition that was given no place.
pub open spec fn module_name(d: DefinitionModel) -> Seq<char> {
    match d.place() {
        Some(p) => p.module.name,
        None => Seq::empty(),
    }
}

/// `a` may stand in front of `b`: its position in the module is not the
/// greater one. A definition without a place stands behind all that have one.
pub open spec fn may_precede(a: DefinitionModel, b: DefinitionModel) -> bool {
    match (a.place(), b.place()) {
        (Some(x), Some(y)) => x.position <= y.position,
        (None, Some(_)) => false,
        (_, None) => true,
    }
}

/// Where `d` enters a group: behind the last definition that may stand in front of it.
pub open spec fn slot(group: Seq<DefinitionModel>, d: DefinitionModel) -> nat
    decreases group.len(),
{
    if group.len() == 0 {
        0
    } else if may_precede(group.last(), d) {
        group.len()
    } else {
        slot(group.drop_last(), d)
    }
}

/// Where the group of the module `name` stands or enters: behind the last
/// group whose name is smaller.
pub open spec fn rank(groups: Seq<GroupModel>, name: Seq<char>) -> nat
    decreases groups.len(),
{
    if groups.len() == 0 {
        0
    } else if name_lt(groups.last().name, name) {
        groups.len()
    } else {
        rank(groups.drop_last(), name)
    }
}

/// The groups with one more definition: it enters the group of its module at
/// its position, or a new group where its module has none yet.
pub open spec fn with_definition(groups: Seq<GroupModel>, d: DefinitionModel) -> Seq<GroupModel> {
    let name = module_name(d);
    let r = rank(groups, name) as int;
    if r < groups.len() && groups[r].name == name {
        let g = groups[r];
        groups.update(
            r,
            GroupModel { name, definitions: g.definitions.insert(slot(g.definitions, d) as int, d) },
        )
    } else {
        groups.insert(r, GroupModel { name, definitions: seq![d] })
    }
}

/// The definitions grouped by module: the groups in the order of the module
/// names, each group in the order of the positions in the module.
pub open spec fn grouped(s: Seq<DefinitionModel>) -> Seq<GroupModel>
    decreases s.len(),
{
    if s.len() == 0 {
        Seq::empty()
    } else {
        with_definition(grouped(s.drop_last()), s.last())
    }
}

/// The name of the module that a definition belongs to.
fn module_name_of(tld: &ToplevelDefinition) -> (r: String)
    ensures
        r@ == module_name(tld@),
{
    match tld.get_index() {
        Some(p) => p.0.name.clone(),
        None => String::new(),
    }
}

/// Whether `a` may stand in front of `b` in a group.
fn precedes(a: &ToplevelDefinition, b: &ToplevelDefinition) -> (r: bool)
    ensures
        r == may_precede(a@, b@),
{
    match (a.get_index(), b.get_index()) {
        (Some(x), Some(y)) => x.1 <= y.1,
        (None, Some(_)) => false,
        (_, None) => true,
    }
}

/// Finds where `tld` enters a group.
fn find_slot(group: &Vec<ToplevelDefinition>, tld: &ToplevelDefinition) -> (r: usize)
    ensures
        r == slot(definitions_view(group@), tld@),
        r <= group@.len(),
{
    let ghost g = definitions_view(group@);
    let mut i: usize = group.len();
    assert(g.take(i as int) =~= g);
    while i > 0
        invariant
            i <= group@.len(),
            g == definitions_view(group@),
            slot(g, tld@) == slot(g.take(i as int), tld@),
        decreases i,
    {
        assert(g.take(i as int).last() == group[i - 1]@);
        if precedes(&group[i - 1], tld) {
            return i;
        }
        assert(g.take(i as int).drop_last() =~= g.take(i - 1));
        i -= 1;
    }
    0
}

/// Finds where the group of the module `name` stands or enters.
fn find_rank(groups: &Vec<ModuleGroup>, name: &String) -> (r: usize)
    ensures
        r == rank(groups_view(groups@), name@),
        r <= groups@.len(),
{
    let ghost g = groups_view(groups@);
    let mut i: usize = groups.len();
    assert(g.take(i as int) =~= g);
    while i > 0
        invariant
            i <= groups@.len(),
            g == groups_view(groups@),
            rank(g, name@) == rank(g.take(i as int), name@),
        decreases i,
    {
        assert(g.take(i as int).last() == groups[i - 1]@);
        match compare_names(groups[i - 1].name.as_str(), name.as_str()) {
            Order::Less => {
                return i;
            },
            _ => {},
        }
        assert(g.take(i as int).drop_last() =~= g.take(i - 1));
        i -= 1;
    }
    0
}

/// Groups definitions by the modules they belong to. The groups stand in the
/// order of the module names; in a group the definitions stand in the order
/// of their positions in the module. Definitions without a place go to the
/// group of the empty name.
pub fn group_by_module(tlds: Vec<ToplevelDefinition>) -> (r: Vec<ModuleGroup>)
    ensures
        groups_view(r@) == grouped(definitions_view(tlds@)),
        groups_ordered(groups_view(r@)),
        forall|i: int| 0 <= i < r@.len() ==> group_consistent(#[trigger] groups_view(r@)[i]),
        total(groups_view(r@)) == tlds@.len(),
        forall|k: int| 0 <= k < tlds@.len() ==> holds(groups_view(r@), #[trigger] definitions_view(tlds@)[k]),
{
    let ghost input = definitions_view(tlds@);
    proof {
        lemma_grouped_partitions(input);
    }
    let mut groups: Vec<ModuleGroup> = Vec::new();
    assert(groups_view(groups@) =~= Seq::<GroupModel>::empty());
    for tld in it: tlds
        invariant
            input == definitions_view(tlds@),
            groups_view(groups@) == grouped(input.take(it.index())),
    {
        assert(input.take(it.index() + 1).drop_last() =~= input.take(it.index()));
        assert(input[it.index()] == tld@);
        let ghost before = groups_view(groups@);
        let name = module_name_of(&tld);
        let r = find_rank(&groups, &name);
        if r < groups.len() && compare_names(groups[r].name.as_str(), name.as_str()) == Order::Equal {
            let mut group = groups.remove(r);
            let at = find_slot(&group.definitions, &tld);
            let ghost members = definitions_view(group.definitions@);
            group.definitions.insert(at, tld);
            assert(definitions_view(group.definitions@) =~= members.insert(at as int, tld@));
            groups.insert(r, group);
            assert(groups_view(groups@) =~= with_definition(before, tld@));
        } else {
            let mut definitions: Vec<ToplevelDefinition> = Vec::new();
            definitions.push(tld);
            assert(definitions_view(definitions@) =~= seq![tld@]);
            groups.insert(r, ModuleGroup { name, definitions });
            assert(groups_view(groups@) =~= with_definition(before, tld@));
        }
    }
    assert(input.take(tlds@.len() as int) =~= input);
    groups
}

/// The groups stand in strictly ascending order of their names.
pub open spec fn groups_ordered(groups: Seq<GroupModel>) -> bool {
    forall|i: int, j: int| 0 <= i < j < groups.len() ==> name_lt(#[trigger] groups[i].name, #[trigger] groups[j].name)
}

/// The definitions of a group belong to the module of the group and stand
/// in the order of their positions; there is at least one.
pub open spec fn group_consistent(group: GroupModel) -> bool {
    &&& group.definitions.len() > 0
    &&& forall|k: int|
        0 <= k < group.definitions.len() ==> module_name(#[trigger] group.definitions[k]) == group.name
    &&& forall|a: int, b: int|
        0 <= a < b < group.definitions.len() ==> may_precede(
            #[trigger] group.definitions[a],
            #[trigger] group.definitions[b],
        )
}

/// The number of definitions in all groups together.
pub open spec fn total(groups: Seq<GroupModel>) -> nat
    decreases groups.len(),
{
    if groups.len() == 0 {
        0
    } else {
        total(groups.drop_last()) + groups.last().definitions.len()
    }
}

/// What [`slot`] finds: the definitions from the slot on may not stand in
/// front of `d`, the one before the slot may.
proof fn lemma_slot(group: Seq<DefinitionModel>, d: DefinitionModel)
    ensures
        slot(group, d) <= group.len(),
        forall|j: int| slot(group, d) <= j < group.len() ==> !may_precede(#[trigger] group[j], d),
        slot(group, d) > 0 ==> may_precede(group[slot(group, d) - 1], d),
    decreases group.len(),
{
    if group.len() > 0 && !may_precede(group.last(), d) {
        lemma_slot(group.drop_last(), d);
        assert forall|j: int| slot(group, d) <= j < group.len() implies !may_precede(#[trigger] group[j], d) by {
            if j < group.len() - 1 {
                assert(group.drop_last()[j] == group[j]);
            }
        }
    }
}

/// What [`rank`] finds: the groups from that rank on are not smaller than
/// `name`, the one before it is.
proof fn lemma_rank(groups: Seq<GroupModel>, name: Seq<char>)
    ensures
        rank(groups, name) <= groups.len(),
        forall|j: int| rank(groups, name) <= j < groups.len() ==> !name_lt((#[trigger] groups[j]).name, name),
        rank(groups, name) > 0 ==> name_lt(groups[rank(groups, name) - 1].name, name),
    decreases groups.len(),
{
    if groups.len() > 0 && !name_lt(groups.last().name, name) {
        lemma_rank(groups.drop_last(), name);
        assert forall|j: int| rank(groups, name) <= j < groups.len() implies !name_lt(
            (#[trigger] groups[j]).name,
            name,
        ) by {
            if j < groups.len() - 1 {
                assert(groups.drop_last()[j] == groups[j]);
            }
        }
    }
}

/// Taking a group out and putting another in its place changes the total by
/// the difference of their sizes; a new group adds its size.
proof fn lemma_total_update(groups: Seq<GroupModel>, r: int, g: GroupModel)
    requires
        0 <= r <= groups.len(),
    ensures
        r < groups.len() ==> total(groups.update(r, g)) == total(groups) - groups[r].definitions.len()
            + g.definitions.len(),
        total(groups.insert(r, g)) == total(groups) + g.definitions.len(),
    decreases groups.len(),
{
    let inserted = groups.insert(r, g);
    if r == groups.len() {
        assert(inserted.drop_last() =~= groups);
        assert(inserted.last() == g);
        assert(total(inserted) == total(groups) + g.definitions.len());
    } else {
        let front = groups.drop_last();
        assert(inserted.last() == groups.last());
        if r == groups.len() - 1 {
            assert(groups.update(r, g).drop_last() =~= front);
            assert(inserted.drop_last() =~= front.push(g));
            assert(front.push(g).drop_last() =~= front);
            assert(front.push(g).last() == g);
            assert(total(front.push(g)) == total(front) + g.definitions.len());
            assert(total(inserted) == total(front.push(g)) + groups.last().definitions.len());
        } else {
            lemma_total_update(front, r, g);
            assert(groups.update(r, g).drop_last() =~= front.update(r, g));
            assert(inserted.drop_last() =~= front.insert(r, g));
            assert(total(inserted) == total(front.insert(r, g)) + groups.last().definitions.len());
        }
    }
}

/// What holds of groups that are in order and consistent, once one more
/// definition has entered.
pub open spec fn entered(groups: Seq<GroupModel>, after: Seq<GroupModel>, d: DefinitionModel) -> bool {
    &&& groups_ordered(after)
    &&& forall|i: int| 0 <= i < after.len() ==> group_consistent(#[trigger] after[i])
    &&& holds(after, d)
    &&& forall|e: DefinitionModel| holds(groups, e) ==> holds(after, e)
}

/// A definition that enters a group at its slot keeps the group consistent.
proof fn lemma_group_with_member(g: GroupModel, d: DefinitionModel)
    requires
        group_consistent(g),
        module_name(d) == g.name,
    ensures
        group_consistent(
            GroupModel { name: g.name, definitions: g.definitions.insert(slot(g.definitions, d) as int, d) },
        ),
        forall|e: DefinitionModel|
            g.definitions.contains(e) ==> g.definitions.insert(slot(g.definitions, d) as int, d).contains(e),
        g.definitions.insert(slot(g.definitions, d) as int, d).contains(d),
{
    let at = slot(g.definitions, d) as int;
    lemma_slot(g.definitions, d);
    let members = g.definitions.insert(at, d);
    assert forall|k: int| 0 <= k < members.len() implies module_name(#[trigger] members[k]) == g.name by {
        if k < at {
            assert(members[k] == g.definitions[k]);
        } else if k > at {
            assert(members[k] == g.definitions[k - 1]);
        }
    }
    assert forall|a: int, b: int| 0 <= a < b < members.len() implies may_precede(
        #[trigger] members[a],
        #[trigger] members[b],
    ) by {
        let oa = if a < at { a } else { a - 1 };
        let ob = if b < at { b } else { b - 1 };
        if a != at && b != at {
            assert(members[a] == g.definitions[oa] && members[b] == g.definitions[ob]);
        } else if b == at {
            assert(members[a] == g.definitions[a]);
            if a < at - 1 {
                assert(may_precede(g.definitions[a], g.definitions[at - 1]));
            }
        } else {
            assert(members[b] == g.definitions[b - 1]);
            assert(!may_precede(g.definitions[b - 1], d));
        }
    }
    assert(members[at] == d);
    assert forall|e: DefinitionModel| g.definitions.contains(e) implies members.contains(e) by {
        let k = choose|k: int| 0 <= k < g.definitions.len() && g.definitions[k] == e;
        let km = if k < at { k } else { k + 1 };
        assert(members[km] == e);
    }
}

/// A definition that enters the group of its module keeps the groups in
/// order and consistent.
proof fn lemma_joins_group(groups: Seq<GroupModel>, d: DefinitionModel, r: int, g: GroupModel)
    requires
        groups_ordered(groups),
        forall|i: int| 0 <= i < groups.len() ==> group_consistent(#[trigger] groups[i]),
        0 <= r < groups.len(),
        g.name == groups[r].name,
        g.name == module_name(d),
        group_consistent(g),
        g.definitions.contains(d),
        forall|e: DefinitionModel| groups[r].definitions.contains(e) ==> g.definitions.contains(e),
    ensures
        entered(groups, groups.update(r, g), d),
{
    let after = groups.update(r, g);
    assert forall|i: int| 0 <= i < after.len() implies group_consistent(#[trigger] after[i]) by {
        if i != r {
            assert(after[i] == groups[i]);
        }
    }
    assert forall|i: int, j: int| 0 <= i < j < after.len() implies name_lt(
        #[trigger] after[i].name,
        #[trigger] after[j].name,
    ) by {
        assert(after[i].name == groups[i].name && after[j].name == groups[j].name);
    }
    assert(after[r].name == module_name(d) && after[r].definitions.contains(d));
    assert forall|e: DefinitionModel| holds(groups, e) implies holds(after, e) by {
        let i = choose|i: int|
            0 <= i < groups.len() && (#[trigger] groups[i]).name == module_name(e) && groups[i].definitions.contains(e);
        assert(after[i].name == module_name(e) && after[i].definitions.contains(e));
    }
}

/// A definition that opens the group of its module, at the rank of the
/// module's name, keeps the groups in order and consistent.
proof fn lemma_opens_group(groups: Seq<GroupModel>, d: DefinitionModel)
    requires
        groups_ordered(groups),
        forall|i: int| 0 <= i < groups.len() ==> group_consistent(#[trigger] groups[i]),
        !(rank(groups, module_name(d)) < groups.len() && groups[rank(groups, module_name(d)) as int].name
            == module_name(d)),
    ensures
        entered(
            groups,
            groups.insert(
                rank(groups, module_name(d)) as int,
                GroupModel { name: module_name(d), definitions: seq![d] },
            ),
            d,
        ),
{
    let name = module_name(d);
    let r = rank(groups, name) as int;
    let g = GroupModel { name, definitions: seq![d] };
    let after = groups.insert(r, g);
    lemma_rank(groups, name);
    assert(g.definitions[0] == d);
    assert(group_consistent(g));
    assert forall|i: int| 0 <= i < after.len() implies group_consistent(#[trigger] after[i]) by {
        if i < r {
            assert(after[i] == groups[i]);
        } else if i > r {
            assert(after[i] == groups[i - 1]);
        }
    }
    assert forall|i: int, j: int| 0 <= i < j < after.len() implies name_lt(
        #[trigger] after[i].name,
        #[trigger] after[j].name,
    ) by {
        let oi = if i < r { i } else { i - 1 };
        let oj = if j < r { j } else { j - 1 };
        if i != r && j != r {
            assert(after[i] == groups[oi] && after[j] == groups[oj]);
        } else if j == r {
            assert(after[i] == groups[i]);
            if i < r - 1 {
                assert(name_lt(groups[i].name, groups[r - 1].name));
                lemma_name_lt_transitive(groups[i].name, groups[r - 1].name, name);
            }
        } else {
            assert(after[j] == groups[j - 1]);
            lemma_name_lt_total(name, groups[r].name);
            if j - 1 > r {
                assert(name_lt(groups[r].name, groups[j - 1].name));
                lemma_name_lt_transitive(name, groups[r].name, groups[j - 1].name);
            }
        }
    }
    assert(after[r].name == module_name(d) && after[r].definitions.contains(d));
    assert forall|e: DefinitionModel| holds(groups, e) implies holds(after, e) by {
        let i = choose|i: int|
            0 <= i < groups.len() && (#[trigger] groups[i]).name == module_name(e) && groups[i].definitions.contains(e);
        let ia = if i < r { i } else { i + 1 };
        assert(after[ia] == groups[i]);
        assert(after[ia].name == module_name(e) && after[ia].definitions.contains(e));
    }
}

/// One more definition keeps the groups in order and each group consistent,
/// and it is in the group of its module afterwards, with all that were there.
proof fn lemma_with_definition(groups: Seq<GroupModel>, d: DefinitionModel)
    requires
        groups_ordered(groups),
        forall|i: int| 0 <= i < groups.len() ==> group_consistent(#[trigger] groups[i]),
    ensures
        entered(groups, with_definition(groups, d), d),
        total(with_definition(groups, d)) == total(groups) + 1,
{
    let name = module_name(d);
    let r = rank(groups, name) as int;
    lemma_rank(groups, name);
    if r < groups.len() && groups[r].name == name {
        let g = groups[r];
        assert(group_consistent(g));
        lemma_slot(g.definitions, d);
        lemma_group_with_member(g, d);
        let joined = GroupModel { name, definitions: g.definitions.insert(slot(g.definitions, d) as int, d) };
        assert(joined.definitions.len() == g.definitions.len() + 1);
        lemma_joins_group(groups, d, r, joined);
        lemma_total_update(groups, r, joined);
    } else {
        let opened = GroupModel { name, definitions: seq![d] };
        assert(opened.definitions.len() == 1);
        lemma_opens_group(groups, d);
        lemma_total_update(groups, r, opened);
    }
}

/// The definition stands in the group of its module.
pub open spec fn holds(groups: Seq<GroupModel>, d: DefinitionModel) -> bool {
    exists|i: int|
        0 <= i < groups.len() && (#[trigger] groups[i]).name == module_name(d) && groups[i].definitions.contains(d)
}

/// Grouping partitions the definitions by module: the groups stand in
/// strictly ascending order of the module names; each group is not empty,
/// holds definitions of its module only and has them in the order of their
/// positions; every definition stands in the group of its module, and the
/// groups hold as many definitions as were given.
pub proof fn lemma_grouped_partitions(s: Seq<DefinitionModel>)
    ensures
        groups_ordered(grouped(s)),
        forall|i: int| 0 <= i < grouped(s).len() ==> group_consistent(#[trigger] grouped(s)[i]),
        total(grouped(s)) == s.len(),
        forall|k: int| 0 <= k < s.len() ==> holds(grouped(s), #[trigger] s[k]),
    decreases s.len(),
{
    if s.len() > 0 {
        lemma_grouped_partitions(s.drop_last());
        lemma_with_definition(grouped(s.drop_last()), s.last());
        assert forall|k: int| 0 <= k < s.len() implies holds(grouped(s), #[trigger] s[k]) by {
            if k < s.len() - 1 {
                assert(s.drop_last()[k] == s[k]);
            }
        }
    }
}

} // verus!
