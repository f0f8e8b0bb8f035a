//! Linking and validation of top-level definitions.
//!
//! The validator makes sure that the definitions of a working set can be
//! processed further: it resolves the references among them, and it checks
//! each linked definition for constraints that contradict themselves.

pub mod error;
pub mod independence;
pub mod index;
pub mod laws;
pub mod linking;

use vstd::prelude::*;
use crate::intermediate::constraints::{
    constraints_view, Constraint, ConstraintModel, ElementModel, ElementOrSetOperation,
    ElementsModel, SubtypeElement,
};
use crate::intermediate::toplevel::{definitions_view, DefinitionModel, ToplevelDefinition};
use crate::intermediate::types::{ASN1Type, BitString, CharacterString, Integer, TypeModel};
use crate::intermediate::values::{ASN1Value, ValueModel};
use crate::order::Order;
use crate::validator::error::{ValidatorError, ValidatorErrorModel, ValidatorErrorType};
use crate::validator::index::{
    lemma_lookup_absent, lemma_lookup_iff, lemma_remove_lookup, lookup, sorted_by_name,
    ReferenceIndex,
};
use crate::validator::laws::{
    class_link_settled, lemma_index_determined, lemma_linking_keeps_positions,
    lemma_no_class_link_missed,
    lemma_same_frame_sorted, lemma_settled_among_valid, lemma_validated_are_valid,
    lemma_validated_in_name_order, same_frame,
};
use crate::validator::linking::{lemma_passes_keep_name, link_definition};

verus! {

/// The diagnostic for a value range whose lower bound lies above its upper bound.
pub open spec fn invalid_range_error(data_element: Option<Seq<char>>) -> ValidatorErrorModel {
    ValidatorErrorModel {
        data_element,
        details: "Mininum value exceeds maximum value!"@,
        kind: ValidatorErrorType::InvalidConstraintsError,
    }
}

impl ConstraintModel {
    /// The constraint does not contradict itself: it is not a value range
    /// between two integers of which the lower lies above the upper.
    pub open spec fn valid(self) -> bool {
        match self {
            ConstraintModel::SubtypeConstraint(e) => match e.set {
                ElementsModel::Element(
                    ElementModel::ValueRange {
                        min: Some(ValueModel::Integer(min)),
                        max: Some(ValueModel::Integer(max)),
                        ..
                    },
                ) => min <= max,
                _ => true,
            },
            _ => true,
        }
    }
}

/// None of the constraints contradicts itself.
pub open spec fn constraints_valid(cs: Seq<ConstraintModel>) -> bool {
    forall|i: int| 0 <= i < cs.len() ==> (#[trigger] cs[i]).valid()
}

impl TypeModel {
    /// The type passes the checks of the validator: where it is an INTEGER,
    /// a BIT STRING or a character string, none of its constraints
    /// contradicts itself. Other types are accepted as they are.
    pub open spec fn valid(self) -> bool {
        match self {
            TypeModel::Integer { constraints, .. } => constraints_valid(constraints),
            TypeModel::BitString { constraints, .. } => constraints_valid(constraints),
            TypeModel::CharacterString { constraints, .. } => constraints_valid(constraints),
            _ => true,
        }
    }
}

impl DefinitionModel {
    /// The definition passes the checks of the validator: it is a value or
    /// an information definition, or a type that is valid.
    pub open spec fn valid(self) -> bool {
        match self {
            DefinitionModel::Type(t) => t.ty.valid(),
            _ => true,
        }
    }
}

/// A check that an element of a specification can be processed further.
pub trait Validate {
    /// The element passes the check.
    spec fn valid(&self) -> bool;

    /// The diagnostic that is reported for the element where it fails the check.
    spec fn failure(&self) -> ValidatorErrorModel;

    /// Checks the element.
    fn validate(&self) -> (r: Result<(), ValidatorError>)
        ensures
            r is Ok <==> self.valid(),
            r matches Err(e) ==> e@ == self.failure(),
    ;
}

impl Validate for Constraint {
    open spec fn valid(&self) -> bool {
        self@.valid()
    }

    open spec fn failure(&self) -> ValidatorErrorModel {
        invalid_range_error(None)
    }

    fn validate(&self) -> (r: Result<(), ValidatorError>) {
        if let Constraint::SubtypeConstraint(c) = self {
            if let ElementOrSetOperation::Element(SubtypeElement::ValueRange { min, max, extensible: _ }) = &c.set {
                if let (Some(ASN1Value::Integer(min)), Some(ASN1Value::Integer(max))) = (min, max) {
                    if min.compare(max) == Order::Greater {
                        return Err(
                            ValidatorError::new(
                                None,
                                "Mininum value exceeds maximum value!",
                                ValidatorErrorType::InvalidConstraintsError,
                            ),
                        );
                    }
                }
            }
        }
        Ok(())
    }
}

/// Checks each of the constraints, in order.
fn validate_constraints(cs: &Vec<Constraint>) -> (r: Result<(), ValidatorError>)
    ensures
        r is Ok <==> constraints_valid(constraints_view(*cs)),
        r matches Err(e) ==> e@ == invalid_range_error(None),
{
    let mut i: usize = 0;
    while i < cs.len()
        invariant
            i <= cs.len(),
            forall|j: int| 0 <= j < i ==> (#[trigger] constraints_view(*cs)[j]).valid(),
        decreases cs.len() - i,
    {
        assert(constraints_view(*cs)[i as int] == cs[i as int]@);
        match cs[i].validate() {
            Ok(_) => {},
            Err(e) => {
                return Err(e);
            },
        }
        i += 1;
    }
    Ok(())
}

impl Validate for Integer {
    open spec fn valid(&self) -> bool {
        constraints_valid(constraints_view(self.constraints))
    }

    open spec fn failure(&self) -> ValidatorErrorModel {
        invalid_range_error(None)
    }

    fn validate(&self) -> (r: Result<(), ValidatorError>) {
        validate_constraints(&self.constraints)
    }
}

impl Validate for BitString {
    open spec fn valid(&self) -> bool {
        constraints_valid(constraints_view(self.constraints))
    }

    open spec fn failure(&self) -> ValidatorErrorModel {
        invalid_range_error(None)
    }

    fn validate(&self) -> (r: Result<(), ValidatorError>) {
        validate_constraints(&self.constraints)
    }
}

impl Validate for CharacterString {
    open spec fn valid(&self) -> bool {
        constraints_valid(constraints_view(self.constraints))
    }

    open spec fn failure(&self) -> ValidatorErrorModel {
        invalid_range_error(None)
    }

    fn validate(&self) -> (r: Result<(), ValidatorError>) {
        validate_constraints(&self.constraints)
    }
}

impl Validate for ASN1Type {
    open spec fn valid(&self) -> bool {
        self@.valid()
    }

    open spec fn failure(&self) -> ValidatorErrorModel {
        invalid_range_error(None)
    }

    fn validate(&self) -> (r: Result<(), ValidatorError>) {
        match self {
            ASN1Type::Integer(i) => i.validate(),
            ASN1Type::BitString(b) => b.validate(),
            ASN1Type::CharacterString(o) => o.validate(),
            _ => Ok(()),
        }
    }
}

impl Validate for ToplevelDefinition {
    open spec fn valid(&self) -> bool {
        self@.valid()
    }

    open spec fn failure(&self) -> ValidatorErrorModel {
        invalid_range_error(Some(self@.name()))
    }

    fn validate(&self) -> (r: Result<(), ValidatorError>) {
        match self {
            ToplevelDefinition::Type(t) => {
                match t.ty.validate() {
                    Err(mut e) => {
                        e.specify_data_element(t.name.clone());
                        Err(e)
                    },
                    Ok(_) => Ok(()),
                }
            },
            ToplevelDefinition::Value(_v) => Ok(()),
            ToplevelDefinition::Information(_i) => Ok(()),
        }
    }
}

/// The last definition of `s` that goes by `name`.
pub open spec fn last_named(s: Seq<DefinitionModel>, name: Seq<char>) -> Option<DefinitionModel>
    decreases s.len(),
{
    if s.len() == 0 {
        None
    } else if s.last().name() == name {
        Some(s.last())
    } else {
        last_named(s.drop_last(), name)
    }
}

/// A definition in front of the one at `j` goes by the same name.
pub open spec fn repeats_a_name(s: Seq<DefinitionModel>, j: int) -> bool {
    exists|i: int| 0 <= i < j && (#[trigger] s[i]).name() == s[j].name()
}

/// The diagnostic for a definition whose name is taken already.
pub open spec fn name_collision_error(name: Seq<char>) -> ValidatorErrorModel {
    ValidatorErrorModel {
        data_element: Some(name),
        details: "A definition of the same name exists already"@,
        kind: ValidatorErrorType::SemanticError,
    }
}

/// A name has a last definition exactly if it has a definition.
pub proof fn lemma_last_named(s: Seq<DefinitionModel>, name: Seq<char>)
    ensures
        last_named(s, name) is Some <==> exists|i: int| 0 <= i < s.len() && (#[trigger] s[i]).name() == name,
    decreases s.len(),
{
    if s.len() > 0 {
        lemma_last_named(s.drop_last(), name);
        if s.last().name() == name {
            assert(s[s.len() - 1].name() == name);
        } else if last_named(s.drop_last(), name) is Some {
            let i = choose|i: int| 0 <= i < s.drop_last().len() && (#[trigger] s.drop_last()[i]).name() == name;
            assert(s[i].name() == name);
        } else {
            assert forall|i: int| 0 <= i < s.len() implies (#[trigger] s[i]).name() != name by {
                if i < s.len() - 1 {
                    assert(s.drop_last()[i] == s[i]);
                }
            }
        }
    }
}

/// The last definition of a name goes by that name and is one of the definitions.
pub proof fn lemma_last_named_is_member(s: Seq<DefinitionModel>, name: Seq<char>)
    ensures
        last_named(s, name) matches Some(d) ==> d.name() == name && s.contains(d),
    decreases s.len(),
{
    if s.len() > 0 {
        if s.last().name() == name {
            assert(s[s.len() - 1] == s.last());
        } else {
            lemma_last_named_is_member(s.drop_last(), name);
            if let Some(d) = last_named(s.drop_last(), name) {
                let i = choose|i: int| 0 <= i < s.drop_last().len() && s.drop_last()[i] == d;
                assert(s[i] == d);
            }
        }
    }
}

/// In a sorted set the first definition of a name is the last one, too.
pub proof fn lemma_lookup_is_last_named(s: Seq<DefinitionModel>, name: Seq<char>)
    requires
        sorted_by_name(s),
    ensures
        lookup(s, name) == last_named(s, name),
{
    lemma_last_named(s, name);
    lemma_last_named_is_member(s, name);
    lemma_lookup_absent(s, name);
    if let Some(d) = last_named(s, name) {
        lemma_lookup_iff(s, name, d);
    }
}

/// Of the first `n` definitions of `s`, the positions of the value
/// definitions (`values`) or of the others (`!values`), in ascending order.
pub open spec fn positions(s: Seq<DefinitionModel>, values: bool, n: nat) -> Seq<int>
    decreases n,
{
    if n == 0 {
        Seq::empty()
    } else {
        let before = positions(s, values, (n - 1) as nat);
        if (s[n - 1] is Value) == values {
            before.push(n - 1)
        } else {
            before
        }
    }
}

/// The order in which the linker takes up the definitions of `s`, read from
/// the end: the positions of the value definitions, then those of the others.
pub open spec fn worklist(s: Seq<DefinitionModel>) -> Seq<int> {
    positions(s, true, s.len()) + positions(s, false, s.len())
}

/// What linking arrives at: the linked definitions in the order of their
/// names and the warnings in the order given, or the error that stopped it.
pub type Linked = Result<(Seq<DefinitionModel>, Seq<ValidatorErrorModel>), ValidatorErrorModel>;

/// Links the definitions at the positions `keys`, last position first, each
/// against all other definitions as they stand at that moment. `warnings`
/// are the warnings given so far.
pub open spec fn link_from(s: Seq<DefinitionModel>, keys: Seq<int>, warnings: Seq<ValidatorErrorModel>) -> Linked
    decreases keys.len(),
{
    if keys.len() == 0 {
        Ok((s, warnings))
    } else {
        let k = keys.last();
        let others = s.remove(k);
        match s[k].link_error(others) {
            Some(e) => Err(e),
            None => link_from(
                s.update(k, s[k].linked(others)),
                keys.drop_last(),
                match s[k].link_warning(others) {
                    Some(w) => warnings.push(w),
                    None => warnings,
                },
            ),
        }
    }
}

/// The working set `s` after linking.
pub open spec fn linked_set(s: Seq<DefinitionModel>) -> Linked {
    link_from(s, worklist(s), Seq::empty())
}

/// The definitions of `s` that pass the checks of the validator, in the order of `s`.
pub open spec fn valid_definitions(s: Seq<DefinitionModel>) -> Seq<DefinitionModel>
    decreases s.len(),
{
    if s.len() == 0 {
        Seq::empty()
    } else if s.last().valid() {
        valid_definitions(s.drop_last()).push(s.last())
    } else {
        valid_definitions(s.drop_last())
    }
}

/// The diagnostics for the definitions of `s` that fail the checks of the
/// validator, in the order of `s`.
pub open spec fn validation_errors(s: Seq<DefinitionModel>) -> Seq<ValidatorErrorModel>
    decreases s.len(),
{
    if s.len() == 0 {
        Seq::empty()
    } else if s.last().valid() {
        validation_errors(s.drop_last())
    } else {
        validation_errors(s.drop_last()).push(invalid_range_error(Some(s.last().name())))
    }
}

/// What validation arrives at for the working set `s`: the linked
/// definitions that are valid, and the warnings of the linker followed by
/// the diagnostics of the definitions that are not valid; or the error that
/// stopped the linker.
pub open spec fn validated(s: Seq<DefinitionModel>) -> Linked {
    match linked_set(s) {
        Ok((linked, warnings)) => Ok((valid_definitions(linked), warnings + validation_errors(linked))),
        Err(e) => Err(e),
    }
}

/// The content of a list of diagnostics.
pub open spec fn diagnostics_view(es: Seq<ValidatorError>) -> Seq<ValidatorErrorModel> {
    Seq::new(es.len(), |i: int| es[i]@)
}

/// The positions held in a list of keys.
pub open spec fn keys_view(keys: Seq<usize>) -> Seq<int> {
    Seq::new(keys.len(), |i: int| keys[i] as int)
}

/// Holds the definitions of a working set, links and validates them.
#[derive(Debug, PartialEq)]
pub struct Validator {
    tlds: ReferenceIndex,
}

impl View for Validator {
    type V = Seq<DefinitionModel>;

    closed spec fn view(&self) -> Seq<DefinitionModel> {
        self.tlds@
    }
}

impl Validator {
    /// The definitions stand in strictly ascending order of their names.
    pub open spec fn wf(&self) -> bool {
        sorted_by_name(self@)
    }

    /// A validator for the given definitions, in the order of their names.
    /// Where two of them go by the same name, the later one takes the place
    /// of the earlier. Definitions that come in the order of their names
    /// are held as they come.
    pub fn new(tlds: Vec<ToplevelDefinition>) -> (r: Validator)
        ensures
            r.wf(),
            forall|n: Seq<char>| lookup(r@, n) == last_named(definitions_view(tlds@), n),
            sorted_by_name(definitions_view(tlds@)) ==> r@ == definitions_view(tlds@),
    {
        let ghost input = definitions_view(tlds@);
        let mut index = ReferenceIndex::new();
        for tld in it: tlds
            invariant
                index.wf(),
                input == definitions_view(tlds@),
                forall|n: Seq<char>| lookup(index@, n) == last_named(input.take(it.index()), n),
        {
            assert(input.take(it.index() + 1).drop_last() =~= input.take(it.index()));
            assert(input[it.index()] == tld@);
            index.insert(tld);
        }
        assert(input.take(tlds@.len() as int) =~= input);
        proof {
            if sorted_by_name(input) {
                assert forall|n: Seq<char>| lookup(index@, n) == lookup(input, n) by {
                    lemma_lookup_is_last_named(input, n);
                }
                lemma_index_determined(index@, input);
            }
        }
        Validator { tlds: index }
    }

    /// A validator for the given definitions, none of which may go by the
    /// name of another: the first definition whose name is taken already is
    /// reported as an error.
    pub fn try_new(tlds: Vec<ToplevelDefinition>) -> (r: Result<Validator, ValidatorError>)
        ensures
            match r {
                Ok(v) => {
                    &&& v.wf()
                    &&& forall|j: int| 0 <= j < tlds@.len() ==> !repeats_a_name(definitions_view(tlds@), j)
                    &&& forall|n: Seq<char>| lookup(v@, n) == last_named(definitions_view(tlds@), n)
                },
                Err(e) => exists|j: int|
                    {
                        &&& 0 <= j < tlds@.len()
                        &&& repeats_a_name(definitions_view(tlds@), j)
                        &&& forall|k: int| 0 <= k < j ==> !repeats_a_name(definitions_view(tlds@), k)
                        &&& e@ == name_collision_error(#[trigger] definitions_view(tlds@)[j].name())
                    },
            },
    {
        let ghost input = definitions_view(tlds@);
        let mut index = ReferenceIndex::new();
        for tld in it: tlds
            invariant
                index.wf(),
                input == definitions_view(tlds@),
                forall|n: Seq<char>| lookup(index@, n) == last_named(input.take(it.index()), n),
                forall|j: int| 0 <= j < it.index() ==> !repeats_a_name(input, j),
        {
            let ghost j = it.index();
            assert(input.take(j + 1).drop_last() =~= input.take(j));
            assert(input[j] == tld@);
            proof {
                lemma_last_named(input.take(j), tld@.name());
                if repeats_a_name(input, j) {
                    let i = choose|i: int| 0 <= i < j && (#[trigger] input[i]).name() == input[j].name();
                    assert(input.take(j)[i].name() == tld@.name());
                } else {
                    assert forall|i: int| 0 <= i < j implies (#[trigger] input.take(j)[i]).name() != tld@.name() by {
                        assert(input.take(j)[i] == input[i]);
                    }
                }
            }
            let name = tld.name().clone();
            match index.insert(tld) {
                Some(_) => {
                    return Err(
                        ValidatorError::new(
                            Some(name),
                            "A definition of the same name exists already",
                            ValidatorErrorType::SemanticError,
                        ),
                    );
                },
                None => {},
            }
        }
        assert(input.take(tlds@.len() as int) =~= input);
        Ok(Validator { tlds: index })
    }

    /// The positions of the definitions in the order in which the linker
    /// takes them up, read from the end.
    fn keys(&self) -> (r: Vec<usize>)
        ensures
            keys_view(r@) == worklist(self@),
    {
        let mut values: Vec<usize> = Vec::new();
        let mut others: Vec<usize> = Vec::new();
        let mut i: usize = 0;
        while i < self.tlds.len()
            invariant
                i <= self@.len(),
                keys_view(values@) == positions(self@, true, i as nat),
                keys_view(others@) == positions(self@, false, i as nat),
            decreases self@.len() - i,
        {
            let ghost old_values = values@;
            let ghost old_others = others@;
            match self.tlds.entry(i) {
                ToplevelDefinition::Value(_) => {
                    values.push(i);
                    assert(keys_view(values@) =~= keys_view(old_values).push(i as int));
                },
                _ => {
                    others.push(i);
                    assert(keys_view(others@) =~= keys_view(old_others).push(i as int));
                },
            }
            i += 1;
        }
        let ghost first = values@;
        let ghost second = others@;
        values.append(&mut others);
        assert(keys_view(values@) =~= keys_view(first) + keys_view(second));
        values
    }

    /// Takes the definition at position `k` out of the index, links it
    /// against the others and puts it back. Hands back the warning that the
    /// linking gave, or the error that stopped it.
    fn link_at(&mut self, k: usize) -> (r: Result<Option<ValidatorError>, ValidatorError>)
        requires
            old(self).wf(),
            k < old(self)@.len(),
        ensures
            match r {
                Ok(w) => {
                    &&& final(self).wf()
                    &&& old(self)@[k as int].link_error(old(self)@.remove(k as int)) is None
                    &&& final(self)@ == old(self)@.update(
                        k as int,
                        old(self)@[k as int].linked(old(self)@.remove(k as int)),
                    )
                    &&& (match w {
                        Some(x) => Some(x@),
                        None => None,
                    }) == old(self)@[k as int].link_warning(old(self)@.remove(k as int))
                },
                Err(e) => old(self)@[k as int].link_error(old(self)@.remove(k as int)) == Some(e@),
            },
    {
        let ghost s = self@;
        proof {
            lemma_remove_lookup(s, k as int);
        }
        let tld = self.tlds.remove_at(k);
        match link_definition(tld, &self.tlds) {
            Err(e) => Err(e),
            Ok((linked, warning)) => {
                proof {
                    lemma_passes_keep_name(s[k as int], s.remove(k as int));
                }
                self.tlds.insert_at(k, linked);
                assert(self@ =~= s.update(k as int, s[k as int].linked(s.remove(k as int))));
                Ok(warning)
            },
        }
    }

    /// Links the definitions. Each is taken out of the index, linked against
    /// the others and put back, value definitions last. Hands back the
    /// validator with the linked definitions and the warnings, or the error
    /// that stopped the linking.
    ///
    /// Linking moves no definition and renames none, and it misses no class:
    /// afterwards no definition is tied by name to a class that another
    /// definition of the set defines.
    #[verifier::loop_isolation(false)]
    pub fn link(self) -> (r: Result<(Validator, Vec<ValidatorError>), ValidatorError>)
        requires
            self.wf(),
        ensures
            match r {
                Ok((v, warnings)) => {
                    &&& v.wf()
                    &&& linked_set(self@) == Ok::<_, ValidatorErrorModel>((v@, diagnostics_view(warnings@)))
                    &&& same_frame(self@, v@)
                    &&& forall|i: int| 0 <= i < v@.len() ==> class_link_settled(v@, i)
                },
                Err(e) => linked_set(self@) == Err::<(Seq<DefinitionModel>, Seq<ValidatorErrorModel>), _>(e@),
            },
    {
        proof {
            lemma_linking_keeps_positions(self@);
            lemma_no_class_link_missed(self@);
        }
        let ghost start = self@;
        let mut validator = self;
        let mut warnings: Vec<ValidatorError> = Vec::new();
        let mut keys = validator.keys();
        proof {
            lemma_positions_in_range(start, true, start.len());
            lemma_positions_in_range(start, false, start.len());
            assert(diagnostics_view(warnings@) =~= Seq::<ValidatorErrorModel>::empty());
            assert forall|j: int| 0 <= j < keys@.len() implies (#[trigger] keys@[j]) < start.len() by {
                assert(keys_view(keys@)[j] == keys@[j]);
                let values = positions(start, true, start.len());
                if j >= values.len() {
                    assert(worklist(start)[j] == positions(start, false, start.len())[j - values.len()]);
                } else {
                    assert(worklist(start)[j] == values[j]);
                }
            }
        }
        while keys.len() > 0
            invariant
                validator.wf(),
                validator@.len() == start.len(),
                forall|j: int| 0 <= j < keys@.len() ==> (#[trigger] keys@[j]) < start.len(),
                linked_set(start) == link_from(validator@, keys_view(keys@), diagnostics_view(warnings@)),
            decreases keys@.len(),
        {
            let ghost ks = keys_view(keys@);
            let ghost ws = diagnostics_view(warnings@);
            let k = keys[keys.len() - 1];
            keys.pop();
            assert(keys_view(keys@) =~= ks.drop_last());
            assert(ks.last() == k);
            let ghost s = validator@;
            match validator.link_at(k) {
                Err(e) => {
                    assert(link_from(s, ks, ws) == Err::<(Seq<DefinitionModel>, Seq<ValidatorErrorModel>), _>(e@));
                    return Err(e);
                },
                Ok(warning) => {
                    match warning {
                        Some(w) => {
                            warnings.push(w);
                            assert(diagnostics_view(warnings@) =~= ws.push(w@));
                        },
                        None => {},
                    }
                },
            }
        }
        assert(keys_view(keys@) =~= Seq::<int>::empty());
        Ok((validator, warnings))
    }

    /// Whether the definition `key` is a type with a constraint that refers
    /// to a value by name.
    pub fn has_constraint_reference(&self, key: &String) -> (r: bool)
        ensures
            r == (lookup(self@, key@) matches Some(d) && d.has_constraint_reference()),
    {
        match self.tlds.get(key.as_str()) {
            Some(d) => d.has_constraint_reference(),
            None => false,
        }
    }

    /// Whether the definition `key` refers to an information object class by name.
    pub fn references_class_by_name(&self, key: &String) -> (r: bool)
        ensures
            r == (lookup(self@, key@) matches Some(d) && d.references_class_by_name()),
    {
        match self.tlds.get(key.as_str()) {
            Some(d) => d.references_class_by_name(),
            None => false,
        }
    }

    /// Whether the definition `key` is an object set that refers to objects by name.
    pub fn references_object_set_by_name(&self, key: &String) -> (r: bool)
        ensures
            r == (lookup(self@, key@) matches Some(d) && d.references_object_set_by_name()),
    {
        match self.tlds.get(key.as_str()) {
            Some(d) => d.references_object_set_by_name(),
            None => false,
        }
    }

    /// Whether the definition `key` is a type that holds a selection type.
    pub fn has_choice_selection_type(&self, key: &String) -> (r: bool)
        ensures
            r == (lookup(self@, key@) matches Some(d) && d.has_choice_selection_type()),
    {
        match self.tlds.get(key.as_str()) {
            Some(d) => d.has_choice_selection_type(),
            None => false,
        }
    }

    /// Whether the definition `key` is a type that holds a `COMPONENTS OF` notation.
    pub fn has_components_of_notation(&self, key: &String) -> (r: bool)
        ensures
            r == (lookup(self@, key@) matches Some(d) && d.has_components_of_notation()),
    {
        match self.tlds.get(key.as_str()) {
            Some(d) => d.has_components_of_notation(),
            None => false,
        }
    }

    /// Links the definitions and checks each linked definition. Hands back
    /// the valid definitions in the order of their names, and the warnings
    /// of the linker followed by the diagnostics of the definitions that
    /// are not valid. An error of the linker stops the whole.
    ///
    /// The result is a function of the working set. The definitions handed
    /// back stand in strictly ascending order of their names, each of them
    /// is valid, and none is tied by name to a class that another of them
    /// defines.
    pub fn validate(self) -> (r: Result<(Vec<ToplevelDefinition>, Vec<ValidatorError>), ValidatorError>)
        requires
            self.wf(),
        ensures
            match r {
                Ok((tlds, diagnostics)) => {
                    &&& validated(self@) == Ok::<_, ValidatorErrorModel>(
                        (definitions_view(tlds@), diagnostics_view(diagnostics@)),
                    )
                    &&& sorted_by_name(definitions_view(tlds@))
                    &&& forall|i: int| 0 <= i < tlds@.len() ==> (#[trigger] definitions_view(tlds@)[i]).valid()
                    &&& forall|i: int| 0 <= i < tlds@.len() ==> class_link_settled(definitions_view(tlds@), i)
                },
                Err(e) => validated(self@) == Err::<(Seq<DefinitionModel>, Seq<ValidatorErrorModel>), _>(e@),
            },
    {
        proof {
            lemma_validated_in_name_order(self@);
            lemma_validated_are_valid(self@);
            lemma_no_class_link_missed(self@);
            lemma_linking_keeps_positions(self@);
            if let Ok((linked, _)) = linked_set(self@) {
                lemma_same_frame_sorted(self@, linked);
                lemma_settled_among_valid(linked);
            }
        }
        let (linked, mut errors) = match self.link() {
            Ok(x) => x,
            Err(e) => {
                return Err(e);
            },
        };
        let ghost s = linked@;
        let ghost warnings = diagnostics_view(errors@);
        let entries = linked.tlds.into_entries();
        let mut tlds: Vec<ToplevelDefinition> = Vec::new();
        assert(definitions_view(tlds@) =~= Seq::<DefinitionModel>::empty());
        assert(warnings + Seq::<ValidatorErrorModel>::empty() =~= warnings);
        for tld in it: entries
            invariant
                s == definitions_view(entries@),
                definitions_view(tlds@) == valid_definitions(s.take(it.index())),
                diagnostics_view(errors@) == warnings + validation_errors(s.take(it.index())),
        {
            assert(s.take(it.index() + 1).drop_last() =~= s.take(it.index()));
            assert(s[it.index()] == tld@);
            let ghost old_tlds = tlds@;
            let ghost old_errors = errors@;
            match tld.validate() {
                Ok(_) => {
                    tlds.push(tld);
                    assert(definitions_view(tlds@) =~= definitions_view(old_tlds).push(tld@));
                },
                Err(e) => {
                    errors.push(e);
                    assert(diagnostics_view(errors@) =~= diagnostics_view(old_errors).push(e@));
                },
            }
        }
        assert(s.take(entries@.len() as int) =~= s);
        Ok((tlds, errors))
    }
}

/// The positions of a working set lie inside it.
pub proof fn lemma_positions_in_range(s: Seq<DefinitionModel>, values: bool, n: nat)
    requires
        n <= s.len(),
    ensures
        forall|j: int| 0 <= j < positions(s, values, n).len() ==> 0 <= (#[trigger] positions(s, values, n)[j]) < n,
    decreases n,
{
    if n > 0 {
        lemma_positions_in_range(s, values, (n - 1) as nat);
        let now = positions(s, values, n);
        let before = positions(s, values, (n - 1) as nat);
        assert forall|j: int| 0 <= j < now.len() implies 0 <= (#[trigger] now[j]) < n by {
            if j < before.len() {
                assert(now[j] == before[j]);
            }
        }
    }
}

} // verus!
