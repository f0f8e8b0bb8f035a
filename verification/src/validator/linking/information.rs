//! Linking of information definitions: class links and object sets.

use vstd::prelude::*;
use crate::intermediate::information_object::{
    object_set_values_view, ASN1Information, ClassLink, ClassLinkModel, ClassModel,
    InformationModel, InformationObjectClass, ObjectSet, ObjectSetModel, ObjectSetValue,
    ObjectSetValueModel,
};
use crate::intermediate::toplevel::{
    duplicate_place, DefinitionModel, InformationDefinitionModel, ToplevelDefinition,
    ToplevelInformationDefinition,
};
use crate::validator::index::{lookup, ReferenceIndex};

verus! {

/// The information object class that is defined under `name`.
pub open spec fn class_named(s: Seq<DefinitionModel>, name: Seq<char>) -> Option<ClassModel> {
    match lookup(s, name) {
        Some(DefinitionModel::Information(i)) => match i.value {
            InformationModel::ObjectClass(c) => Some(c),
            _ => None,
        },
        _ => None,
    }
}

impl InformationDefinitionModel {
    /// The definition is tied to its class by name only.
    pub open spec fn references_class_by_name(self) -> bool {
        self.class matches Some(ClassLinkModel::ByName(_))
    }

    /// The definition with its class link resolved: a link by name becomes
    /// the class itself where the class is defined in `s`, and stays by name
    /// where it is not. A resolved link is never touched.
    pub open spec fn with_class_resolved(self, s: Seq<DefinitionModel>) -> InformationDefinitionModel {
        match self.class {
            Some(ClassLinkModel::ByName(n)) => match class_named(s, n) {
                Some(c) => InformationDefinitionModel { class: Some(ClassLinkModel::ByReference(c)), ..self },
                None => self,
            },
            _ => self,
        }
    }
}

/// The entries that a reference to `name` stands for in an object set: the
/// entries of the object set `name`, or the one object `name`.
pub open spec fn included_objects(s: Seq<DefinitionModel>, name: Seq<char>) -> Option<Seq<ObjectSetValueModel>> {
    match lookup(s, name) {
        Some(DefinitionModel::Information(i)) => match i.value {
            InformationModel::ObjectSet(os) => Some(os.values),
            InformationModel::Object(o) => Some(seq![ObjectSetValueModel::Inline(o)]),
            _ => None,
        },
        _ => None,
    }
}

/// What an entry of an object set becomes: a reference gives way to the
/// entries it stands for, and stays where it stands for none.
pub open spec fn resolved_entry(v: ObjectSetValueModel, s: Seq<DefinitionModel>) -> Seq<ObjectSetValueModel> {
    match v {
        ObjectSetValueModel::Reference(n) => match included_objects(s, n) {
            Some(vs) => vs,
            None => seq![v],
        },
        ObjectSetValueModel::Inline(_) => seq![v],
    }
}

/// The entries of an object set with every entry resolved, in the order written.
pub open spec fn resolved_entries(vs: Seq<ObjectSetValueModel>, s: Seq<DefinitionModel>) -> Seq<ObjectSetValueModel>
    decreases vs.len(),
{
    if vs.len() == 0 {
        Seq::empty()
    } else {
        resolved_entries(vs.drop_last(), s) + resolved_entry(vs.last(), s)
    }
}

impl ObjectSetModel {
    /// An entry of the set is a reference by name.
    pub open spec fn references_object_set_by_name(self) -> bool {
        exists|i: int| 0 <= i < self.values.len() && (#[trigger] self.values[i]) is Reference
    }

    /// The set with its references resolved. The extension marker stays
    /// behind the entries that it stood behind.
    pub open spec fn resolved(self, s: Seq<DefinitionModel>) -> ObjectSetModel {
        ObjectSetModel {
            values: resolved_entries(self.values, s),
            extensible: match self.extensible {
                Some(e) => if e <= self.values.len() {
                    Some(resolved_entries(self.values.take(e as int), s).len())
                } else {
                    Some(e)
                },
                None => None,
            },
        }
    }
}

impl InformationModel {
    /// The definition is an object set with a reference by name among its entries.
    pub open spec fn references_object_set_by_name(self) -> bool {
        self matches InformationModel::ObjectSet(os) && os.references_object_set_by_name()
    }

    /// The definition's content with the references of an object set resolved.
    pub open spec fn with_object_sets_resolved(self, s: Seq<DefinitionModel>) -> InformationModel {
        match self {
            InformationModel::ObjectSet(os) => InformationModel::ObjectSet(os.resolved(s)),
            _ => self,
        }
    }
}

/// Resolving one more entry appends what that entry becomes.
pub proof fn lemma_resolved_entries_step(vs: Seq<ObjectSetValueModel>, s: Seq<DefinitionModel>, i: int)
    requires
        0 <= i < vs.len(),
    ensures
        resolved_entries(vs.take(i + 1), s) == resolved_entries(vs.take(i), s) + resolved_entry(vs[i], s),
{
    assert(vs.take(i + 1).drop_last() =~= vs.take(i));
}

/// Looks up the information object class that is defined under `name`.
fn find_class(name: &String, tlds: &ReferenceIndex) -> (r: Option<InformationObjectClass>)
    ensures
        match r {
            Some(c) => class_named(tlds@, name@) == Some(c@),
            None => class_named(tlds@, name@) is None,
        },
{
    match tlds.get(name.as_str()) {
        Some(ToplevelDefinition::Information(i)) => match &i.value {
            ASN1Information::ObjectClass(c) => Some(c.duplicate()),
            _ => None,
        },
        _ => None,
    }
}

/// Copies of the entries that a reference to `name` stands for.
fn find_included_objects(name: &String, tlds: &ReferenceIndex) -> (r: Option<Vec<ObjectSetValue>>)
    ensures
        match r {
            Some(vs) => included_objects(tlds@, name@) == Some(object_set_values_view(vs@)),
            None => included_objects(tlds@, name@) is None,
        },
{
    match tlds.get(name.as_str()) {
        Some(ToplevelDefinition::Information(i)) => match &i.value {
            ASN1Information::ObjectSet(os) => {
                let copy = os.duplicate();
                assert(object_set_values_view(copy.values@) == os@.values);
                Some(copy.values)
            },
            ASN1Information::Object(o) => {
                let mut out: Vec<ObjectSetValue> = Vec::new();
                out.push(ObjectSetValue::Inline(o.duplicate()));
                assert(object_set_values_view(out@) =~= seq![ObjectSetValueModel::Inline(o@)]);
                Some(out)
            },
            _ => None,
        },
        _ => None,
    }
}

impl ToplevelInformationDefinition {
    /// Whether the definition is tied to its class by name only.
    pub fn references_class_by_name(&self) -> (r: bool)
        ensures
            r == self@.references_class_by_name(),
    {
        match &self.class {
            Some(ClassLink::ByName(_)) => true,
            _ => false,
        }
    }

    /// The definition with its class link resolved against `tlds`.
    pub fn resolve_class_reference(&self, tlds: &ReferenceIndex) -> (r: ToplevelInformationDefinition)
        ensures
            r@ == self@.with_class_resolved(tlds@),
    {
        let resolved = match &self.class {
            Some(ClassLink::ByName(n)) => match find_class(n, tlds) {
                Some(c) => Some(ClassLink::ByReference(c)),
                None => Some(ClassLink::ByName(n.clone())),
            },
            Some(ClassLink::ByReference(c)) => Some(ClassLink::ByReference(c.duplicate())),
            None => None,
        };
        ToplevelInformationDefinition {
            name: self.name.clone(),
            class: resolved,
            value: self.value.duplicate(),
            index: duplicate_place(&self.index),
        }
    }
}

impl ObjectSet {
    /// Whether an entry of the set is a reference by name.
    pub fn references_object_set_by_name(&self) -> (r: bool)
        ensures
            r == self@.references_object_set_by_name(),
    {
        let mut i: usize = 0;
        while i < self.values.len()
            invariant
                i <= self.values.len(),
                forall|j: int| 0 <= j < i ==> !((#[trigger] self@.values[j]) is Reference),
            decreases self.values.len() - i,
        {
            match &self.values[i] {
                ObjectSetValue::Reference(_) => {
                    assert(self@.values[i as int] is Reference);
                    return true;
                },
                _ => {},
            }
            i += 1;
        }
        false
    }

    /// The set with its references resolved against `tlds`.
    pub fn link_object_set_reference(&self, tlds: &ReferenceIndex) -> (r: ObjectSet)
        ensures
            r@ == self@.resolved(tlds@),
    {
        let ghost before = self@.values;
        let mut out: Vec<ObjectSetValue> = Vec::new();
        let mut marker: Option<usize> = None;
        let mut i: usize = 0;
        while i < self.values.len()
            invariant
                i <= self.values.len(),
                before == self@.values,
                object_set_values_view(out@) == resolved_entries(before.take(i as int), tlds@),
                match self.extensible {
                    Some(e) => if e < i {
                        marker == Some(resolved_entries(before.take(e as int), tlds@).len() as usize)
                            && resolved_entries(before.take(e as int), tlds@).len() <= usize::MAX
                    } else {
                        marker is None
                    },
                    None => marker is None,
                },
            decreases self.values.len() - i,
        {
            if self.extensible == Some(i) {
                marker = Some(out.len());
            }
            proof {
                lemma_resolved_entries_step(before, tlds@, i as int);
                assert(before[i as int] == self.values[i as int]@);
            }
            let ghost old_out = out@;
            match &self.values[i] {
                ObjectSetValue::Reference(n) => match find_included_objects(n, tlds) {
                    Some(mut included) => {
                        let ghost added = object_set_values_view(included@);
                        out.append(&mut included);
                        assert(object_set_values_view(out@) =~= object_set_values_view(old_out) + added);
                    },
                    None => {
                        out.push(ObjectSetValue::Reference(n.clone()));
                        assert(object_set_values_view(out@) =~= object_set_values_view(old_out) + seq![
                            before[i as int],
                        ]);
                    },
                },
                ObjectSetValue::Inline(o) => {
                    out.push(ObjectSetValue::Inline(o.duplicate()));
                    assert(object_set_values_view(out@) =~= object_set_values_view(old_out) + seq![before[i as int]]);
                },
            }
            i += 1;
        }
        assert(before.take(i as int) =~= before);
        let extensible = match self.extensible {
            Some(e) => if e == self.values.len() {
                Some(out.len())
            } else if e > self.values.len() {
                Some(e)
            } else {
                marker
            },
            None => None,
        };
        ObjectSet { values: out, extensible }
    }
}

impl ASN1Information {
    /// Whether this is an object set with a reference by name among its entries.
    pub fn references_object_set_by_name(&self) -> (r: bool)
        ensures
            r == self@.references_object_set_by_name(),
    {
        match self {
            ASN1Information::ObjectSet(os) => os.references_object_set_by_name(),
            _ => false,
        }
    }

    /// The content with the references of an object set resolved against `tlds`.
    pub fn link_object_set_reference(&self, tlds: &ReferenceIndex) -> (r: ASN1Information)
        ensures
            r@ == self@.with_object_sets_resolved(tlds@),
    {
        match self {
            ASN1Information::ObjectSet(os) => ASN1Information::ObjectSet(os.link_object_set_reference(tlds)),
            _ => self.duplicate(),
        }
    }
}

} // verus!
