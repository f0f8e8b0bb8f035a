//! Lookups and conversions that the linker relies on.

use vstd::prelude::*;
use vstd::string::StringExecFns;
use crate::intermediate::error::{GrammarError, GrammarErrorModel, GrammarErrorType};
use crate::intermediate::information_object::{
    class_fields_view, ClassFieldModel, InformationObjectClassField,
};
use crate::intermediate::toplevel::{DefinitionModel, ToplevelDefinition};
use crate::intermediate::types::{
    field_path_view, ASN1Type, DistinguishedValue, Enumeral, FieldIdModel, NamedNumberModel,
    ObjectFieldIdentifier, TypeModel,
};
use crate::intermediate::values::{optional_value_view, ASN1Value, ValueModel};
use crate::validator::index::{
    first_some, lemma_first_some_prefix, lemma_first_some_step, lookup, ReferenceIndex,
};
use crate::intermediate::types::distinguished_values_view;
use crate::intermediate::types::enumerals_view;

verus! {

/// The octet that eight bits stand for, the first bit being the most significant.
pub open spec fn octet_of(bits: Seq<bool>) -> int {
    (if bits[0] { 128int } else { 0 })
        + (if bits[1] { 64int } else { 0 })
        + (if bits[2] { 32int } else { 0 })
        + (if bits[3] { 16int } else { 0 })
        + (if bits[4] { 8int } else { 0 })
        + (if bits[5] { 4int } else { 0 })
        + (if bits[6] { 2int } else { 0 })
        + (if bits[7] { 1int } else { 0 })
}

/// The octets that a bit string stands for, eight bits to the octet.
pub open spec fn octets_of(bits: Seq<bool>) -> Seq<u8> {
    Seq::new(bits.len() / 8, |j: int| octet_of(bits.subrange(8 * j, 8 * j + 8)) as u8)
}

/// The weight of bit `k` of an octet, counted from the most significant.
pub open spec fn bit_weight(k: int) -> int {
    if k == 0 {
        128
    } else if k == 1 {
        64
    } else if k == 2 {
        32
    } else if k == 3 {
        16
    } else if k == 4 {
        8
    } else if k == 5 {
        4
    } else if k == 6 {
        2
    } else {
        1
    }
}

/// The bits that a string of octets stands for.
pub open spec fn bits_of(octets: Seq<u8>) -> Seq<bool> {
    Seq::new(8 * octets.len(), |i: int| (octets[i / 8] as int / bit_weight(i % 8)) % 2 == 1)
}

/// The message of the error for a bit string that does not fill whole octets.
pub open spec fn ragged_bit_string_error() -> GrammarErrorModel {
    GrammarErrorModel {
        details: "Binary octet string value needs to be a multiple of 8 bits!"@,
        kind: GrammarErrorType::LinkerError,
    }
}

/// Each bit can be read back from the octet that eight bits make.
proof fn lemma_octet_bits(bits: Seq<bool>, k: int)
    requires
        bits.len() == 8,
        0 <= k < 8,
    ensures
        0 <= octet_of(bits) < 256,
        ((octet_of(bits) / bit_weight(k)) % 2 == 1) == bits[k],
{
}

/// A bit string whose length is a multiple of 8 is read back unchanged from its octets.
pub proof fn lemma_bit_string_round_trip(bits: Seq<bool>)
    requires
        bits.len() % 8 == 0,
    ensures
        bits_of(octets_of(bits)) == bits,
{
    let octets = octets_of(bits);
    assert(8 * octets.len() == bits.len());
    assert forall|i: int| 0 <= i < bits.len() implies bits_of(octets)[i] == bits[i] by {
        let j = i / 8;
        let chunk = bits.subrange(8 * j, 8 * j + 8);
        lemma_octet_bits(chunk, i % 8);
        assert(chunk[i % 8] == bits[i]);
    }
    assert(bits_of(octets) =~= bits);
}

/// The weight of bit `k` of an octet, counted from the most significant.
fn weight_of(k: usize) -> (r: u8)
    requires
        k < 8,
    ensures
        r == bit_weight(k as int),
{
    if k == 0 {
        128
    } else if k == 1 {
        64
    } else if k == 2 {
        32
    } else if k == 3 {
        16
    } else if k == 4 {
        8
    } else if k == 5 {
        4
    } else if k == 6 {
        2
    } else {
        1
    }
}

/// The first `k` bits of `bits`, followed by bits that are not set.
spec fn masked(bits: Seq<bool>, k: int) -> Seq<bool> {
    Seq::new(8, |m: int| m < k && bits[m])
}

/// An octet is made again by the eight bits that it stands for.
proof fn lemma_bits_octet(octet: u8)
    ensures
        octet_of(Seq::new(8, |k: int| (octet as int / bit_weight(k)) % 2 == 1)) == octet,
{
    let o = octet;
    assert(((o / 128u8) % 2u8) * 128u8 + ((o / 64u8) % 2u8) * 64u8 + ((o / 32u8) % 2u8) * 32u8 + ((o / 16u8)
        % 2u8) * 16u8 + ((o / 8u8) % 2u8) * 8u8 + ((o / 4u8) % 2u8) * 4u8 + ((o / 2u8) % 2u8) * 2u8 + ((o / 1u8)
        % 2u8) * 1u8 == o) by (bit_vector);
    let bits = Seq::new(8, |k: int| (octet as int / bit_weight(k)) % 2 == 1);
    assert(bits[0] == ((o / 128u8) % 2u8 == 1));
    assert(bits[1] == ((o / 64u8) % 2u8 == 1));
    assert(bits[2] == ((o / 32u8) % 2u8 == 1));
    assert(bits[3] == ((o / 16u8) % 2u8 == 1));
    assert(bits[4] == ((o / 8u8) % 2u8 == 1));
    assert(bits[5] == ((o / 4u8) % 2u8 == 1));
    assert(bits[6] == ((o / 2u8) % 2u8 == 1));
    assert(bits[7] == ((o / 1u8) % 2u8 == 1));
}

/// Octets are read back unchanged from the bit string that they stand for.
pub proof fn lemma_octet_string_round_trip(octets: Seq<u8>)
    ensures
        octets_of(bits_of(octets)) == octets,
{
    let bits = bits_of(octets);
    assert forall|j: int| 0 <= j < octets.len() implies octets_of(bits)[j] == octets[j] by {
        let chunk = bits.subrange(8 * j, 8 * j + 8);
        let octet = octets[j];
        assert(chunk =~= Seq::new(8, |k: int| (octet as int / bit_weight(k)) % 2 == 1)) by {
            assert forall|k: int| 0 <= k < 8 implies chunk[k] == ((octet as int / bit_weight(k)) % 2 == 1) by {
                assert(chunk[k] == bits[8 * j + k]);
                assert((8 * j + k) / 8 == j && (8 * j + k) % 8 == k);
            }
        }
        lemma_bits_octet(octet);
    }
    assert(octets_of(bits) =~= octets);
}

/// Turns a bit string into octets, eight bits to the octet and the first bit
/// of each group the most significant. A bit string that does not fill whole
/// octets is an error.
pub fn bit_string_to_octet_string(bits: &Vec<bool>) -> (r: Result<Vec<u8>, GrammarError>)
    ensures
        bits@.len() % 8 == 0 ==> r is Ok && r->Ok_0@ == octets_of(bits@),
        bits@.len() % 8 != 0 ==> r is Err && r->Err_0@ == ragged_bit_string_error(),
{
    if bits.len() % 8 != 0 {
        return Err(
            GrammarError {
                details: String::from_str("Binary octet string value needs to be a multiple of 8 bits!"),
                kind: GrammarErrorType::LinkerError,
            },
        );
    }
    let mut octets: Vec<u8> = Vec::new();
    let mut j: usize = 0;
    while j < bits.len() / 8
        invariant
            bits@.len() % 8 == 0,
            j <= bits@.len() / 8,
            octets@.len() == j,
            forall|m: int| 0 <= m < j ==> octets@[m] == octets_of(bits@)[m],
        decreases bits.len() / 8 - j,
    {
        let base: usize = 8 * j;
        let ghost chunk = bits@.subrange(8 * j, 8 * j + 8);
        let mut octet: u8 = 0;
        let mut k: usize = 0;
        while k < 8
            invariant
                k <= 8,
                base == 8 * j,
                base + 8 <= bits@.len(),
                chunk == bits@.subrange(8 * j, 8 * j + 8),
                octet as int == octet_of(masked(chunk, k as int)),
            decreases 8 - k,
        {
            let weight = weight_of(k);
            assert(chunk[k as int] == bits@[base + k]);
            assert(octet_of(masked(chunk, k + 1)) == octet_of(masked(chunk, k as int)) + if chunk[k as int] {
                weight as int
            } else {
                0
            });
            assert(octet_of(masked(chunk, k + 1)) < 256);
            if bits[base + k] {
                octet = octet + weight;
            }
            k += 1;
        }
        assert(masked(chunk, 8) =~= chunk);
        octets.push(octet);
        j += 1;
    }
    assert(octets@ =~= octets_of(bits@));
    Ok(octets)
}

/// Turns octets into the bit string that they stand for, eight bits for
/// each octet, the most significant bit first.
pub fn octet_string_to_bit_string(octets: &Vec<u8>) -> (r: Vec<bool>)
    ensures
        r@ == bits_of(octets@),
{
    let mut bits: Vec<bool> = Vec::new();
    let mut j: usize = 0;
    while j < octets.len()
        invariant
            j <= octets@.len(),
            bits@.len() == 8 * j,
            forall|i: int| 0 <= i < bits@.len() ==> bits@[i] == bits_of(octets@)[i],
        decreases octets.len() - j,
    {
        let octet = octets[j];
        let mut k: usize = 0;
        while k < 8
            invariant
                k <= 8,
                j < octets@.len(),
                octet == octets@[j as int],
                bits@.len() == 8 * j + k,
                forall|i: int| 0 <= i < bits@.len() ==> bits@[i] == bits_of(octets@)[i],
            decreases 8 - k,
        {
            bits.push((octet / weight_of(k)) % 2 == 1);
            k += 1;
        }
        j += 1;
    }
    assert(bits@ =~= bits_of(octets@));
    bits
}

/// The field itself if it carries the identifier `id`.
pub open spec fn identified(id: FieldIdModel) -> spec_fn(ClassFieldModel) -> Option<ClassFieldModel> {
    |f: ClassFieldModel|
        if f.identifier == id {
            Some(f)
        } else {
            None
        }
}

/// The field that a path leads to. The first field that carries the
/// identifier at `index` is taken; if the path goes on, it is continued in
/// the fields below that field. `None` where a step finds no field.
pub open spec fn walk_path(fields: Seq<ClassFieldModel>, path: Seq<FieldIdModel>, index: int) -> Option<
    ClassFieldModel,
>
    decreases path.len() - index,
{
    if index < 0 || index >= path.len() {
        None
    } else {
        match first_some(fields, identified(path[index])) {
            None => None,
            Some(f) => if index + 1 == path.len() {
                Some(f)
            } else {
                walk_path(f.fields, path, index + 1)
            },
        }
    }
}

/// The content of an optional reference to a class field.
pub open spec fn optional_field_view(f: Option<&InformationObjectClassField>) -> Option<ClassFieldModel> {
    match f {
        Some(x) => Some(x@),
        None => None,
    }
}

/// Follows `path`, from its step `index` on, through the fields of a class.
pub fn walk_object_field_ref_path<'a>(
    fields: &'a Vec<InformationObjectClassField>,
    path: &'a Vec<ObjectFieldIdentifier>,
    index: usize,
) -> (r: Option<&'a InformationObjectClassField>)
    ensures
        optional_field_view(r) == walk_path(
            class_fields_view(*fields),
            field_path_view(path@),
            index as int,
        ),
    decreases path.len() - index,
{
    if index >= path.len() {
        return None;
    }
    let ghost fs = class_fields_view(*fields);
    let ghost id = field_path_view(path@)[index as int];
    let mut i: usize = 0;
    while i < fields.len()
        invariant
            i <= fields.len(),
            index < path.len(),
            fs == class_fields_view(*fields),
            id == path[index as int]@,
            first_some(fs.take(i as int), identified(id)) is None,
        decreases fields.len() - i,
    {
        proof {
            lemma_first_some_step(fs, identified(id), i as int);
        }
        if fields[i].identifier.same_as(&path[index]) {
            proof {
                lemma_first_some_prefix(fs, identified(id), i + 1);
            }
            if index + 1 == path.len() {
                return Some(&fields[i]);
            } else {
                return walk_object_field_ref_path(&fields[i].fields, path, index + 1);
            }
        }
        i += 1;
    }
    assert(fs.take(i as int) =~= fs);
    None
}

/// The number as a value if it goes by `name`.
pub open spec fn numbered(name: Seq<char>) -> spec_fn(NamedNumberModel) -> Option<ValueModel> {
    |n: NamedNumberModel|
        if n.name == name {
            Some(ValueModel::Integer(n.number))
        } else {
            None
        }
}

/// The value of the enumeration item or distinguished value `name` that the
/// definition declares. With a `expected_type`, only the type of that name is asked.
pub open spec fn distinguished_or_enum_value(
    d: DefinitionModel,
    expected_type: Option<Seq<char>>,
    name: Seq<char>,
) -> Option<ValueModel> {
    match d {
        DefinitionModel::Type(t) => if expected_type is Some && expected_type != Some(t.name) {
            None
        } else {
            match t.ty {
                TypeModel::Enumerated { members, .. } => first_some(members, numbered(name)),
                TypeModel::Integer { distinguished_values, .. } => first_some(
                    distinguished_values,
                    numbered(name),
                ),
                _ => None,
            }
        },
        _ => None,
    }
}

/// [`distinguished_or_enum_value`] as a function of the definition.
pub open spec fn declares(expected_type: Option<Seq<char>>, name: Seq<char>) -> spec_fn(DefinitionModel) -> Option<
    ValueModel,
> {
    |d: DefinitionModel| distinguished_or_enum_value(d, expected_type, name)
}

/// The value that `name` stands for where a value of the type `expected_type` is
/// expected: the value of the value definition `name`; else what the first
/// definition in the order of the index declares under `name` as the type
/// `expected_type`; else what the first definition declares under `name` at all.
pub open spec fn find_value(s: Seq<DefinitionModel>, expected_type: Seq<char>, name: Seq<char>) -> Option<
    ValueModel,
> {
    match lookup(s, name) {
        Some(DefinitionModel::Value(v)) => Some(v.value),
        _ => match first_some(s, declares(Some(expected_type), name)) {
            Some(v) => Some(v),
            None => first_some(s, declares(None, name)),
        },
    }
}

/// Looks for the item `name` among enumeration items.
fn find_enumeral(members: &Vec<Enumeral>, name: &String) -> (r: Option<ASN1Value>)
    ensures
        optional_value_view(r) == first_some(enumerals_view(members@), numbered(name@)),
{
    let ghost ms = enumerals_view(members@);
    let mut i: usize = 0;
    while i < members.len()
        invariant
            i <= members.len(),
            ms == enumerals_view(members@),
            first_some(ms.take(i as int), numbered(name@)) is None,
        decreases members.len() - i,
    {
        proof {
            lemma_first_some_step(ms, numbered(name@), i as int);
        }
        if members[i].name == *name {
            proof {
                lemma_first_some_prefix(ms, numbered(name@), i + 1);
            }
            return Some(ASN1Value::Integer(members[i].index.duplicate()));
        }
        i += 1;
    }
    assert(ms.take(i as int) =~= ms);
    None
}

/// Looks for the name `name` among distinguished values.
fn find_distinguished_value(values: &Vec<DistinguishedValue>, name: &String) -> (r: Option<ASN1Value>)
    ensures
        optional_value_view(r) == first_some(
            distinguished_values_view(values@),
            numbered(name@),
        ),
{
    let ghost ms = distinguished_values_view(values@);
    let mut i: usize = 0;
    while i < values.len()
        invariant
            i <= values.len(),
            ms == distinguished_values_view(values@),
            first_some(ms.take(i as int), numbered(name@)) is None,
        decreases values.len() - i,
    {
        proof {
            lemma_first_some_step(ms, numbered(name@), i as int);
        }
        if values[i].name == *name {
            proof {
                lemma_first_some_prefix(ms, numbered(name@), i + 1);
            }
            return Some(ASN1Value::Integer(values[i].value.duplicate()));
        }
        i += 1;
    }
    assert(ms.take(i as int) =~= ms);
    None
}

/// The content of an optional reference to a name.
pub open spec fn optional_name_ref_view(n: Option<&String>) -> Option<Seq<char>> {
    match n {
        Some(s) => Some(s@),
        None => None,
    }
}

impl ToplevelDefinition {
    /// The value of the enumeration item or distinguished value `identifier`
    /// that this definition declares, if it is a type that declares one.
    /// With a `expected_type`, only the type of that name answers.
    pub fn get_distinguished_or_enum_value(&self, expected_type: Option<&String>, identifier: &String) -> (r: Option<
        ASN1Value,
    >)
        ensures
            optional_value_view(r) == distinguished_or_enum_value(
                self@,
                optional_name_ref_view(expected_type),
                identifier@,
            ),
    {
        match self {
            ToplevelDefinition::Type(t) => {
                match expected_type {
                    Some(n) => {
                        if !(*n == t.name) {
                            return None;
                        }
                    },
                    None => {},
                }
                match &t.ty {
                    ASN1Type::Enumerated(e) => find_enumeral(&e.members, identifier),
                    ASN1Type::Integer(i) => find_distinguished_value(&i.distinguished_values, identifier),
                    _ => None,
                }
            },
            _ => None,
        }
    }
}

/// Asks the definitions of the index, in order, for what they declare under `name`.
fn scan_for_value(expected_type: Option<&String>, name: &String, tlds: &ReferenceIndex) -> (r: Option<ASN1Value>)
    ensures
        optional_value_view(r) == first_some(tlds@, declares(optional_name_ref_view(expected_type), name@)),
{
    let ghost f = declares(optional_name_ref_view(expected_type), name@);
    let mut i: usize = 0;
    while i < tlds.len()
        invariant
            i <= tlds@.len(),
            f == declares(optional_name_ref_view(expected_type), name@),
            first_some(tlds@.take(i as int), f) is None,
        decreases tlds@.len() - i,
    {
        proof {
            lemma_first_some_step(tlds@, f, i as int);
        }
        let found = tlds.entry(i).get_distinguished_or_enum_value(expected_type, name);
        if found.is_some() {
            proof {
                lemma_first_some_prefix(tlds@, f, i + 1);
            }
            return found;
        }
        i += 1;
    }
    assert(tlds@.take(i as int) =~= tlds@);
    None
}

/// Finds the value that `name` stands for where a value of the type
/// `expected_type` is expected: a value definition of that name, or an
/// enumeration item or distinguished value of that name.
pub fn find_tld_or_enum_value_by_name(expected_type: &String, name: &String, tlds: &ReferenceIndex) -> (r: Option<
    ASN1Value,
>)
    ensures
        optional_value_view(r) == find_value(tlds@, expected_type@, name@),
{
    match tlds.get(name.as_str()) {
        Some(ToplevelDefinition::Value(v)) => {
            return Some(v.value.duplicate());
        },
        _ => {},
    }
    let typed = scan_for_value(Some(expected_type), name, tlds);
    if typed.is_some() {
        return typed;
    }
    // No type of that name declares it: take what any type declares under the name.
    scan_for_value(None, name, tlds)
}

} // verus!
