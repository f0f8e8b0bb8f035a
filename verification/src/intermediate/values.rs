//! ASN.1 values as they are written in a specification.

use vstd::prelude::*;
use crate::intermediate::integers::BigInteger;

verus! {

/// A value literal, or a reference to a value defined elsewhere.
#[derive(Debug, PartialEq)]
pub enum ASN1Value {
    Null,
    Boolean(bool),
    Integer(BigInteger),
    /// `mantissa * base ^ exponent`
    Real { mantissa: BigInteger, base: u8, exponent: BigInteger },
    String(String),
    BitString(Vec<bool>),
    OctetString(Vec<u8>),
    /// The item `enumerable` of the enumerated type `enumerated`.
    Enumerated { enumerated: String, enumerable: String },
    /// A value known by name only; linking replaces it by what the name stands for.
    NamedReference(String),
    /// The alternative of a CHOICE and its value.
    Choice(String, Box<ASN1Value>),
    /// The component values of a SEQUENCE or SET, in the order written.
    Sequence(Vec<NamedValue>),
    /// The element values of a SEQUENCE OF or SET OF.
    SequenceOf(Vec<ASN1Value>),
}

/// One component of a SEQUENCE or SET value.
#[derive(Debug, PartialEq)]
pub struct NamedValue {
    pub name: String,
    pub value: ASN1Value,
}

/// The mathematical content of an [`ASN1Value`].
pub enum ValueModel {
    Null,
    Boolean(bool),
    Integer(int),
    Real { mantissa: int, base: int, exponent: int },
    String(Seq<char>),
    BitString(Seq<bool>),
    OctetString(Seq<u8>),
    Enumerated { enumerated: Seq<char>, enumerable: Seq<char> },
    NamedReference(Seq<char>),
    Choice(Seq<char>, Box<ValueModel>),
    Sequence(Seq<NamedValueModel>),
    SequenceOf(Seq<ValueModel>),
}

/// The mathematical content of a [`NamedValue`].
pub struct NamedValueModel {
    pub name: Seq<char>,
    pub value: ValueModel,
}

pub open spec fn value_view(v: ASN1Value) -> ValueModel
    decreases v,
{
    match v {
        ASN1Value::Null => ValueModel::Null,
        ASN1Value::Boolean(b) => ValueModel::Boolean(b),
        ASN1Value::Integer(i) => ValueModel::Integer(i@),
        ASN1Value::Real { mantissa, base, exponent } => ValueModel::Real {
            mantissa: mantissa@,
            base: base as int,
            exponent: exponent@,
        },
        ASN1Value::String(s) => ValueModel::String(s@),
        ASN1Value::BitString(b) => ValueModel::BitString(b@),
        ASN1Value::OctetString(o) => ValueModel::OctetString(o@),
        ASN1Value::Enumerated { enumerated, enumerable } => ValueModel::Enumerated {
            enumerated: enumerated@,
            enumerable: enumerable@,
        },
        ASN1Value::NamedReference(n) => ValueModel::NamedReference(n@),
        ASN1Value::Choice(n, inner) => ValueModel::Choice(n@, Box::new(value_view(*inner))),
        ASN1Value::Sequence(vs) => ValueModel::Sequence(
            Seq::new(
                vs@.len(),
                |i: int|
                    if 0 <= i < vs@.len() {
                        named_value_view(vs@[i])
                    } else {
                        arbitrary()
                    },
            ),
        ),
        ASN1Value::SequenceOf(vs) => ValueModel::SequenceOf(
            Seq::new(
                vs@.len(),
                |i: int|
                    if 0 <= i < vs@.len() {
                        value_view(vs@[i])
                    } else {
                        arbitrary()
                    },
            ),
        ),
    }
}

pub open spec fn named_value_view(v: NamedValue) -> NamedValueModel
    decreases v,
{
    NamedValueModel { name: v.name@, value: value_view(v.value) }
}

impl View for ASN1Value {
    type V = ValueModel;

    open spec fn view(&self) -> ValueModel {
        value_view(*self)
    }
}

impl View for NamedValue {
    type V = NamedValueModel;

    open spec fn view(&self) -> NamedValueModel {
        named_value_view(*self)
    }
}

/// A copy of a bit vector.
pub fn duplicate_bits(bits: &Vec<bool>) -> (r: Vec<bool>)
    ensures
        r@ == bits@,
{
    let mut out: Vec<bool> = Vec::new();
    let mut i: usize = 0;
    while i < bits.len()
        invariant
            i <= bits.len(),
            out@ == bits@.take(i as int),
        decreases bits.len() - i,
    {
        out.push(bits[i]);
        assert(bits@.take(i + 1) == bits@.take(i as int).push(bits@[i as int]));
        i += 1;
    }
    assert(bits@.take(bits.len() as int) == bits@);
    out
}

/// A copy of an octet vector.
pub fn duplicate_octets(octets: &Vec<u8>) -> (r: Vec<u8>)
    ensures
        r@ == octets@,
{
    let mut out: Vec<u8> = Vec::new();
    let mut i: usize = 0;
    while i < octets.len()
        invariant
            i <= octets.len(),
            out@ == octets@.take(i as int),
        decreases octets.len() - i,
    {
        out.push(octets[i]);
        assert(octets@.take(i + 1) == octets@.take(i as int).push(octets@[i as int]));
        i += 1;
    }
    assert(octets@.take(octets.len() as int) == octets@);
    out
}

/// A copy of a list of names.
pub fn duplicate_names(names: &Vec<String>) -> (r: Vec<String>)
    ensures
        r@ == names@,
{
    let mut out: Vec<String> = Vec::new();
    let mut i: usize = 0;
    while i < names.len()
        invariant
            i <= names.len(),
            out@ == names@.take(i as int),
        decreases names.len() - i,
    {
        out.push(names[i].clone());
        assert(names@.take(i + 1) == names@.take(i as int).push(names@[i as int]));
        i += 1;
    }
    assert(names@.take(names.len() as int) == names@);
    out
}

impl ASN1Value {
    /// A copy of the value.
    #[verifier::loop_isolation(false)]
    pub fn duplicate(&self) -> (r: ASN1Value)
        ensures
            r@ == self@,
        decreases self,
    {
        match self {
            ASN1Value::Null => ASN1Value::Null,
            ASN1Value::Boolean(b) => ASN1Value::Boolean(*b),
            ASN1Value::Integer(i) => ASN1Value::Integer(i.duplicate()),
            ASN1Value::Real { mantissa, base, exponent } => ASN1Value::Real {
                mantissa: mantissa.duplicate(),
                base: *base,
                exponent: exponent.duplicate(),
            },
            ASN1Value::String(s) => ASN1Value::String(s.clone()),
            ASN1Value::BitString(b) => ASN1Value::BitString(duplicate_bits(b)),
            ASN1Value::OctetString(o) => ASN1Value::OctetString(duplicate_octets(o)),
            ASN1Value::Enumerated { enumerated, enumerable } => ASN1Value::Enumerated {
                enumerated: enumerated.clone(),
                enumerable: enumerable.clone(),
            },
            ASN1Value::NamedReference(n) => ASN1Value::NamedReference(n.clone()),
            ASN1Value::Choice(n, inner) => ASN1Value::Choice(n.clone(), Box::new(inner.duplicate())),
            ASN1Value::Sequence(vs) => {
                let mut out: Vec<NamedValue> = Vec::new();
                let mut i: usize = 0;
                while i < vs.len()
                    invariant
                        i <= vs.len(),
                        out.len() == i,
                        forall|j: int| 0 <= j < i ==> out[j]@ == vs[j]@,
                    decreases vs.len() - i,
                {
                    out.push(NamedValue { name: vs[i].name.clone(), value: vs[i].value.duplicate() });
                    i += 1;
                }
                let r = ASN1Value::Sequence(out);
                assert(r@->Sequence_0 =~= self@->Sequence_0);
                r
            },
            ASN1Value::SequenceOf(vs) => {
                let mut out: Vec<ASN1Value> = Vec::new();
                let mut i: usize = 0;
                while i < vs.len()
                    invariant
                        i <= vs.len(),
                        out.len() == i,
                        forall|j: int| 0 <= j < i ==> out[j]@ == vs[j]@,
                    decreases vs.len() - i,
                {
                    out.push(vs[i].duplicate());
                    i += 1;
                }
                let r = ASN1Value::SequenceOf(out);
                assert(r@->SequenceOf_0 =~= self@->SequenceOf_0);
                r
            },
        }
    }
}

/// A copy of an optional value.
pub fn duplicate_optional_value(v: &Option<ASN1Value>) -> (r: Option<ASN1Value>)
    ensures
        optional_value_view(r) == optional_value_view(*v),
{
    match v {
        Some(x) => Some(x.duplicate()),
        None => None,
    }
}

/// The content of an optional value.
pub open spec fn optional_value_view(v: Option<ASN1Value>) -> Option<ValueModel> {
    match v {
        Some(x) => Some(x@),
        None => None,
    }
}

} // verus!
