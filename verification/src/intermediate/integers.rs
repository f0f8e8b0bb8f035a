//! Integers of any size, as ASN.1 knows them.

use vstd::prelude::*;
use vstd::string::StringSliceAdditionalSpecFns;
use crate::order::Order;

verus! {

/// The number that decimal digits stand for, the most significant digit first.
pub open spec fn digits_value(s: Seq<u8>) -> nat
    decreases s.len(),
{
    if s.len() == 0 {
        0
    } else {
        digits_value(s.drop_last()) * 10 + s.last() as nat
    }
}

/// Every item is a decimal digit.
pub open spec fn are_digits(s: Seq<u8>) -> bool {
    forall|i: int| 0 <= i < s.len() ==> #[trigger] s[i] <= 9
}

/// The decimal digits of a number, the most significant first; none for zero.
pub open spec fn digits_of(m: nat) -> Seq<u8>
    decreases m,
{
    if m == 0 {
        Seq::empty()
    } else {
        digits_of(m / 10).push((m % 10) as u8)
    }
}

/// The octets are what remains of a decimal literal behind its sign.
pub open spec fn unsigned_part(text: Seq<u8>) -> Seq<u8> {
    if text.len() > 0 && text[0] == 45 {
        text.skip(1)
    } else {
        text
    }
}

/// The text is a decimal literal: at least one of the digits `0` to `9`,
/// with or without a `-` in front.
pub open spec fn is_decimal_literal(text: Seq<u8>) -> bool {
    let body = unsigned_part(text);
    body.len() > 0 && forall|i: int| 0 <= i < body.len() ==> 48 <= #[trigger] body[i] <= 57
}

/// The digits that the characters `0` to `9` stand for.
pub open spec fn digits_in(body: Seq<u8>) -> Seq<u8> {
    Seq::new(body.len(), |i: int| (body[i] - 48) as u8)
}

/// The integer that a decimal literal stands for.
pub open spec fn literal_value(text: Seq<u8>) -> int {
    let magnitude = digits_value(digits_in(unsigned_part(text))) as int;
    if text.len() > 0 && text[0] == 45 {
        -magnitude
    } else {
        magnitude
    }
}

/// Digits in front that are zero add nothing to the number.
pub proof fn lemma_leading_zeros(zeros: Seq<u8>, s: Seq<u8>)
    requires
        forall|i: int| 0 <= i < zeros.len() ==> zeros[i] == 0,
    ensures
        digits_value(zeros + s) == digits_value(s),
    decreases s.len(), zeros.len(),
{
    if s.len() > 0 {
        assert((zeros + s).drop_last() =~= zeros + s.drop_last());
        lemma_leading_zeros(zeros, s.drop_last());
    } else {
        assert(zeros + s =~= zeros);
        if zeros.len() > 0 {
            assert forall|i: int| 0 <= i < zeros.drop_last().len() implies zeros.drop_last()[i] == 0 by {
                assert(zeros.drop_last()[i] == zeros[i]);
            }
            lemma_leading_zeros(zeros.drop_last(), s);
            assert(zeros.drop_last() + s =~= zeros.drop_last());
        }
    }
}

/// Of two rows of digits of the same length, the one with the smaller digit
/// at the first place where they differ stands for the smaller number.
pub proof fn lemma_first_difference_decides(a: Seq<u8>, b: Seq<u8>, k: int)
    requires
        a.len() == b.len(),
        are_digits(a),
        are_digits(b),
        0 <= k < a.len(),
        forall|i: int| 0 <= i < k ==> a[i] == b[i],
        a[k] < b[k],
    ensures
        digits_value(a) < digits_value(b),
    decreases a.len(),
{
    let n = a.len() - 1;
    if k == n {
        assert(a.drop_last() =~= b.drop_last());
    } else {
        assert(are_digits(a.drop_last()) && are_digits(b.drop_last())) by {
            assert forall|i: int| 0 <= i < n implies a.drop_last()[i] <= 9 && b.drop_last()[i] <= 9 by {
                assert(a.drop_last()[i] == a[i] && b.drop_last()[i] == b[i]);
            }
        }
        lemma_first_difference_decides(a.drop_last(), b.drop_last(), k);
        assert(a[n] <= 9);
    }
}

/// A row of digits that does not start with zero stands for a greater
/// number than any shorter row.
pub proof fn lemma_longer_is_greater(a: Seq<u8>, b: Seq<u8>)
    requires
        are_digits(a),
        are_digits(b),
        a.len() < b.len(),
        b[0] != 0,
    ensures
        digits_value(a) < digits_value(b),
{
    let zeros = Seq::new((b.len() - a.len()) as nat, |i: int| 0u8);
    lemma_leading_zeros(zeros, a);
    let padded = zeros + a;
    assert(are_digits(padded));
    lemma_first_difference_decides(padded, b, 0);
}

/// The digits of a number stand for it, and they do not start with zero.
pub proof fn lemma_digits_of(m: nat)
    ensures
        digits_value(digits_of(m)) == m,
        are_digits(digits_of(m)),
        m > 0 ==> digits_of(m).len() > 0 && digits_of(m)[0] != 0,
        m == 0 ==> digits_of(m).len() == 0,
    decreases m,
{
    if m > 0 {
        lemma_digits_of(m / 10);
        let front = digits_of(m / 10);
        let all = digits_of(m);
        assert(all.drop_last() =~= front);
        assert forall|i: int| 0 <= i < all.len() implies #[trigger] all[i] <= 9 by {
            if i < front.len() {
                assert(all[i] == front[i]);
            }
        }
        if m / 10 > 0 {
            assert(all[0] == front[0]);
        }
    }
}

/// An integer of any size.
#[derive(Debug, PartialEq, Eq)]
pub struct BigInteger {
    negative: bool,
    /// The decimal digits of the magnitude, the most significant first; none for zero.
    magnitude: Vec<u8>,
}

impl View for BigInteger {
    type V = int;

    closed spec fn view(&self) -> int {
        if self.negative {
            -(digits_value(self.magnitude@) as int)
        } else {
            digits_value(self.magnitude@) as int
        }
    }
}

/// Compares two rows of digits that do not start with zero.
fn compare_magnitudes(a: &Vec<u8>, b: &Vec<u8>) -> (r: Order)
    requires
        are_digits(a@),
        are_digits(b@),
        a@.len() > 0 ==> a@[0] != 0,
        b@.len() > 0 ==> b@[0] != 0,
    ensures
        r == Order::Less <==> digits_value(a@) < digits_value(b@),
        r == Order::Equal <==> digits_value(a@) == digits_value(b@),
        r == Order::Equal ==> a@ == b@,
        r == Order::Greater <==> digits_value(a@) > digits_value(b@),
{
    if a.len() < b.len() {
        proof {
            lemma_longer_is_greater(a@, b@);
        }
        return Order::Less;
    }
    if b.len() < a.len() {
        proof {
            lemma_longer_is_greater(b@, a@);
        }
        return Order::Greater;
    }
    let mut i: usize = 0;
    while i < a.len()
        invariant
            i <= a.len(),
            a.len() == b.len(),
            are_digits(a@),
            are_digits(b@),
            forall|j: int| 0 <= j < i ==> a@[j] == b@[j],
        decreases a.len() - i,
    {
        if a[i] < b[i] {
            proof {
                lemma_first_difference_decides(a@, b@, i as int);
            }
            return Order::Less;
        }
        if b[i] < a[i] {
            proof {
                lemma_first_difference_decides(b@, a@, i as int);
            }
            return Order::Greater;
        }
        i += 1;
    }
    assert(a@ =~= b@);
    Order::Equal
}

/// The decimal digits of a number.
fn decimal_digits(m: u128) -> (r: Vec<u8>)
    ensures
        r@ == digits_of(m as nat),
    decreases m,
{
    if m == 0 {
        Vec::new()
    } else {
        let mut digits = decimal_digits(m / 10);
        digits.push((m % 10) as u8);
        digits
    }
}

impl BigInteger {
    #[verifier::type_invariant]
    spec fn well_formed(self) -> bool {
        &&& are_digits(self.magnitude@)
        &&& self.magnitude@.len() > 0 ==> self.magnitude@[0] != 0
        &&& self.magnitude@.len() == 0 ==> !self.negative
    }

    /// The integer with the given sign and the magnitude that the digits
    /// stand for. Zeros in front are dropped.
    fn normalized(negative: bool, digits: &Vec<u8>) -> (r: BigInteger)
        requires
            are_digits(digits@),
        ensures
            r@ == if negative {
                -(digits_value(digits@) as int)
            } else {
                digits_value(digits@) as int
            },
    {
        let mut start: usize = 0;
        while start < digits.len() && digits[start] == 0
            invariant
                start <= digits.len(),
                forall|i: int| 0 <= i < start ==> digits@[i] == 0,
            decreases digits.len() - start,
        {
            start += 1;
        }
        let mut magnitude: Vec<u8> = Vec::new();
        let mut i: usize = start;
        while i < digits.len()
            invariant
                start <= i <= digits.len(),
                magnitude@ == digits@.subrange(start as int, i as int),
            decreases digits.len() - i,
        {
            magnitude.push(digits[i]);
            assert(digits@.subrange(start as int, i + 1) =~= digits@.subrange(start as int, i as int).push(
                digits@[i as int],
            ));
            i += 1;
        }
        proof {
            let zeros = digits@.subrange(0, start as int);
            assert(zeros + magnitude@ =~= digits@);
            lemma_leading_zeros(zeros, magnitude@);
            if magnitude@.len() == 0 {
                assert(digits_value(magnitude@) == 0);
            }
        }
        BigInteger { negative: negative && magnitude.len() > 0, magnitude }
    }

    /// The integer that a decimal literal stands for: digits, with or
    /// without a `-` in front. `None` for any other text.
    pub fn parse(text: &str) -> (r: Option<BigInteger>)
        ensures
            r is Some <==> is_decimal_literal(text.spec_bytes()),
            r matches Some(v) ==> v@ == literal_value(text.spec_bytes()),
    {
        let octets = text.as_bytes();
        let negative = octets.len() > 0 && octets[0] == 45;
        let first: usize = if negative {
            1
        } else {
            0
        };
        let ghost body = unsigned_part(octets@);
        if octets.len() == first {
            return None;
        }
        let mut digits: Vec<u8> = Vec::new();
        let mut i: usize = first;
        while i < octets.len()
            invariant
                first <= i <= octets.len(),
                octets@ == text.spec_bytes(),
                body == unsigned_part(octets@),
                body.len() == octets@.len() - first,
                forall|j: int| 0 <= j < body.len() ==> body[j] == octets@[j + first],
                digits@.len() == i - first,
                forall|j: int| 0 <= j < i - first ==> 48 <= #[trigger] body[j] <= 57,
                forall|j: int| 0 <= j < i - first ==> #[trigger] digits@[j] == body[j] - 48,
            decreases octets.len() - i,
        {
            let c = octets[i];
            assert(body[i - first] == c);
            if c < 48 || c > 57 {
                assert(!(48 <= body[i - first] <= 57));
                return None;
            }
            digits.push(c - 48);
            i += 1;
        }
        assert(digits@ =~= digits_in(body));
        Some(BigInteger::normalized(negative, &digits))
    }

    /// The integer `x`.
    pub fn from_i128(x: i128) -> (r: BigInteger)
        ensures
            r@ == x,
    {
        let negative = x < 0;
        let magnitude: u128 = if negative {
            (-(x + 1)) as u128 + 1
        } else {
            x as u128
        };
        let digits = decimal_digits(magnitude);
        proof {
            lemma_digits_of(magnitude as nat);
        }
        BigInteger { negative, magnitude: digits }
    }

    /// Whether the integer is less than zero.
    pub fn is_negative(&self) -> (r: bool)
        ensures
            r == (self@ < 0),
    {
        proof {
            use_type_invariant(self);
            if self.magnitude@.len() > 0 {
                lemma_nonzero(self.magnitude@);
            }
        }
        self.negative
    }

    /// The decimal digits of the magnitude, the most significant first; none for zero.
    pub fn digits(&self) -> (r: &Vec<u8>)
        ensures
            are_digits(r@),
            digits_value(r@) == if self@ < 0 {
                -self@
            } else {
                self@
            },
            r@.len() > 0 ==> r@[0] != 0,
    {
        proof {
            use_type_invariant(self);
        }
        &self.magnitude
    }

    /// How the integer stands to another.
    pub fn compare(&self, other: &BigInteger) -> (r: Order)
        ensures
            r == Order::Less <==> self@ < other@,
            r == Order::Equal <==> self@ == other@,
            r == Order::Greater <==> self@ > other@,
    {
        proof {
            use_type_invariant(self);
            use_type_invariant(other);
            if self.magnitude@.len() > 0 {
                lemma_nonzero(self.magnitude@);
            }
            if other.magnitude@.len() > 0 {
                lemma_nonzero(other.magnitude@);
            }
        }
        if self.negative && !other.negative {
            Order::Less
        } else if !self.negative && other.negative {
            Order::Greater
        } else {
            let by_magnitude = compare_magnitudes(&self.magnitude, &other.magnitude);
            if self.negative {
                match by_magnitude {
                    Order::Less => Order::Greater,
                    Order::Equal => Order::Equal,
                    Order::Greater => Order::Less,
                }
            } else {
                by_magnitude
            }
        }
    }

    /// A copy of the integer.
    pub fn duplicate(&self) -> (r: BigInteger)
        ensures
            r@ == self@,
    {
        proof {
            use_type_invariant(self);
        }
        let mut magnitude: Vec<u8> = Vec::new();
        let mut i: usize = 0;
        while i < self.magnitude.len()
            invariant
                i <= self.magnitude.len(),
                magnitude@ == self.magnitude@.take(i as int),
            decreases self.magnitude.len() - i,
        {
            magnitude.push(self.magnitude[i]);
            assert(self.magnitude@.take(i + 1) =~= self.magnitude@.take(i as int).push(self.magnitude@[i as int]));
            i += 1;
        }
        assert(self.magnitude@.take(self.magnitude.len() as int) =~= self.magnitude@);
        BigInteger { negative: self.negative, magnitude }
    }
}

/// Digits that do not start with zero stand for a number that is not zero.
proof fn lemma_nonzero(s: Seq<u8>)
    requires
        are_digits(s),
        s.len() > 0,
        s[0] != 0,
    ensures
        digits_value(s) > 0,
{
    lemma_longer_is_greater(Seq::<u8>::empty(), s);
}

} // verus!
