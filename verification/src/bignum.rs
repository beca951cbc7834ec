//! Integers of any size, held as a sign and base 2^32 digits.

use vstd::prelude::*;
use crate::decimal::{check_signed_decimal, int_text, is_signed_decimal, signed_value};
use crate::text::push_bytes;
use num_bigint::{BigInt, Sign};

verus! {

/// The number that base 2^32 digits denote, least significant digit first.
pub open spec fn limbs_value(limbs: Seq<u32>) -> nat
    decreases limbs.len(),
{
    if limbs.len() == 0 {
        0
    } else {
        limbs[0] as nat + 4294967296 * limbs_value(limbs.drop_first())
    }
}

/// The shortest base 2^32 digits of a number, least significant digit first.
/// Zero has no digits.
pub open spec fn nat_limbs(n: nat) -> Seq<u32>
    decreases n,
{
    if n == 0 {
        Seq::empty()
    } else {
        seq![(n % 4294967296) as u32] + nat_limbs(n / 4294967296)
    }
}

/// Whether the digits have no superfluous zero at the most significant end.
pub open spec fn limbs_normal(limbs: Seq<u32>) -> bool {
    limbs.len() > 0 ==> limbs.last() != 0
}

/// The integer that a sign and base 2^32 digits denote.
pub open spec fn limbs_int(negative: bool, limbs: Seq<u32>) -> int {
    if negative {
        -(limbs_value(limbs) as int)
    } else {
        limbs_value(limbs) as int
    }
}

/// An arbitrary-precision signed integer.
#[derive(Clone, Debug)]
pub struct BigNumber {
    /// Whether the number is below zero.
    pub negative: bool,
    /// The base 2^32 digits of its absolute value, least significant first.
    pub magnitude: Vec<u32>,
}

/// What an arbitrary-precision integer is: its sign and its digits.
pub struct BigNumberView {
    /// Whether the number is below zero.
    pub negative: bool,
    /// The base 2^32 digits of its absolute value, least significant first.
    pub magnitude: Seq<u32>,
}

impl BigNumberView {
    /// The integer that the sign and the digits denote.
    pub open spec fn value(self) -> int {
        limbs_int(self.negative, self.magnitude)
    }

    /// Whether the digits are in their shortest form and zero is unsigned.
    pub open spec fn well_formed(self) -> bool {
        &&& limbs_normal(self.magnitude)
        &&& self.negative ==> self.magnitude.len() > 0
    }
}

/// The sign and the shortest digits of an integer.
pub open spec fn int_view(v: int) -> BigNumberView {
    BigNumberView { negative: v < 0, magnitude: nat_limbs(vstd::math::abs(v)) }
}

impl View for BigNumber {
    type V = BigNumberView;

    open spec fn view(&self) -> BigNumberView {
        BigNumberView { negative: self.negative, magnitude: self.magnitude@ }
    }
}

/// The shortest digits of a number denote it and end in no zero digit.
pub proof fn lemma_nat_limbs(n: nat)
    ensures
        limbs_value(nat_limbs(n)) == n,
        limbs_normal(nat_limbs(n)),
        n > 0 ==> nat_limbs(n).len() > 0,
    decreases n,
{
    if n > 0 {
        lemma_nat_limbs(n / 4294967296);
        let rest = nat_limbs(n / 4294967296);
        let l = nat_limbs(n);
        assert(l.drop_first() =~= rest);
        assert(l[0] == (n % 4294967296) as u32);
        if rest.len() > 0 {
            assert(l.last() == rest.last());
        } else {
            assert(n / 4294967296 == 0);
            assert(l.last() == l[0]);
        }
    }
}

/// Digits in their shortest form are the shortest digits of what they denote.
pub proof fn lemma_limbs_canonical(limbs: Seq<u32>)
    requires
        limbs_normal(limbs),
    ensures
        nat_limbs(limbs_value(limbs)) == limbs,
        limbs.len() > 0 ==> limbs_value(limbs) > 0,
    decreases limbs.len(),
{
    if limbs.len() > 0 {
        let rest = limbs.drop_first();
        if rest.len() > 0 {
            assert(rest.last() == limbs.last());
        }
        lemma_limbs_canonical(rest);
        let high = limbs_value(rest);
        let low = limbs[0] as nat;
        let v = limbs_value(limbs);
        assert(v == low + 4294967296 * high);
        if rest.len() == 0 {
            assert(limbs.last() == limbs[0]);
        }
        assert(v > 0);
        assert(v % 4294967296 == low && v / 4294967296 == high) by (nonlinear_arith)
            requires
                v == low + 4294967296 * high,
                low < 4294967296,
        ;
        assert(nat_limbs(v) =~= limbs);
    }
}

/// The sign and the digits of a well-formed number are those of its value.
pub proof fn lemma_int_view_of_value(number: BigNumberView)
    requires
        number.well_formed(),
    ensures
        int_view(number.value()) == number,
{
    lemma_limbs_canonical(number.magnitude);
}

/// The sign and the shortest digits of an integer are well formed and denote it.
pub proof fn lemma_int_view(v: int)
    ensures
        int_view(v).well_formed(),
        int_view(v).value() == v,
{
    lemma_nat_limbs(vstd::math::abs(v));
}

/// `BigInt::parse_bytes` of num_bigint in radix 10, then `BigInt::to_u32_digits`.
/// Taken on trust: a text that is an optional sign and then digits only is
/// always read, and what comes back is the sign and the shortest base 2^32
/// digits of the integer that the text denotes, with no zero digit at the
/// most significant end, and for zero no digit and no minus sign.
#[verifier::external_body]
fn decimal_to_limbs(text: &[u8]) -> (r: Option<(bool, Vec<u32>)>)
    requires
        is_signed_decimal(text@),
    ensures
        match r {
            Some((negative, limbs)) => (BigNumberView { negative, magnitude: limbs@ }) == int_view(
                signed_value(text@),
            ),
            None => false,
        },
{
    match BigInt::parse_bytes(text, 10) {
        Some(number) => {
            let (sign, limbs) = number.to_u32_digits();
            match sign {
                Sign::Minus => Some((true, limbs)),
                Sign::NoSign => Some((false, limbs)),
                Sign::Plus => Some((false, limbs)),
            }
        },
        None => None,
    }
}

/// `BigInt::from_slice` of num_bigint, then its `Display`. Taken on trust:
/// what comes back is the decimal text of the integer that the sign and the
/// base 2^32 digits denote, whether or not the digits are in their shortest
/// form: its digits without a leading zero, behind a minus sign where the
/// integer is below zero.
#[verifier::external_body]
fn limbs_to_decimal(negative: bool, limbs: &[u32]) -> (r: Vec<u8>)
    ensures
        r@ == int_text(limbs_int(negative, limbs@)),
{
    let sign = if negative {
        Sign::Minus
    } else {
        Sign::Plus
    };
    BigInt::from_slice(sign, limbs).to_string().into_bytes()
}

impl BigNumber {
    /// Whether the digits are in their shortest form and zero is unsigned.
    pub open spec fn well_formed(&self) -> bool {
        self@.well_formed()
    }

    /// The number that a signed decimal text denotes: an optional `+` or `-`,
    /// then digits only. Any other text gives `None`.
    pub fn from_decimal(text: &[u8]) -> (r: Option<BigNumber>)
        ensures
            r is Some <==> is_signed_decimal(text@),
            r is Some ==> r->0@ == int_view(signed_value(text@)) && r->0.well_formed(),
    {
        if !check_signed_decimal(text) {
            return None;
        }
        proof {
            lemma_int_view(signed_value(text@));
        }
        match decimal_to_limbs(text) {
            Some((negative, magnitude)) => Some(BigNumber { negative, magnitude }),
            None => None,
        }
    }

    /// The number with the given sign and base 2^32 digits, least significant
    /// first, where they are in their shortest form and zero has no sign.
    pub fn from_limbs(negative: bool, magnitude: Vec<u32>) -> (r: Option<BigNumber>)
        ensures
            r is Some <==> (BigNumber { negative, magnitude }).well_formed(),
            r is Some ==> r->0 == (BigNumber { negative, magnitude }),
    {
        let n: usize = magnitude.len();
        if n == 0 {
            if negative {
                None
            } else {
                Some(BigNumber { negative, magnitude })
            }
        } else if magnitude[n - 1] == 0 {
            None
        } else {
            Some(BigNumber { negative, magnitude })
        }
    }

    /// Whether the digits are in their shortest form and zero is unsigned.
    pub fn check_well_formed(&self) -> (r: bool)
        ensures
            r == self.well_formed(),
    {
        let n: usize = self.magnitude.len();
        if n == 0 {
            !self.negative
        } else {
            self.magnitude[n - 1] != 0
        }
    }

    /// The decimal text of the number.
    pub fn to_decimal(&self) -> (r: Vec<u8>)
        ensures
            r@ == int_text(self@.value()),
    {
        limbs_to_decimal(self.negative, self.magnitude.as_slice())
    }

    /// Appends the decimal text of the number to `out`.
    pub fn push_decimal(&self, out: &mut Vec<u8>)
        ensures
            final(out)@ == old(out)@ + int_text(self@.value()),
    {
        let text = self.to_decimal();
        push_bytes(out, text.as_slice());
    }

    /// Whether `self` and `other` have the same sign and the same digits.
    pub fn same(&self, other: &BigNumber) -> (r: bool)
        ensures
            r == (self@ == other@),
    {
        if self.negative != other.negative || self.magnitude.len() != other.magnitude.len() {
            return false;
        }
        let mut i: usize = 0;
        while i < self.magnitude.len()
            invariant
                i <= self.magnitude@.len(),
                self.magnitude@.len() == other.magnitude@.len(),
                forall|j: int| 0 <= j < i ==> self.magnitude@[j] == other.magnitude@[j],
            decreases self.magnitude@.len() - i,
        {
            if self.magnitude[i] != other.magnitude[i] {
                return false;
            }
            i += 1;
        }
        assert(self.magnitude@ =~= other.magnitude@);
        true
    }

    /// A copy of the number.
    pub fn duplicate(&self) -> (r: BigNumber)
        ensures
            r@ == self@,
    {
        let mut magnitude: Vec<u32> = Vec::new();
        let mut i: usize = 0;
        while i < self.magnitude.len()
            invariant
                i <= self.magnitude@.len(),
                magnitude@ == self.magnitude@.subrange(0, i as int),
            decreases self.magnitude@.len() - i,
        {
            magnitude.push(self.magnitude[i]);
            i += 1;
            assert(magnitude@ =~= self.magnitude@.subrange(0, i as int));
        }
        assert(self.magnitude@.subrange(0, i as int) =~= self.magnitude@);
        BigNumber { negative: self.negative, magnitude }
    }
}

impl PartialEq for BigNumber {
    fn eq(&self, other: &Self) -> (r: bool) {
        self.same(other)
    }
}

impl vstd::std_specs::cmp::PartialEqSpecImpl for BigNumber {
    open spec fn obeys_eq_spec() -> bool {
        true
    }

    open spec fn eq_spec(&self, other: &Self) -> bool {
        self@ == other@
    }
}

} // verus!
