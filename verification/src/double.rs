//! Floating-point values as the wire carries them: the three literal tokens,
//! or the decimal text of a finite number.

use vstd::prelude::*;
use vstd::slice::slice_subrange;
use vstd::string::StringSliceAdditionalSpecFns;
use vstd::utf8::{decode_utf8, encode_utf8, encode_utf8_decode_utf8};
use crate::ascii::{LOWER_E, MINUS, NINE, PLUS, POINT, UPPER_E, ZERO};
use crate::decimal::{check_signed_decimal, is_digit, is_signed_decimal, sign_len};
use crate::text::{
    ascii_string, copy_bytes, is_ascii_bytes, lemma_ascii_encoding, push_bytes, same_bytes,
};

verus! {

/// The token `nan`.
pub open spec fn nan_token() -> Seq<u8> {
    seq![110u8, 97u8, 110u8]
}

/// The token `inf`.
pub open spec fn infinity_token() -> Seq<u8> {
    seq![105u8, 110u8, 102u8]
}

/// The token `-inf`.
pub open spec fn negative_infinity_token() -> Seq<u8> {
    seq![45u8, 105u8, 110u8, 102u8]
}

/// How many digits stand in `s` from index `i` on without a gap.
pub open spec fn digit_run(s: Seq<u8>, i: int) -> int
    decreases s.len() - i,
{
    if 0 <= i < s.len() && is_digit(s[i]) {
        1 + digit_run(s, i + 1)
    } else {
        0
    }
}

/// Whether `s` is the decimal text of a finite number: an optional sign,
/// digits with an optional decimal point among them (at least one digit in
/// all), and an optional exponent, which is `e` or `E` and a signed decimal.
pub open spec fn is_number_token(s: Seq<u8>) -> bool {
    let whole = digit_run(s, sign_len(s));
    let point = sign_len(s) + whole;
    let has_point = point < s.len() && s[point] == POINT;
    let fraction = if has_point {
        digit_run(s, point + 1)
    } else {
        0
    };
    let end = if has_point {
        point + 1 + fraction
    } else {
        point
    };
    &&& whole + fraction > 0
    &&& end == s.len() || ((s[end] == LOWER_E || s[end] == UPPER_E) && is_signed_decimal(
        s.subrange(end + 1, s.len() as int),
    ))
}

/// What a floating-point value is, as far as the wire tells.
pub enum DoubleView {
    /// Not a number.
    NotANumber,
    /// Positive infinity.
    Infinity,
    /// Negative infinity.
    NegativeInfinity,
    /// A finite number, by its decimal text.
    Number(Seq<char>),
}

/// The value that a token denotes, if it denotes one. The three literal
/// tokens are recognised before the decimal text of a number.
pub open spec fn token_value(token: Seq<u8>) -> Option<DoubleView> {
    if token == infinity_token() {
        Some(DoubleView::Infinity)
    } else if token == negative_infinity_token() {
        Some(DoubleView::NegativeInfinity)
    } else if token == nan_token() {
        Some(DoubleView::NotANumber)
    } else if is_number_token(token) {
        Some(DoubleView::Number(decode_utf8(token)))
    } else {
        None
    }
}

/// The token that stands on the wire for a value.
pub open spec fn value_token(value: DoubleView) -> Seq<u8> {
    match value {
        DoubleView::NotANumber => nan_token(),
        DoubleView::Infinity => infinity_token(),
        DoubleView::NegativeInfinity => negative_infinity_token(),
        DoubleView::Number(text) => encode_utf8(text),
    }
}

/// Whether a value is one that a token can denote: a finite number has the
/// decimal text of a number.
pub open spec fn value_well_formed(value: DoubleView) -> bool {
    match value {
        DoubleView::Number(text) => is_number_token(encode_utf8(text)),
        _ => true,
    }
}

/// The token of a well-formed value denotes that value.
pub proof fn lemma_token_round_trip(value: DoubleView)
    requires
        value_well_formed(value),
    ensures
        token_value(value_token(value)) == Some(value),
{
    assert(!is_number_token(nan_token())) by {
        reveal_with_fuel(digit_run, 2);
    }
    assert(!is_number_token(infinity_token())) by {
        reveal_with_fuel(digit_run, 2);
    }
    assert(!is_number_token(negative_infinity_token())) by {
        reveal_with_fuel(digit_run, 2);
    }
    assert(nan_token() != infinity_token()) by {
        assert(nan_token()[0] != infinity_token()[0]);
    }
    assert(nan_token() != negative_infinity_token()) by {
        assert(nan_token().len() != negative_infinity_token().len());
    }
    assert(infinity_token() != negative_infinity_token()) by {
        assert(infinity_token().len() != negative_infinity_token().len());
    }
    if let DoubleView::Number(text) = value {
        encode_utf8_decode_utf8(text);
    }
}

/// Whether `b` is a byte that the decimal text of a number can hold: a
/// digit, a sign, the decimal point or a mark of the exponent.
pub open spec fn is_number_byte(b: u8) -> bool {
    is_digit(b) || b == PLUS || b == MINUS || b == POINT || b == LOWER_E || b == UPPER_E
}

/// A run of digits reaches as far as it is long, and holds digits only.
pub proof fn lemma_digit_run(s: Seq<u8>, i: int)
    requires
        0 <= i <= s.len(),
    ensures
        0 <= digit_run(s, i),
        i + digit_run(s, i) <= s.len(),
        forall|j: int| i <= j < i + digit_run(s, i) ==> is_digit(#[trigger] s[j]),
    decreases s.len() - i,
{
    if i < s.len() && is_digit(s[i]) {
        lemma_digit_run(s, i + 1);
    }
}

/// The decimal text of a finite number holds digits, signs, the decimal
/// point and marks of the exponent only, all of them ASCII.
pub proof fn lemma_number_token_bytes(s: Seq<u8>)
    requires
        is_number_token(s),
    ensures
        forall|i: int| 0 <= i < s.len() ==> is_number_byte(#[trigger] s[i]),
        is_ascii_bytes(s),
{
    let sign = sign_len(s);
    lemma_digit_run(s, sign);
    let point = sign + digit_run(s, sign);
    let has_point = point < s.len() && s[point] == POINT;
    if has_point {
        lemma_digit_run(s, point + 1);
    }
    let end = if has_point {
        point + 1 + digit_run(s, point + 1)
    } else {
        point
    };
    assert forall|i: int| 0 <= i < s.len() implies is_number_byte(#[trigger] s[i]) by {
        if i < sign {
        } else if i < point {
            assert(is_digit(s[i]));
        } else if i < end {
            if i > point {
                assert(is_digit(s[i]));
            }
        } else if i == end {
        } else {
            let exponent = s.subrange(end + 1, s.len() as int);
            let k = i - (end + 1);
            assert(exponent[k] == s[i]);
            if k >= sign_len(exponent) {
                let digits = exponent.subrange(sign_len(exponent), exponent.len() as int);
                assert(digits[k - sign_len(exponent)] == exponent[k]);
                assert(is_digit(digits[k - sign_len(exponent)]));
            }
        }
    }
    assert forall|i: int| 0 <= i < s.len() implies #[trigger] s[i] < 128 by {
        assert(is_number_byte(s[i]));
    }
}

/// A floating-point value. A finite number is held by its decimal text, which
/// is never interpreted here.
#[derive(Clone, Debug)]
pub enum Double {
    /// Not a number.
    NotANumber,
    /// Positive infinity.
    Infinity,
    /// Negative infinity.
    NegativeInfinity,
    /// A finite number, by its decimal text.
    Number(String),
}

impl View for Double {
    type V = DoubleView;

    open spec fn view(&self) -> DoubleView {
        match self {
            Double::NotANumber => DoubleView::NotANumber,
            Double::Infinity => DoubleView::Infinity,
            Double::NegativeInfinity => DoubleView::NegativeInfinity,
            Double::Number(text) => DoubleView::Number(text@),
        }
    }
}

/// Counts the digits that stand in `s` from index `i` on without a gap.
pub fn count_digits(s: &[u8], i: usize) -> (r: usize)
    requires
        i <= s@.len(),
    ensures
        r == digit_run(s@, i as int),
        i + r <= s@.len(),
{
    let mut j: usize = i;
    while j < s.len() && s[j] >= ZERO && s[j] <= NINE
        invariant
            i <= j <= s@.len(),
            digit_run(s@, i as int) == (j - i) + digit_run(s@, j as int),
        decreases s@.len() - j,
    {
        j += 1;
    }
    j - i
}

/// Whether `s` is the decimal text of a finite number.
pub fn check_number_token(s: &[u8]) -> (r: bool)
    ensures
        r == is_number_token(s@),
{
    let n: usize = s.len();
    let sign: usize = if n > 0 && (s[0] == PLUS || s[0] == MINUS) {
        1
    } else {
        0
    };
    let whole: usize = count_digits(s, sign);
    let point: usize = sign + whole;
    let has_point: bool = point < n && s[point] == POINT;
    let fraction: usize = if has_point {
        count_digits(s, point + 1)
    } else {
        0
    };
    let end: usize = if has_point {
        point + 1 + fraction
    } else {
        point
    };
    if whole + fraction == 0 {
        return false;
    }
    if end == n {
        return true;
    }
    if s[end] != LOWER_E && s[end] != UPPER_E {
        return false;
    }
    check_signed_decimal(slice_subrange(s, end + 1, n))
}

impl Double {
    /// Whether a finite number is held by the decimal text of a number.
    pub open spec fn well_formed(&self) -> bool {
        value_well_formed(self@)
    }

    /// Whether a finite number is held by the decimal text of a number.
    pub fn check_well_formed(&self) -> (r: bool)
        ensures
            r == self.well_formed(),
    {
        match self {
            Double::Number(text) => check_number_token(text.as_str().as_bytes()),
            _ => true,
        }
    }

    /// The value that a token denotes: `inf`, `-inf` and `nan` are taken as
    /// the literals they are, anything else must be the decimal text of a
    /// finite number.
    pub fn from_token(token: &[u8]) -> (r: Option<Double>)
        ensures
            r is Some <==> token_value(token@) is Some,
            r is Some ==> Some(r->0@) == token_value(token@) && r->0.well_formed(),
    {
        let inf: [u8; 3] = [105, 110, 102];
        let neg_inf: [u8; 4] = [45, 105, 110, 102];
        let nan: [u8; 3] = [110, 97, 110];
        assert(inf@ =~= infinity_token());
        assert(neg_inf@ =~= negative_infinity_token());
        assert(nan@ =~= nan_token());
        if same_bytes(token, inf.as_slice()) {
            Some(Double::Infinity)
        } else if same_bytes(token, neg_inf.as_slice()) {
            Some(Double::NegativeInfinity)
        } else if same_bytes(token, nan.as_slice()) {
            Some(Double::NotANumber)
        } else if check_number_token(token) {
            proof {
                lemma_number_token_bytes(token@);
                lemma_ascii_encoding(token@);
            }
            Some(Double::Number(ascii_string(copy_bytes(token))))
        } else {
            None
        }
    }

    /// Appends the token of the value to `out`.
    pub fn push_token(&self, out: &mut Vec<u8>)
        ensures
            final(out)@ == old(out)@ + value_token(self@),
    {
        match self {
            Double::NotANumber => {
                let nan: [u8; 3] = [110, 97, 110];
                assert(nan@ =~= nan_token());
                push_bytes(out, nan.as_slice());
            },
            Double::Infinity => {
                let inf: [u8; 3] = [105, 110, 102];
                assert(inf@ =~= infinity_token());
                push_bytes(out, inf.as_slice());
            },
            Double::NegativeInfinity => {
                let neg_inf: [u8; 4] = [45, 105, 110, 102];
                assert(neg_inf@ =~= negative_infinity_token());
                push_bytes(out, neg_inf.as_slice());
            },
            Double::Number(text) => {
                push_bytes(out, text.as_str().as_bytes());
            },
        }
    }

    /// The token of the value.
    pub fn token(&self) -> (r: Vec<u8>)
        ensures
            r@ == value_token(self@),
    {
        let mut out: Vec<u8> = Vec::new();
        self.push_token(&mut out);
        assert(out@ =~= value_token(self@));
        out
    }

    /// Whether `self` and `other` are the same value: the same literal, or
    /// finite numbers with the same decimal text.
    pub fn same(&self, other: &Double) -> (r: bool)
        ensures
            r == (self@ == other@),
    {
        match (self, other) {
            (Double::NotANumber, Double::NotANumber) => true,
            (Double::Infinity, Double::Infinity) => true,
            (Double::NegativeInfinity, Double::NegativeInfinity) => true,
            (Double::Number(a), Double::Number(b)) => *a == *b,
            _ => false,
        }
    }

    /// A copy of the value.
    pub fn duplicate(&self) -> (r: Double)
        ensures
            r@ == self@,
    {
        match self {
            Double::NotANumber => Double::NotANumber,
            Double::Infinity => Double::Infinity,
            Double::NegativeInfinity => Double::NegativeInfinity,
            Double::Number(text) => Double::Number(text.clone()),
        }
    }
}

impl PartialEq for Double {
    fn eq(&self, other: &Self) -> (r: bool) {
        self.same(other)
    }
}

impl vstd::std_specs::cmp::PartialEqSpecImpl for Double {
    open spec fn obeys_eq_spec() -> bool {
        true
    }

    open spec fn eq_spec(&self, other: &Self) -> bool {
        self@ == other@
    }
}

} // verus!
