//! Decimal text of integers, as it stands on the wire.

use vstd::prelude::*;
use crate::ascii::{ZERO, NINE, PLUS, MINUS};

verus! {

/// Whether `b` is one of the ASCII digits `0` to `9`.
pub open spec fn is_digit(b: u8) -> bool {
    ZERO <= b <= NINE
}

/// Whether every byte of `s` is an ASCII digit.
pub open spec fn all_digits(s: Seq<u8>) -> bool {
    forall|i: int| 0 <= i < s.len() ==> is_digit(#[trigger] s[i])
}

/// The number that a run of ASCII digits denotes, most significant digit first.
pub open spec fn digits_value(s: Seq<u8>) -> nat
    decreases s.len(),
{
    if s.len() == 0 {
        0
    } else {
        (digits_value(s.drop_last()) * 10 + (s.last() - ZERO)) as nat
    }
}

/// The shortest run of ASCII digits that denotes `n`.
pub open spec fn nat_digits(n: nat) -> Seq<u8>
    decreases n,
{
    if n < 10 {
        seq![(ZERO + n) as u8]
    } else {
        nat_digits(n / 10).push((ZERO + n % 10) as u8)
    }
}

/// The decimal text of `v`: a minus sign for a negative number, then its digits.
pub open spec fn int_text(v: int) -> Seq<u8> {
    if v < 0 {
        seq![MINUS] + nat_digits((-v) as nat)
    } else {
        nat_digits(v as nat)
    }
}

/// How many bytes of `s` a leading sign takes: one for `+` or `-`, else none.
pub open spec fn sign_len(s: Seq<u8>) -> int {
    if s.len() > 0 && (s[0] == PLUS || s[0] == MINUS) {
        1
    } else {
        0
    }
}

/// Whether `s` is an optional sign followed by at least one digit and nothing else.
pub open spec fn is_signed_decimal(s: Seq<u8>) -> bool {
    sign_len(s) < s.len() && all_digits(s.subrange(sign_len(s), s.len() as int))
}

/// The integer that a signed decimal text denotes.
pub open spec fn signed_value(s: Seq<u8>) -> int {
    let magnitude = digits_value(s.subrange(sign_len(s), s.len() as int));
    if s.len() > 0 && s[0] == MINUS {
        -(magnitude as int)
    } else {
        magnitude as int
    }
}

/// The digits of a number are digits, at least one of them, and denote that number.
pub proof fn lemma_nat_digits(n: nat)
    ensures
        nat_digits(n).len() >= 1,
        all_digits(nat_digits(n)),
        digits_value(nat_digits(n)) == n,
    decreases n,
{
    if n < 10 {
        let s = nat_digits(n);
        assert(s.drop_last() =~= Seq::<u8>::empty());
        assert(digits_value(s.drop_last()) == 0);
    } else {
        lemma_nat_digits(n / 10);
        let p = nat_digits(n / 10);
        let s = nat_digits(n);
        assert(s.drop_last() =~= p);
        assert(s.last() == (ZERO + n % 10) as u8);
    }
}

/// The decimal text of an integer is a signed decimal that denotes it.
pub proof fn lemma_int_text(v: int)
    ensures
        is_signed_decimal(int_text(v)),
        signed_value(int_text(v)) == v,
        int_text(v).len() >= 1,
{
    let t = int_text(v);
    if v < 0 {
        lemma_nat_digits((-v) as nat);
        assert(t.subrange(1, t.len() as int) =~= nat_digits((-v) as nat));
        assert(t[0] == MINUS);
    } else {
        lemma_nat_digits(v as nat);
        assert(is_digit(t[0]));
        assert(t.subrange(0, t.len() as int) =~= t);
    }
}

/// A run of digits denotes at least what any of its prefixes denotes.
pub proof fn lemma_digits_value_prefix(s: Seq<u8>, k: int)
    requires
        all_digits(s),
        0 <= k <= s.len(),
    ensures
        digits_value(s.subrange(0, k)) <= digits_value(s),
    decreases s.len() - k,
{
    if k == s.len() {
        assert(s.subrange(0, k) =~= s);
    } else {
        lemma_digits_value_prefix(s, k + 1);
        let t = s.subrange(0, k + 1);
        assert(t.drop_last() =~= s.subrange(0, k));
        assert(is_digit(s[k]));
        assert(t.last() == s[k]);
    }
}

/// Appends the digits of `n` to `out`.
pub fn push_unsigned(out: &mut Vec<u8>, n: u64)
    ensures
        final(out)@ == old(out)@ + nat_digits(n as nat),
    decreases n,
{
    if n >= 10 {
        push_unsigned(out, n / 10);
    }
    let digit: u8 = (n % 10) as u8;
    out.push(ZERO + digit);
    assert(final(out)@ =~= old(out)@ + nat_digits(n as nat));
}

/// Appends the decimal text of `n` to `out`.
pub fn push_signed(out: &mut Vec<u8>, n: i64)
    ensures
        final(out)@ == old(out)@ + int_text(n as int),
{
    if n < 0 {
        out.push(MINUS);
        let magnitude: u64 = ((-(n + 1)) as u64) + 1;
        push_unsigned(out, magnitude);
        assert(final(out)@ =~= old(out)@ + int_text(n as int));
    } else {
        push_unsigned(out, n as u64);
    }
}

/// Reads the run of digits `s[start..end]` as a number.
///
/// Gives the number where the run is not empty, holds digits only and denotes
/// at most `u64::MAX`; gives `None` otherwise.
pub fn parse_unsigned(s: &[u8], start: usize, end: usize) -> (r: Option<u64>)
    requires
        start <= end <= s@.len(),
    ensures
        r is Some <==> (start < end && all_digits(s@.subrange(start as int, end as int))
            && digits_value(s@.subrange(start as int, end as int)) <= u64::MAX),
        r is Some ==> r->0 == digits_value(s@.subrange(start as int, end as int)),
{
    if start == end {
        return None;
    }
    let ghost run = s@.subrange(start as int, end as int);
    let mut acc: u64 = 0;
    let mut i: usize = start;
    while i < end
        invariant
            start <= i <= end <= s@.len(),
            run == s@.subrange(start as int, end as int),
            all_digits(run.subrange(0, i - start)),
            acc == digits_value(run.subrange(0, i - start)),
        decreases end - i,
    {
        let b: u8 = s[i];
        let ghost before = run.subrange(0, i - start);
        let ghost after = run.subrange(0, i - start + 1);
        proof {
            assert(after.drop_last() =~= before);
            assert(after.last() == b);
        }
        if b < ZERO || b > NINE {
            proof {
                assert(!is_digit(run[i - start]));
            }
            return None;
        }
        let d: u64 = (b - ZERO) as u64;
        if acc > (u64::MAX - d) / 10 {
            proof {
                assert(digits_value(after) > u64::MAX);
                if all_digits(run) {
                    lemma_digits_value_prefix(run, i - start + 1);
                }
            }
            return None;
        }
        acc = acc * 10 + d;
        proof {
            assert forall|j: int| 0 <= j < after.len() implies is_digit(#[trigger] after[j]) by {
                if j < before.len() {
                    assert(after[j] == before[j]);
                }
            }
        }
        i += 1;
    }
    proof {
        assert(run.subrange(0, i - start) =~= run);
    }
    Some(acc)
}

/// Reads the text `s[start..end]` as a signed 64-bit integer.
///
/// Gives the number where the text is an optional sign and then digits only,
/// and the number fits; gives `None` otherwise.
pub fn parse_signed(s: &[u8], start: usize, end: usize) -> (r: Option<i64>)
    requires
        start <= end <= s@.len(),
    ensures
        r is Some <==> (is_signed_decimal(s@.subrange(start as int, end as int))
            && i64::MIN <= signed_value(s@.subrange(start as int, end as int)) <= i64::MAX),
        r is Some ==> r->0 == signed_value(s@.subrange(start as int, end as int)),
{
    let ghost text = s@.subrange(start as int, end as int);
    if start == end {
        return None;
    }
    let first: u8 = s[start];
    let negative = first == MINUS;
    let body: usize = if first == MINUS || first == PLUS {
        start + 1
    } else {
        start
    };
    proof {
        assert(text[0] == first);
        assert(sign_len(text) == body - start);
        assert(text.subrange(sign_len(text), text.len() as int) =~= s@.subrange(
            body as int,
            end as int,
        ));
    }
    match parse_unsigned(s, body, end) {
        None => None,
        Some(magnitude) => {
            if negative {
                if magnitude > 9223372036854775808u64 {
                    None
                } else if magnitude == 9223372036854775808u64 {
                    Some(i64::MIN)
                } else {
                    Some(-(magnitude as i64))
                }
            } else if magnitude > 9223372036854775807u64 {
                None
            } else {
                Some(magnitude as i64)
            }
        },
    }
}

/// Whether `text` is an optional sign followed by at least one digit and
/// nothing else.
pub fn check_signed_decimal(text: &[u8]) -> (r: bool)
    ensures
        r == is_signed_decimal(text@),
{
    let n: usize = text.len();
    if n == 0 {
        return false;
    }
    let first: u8 = text[0];
    let body: usize = if first == MINUS || first == PLUS {
        1
    } else {
        0
    };
    if body == n {
        return false;
    }
    let ghost run = text@.subrange(body as int, n as int);
    let mut i: usize = body;
    while i < n
        invariant
            body <= i <= n,
            n == text@.len(),
            sign_len(text@) == body,
            run == text@.subrange(body as int, n as int),
            forall|j: int| 0 <= j < i - body ==> is_digit(#[trigger] run[j]),
        decreases n - i,
    {
        let b: u8 = text[i];
        if b < ZERO || b > NINE {
            assert(run[i - body] == b);
            return false;
        }
        assert(run[i - body] == b);
        i += 1;
    }
    true
}

/// Whether `text` holds digits only.
pub fn check_digits(text: &[u8]) -> (r: bool)
    ensures
        r == all_digits(text@),
{
    let mut i: usize = 0;
    while i < text.len()
        invariant
            i <= text@.len(),
            forall|j: int| 0 <= j < i ==> is_digit(#[trigger] text@[j]),
        decreases text@.len() - i,
    {
        let b: u8 = text[i];
        if b < ZERO || b > NINE {
            assert(!is_digit(text@[i as int]));
            return false;
        }
        i += 1;
    }
    true
}

} // verus!
