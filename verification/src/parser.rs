//! Reading values off the wire.

use vstd::prelude::*;
use vstd::slice::slice_subrange;
use vstd::string::StringSliceAdditionalSpecFns;
use vstd::utf8::{decode_utf8, valid_utf8};
use crate::ascii::{
    CR, LF, LOWER_F, LOWER_T, MINUS, ONE, TAG_ARRAY, TAG_BIG_NUMBER, TAG_BOOLEAN, TAG_BULK_ERROR,
    TAG_BULK_STRING, TAG_DOUBLE, TAG_INTEGER, TAG_NULL, TAG_SIMPLE_ERROR, TAG_SIMPLE_STRING, ZERO,
};
use crate::bignum::{int_view, BigNumber};
use crate::decimal::{
    all_digits, check_digits, digits_value, is_signed_decimal, parse_signed, parse_unsigned,
    signed_value,
};
use crate::double::{token_value, Double};
use crate::protocol::{crlf_at, views_of, ProtocolDataType, WireValue};
use crate::round_trip::lemma_parsed_well_formed;
use crate::text::{copy_bytes, string_from_utf8};

verus! {

/// Why a value could not be read.
#[derive(Clone, Copy, Debug, PartialEq, Eq, Structural)]
pub enum ParseError {
    /// The first byte of a value is no marker, or not the marker of the
    /// kind of value that was to be read.
    UnknownType,
    /// What follows a marker is not what the marker calls for.
    Malformed,
    /// The input ends before the value does.
    Truncated,
}

/// A value read off the wire, and the index behind its last byte.
pub struct Reading {
    /// The value.
    pub value: WireValue,
    /// Where the next value would start.
    pub end: int,
}

/// Several values read off the wire, and the index behind the last of them.
pub struct Readings {
    /// The values, in their order on the wire.
    pub values: Seq<WireValue>,
    /// Where the next value would start.
    pub end: int,
}

/// Whether `b` is one of the ten markers that a value starts with.
pub open spec fn is_marker(b: u8) -> bool {
    b == TAG_BULK_STRING || b == TAG_SIMPLE_STRING || b == TAG_SIMPLE_ERROR || b == TAG_INTEGER
        || b == TAG_ARRAY || b == TAG_BOOLEAN || b == TAG_DOUBLE || b == TAG_NULL || b
        == TAG_BIG_NUMBER || b == TAG_BULK_ERROR
}

/// How many bytes of `s` stand between index `from` and the first line
/// ending at or behind it, or the end of `s` where there is none.
pub open spec fn line_length(s: Seq<u8>, from: int) -> nat
    decreases s.len() - from,
{
    if from < 0 || from >= s.len() {
        0
    } else if from + 1 == s.len() {
        1
    } else if crlf_at(s, from) {
        0
    } else {
        1 + line_length(s, from + 1)
    }
}

/// The index of the first line ending of `s` at or behind `from`, or an
/// index that is no less than the length of `s` where there is none.
pub open spec fn line_end(s: Seq<u8>, from: int) -> int {
    from + line_length(s, from)
}

/// How many bytes of `s` stand at or behind index `pos`.
pub open spec fn remaining(s: Seq<u8>, pos: int) -> nat {
    if pos <= s.len() {
        (s.len() - pos) as nat
    } else {
        0
    }
}

/// The number that a length or count line declares: the line is digits only,
/// at least one.
pub open spec fn declared(line: Seq<u8>) -> Option<nat> {
    if line.len() > 0 && all_digits(line) {
        Some(digits_value(line))
    } else {
        None
    }
}

/// The text of a length-prefixed payload whose length line is `line` and
/// whose first byte would stand at `start`, and the index behind its line
/// ending. The payload is taken by its declared length, whatever it holds.
pub open spec fn bulk_text(s: Seq<u8>, line: Seq<u8>, start: int) -> Result<
    (Seq<char>, int),
    ParseError,
> {
    match declared(line) {
        None => Err(ParseError::Malformed),
        Some(length) => {
            if start + length + 2 > s.len() {
                Err(ParseError::Truncated)
            } else if !crlf_at(s, start + length) {
                Err(ParseError::Malformed)
            } else if !valid_utf8(s.subrange(start, start + length)) {
                Err(ParseError::Malformed)
            } else {
                Ok((decode_utf8(s.subrange(start, start + length)), start + length + 2))
            }
        },
    }
}

/// The value that stands at index `pos` of `s`, or why there is none. The
/// first byte alone decides which kind of value is read.
pub open spec fn parsed_at(s: Seq<u8>, pos: int) -> Result<Reading, ParseError>
    decreases remaining(s, pos), 0nat,
{
    if pos < 0 || pos >= s.len() {
        Err(ParseError::Truncated)
    } else if !is_marker(s[pos]) {
        Err(ParseError::UnknownType)
    } else if line_end(s, pos + 1) >= s.len() {
        Err(ParseError::Truncated)
    } else {
        let marker = s[pos];
        let line = s.subrange(pos + 1, line_end(s, pos + 1));
        let next = line_end(s, pos + 1) + 2;
        if marker == TAG_NULL {
            if line.len() == 0 {
                Ok(Reading { value: WireValue::Null, end: next })
            } else {
                Err(ParseError::Malformed)
            }
        } else if marker == TAG_BOOLEAN {
            if line == seq![LOWER_T] {
                Ok(Reading { value: WireValue::Boolean(true), end: next })
            } else if line == seq![LOWER_F] {
                Ok(Reading { value: WireValue::Boolean(false), end: next })
            } else {
                Err(ParseError::Malformed)
            }
        } else if marker == TAG_INTEGER {
            if is_signed_decimal(line) && i64::MIN <= signed_value(line) <= i64::MAX {
                Ok(Reading { value: WireValue::Integer(signed_value(line) as i64), end: next })
            } else {
                Err(ParseError::Malformed)
            }
        } else if marker == TAG_BIG_NUMBER {
            if is_signed_decimal(line) {
                Ok(
                    Reading {
                        value: WireValue::BigNumber(int_view(signed_value(line))),
                        end: next,
                    },
                )
            } else {
                Err(ParseError::Malformed)
            }
        } else if marker == TAG_DOUBLE {
            match token_value(line) {
                Some(double) => Ok(Reading { value: WireValue::Double(double), end: next }),
                None => Err(ParseError::Malformed),
            }
        } else if marker == TAG_SIMPLE_STRING {
            if valid_utf8(line) {
                Ok(Reading { value: WireValue::SimpleString(decode_utf8(line)), end: next })
            } else {
                Err(ParseError::Malformed)
            }
        } else if marker == TAG_SIMPLE_ERROR {
            if valid_utf8(line) {
                Ok(Reading { value: WireValue::SimpleError(decode_utf8(line)), end: next })
            } else {
                Err(ParseError::Malformed)
            }
        } else if marker == TAG_BULK_STRING {
            if line == seq![MINUS, ONE] {
                Ok(Reading { value: WireValue::Null, end: next })
            } else if line == seq![ZERO] {
                Ok(Reading { value: WireValue::BulkString(Seq::empty()), end: next })
            } else {
                match bulk_text(s, line, next) {
                    Ok((text, end)) => Ok(Reading { value: WireValue::BulkString(text), end }),
                    Err(e) => Err(e),
                }
            }
        } else if marker == TAG_BULK_ERROR {
            match bulk_text(s, line, next) {
                Ok((text, end)) => Ok(Reading { value: WireValue::BulkError(text), end }),
                Err(e) => Err(e),
            }
        } else {
            match declared(line) {
                None => Err(ParseError::Malformed),
                Some(count) => match parsed_items(s, next, count) {
                    Ok(items) => Ok(Reading { value: WireValue::Array(items.values), end: items.end }),
                    Err(e) => Err(e),
                },
            }
        }
    }
}

/// The `count` values that stand one behind the other from index `start` of
/// `s`, or why the first of them that cannot be read cannot.
pub open spec fn parsed_items(s: Seq<u8>, start: int, count: nat) -> Result<Readings, ParseError>
    decreases remaining(s, start), count + 1,
{
    if count == 0 {
        Ok(Readings { values: Seq::empty(), end: start })
    } else {
        match parsed_items(s, start, (count - 1) as nat) {
            Err(e) => Err(e),
            Ok(front) => {
                if front.end < start {
                    // Never so: reading does not go back.
                    Err(ParseError::Malformed)
                } else {
                    match parsed_at(s, front.end) {
                        Err(e) => Err(e),
                        Ok(last) => Ok(
                            Readings { values: front.values.push(last.value), end: last.end },
                        ),
                    }
                }
            },
        }
    }
}

/// The value that `s` starts with, or why it starts with none. Bytes behind
/// that value are not looked at.
pub open spec fn parsed(s: Seq<u8>) -> Result<WireValue, ParseError> {
    match parsed_at(s, 0) {
        Ok(reading) => Ok(reading.value),
        Err(e) => Err(e),
    }
}

/// Once a value in a run cannot be read, no longer run can be read either,
/// and for the same reason.
pub proof fn lemma_items_fail(s: Seq<u8>, start: int, read: nat, count: nat, e: ParseError)
    requires
        read < count,
        parsed_items(s, start, read) is Ok,
        parsed_items(s, start, read)->Ok_0.end >= start,
        parsed_at(s, parsed_items(s, start, read)->Ok_0.end) == Err::<Reading, ParseError>(e),
    ensures
        parsed_items(s, start, count) == Err::<Readings, ParseError>(e),
    decreases count,
{
    if count > read + 1 {
        lemma_items_fail(s, start, read, (count - 1) as nat, e);
    }
}

/// Finds the first line ending of `s` at or behind `from`.
pub fn find_line_end(s: &[u8], from: usize) -> (r: usize)
    requires
        from <= s@.len(),
    ensures
        r == line_end(s@, from as int),
        from <= r <= s@.len(),
        r < s@.len() ==> crlf_at(s@, r as int),
{
    let n: usize = s.len();
    let mut i: usize = from;
    while i < n
        invariant
            from <= i <= n,
            n == s@.len(),
            line_end(s@, from as int) == line_end(s@, i as int),
        decreases n - i,
    {
        if i + 1 < n && s[i] == CR && s[i + 1] == LF {
            return i;
        }
        i += 1;
    }
    n
}

/// Reads a length-prefixed payload: `s[line_start..line_stop]` is its length
/// line, and its first byte would stand at `start`.
pub fn parse_bulk(s: &[u8], line_start: usize, line_stop: usize, start: usize) -> (r: Result<
    (String, usize),
    ParseError,
>)
    requires
        line_start <= line_stop <= start <= s@.len(),
    ensures
        match r {
            Ok((text, end)) => bulk_text(
                s@,
                s@.subrange(line_start as int, line_stop as int),
                start as int,
            ) == Ok::<(Seq<char>, int), ParseError>((text@, end as int)) && start < end
                <= s@.len(),
            Err(e) => bulk_text(
                s@,
                s@.subrange(line_start as int, line_stop as int),
                start as int,
            ) == Err::<(Seq<char>, int), ParseError>(e),
        },
{
    let line = slice_subrange(s, line_start, line_stop);
    if line.len() == 0 || !check_digits(line) {
        return Err(ParseError::Malformed);
    }
    match parse_unsigned(s, line_start, line_stop) {
        None => {
            let total: usize = s.len();
            assert(digits_value(line@) > u64::MAX >= total);
            Err(ParseError::Truncated)
        },
        Some(length) => {
            let available: usize = s.len() - start;
            if available < 2 || length > (available - 2) as u64 {
                return Err(ParseError::Truncated);
            }
            let length: usize = length as usize;
            if s[start + length] != CR || s[start + length + 1] != LF {
                return Err(ParseError::Malformed);
            }
            let payload = copy_bytes(slice_subrange(s, start, start + length));
            match string_from_utf8(payload) {
                None => Err(ParseError::Malformed),
                Some(text) => Ok((text, start + length + 2)),
            }
        },
    }
}

/// Reads the value that stands at index `pos` of `s`, and says where the
/// next one would start.
pub fn parse_at(s: &[u8], pos: usize) -> (r: Result<(ProtocolDataType, usize), ParseError>)
    requires
        pos <= s@.len(),
    ensures
        match r {
            Ok((value, end)) => parsed_at(s@, pos as int) == Ok::<Reading, ParseError>(
                Reading { value: value@, end: end as int },
            ) && pos < end <= s@.len(),
            Err(e) => parsed_at(s@, pos as int) == Err::<Reading, ParseError>(e),
        },
    decreases s@.len() - pos, 0nat,
{
    if pos >= s.len() {
        return Err(ParseError::Truncated);
    }
    let marker: u8 = s[pos];
    if !(marker == TAG_BULK_STRING || marker == TAG_SIMPLE_STRING || marker == TAG_SIMPLE_ERROR
        || marker == TAG_INTEGER || marker == TAG_ARRAY || marker == TAG_BOOLEAN || marker
        == TAG_DOUBLE || marker == TAG_NULL || marker == TAG_BIG_NUMBER || marker
        == TAG_BULK_ERROR) {
        return Err(ParseError::UnknownType);
    }
    let stop: usize = find_line_end(s, pos + 1);
    if stop >= s.len() {
        return Err(ParseError::Truncated);
    }
    let line = slice_subrange(s, pos + 1, stop);
    let next: usize = stop + 2;
    if marker == TAG_NULL {
        if line.len() == 0 {
            Ok((ProtocolDataType::Null, next))
        } else {
            Err(ParseError::Malformed)
        }
    } else if marker == TAG_BOOLEAN {
        if line.len() == 1 && line[0] == LOWER_T {
            assert(line@ =~= seq![LOWER_T]);
            Ok((ProtocolDataType::Boolean(true), next))
        } else if line.len() == 1 && line[0] == LOWER_F {
            assert(line@ =~= seq![LOWER_F]);
            Ok((ProtocolDataType::Boolean(false), next))
        } else {
            assert(line@ != seq![LOWER_T] && line@ != seq![LOWER_F]) by {
                if line@.len() == 1 {
                    assert(seq![LOWER_T][0] == LOWER_T);
                    assert(seq![LOWER_F][0] == LOWER_F);
                }
            }
            Err(ParseError::Malformed)
        }
    } else if marker == TAG_INTEGER {
        match parse_signed(s, pos + 1, stop) {
            Some(integer) => Ok((ProtocolDataType::Integer(integer), next)),
            None => Err(ParseError::Malformed),
        }
    } else if marker == TAG_BIG_NUMBER {
        match BigNumber::from_decimal(line) {
            Some(number) => Ok((ProtocolDataType::BigNumber(number), next)),
            None => Err(ParseError::Malformed),
        }
    } else if marker == TAG_DOUBLE {
        match Double::from_token(line) {
            Some(double) => Ok((ProtocolDataType::Double(double), next)),
            None => Err(ParseError::Malformed),
        }
    } else if marker == TAG_SIMPLE_STRING {
        match string_from_utf8(copy_bytes(line)) {
            Some(text) => Ok((ProtocolDataType::SimpleString(text), next)),
            None => Err(ParseError::Malformed),
        }
    } else if marker == TAG_SIMPLE_ERROR {
        match string_from_utf8(copy_bytes(line)) {
            Some(text) => Ok((ProtocolDataType::SimpleError(text), next)),
            None => Err(ParseError::Malformed),
        }
    } else if marker == TAG_BULK_STRING {
        if line.len() == 2 && line[0] == MINUS && line[1] == ONE {
            assert(line@ =~= seq![MINUS, ONE]);
            Ok((ProtocolDataType::Null, next))
        } else if line.len() == 1 && line[0] == ZERO {
            assert(line@ =~= seq![ZERO]);
            Ok((ProtocolDataType::BulkString(String::new()), next))
        } else {
            assert(line@ != seq![MINUS, ONE] && line@ != seq![ZERO]) by {
                if line@.len() == 2 {
                    assert(seq![MINUS, ONE][0] == MINUS);
                    assert(seq![MINUS, ONE][1] == ONE);
                }
                if line@.len() == 1 {
                    assert(seq![ZERO][0] == ZERO);
                }
            }
            match parse_bulk(s, pos + 1, stop, next) {
                Ok((text, end)) => Ok((ProtocolDataType::BulkString(text), end)),
                Err(e) => Err(e),
            }
        }
    } else if marker == TAG_BULK_ERROR {
        match parse_bulk(s, pos + 1, stop, next) {
            Ok((text, end)) => Ok((ProtocolDataType::BulkError(text), end)),
            Err(e) => Err(e),
        }
    } else {
        if line.len() == 0 || !check_digits(line) {
            return Err(ParseError::Malformed);
        }
        let limit: Option<u64> = parse_unsigned(s, pos + 1, stop);
        match parse_items(s, next, limit, Ghost(digits_value(line@))) {
            Ok((items, end)) => Ok((ProtocolDataType::Array(items), end)),
            Err(e) => Err(e),
        }
    }
}

/// Whether a run of values that is to hold `limit` of them, or more than
/// 64 bits can count where `limit` is nothing, needs more than `read`.
fn wants_more(limit: Option<u64>, read: usize) -> (r: bool)
    ensures
        r == match limit {
            Some(c) => read < c,
            None => true,
        },
{
    match limit {
        Some(c) => (read as u64) < c,
        None => true,
    }
}

/// Reads `count` values that stand one behind the other from index `start`
/// of `s`. `limit` is `count` where it fits 64 bits, and nothing otherwise.
fn parse_items(s: &[u8], start: usize, limit: Option<u64>, Ghost(count): Ghost<nat>) -> (r:
    Result<(Vec<ProtocolDataType>, usize), ParseError>)
    requires
        start <= s@.len(),
        match limit {
            Some(c) => c == count,
            None => count > u64::MAX,
        },
    ensures
        match r {
            Ok((items, end)) => parsed_items(s@, start as int, count) == Ok::<
                Readings,
                ParseError,
            >(Readings { values: views_of(items@), end: end as int }) && start <= end
                <= s@.len(),
            Err(e) => parsed_items(s@, start as int, count) == Err::<Readings, ParseError>(e),
        },
    decreases s@.len() - start, 1nat,
{
    let mut items: Vec<ProtocolDataType> = Vec::new();
    let mut cur: usize = start;
    while wants_more(limit, items.len())
        invariant
            start <= cur <= s@.len(),
            items@.len() <= cur - start,
            items@.len() <= count,
            match limit {
                Some(c) => c == count,
                None => count > u64::MAX,
            },
            parsed_items(s@, start as int, items@.len() as nat) == Ok::<Readings, ParseError>(
                Readings { values: views_of(items@), end: cur as int },
            ),
        decreases s@.len() - cur,
    {
        match parse_at(s, cur) {
            Err(e) => {
                proof {
                    lemma_items_fail(s@, start as int, items@.len() as nat, count, e);
                }
                return Err(e);
            },
            Ok((value, end)) => {
                let ghost before = items@;
                items.push(value);
                proof {
                    assert(items@.drop_last() =~= before);
                }
                cur = end;
            },
        }
    }
    Ok((items, cur))
}

/// Reads the value that `input` starts with. Bytes behind that value are
/// not looked at. What is read is well formed.
pub fn parse(input: &[u8]) -> (r: Result<ProtocolDataType, ParseError>)
    ensures
        match r {
            Ok(value) => parsed(input@) == Ok::<WireValue, ParseError>(value@)
                && value.well_formed(),
            Err(e) => parsed(input@) == Err::<WireValue, ParseError>(e),
        },
{
    proof {
        if parsed(input@) is Ok {
            lemma_parsed_well_formed(input@, 0);
        }
    }
    match parse_at(input, 0) {
        Ok((value, _)) => Ok(value),
        Err(e) => Err(e),
    }
}

/// Reads the value that `input` starts with, and hands out the bytes behind
/// it beside the value.
pub fn data_type(input: &[u8]) -> (r: Result<(&[u8], ProtocolDataType), ParseError>)
    ensures
        match r {
            Ok((rest, value)) => exists|end: int|
                0 < end <= input@.len() && parsed_at(input@, 0) == Ok::<Reading, ParseError>(
                    Reading { value: value@, end },
                ) && rest@ == input@.subrange(end, input@.len() as int),
            Err(e) => parsed_at(input@, 0) == Err::<Reading, ParseError>(e),
        },
{
    match parse_at(input, 0) {
        Ok((value, end)) => Ok((slice_subrange(input, end, input.len()), value)),
        Err(e) => Err(e),
    }
}

/// What reading a value of one kind gives: the value that `s` starts with
/// where `s` starts with the marker of that kind, and no value where it
/// starts with another byte.
pub open spec fn parsed_as(s: Seq<u8>, marker: u8) -> Result<WireValue, ParseError> {
    if s.len() > 0 && s[0] != marker {
        Err(ParseError::UnknownType)
    } else {
        parsed(s)
    }
}

/// Reads the value that `input` starts with, where it starts with `marker`.
fn parse_as(input: &[u8], marker: u8) -> (r: Result<ProtocolDataType, ParseError>)
    ensures
        match r {
            Ok(value) => parsed_as(input@, marker) == Ok::<WireValue, ParseError>(value@),
            Err(e) => parsed_as(input@, marker) == Err::<WireValue, ParseError>(e),
        },
{
    if input.len() > 0 && input[0] != marker {
        Err(ParseError::UnknownType)
    } else {
        parse(input)
    }
}

/// Reads the bulk string, or the null that is written as one, that `input`
/// starts with.
pub fn bulk_string(input: &[u8]) -> (r: Result<ProtocolDataType, ParseError>)
    ensures
        match r {
            Ok(value) => parsed_as(input@, TAG_BULK_STRING) == Ok::<WireValue, ParseError>(value@),
            Err(e) => parsed_as(input@, TAG_BULK_STRING) == Err::<WireValue, ParseError>(e),
        },
{
    parse_as(input, TAG_BULK_STRING)
}

/// Reads the simple string that `input` starts with.
pub fn simple_string(input: &[u8]) -> (r: Result<ProtocolDataType, ParseError>)
    ensures
        match r {
            Ok(value) => parsed_as(input@, TAG_SIMPLE_STRING) == Ok::<WireValue, ParseError>(
                value@,
            ),
            Err(e) => parsed_as(input@, TAG_SIMPLE_STRING) == Err::<WireValue, ParseError>(e),
        },
{
    parse_as(input, TAG_SIMPLE_STRING)
}

/// Reads the simple error that `input` starts with.
pub fn simple_error(input: &[u8]) -> (r: Result<ProtocolDataType, ParseError>)
    ensures
        match r {
            Ok(value) => parsed_as(input@, TAG_SIMPLE_ERROR) == Ok::<WireValue, ParseError>(
                value@,
            ),
            Err(e) => parsed_as(input@, TAG_SIMPLE_ERROR) == Err::<WireValue, ParseError>(e),
        },
{
    parse_as(input, TAG_SIMPLE_ERROR)
}

/// Reads the integer that `input` starts with.
pub fn integer(input: &[u8]) -> (r: Result<ProtocolDataType, ParseError>)
    ensures
        match r {
            Ok(value) => parsed_as(input@, TAG_INTEGER) == Ok::<WireValue, ParseError>(value@),
            Err(e) => parsed_as(input@, TAG_INTEGER) == Err::<WireValue, ParseError>(e),
        },
{
    parse_as(input, TAG_INTEGER)
}

/// Reads the array that `input` starts with.
pub fn array(input: &[u8]) -> (r: Result<ProtocolDataType, ParseError>)
    ensures
        match r {
            Ok(value) => parsed_as(input@, TAG_ARRAY) == Ok::<WireValue, ParseError>(value@),
            Err(e) => parsed_as(input@, TAG_ARRAY) == Err::<WireValue, ParseError>(e),
        },
{
    parse_as(input, TAG_ARRAY)
}

/// Reads the boolean that `input` starts with.
pub fn boolean(input: &[u8]) -> (r: Result<ProtocolDataType, ParseError>)
    ensures
        match r {
            Ok(value) => parsed_as(input@, TAG_BOOLEAN) == Ok::<WireValue, ParseError>(value@),
            Err(e) => parsed_as(input@, TAG_BOOLEAN) == Err::<WireValue, ParseError>(e),
        },
{
    parse_as(input, TAG_BOOLEAN)
}

/// Reads the double that `input` starts with.
pub fn double(input: &[u8]) -> (r: Result<ProtocolDataType, ParseError>)
    ensures
        match r {
            Ok(value) => parsed_as(input@, TAG_DOUBLE) == Ok::<WireValue, ParseError>(value@),
            Err(e) => parsed_as(input@, TAG_DOUBLE) == Err::<WireValue, ParseError>(e),
        },
{
    parse_as(input, TAG_DOUBLE)
}

impl core::str::FromStr for ProtocolDataType {
    type Err = ParseError;

    /// Reads the value that the text starts with.
    fn from_str(value: &str) -> (r: Result<Self, ParseError>)
        ensures
            match r {
                Ok(result) => parsed(value.spec_bytes()) == Ok::<WireValue, ParseError>(result@),
                Err(e) => parsed(value.spec_bytes()) == Err::<WireValue, ParseError>(e),
            },
    {
        parse(value.as_bytes())
    }
}

} // verus!
