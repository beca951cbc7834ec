//! What is read back from the bytes of a value is that value.

use vstd::prelude::*;
use vstd::utf8::{
    decode_utf8_encode_utf8, encode_utf8, encode_utf8_decode_utf8, encode_utf8_valid_utf8,
};
use crate::ascii::{
    CR, LF, MINUS, TAG_ARRAY, TAG_BIG_NUMBER, TAG_DOUBLE, TAG_SIMPLE_ERROR, TAG_SIMPLE_STRING,
    ZERO,
};
use crate::bignum::{lemma_int_view, lemma_int_view_of_value};
use crate::decimal::{
    digits_value, int_text, is_digit, lemma_int_text, lemma_nat_digits, nat_digits,
    signed_value,
};
use crate::double::{
    infinity_token, is_number_token, lemma_number_token_bytes, lemma_token_round_trip,
    nan_token, negative_infinity_token, value_token, value_well_formed, DoubleView,
};
use crate::parser::{
    bulk_text, declared, line_end, line_length, parse, parsed, parsed_at, parsed_items,
    remaining, ParseError, Reading, Readings,
};
use crate::text::lemma_ascii_encoding;
use crate::protocol::{
    crlf, crlf_at, lemma_encoding_empty, no_crlf, wire_bytes, wire_bytes_all, wire_well_formed,
    ProtocolDataType, WireValue,
};

verus! {

/// Whether no byte of `s` is a carriage return.
pub open spec fn no_cr(s: Seq<u8>) -> bool {
    forall|i: int| 0 <= i < s.len() ==> #[trigger] s[i] != CR
}

/// The decimal text of an integer holds no carriage return.
pub proof fn lemma_int_text_no_cr(v: int)
    ensures
        no_cr(int_text(v)),
{
    if v < 0 {
        lemma_nat_digits((-v) as nat);
        let digits = nat_digits((-v) as nat);
        assert forall|i: int| 0 <= i < int_text(v).len() implies #[trigger] int_text(v)[i]
            != CR by {
            if i > 0 {
                assert(int_text(v)[i] == digits[i - 1]);
                assert(is_digit(digits[i - 1]));
            }
        }
    } else {
        lemma_nat_digits(v as nat);
        assert forall|i: int| 0 <= i < int_text(v).len() implies #[trigger] int_text(v)[i]
            != CR by {
            assert(is_digit(nat_digits(v as nat)[i]));
        }
    }
}

/// The token of a well-formed floating-point value holds no line ending.
pub proof fn lemma_token_no_crlf(value: DoubleView)
    requires
        value_well_formed(value),
    ensures
        no_crlf(value_token(value)),
{
    match value {
        DoubleView::Number(text) => {
            lemma_number_token_bytes(encode_utf8(text));
        },
        _ => {},
    }
    assert(no_cr(value_token(value)));
}

/// Where a marker, a line without a line ending in it, and a line ending
/// stand at index `pos` of `s`, the line that is read behind the marker is
/// that line.
pub proof fn lemma_header(s: Seq<u8>, pos: int, marker: u8, line: Seq<u8>)
    requires
        0 <= pos,
        pos + line.len() + 3 <= s.len(),
        s.subrange(pos, pos + line.len() + 3) == seq![marker] + line + crlf(),
        no_crlf(line),
    ensures
        s[pos] == marker,
        line_end(s, pos + 1) == pos + 1 + line.len(),
        s.subrange(pos + 1, pos + 1 + line.len()) == line,
        crlf_at(s, pos + 1 + line.len()),
{
    let head = seq![marker] + line + crlf();
    let window = s.subrange(pos, pos + line.len() + 3);
    assert forall|i: int| 0 <= i < head.len() implies s[pos + i] == #[trigger] head[i] by {
        assert(window[i] == s[pos + i]);
    }
    assert(head[0] == marker);
    assert forall|i: int| 0 <= i < line.len() implies s[pos + 1 + i] == #[trigger] line[i] by {
        assert(head[1 + i] == line[i]);
    }
    assert(head[line.len() as int + 1] == CR);
    assert(head[line.len() as int + 2] == LF);
    assert(s[pos + 1 + line.len()] == CR);
    assert(s[pos + 2 + line.len()] == LF);
    assert(s.subrange(pos + 1, pos + 1 + line.len()) =~= line);
    lemma_line_length(s, pos + 1, line, 0);
}

/// The bytes from the `k`-th of a line to the line ending behind it are as
/// many as the line has from there.
proof fn lemma_line_length(s: Seq<u8>, start: int, line: Seq<u8>, k: int)
    requires
        0 <= start,
        0 <= k <= line.len(),
        start + line.len() + 2 <= s.len(),
        forall|i: int| 0 <= i < line.len() ==> s[start + i] == #[trigger] line[i],
        s[start + line.len()] == CR,
        s[start + line.len() + 1] == LF,
        no_crlf(line),
    ensures
        line_length(s, start + k) == line.len() - k,
    decreases line.len() - k,
{
    if k < line.len() {
        lemma_line_length(s, start, line, k + 1);
        if crlf_at(s, start + k) {
            assert(line[k] == CR);
            if k + 1 < line.len() {
                assert(line[k + 1] == LF);
                assert(crlf_at(line, k));
            }
        }
    }
}

/// What is read back from the bytes of a well-formed value, wherever they
/// stand in a longer run of bytes, is that value, and reading stops right
/// behind them.
pub proof fn lemma_parse_serialized(value: WireValue, s: Seq<u8>, pos: int)
    requires
        wire_well_formed(value),
        0 <= pos,
        pos + wire_bytes(value).len() <= s.len(),
        s.subrange(pos, pos + wire_bytes(value).len()) == wire_bytes(value),
    ensures
        parsed_at(s, pos) == Ok::<Reading, ParseError>(
            Reading { value, end: pos + wire_bytes(value).len() },
        ),
    decreases value, 0nat,
{
    let bytes = wire_bytes(value);
    let window = s.subrange(pos, pos + bytes.len());
    match value {
        WireValue::Null => {
            let line = Seq::<u8>::empty();
            assert(bytes =~= seq![crate::ascii::TAG_NULL] + line + crlf());
            assert(s.subrange(pos, pos + line.len() + 3) =~= window);
            lemma_header(s, pos, crate::ascii::TAG_NULL, line);
        },
        WireValue::Boolean(boolean) => {
            let line = seq![
                if boolean {
                    crate::ascii::LOWER_T
                } else {
                    crate::ascii::LOWER_F
                },
            ];
            assert(bytes =~= seq![crate::ascii::TAG_BOOLEAN] + line + crlf());
            assert(s.subrange(pos, pos + line.len() + 3) =~= window);
            assert(no_cr(line));
            lemma_header(s, pos, crate::ascii::TAG_BOOLEAN, line);
            assert(seq![crate::ascii::LOWER_F][0] != seq![crate::ascii::LOWER_T][0]);
        },
        WireValue::Integer(integer) => {
            let line = int_text(integer as int);
            assert(s.subrange(pos, pos + line.len() + 3) =~= window);
            lemma_int_text_no_cr(integer as int);
            lemma_int_text(integer as int);
            lemma_header(s, pos, crate::ascii::TAG_INTEGER, line);
        },
        WireValue::BigNumber(number) => {
            let line = int_text(number.value());
            assert(s.subrange(pos, pos + line.len() + 3) =~= window);
            lemma_int_text_no_cr(number.value());
            lemma_int_text(number.value());
            lemma_int_view_of_value(number);
            lemma_header(s, pos, crate::ascii::TAG_BIG_NUMBER, line);
        },
        WireValue::Double(double) => {
            let line = value_token(double);
            assert(s.subrange(pos, pos + line.len() + 3) =~= window);
            lemma_token_no_crlf(double);
            lemma_token_round_trip(double);
            lemma_header(s, pos, crate::ascii::TAG_DOUBLE, line);
        },
        WireValue::SimpleString(text) => {
            let line = encode_utf8(text);
            assert(s.subrange(pos, pos + line.len() + 3) =~= window);
            encode_utf8_valid_utf8(text);
            encode_utf8_decode_utf8(text);
            lemma_header(s, pos, crate::ascii::TAG_SIMPLE_STRING, line);
        },
        WireValue::SimpleError(text) => {
            let line = encode_utf8(text);
            assert(s.subrange(pos, pos + line.len() + 3) =~= window);
            encode_utf8_valid_utf8(text);
            encode_utf8_decode_utf8(text);
            lemma_header(s, pos, crate::ascii::TAG_SIMPLE_ERROR, line);
        },
        WireValue::BulkString(text) => {
            lemma_encoding_empty(text);
            if text.len() == 0 {
                let line = nat_digits(0);
                assert(line =~= seq![ZERO]);
                assert(s.subrange(pos, pos + line.len() + 3) =~= window);
                assert(no_cr(line));
                lemma_header(s, pos, crate::ascii::TAG_BULK_STRING, line);
                assert(seq![MINUS, crate::ascii::ONE].len() != line.len());
                assert(text =~= Seq::<char>::empty());
            } else {
                lemma_bulk(s, pos, crate::ascii::TAG_BULK_STRING, text);
                let line = nat_digits(encode_utf8(text).len());
                lemma_nat_digits(encode_utf8(text).len());
                assert(line != seq![MINUS, crate::ascii::ONE]) by {
                    assert(is_digit(line[0]));
                }
                assert(line != seq![ZERO]) by {
                    if line == seq![ZERO] {
                        assert(seq![ZERO].drop_last() =~= Seq::<u8>::empty());
                        assert(digits_value(seq![ZERO].drop_last()) == 0);
                        assert(digits_value(seq![ZERO]) == 0);
                    }
                }
            }
        },
        WireValue::BulkError(text) => {
            lemma_bulk(s, pos, crate::ascii::TAG_BULK_ERROR, text);
        },
        WireValue::Array(items) => {
            let line = nat_digits(items.len());
            lemma_nat_digits(items.len());
            assert(no_cr(line)) by {
                assert forall|i: int| 0 <= i < line.len() implies #[trigger] line[i] != CR by {
                    assert(is_digit(line[i]));
                }
            }
            let head = seq![crate::ascii::TAG_ARRAY] + line + crlf();
            let tail = wire_bytes_all(items);
            assert(bytes == head + tail);
            assert(s.subrange(pos, pos + line.len() + 3) =~= head) by {
                assert(window.subrange(0, head.len() as int) =~= head);
            }
            lemma_header(s, pos, crate::ascii::TAG_ARRAY, line);
            let next = pos + line.len() + 3;
            assert(s.subrange(next, next + tail.len()) =~= tail) by {
                assert(window.subrange(head.len() as int, bytes.len() as int) =~= tail);
            }
            lemma_parse_serialized_all(items, s, next);
        },
    }
}

/// What is read behind the marker of a length-prefixed text, where its bytes
/// stand at index `pos` of `s`, is that text.
proof fn lemma_bulk(s: Seq<u8>, pos: int, marker: u8, text: Seq<char>)
    requires
        0 <= pos,
        pos + encode_utf8(text).len() + nat_digits(encode_utf8(text).len()).len() + 5 <= s.len(),
        s.subrange(
            pos,
            pos + encode_utf8(text).len() + nat_digits(encode_utf8(text).len()).len() + 5,
        ) == seq![marker] + nat_digits(encode_utf8(text).len()) + crlf() + encode_utf8(text)
            + crlf(),
    ensures
        s[pos] == marker,
        line_end(s, pos + 1) == pos + 1 + nat_digits(encode_utf8(text).len()).len(),
        line_end(s, pos + 1) < s.len(),
        s.subrange(pos + 1, line_end(s, pos + 1)) == nat_digits(encode_utf8(text).len()),
        bulk_text(s, nat_digits(encode_utf8(text).len()), line_end(s, pos + 1) + 2) == Ok::<
            (Seq<char>, int),
            ParseError,
        >(
            (
                text,
                pos + encode_utf8(text).len() + nat_digits(encode_utf8(text).len()).len() + 5,
            ),
        ),
{
    let payload = encode_utf8(text);
    let line = nat_digits(payload.len());
    let bytes = seq![marker] + line + crlf() + payload + crlf();
    let window = s.subrange(pos, pos + bytes.len());
    lemma_nat_digits(payload.len());
    assert(no_cr(line)) by {
        assert forall|i: int| 0 <= i < line.len() implies #[trigger] line[i] != CR by {
            assert(is_digit(line[i]));
        }
    }
    let head = seq![marker] + line + crlf();
    assert(s.subrange(pos, pos + line.len() + 3) =~= head) by {
        assert(window.subrange(0, head.len() as int) =~= head);
    }
    lemma_header(s, pos, marker, line);
    let start = pos + line.len() + 3;
    assert(s.subrange(start, start + payload.len()) =~= payload) by {
        assert(window.subrange(head.len() as int, (head.len() + payload.len()) as int) =~= payload);
    }
    assert(crlf_at(s, start + payload.len())) by {
        assert(window[(head.len() + payload.len()) as int] == CR);
        assert(window[(head.len() + payload.len()) as int + 1] == LF);
    }
    encode_utf8_valid_utf8(text);
    encode_utf8_decode_utf8(text);
}

/// What is read back from the bytes of several well-formed values, one
/// behind the other, is those values.
pub proof fn lemma_parse_serialized_all(items: Seq<WireValue>, s: Seq<u8>, pos: int)
    requires
        forall|i: int| 0 <= i < items.len() ==> wire_well_formed(#[trigger] items[i]),
        0 <= pos,
        pos + wire_bytes_all(items).len() <= s.len(),
        s.subrange(pos, pos + wire_bytes_all(items).len()) == wire_bytes_all(items),
    ensures
        parsed_items(s, pos, items.len()) == Ok::<Readings, ParseError>(
            Readings { values: items, end: pos + wire_bytes_all(items).len() },
        ),
    decreases items, 1nat,
{
    if items.len() == 0 {
        assert(items =~= Seq::<WireValue>::empty());
    } else {
        let front = items.drop_last();
        let last = items.last();
        let front_bytes = wire_bytes_all(front);
        let last_bytes = wire_bytes(last);
        let window = s.subrange(pos, pos + wire_bytes_all(items).len());
        assert(s.subrange(pos, pos + front_bytes.len()) =~= front_bytes) by {
            assert(window.subrange(0, front_bytes.len() as int) =~= front_bytes);
        }
        lemma_parse_serialized_all(front, s, pos);
        let mid = pos + front_bytes.len();
        assert(s.subrange(mid, mid + last_bytes.len()) =~= last_bytes) by {
            assert(window.subrange(front_bytes.len() as int, window.len() as int) =~= last_bytes);
        }
        lemma_parse_serialized(last, s, mid);
        assert(front.push(last) =~= items);
    }
}

/// Round trip: what is read back from the bytes of a well-formed value is
/// that value, whatever bytes follow.
pub proof fn lemma_round_trip(value: WireValue, rest: Seq<u8>)
    requires
        wire_well_formed(value),
    ensures
        parsed(wire_bytes(value) + rest) == Ok::<WireValue, ParseError>(value),
{
    let s = wire_bytes(value) + rest;
    assert(s.subrange(0, wire_bytes(value).len() as int) =~= wire_bytes(value));
    lemma_parse_serialized(value, s, 0);
}

/// Serializes `value` and reads the bytes back: the result is `value` again.
pub fn round_trip(value: &ProtocolDataType) -> (r: Result<ProtocolDataType, ParseError>)
    requires
        value.well_formed(),
    ensures
        r is Ok,
        r->Ok_0@ == value@,
{
    let bytes = value.serialize();
    proof {
        lemma_round_trip(value@, Seq::empty());
        assert(wire_bytes(value@) + Seq::<u8>::empty() =~= wire_bytes(value@));
    }
    parse(bytes.as_slice())
}

/// No line ending stands between an index and the first line ending at or
/// behind it.
pub proof fn lemma_line_has_no_ending(s: Seq<u8>, from: int)
    requires
        0 <= from <= s.len(),
    ensures
        forall|k: int| from <= k < line_end(s, from) ==> !crlf_at(s, k),
        no_crlf(s.subrange(from, line_end(s, from))),
        from <= line_end(s, from) <= s.len(),
    decreases s.len() - from,
{
    if from < s.len() && from + 1 != s.len() && !crlf_at(s, from) {
        lemma_line_has_no_ending(s, from + 1);
    }
    let line = s.subrange(from, line_end(s, from));
    assert forall|j: int| !crlf_at(line, j) by {
        if crlf_at(line, j) {
            assert(line[j] == s[from + j]);
            assert(line[j + 1] == s[from + j + 1]);
            assert(crlf_at(s, from + j));
        }
    }
}

/// Whatever is read off the wire is well formed, and reading it has taken
/// at least one byte and no more than there are.
pub proof fn lemma_parsed_well_formed(s: Seq<u8>, pos: int)
    requires
        parsed_at(s, pos) is Ok,
    ensures
        wire_well_formed(parsed_at(s, pos)->Ok_0.value),
        pos < parsed_at(s, pos)->Ok_0.end <= s.len(),
    decreases remaining(s, pos), 0nat,
{
    let marker = s[pos];
    let stop = line_end(s, pos + 1);
    let line = s.subrange(pos + 1, stop);
    let next = stop + 2;
    lemma_line_has_no_ending(s, pos + 1);
    assert(crlf_at(s, stop)) by {
        lemma_line_end_is_ending(s, pos + 1);
    }
    if marker == TAG_BIG_NUMBER {
        lemma_int_view(signed_value(line));
    } else if marker == TAG_DOUBLE {
        if is_number_token(line) && line != infinity_token() && line != negative_infinity_token()
            && line != nan_token() {
            lemma_number_token_bytes(line);
            lemma_ascii_encoding(line);
            decode_utf8_encode_utf8(line);
        }
    } else if marker == TAG_SIMPLE_STRING || marker == TAG_SIMPLE_ERROR {
        decode_utf8_encode_utf8(line);
    } else if marker == TAG_ARRAY {
        let count = declared(line)->Some_0;
        lemma_parsed_items_well_formed(s, next, count);
        let items = parsed_items(s, next, count)->Ok_0.values;
        assert(forall|i: int| 0 <= i < items.len() ==> wire_well_formed(#[trigger] items[i]));
    }
}

/// Where a line ending is found, one stands there.
pub proof fn lemma_line_end_is_ending(s: Seq<u8>, from: int)
    requires
        0 <= from <= s.len(),
        line_end(s, from) < s.len(),
    ensures
        crlf_at(s, line_end(s, from)),
    decreases s.len() - from,
{
    if from < s.len() && from + 1 != s.len() && !crlf_at(s, from) {
        lemma_line_end_is_ending(s, from + 1);
    }
}

/// Whatever values are read off the wire one behind the other are well
/// formed and as many as were asked for, and reading them has not gone back.
pub proof fn lemma_parsed_items_well_formed(s: Seq<u8>, start: int, count: nat)
    requires
        parsed_items(s, start, count) is Ok,
        0 <= start <= s.len(),
    ensures
        parsed_items(s, start, count)->Ok_0.values.len() == count,
        forall|i: int|
            0 <= i < count ==> wire_well_formed(
                #[trigger] parsed_items(s, start, count)->Ok_0.values[i],
            ),
        start <= parsed_items(s, start, count)->Ok_0.end <= s.len(),
    decreases remaining(s, start), count + 1,
{
    if count > 0 {
        lemma_parsed_items_well_formed(s, start, (count - 1) as nat);
        let front = parsed_items(s, start, (count - 1) as nat)->Ok_0;
        lemma_parsed_well_formed(s, front.end);
    }
}

/// What `parse` hands out is well formed: it can go on the wire and be read
/// back as it is.
pub proof fn lemma_parse_gives_well_formed(s: Seq<u8>)
    requires
        parsed(s) is Ok,
    ensures
        wire_well_formed(parsed(s)->Ok_0),
        parsed(wire_bytes(parsed(s)->Ok_0)) == parsed(s),
{
    lemma_parsed_well_formed(s, 0);
    lemma_round_trip(parsed(s)->Ok_0, Seq::empty());
    assert(wire_bytes(parsed(s)->Ok_0) + Seq::<u8>::empty() =~= wire_bytes(parsed(s)->Ok_0));
}

/// The values that come back from their bytes are exactly the well-formed
/// ones.
pub proof fn lemma_round_trip_exactly(value: WireValue)
    ensures
        (parsed(wire_bytes(value)) == Ok::<WireValue, ParseError>(value)) <==> wire_well_formed(
            value,
        ),
{
    if wire_well_formed(value) {
        lemma_round_trip(value, Seq::empty());
        assert(wire_bytes(value) + Seq::<u8>::empty() =~= wire_bytes(value));
    }
    if parsed(wire_bytes(value)) == Ok::<WireValue, ParseError>(value) {
        lemma_parsed_well_formed(wire_bytes(value), 0);
    }
}

} // verus!
