use camas::bignum::BigNumber;
use camas::decimal::{check_digits, check_signed_decimal, parse_signed, parse_unsigned, push_signed, push_unsigned};
use camas::double::{check_number_token, count_digits, Double};
use camas::parser::{
    array, boolean, bulk_string, data_type, double, find_line_end, integer, parse, parse_at,
    simple_error, simple_string, ParseError,
};
use camas::protocol::ProtocolDataType;
use camas::round_trip::round_trip;
use camas::text::{ascii_string, copy_bytes, push_bytes, same_bytes};
use num_bigint::BigInt;
use std::str::FromStr;

fn text(value: &str) -> ProtocolDataType {
    ProtocolDataType::BulkString(value.to_string())
}

fn big(value: &str) -> ProtocolDataType {
    ProtocolDataType::BigNumber(BigNumber::from_decimal(value.as_bytes()).unwrap())
}

fn number(token: &str) -> ProtocolDataType {
    ProtocolDataType::Double(Double::from_token(token.as_bytes()).unwrap())
}

fn nested(depth: usize) -> ProtocolDataType {
    let mut value = ProtocolDataType::Array(vec![ProtocolDataType::Integer(-7), text("")]);
    for level in 0..depth {
        value = ProtocolDataType::Array(vec![
            value,
            ProtocolDataType::SimpleString(format!("level {}", level)),
            ProtocolDataType::Array(vec![]),
        ]);
    }
    value
}

fn assert_round_trip(value: ProtocolDataType) {
    let bytes = value.serialize();
    assert_eq!(parse(&bytes), Ok(value.duplicate()));
    assert_eq!(round_trip(&value), Ok(value));
}

#[test]
fn round_trip_reproduces_every_kind_of_value() {
    assert_round_trip(ProtocolDataType::Null);
    assert_round_trip(ProtocolDataType::Boolean(true));
    assert_round_trip(ProtocolDataType::Boolean(false));
    assert_round_trip(ProtocolDataType::Integer(0));
    assert_round_trip(ProtocolDataType::Integer(-42));
    assert_round_trip(ProtocolDataType::Integer(i64::MIN));
    assert_round_trip(ProtocolDataType::Integer(i64::MAX));
    assert_round_trip(text(""));
    assert_round_trip(text("line one\r\nline two"));
    assert_round_trip(text("ação"));
    assert_round_trip(ProtocolDataType::BulkError("".to_string()));
    assert_round_trip(ProtocolDataType::BulkError("ERR\r\nmore".to_string()));
    assert_round_trip(ProtocolDataType::SimpleString("OK".to_string()));
    assert_round_trip(ProtocolDataType::SimpleString("".to_string()));
    assert_round_trip(ProtocolDataType::SimpleString("ends in a return\r".to_string()));
    assert_round_trip(ProtocolDataType::SimpleError("ERR wrong".to_string()));
    assert_round_trip(ProtocolDataType::Array(vec![]));
}

#[test]
fn round_trip_reproduces_doubles() {
    assert_round_trip(ProtocolDataType::Double(Double::NotANumber));
    assert_round_trip(ProtocolDataType::Double(Double::Infinity));
    assert_round_trip(ProtocolDataType::Double(Double::NegativeInfinity));
    assert_round_trip(number("3.141592"));
    assert_round_trip(number("-0.5e-10"));
    assert_round_trip(number(&f64::MAX.to_string()));
    assert_round_trip(number(&f64::MIN_POSITIVE.to_string()));
}

#[test]
fn round_trip_reproduces_big_numbers() {
    assert_round_trip(big("0"));
    assert_round_trip(big("18446744073709551616"));
    assert_round_trip(big("-18446744073709551616"));
    assert_round_trip(big("298416298361318972639172639182763918263981267391826379128"));
    assert_round_trip(big("-298416298361318972639172639182763918263981267391826379128"));
}

#[test]
fn round_trip_reproduces_nested_arrays() {
    for depth in 0..=5 {
        assert_round_trip(nested(depth));
    }
    assert_round_trip(ProtocolDataType::Array(vec![
        ProtocolDataType::BulkError("".to_string()),
        ProtocolDataType::Integer(1),
        text(""),
        ProtocolDataType::Null,
    ]));
}

#[test]
fn empty_aggregates_have_their_canonical_forms() {
    assert_eq!(text("").serialize(), "$0\r\n".as_bytes());
    assert_eq!(ProtocolDataType::Array(vec![]).serialize(), "*0\r\n".as_bytes());
    assert_eq!(ProtocolDataType::BulkError(String::new()).serialize(), "!0\r\n\r\n".as_bytes());
}

#[test]
fn serialize_into_appends() {
    let mut out = b"head".to_vec();
    ProtocolDataType::Integer(5).serialize_into(&mut out);
    assert_eq!(out, b"head:5\r\n");
}

#[test]
fn lengths_count_bytes() {
    assert_eq!(text("ação").serialize(), "$6\r\nação\r\n".as_bytes());
    assert_eq!(parse("$6\r\nação\r\n".as_bytes()), Ok(text("ação")));
    assert_eq!(parse("$4\r\nação\r\n".as_bytes()), Err(ParseError::Malformed));
}

#[test]
fn unknown_marker_is_reported() {
    assert_eq!(parse(b"?what\r\n"), Err(ParseError::UnknownType));
    assert_eq!(parse(b"\r\n"), Err(ParseError::UnknownType));
    assert_eq!(parse(b"*1\r\n%1\r\n"), Err(ParseError::UnknownType));
}

#[test]
fn malformed_input_is_reported() {
    for input in [
        &b":4x2\r\n"[..],
        b":\r\n",
        b":+\r\n",
        b":--1\r\n",
        b":9223372036854775808\r\n",
        b":-9223372036854775809\r\n",
        b"#x\r\n",
        b"#tt\r\n",
        b"#\r\n",
        b"_x\r\n",
        b",1.2.3\r\n",
        b",\r\n",
        b",.\r\n",
        b",e5\r\n",
        b",1e\r\n",
        b",+inf\r\n",
        b",NaN\r\n",
        b",infinity\r\n",
        b"(12a\r\n",
        b"(1_000\r\n",
        b"(\r\n",
        b"$abc\r\n",
        b"$\r\n",
        b"$-2\r\n",
        b"$3\r\nabcXY",
        b"!3\r\nabcXY",
        b"*x\r\n",
        b"*\r\n",
        b"*-1\r\n",
        b"+\xff\r\n",
        b"-\xff\r\n",
        b"$1\r\n\xff\r\n",
        b"*2\r\n:1\r\n:x\r\n",
    ] {
        assert_eq!(parse(input), Err(ParseError::Malformed), "{:?}", input);
    }
}

#[test]
fn truncated_input_is_reported() {
    for input in [
        &b""[..],
        b"+",
        b"+OK",
        b"+OK\r",
        b":42",
        b"$5\r\nab",
        b"$5\r\nabcde",
        b"$5\r\nabcde\r",
        b"$0",
        b"!0\r\n",
        b"$99999999999999999999999999\r\nab\r\n",
        b"*2\r\n:1\r\n",
        b"*99999999999999999999999999\r\n:1\r\n",
        b"*1\r\n",
    ] {
        assert_eq!(parse(input), Err(ParseError::Truncated), "{:?}", input);
    }
}

#[test]
fn integers_take_a_sign_and_leading_zeros() {
    assert_eq!(parse(b":+42\r\n"), Ok(ProtocolDataType::Integer(42)));
    assert_eq!(parse(b":-0\r\n"), Ok(ProtocolDataType::Integer(0)));
    assert_eq!(parse(b":0000000000000000000000007\r\n"), Ok(ProtocolDataType::Integer(7)));
    assert_eq!(parse(b":-9223372036854775808\r\n"), Ok(ProtocolDataType::Integer(i64::MIN)));
    assert_eq!(parse(b":9223372036854775807\r\n"), Ok(ProtocolDataType::Integer(i64::MAX)));
    assert_eq!(ProtocolDataType::Integer(i64::MIN).serialize(), b":-9223372036854775808\r\n");
    assert_eq!(ProtocolDataType::from(12), ProtocolDataType::Integer(12));
}

#[test]
fn bulk_payload_is_taken_by_its_length() {
    assert_eq!(parse(b"$5\r\na\r\nbc\r\n"), Ok(text("a\r\nbc")));
    assert_eq!(parse(b"$05\r\nhello\r\n"), Ok(text("hello")));
    assert_eq!(parse(b"$00\r\n\r\n"), Ok(text("")));
    assert_eq!(parse(b"$0\r\n"), Ok(text("")));
    assert_eq!(parse(b"$-1\r\n"), Ok(ProtocolDataType::Null));
    assert_eq!(parse(b"!0\r\n\r\n"), Ok(ProtocolDataType::BulkError(String::new())));
    assert_eq!(
        parse(b"!10\r\nSome\r\nerro\r\n"),
        Ok(ProtocolDataType::BulkError("Some\r\nerro".to_string()))
    );
}

#[test]
fn arrays_take_exactly_their_count() {
    assert_eq!(
        parse(b"*02\r\n:1\r\n:2\r\n:3\r\n"),
        Ok(ProtocolDataType::Array(vec![
            ProtocolDataType::Integer(1),
            ProtocolDataType::Integer(2)
        ]))
    );
    assert_eq!(parse(b"*0\r\n:1\r\n"), Ok(ProtocolDataType::Array(vec![])));
    assert_eq!(
        parse(b"*2\r\n*0\r\n*1\r\n_\r\n"),
        Ok(ProtocolDataType::Array(vec![
            ProtocolDataType::Array(vec![]),
            ProtocolDataType::Array(vec![ProtocolDataType::Null]),
        ]))
    );
}

#[test]
fn bytes_behind_the_value_are_left_alone() {
    assert_eq!(
        parse(b"+OK\r\n+NEXT\r\n"),
        Ok(ProtocolDataType::SimpleString("OK".to_string()))
    );
    let (rest, value) = data_type(b"+OK\r\n+NEXT\r\n").unwrap();
    assert_eq!(value, ProtocolDataType::SimpleString("OK".to_string()));
    assert_eq!(rest, b"+NEXT\r\n");
    let (value, end) = parse_at(b"+OK\r\n:12\r\n", 5).unwrap();
    assert_eq!(value, ProtocolDataType::Integer(12));
    assert_eq!(end, 10);
    assert_eq!(data_type(b"").unwrap_err(), ParseError::Truncated);
}

#[test]
fn from_str_reads_the_bytes_of_the_text() {
    assert_eq!(ProtocolDataType::from_str("+hé\r\n"), Ok(ProtocolDataType::SimpleString("hé".into())));
    assert_eq!(ProtocolDataType::from_str("x"), Err(ParseError::UnknownType));
}

#[test]
fn readers_of_one_kind_refuse_the_others() {
    assert_eq!(integer(b":1\r\n"), Ok(ProtocolDataType::Integer(1)));
    assert_eq!(integer(b"+1\r\n"), Err(ParseError::UnknownType));
    assert_eq!(integer(b""), Err(ParseError::Truncated));
    assert_eq!(integer(b":x\r\n"), Err(ParseError::Malformed));
    assert_eq!(boolean(b"#t\r\n"), Ok(ProtocolDataType::Boolean(true)));
    assert_eq!(boolean(b":1\r\n"), Err(ParseError::UnknownType));
    assert_eq!(bulk_string(b"$3\r\nabc\r\n"), Ok(text("abc")));
    assert_eq!(bulk_string(b"$-1\r\n"), Ok(ProtocolDataType::Null));
    assert_eq!(bulk_string(b"!3\r\nabc\r\n"), Err(ParseError::UnknownType));
    assert_eq!(simple_string(b"+a\r\n"), Ok(ProtocolDataType::SimpleString("a".into())));
    assert_eq!(simple_string(b"-a\r\n"), Err(ParseError::UnknownType));
    assert_eq!(simple_error(b"-a\r\n"), Ok(ProtocolDataType::SimpleError("a".into())));
    assert_eq!(simple_error(b"+a\r\n"), Err(ParseError::UnknownType));
    assert_eq!(array(b"*1\r\n_\r\n"), Ok(ProtocolDataType::Array(vec![ProtocolDataType::Null])));
    assert_eq!(array(b"_\r\n"), Err(ParseError::UnknownType));
    assert_eq!(double(b",1.5\r\n"), Ok(number("1.5")));
    assert_eq!(double(b":1\r\n"), Err(ParseError::UnknownType));
}

#[test]
fn double_tokens_follow_the_grammar() {
    for token in ["0", "3", "+3", "-3", "3.", ".5", "-.5", "3.25", "1e5", "1E5", "1.5e+10", "1.e-3", "007"] {
        assert!(check_number_token(token.as_bytes()), "{}", token);
        assert!(token.parse::<f64>().is_ok(), "{}", token);
    }
    for token in ["", ".", "+", "-", "e5", "1e", "1e+", "1e5.0", "1..2", "1 ", " 1", "1e5x", "0x10", "inf", "nan", "-inf"] {
        assert!(!check_number_token(token.as_bytes()), "{}", token);
    }
    assert!(matches!(Double::from_token(b"inf"), Some(Double::Infinity)));
    assert!(matches!(Double::from_token(b"-inf"), Some(Double::NegativeInfinity)));
    assert!(matches!(Double::from_token(b"nan"), Some(Double::NotANumber)));
    assert!(Double::from_token(b"+inf").is_none());
    assert!(Double::from_token(b"NaN").is_none());
    assert_eq!(Double::from_token(b"2.5").unwrap().token(), b"2.5");
    assert_eq!(Double::NotANumber.token(), b"nan");
    assert_eq!(Double::Infinity.token(), b"inf");
    assert_eq!(Double::NegativeInfinity.token(), b"-inf");
    assert!(Double::NotANumber.same(&Double::NotANumber));
    assert!(!Double::Infinity.same(&Double::NegativeInfinity));
    assert!(Double::Number("1".into()).same(&Double::Number("1".into()).duplicate()));
    assert!(!Double::Number("1".into()).same(&Double::Number("1.0".into())));
    assert_eq!(count_digits(b"12a45", 0), 2);
    assert_eq!(count_digits(b"12a45", 2), 0);
    assert_eq!(count_digits(b"12a45", 3), 2);
    assert_eq!(count_digits(b"12a45", 5), 0);
}

#[test]
fn big_numbers_are_held_by_their_base_two_to_the_32_digits() {
    let number = BigNumber::from_decimal(b"4294967296").unwrap();
    assert!(!number.negative);
    assert_eq!(number.magnitude, vec![0, 1]);

    let number = BigNumber::from_decimal(b"-112500000000").unwrap();
    assert!(number.negative);
    assert_eq!(number.magnitude, vec![830850304, 26]);
    assert_eq!(number.to_decimal(), b"-112500000000");

    let zero = BigNumber::from_decimal(b"-0").unwrap();
    assert!(!zero.negative);
    assert!(zero.magnitude.is_empty());
    assert_eq!(zero.to_decimal(), b"0");

    assert_eq!(BigNumber::from_decimal(b"+0012").unwrap().to_decimal(), b"12");
    for refused in [&b""[..], b"+", b"-", b"1_000", b"_1", b"12a", b"+-1", b"--1", b" 1", b"0x1f"] {
        assert!(BigNumber::from_decimal(refused).is_none(), "{:?}", refused);
    }
}

#[test]
fn big_numbers_agree_with_the_arbitrary_precision_arithmetic() {
    for text in [
        "0",
        "1",
        "-1",
        "4294967295",
        "4294967296",
        "18446744073709551615",
        "-340282366920938463463374607431768211456",
        "298416298361318972639172639182763918263981267391826379128",
    ] {
        let expected = BigInt::from_str(text).unwrap();
        let number = BigNumber::from_decimal(text.as_bytes()).unwrap();
        let (sign, digits) = expected.to_u32_digits();
        assert_eq!(number.negative, sign == num_bigint::Sign::Minus);
        assert_eq!(number.magnitude, digits);
        assert_eq!(number.to_decimal(), expected.to_string().into_bytes());
        let mut out = b"(".to_vec();
        number.push_decimal(&mut out);
        assert_eq!(out, format!("({}", expected).into_bytes());
    }
}

#[test]
fn big_numbers_from_digits_must_be_in_shortest_form() {
    assert!(BigNumber::from_limbs(false, vec![]).is_some());
    assert!(BigNumber::from_limbs(true, vec![]).is_none());
    assert!(BigNumber::from_limbs(false, vec![1, 0]).is_none());
    assert!(BigNumber::from_limbs(true, vec![0, 1]).is_some());
    let one = BigNumber::from_limbs(false, vec![5]).unwrap();
    let other = BigNumber::from_limbs(true, vec![5]).unwrap();
    assert!(one.same(&one.duplicate()));
    assert!(!one.same(&other));
    assert!(!one.same(&BigNumber::from_limbs(false, vec![5, 1]).unwrap()));
    assert_eq!(BigNumber { negative: true, magnitude: vec![] }.to_decimal(), b"0");
    assert_eq!(BigNumber { negative: false, magnitude: vec![7, 0, 0] }.to_decimal(), b"7");
}

#[test]
fn decimal_text_of_machine_integers() {
    let mut out = Vec::new();
    push_unsigned(&mut out, 0);
    out.push(b' ');
    push_unsigned(&mut out, u64::MAX);
    out.push(b' ');
    push_signed(&mut out, i64::MIN);
    out.push(b' ');
    push_signed(&mut out, -1);
    out.push(b' ');
    push_signed(&mut out, 1000);
    assert_eq!(out, b"0 18446744073709551615 -9223372036854775808 -1 1000");

    assert_eq!(parse_unsigned(b"x123y", 1, 4), Some(123));
    assert_eq!(parse_unsigned(b"123", 1, 1), None);
    assert_eq!(parse_unsigned(b"18446744073709551615", 0, 20), Some(u64::MAX));
    assert_eq!(parse_unsigned(b"18446744073709551616", 0, 20), None);
    assert_eq!(parse_unsigned(b"12a", 0, 3), None);
    assert_eq!(parse_signed(b"-12", 0, 3), Some(-12));
    assert_eq!(parse_signed(b"+12", 0, 3), Some(12));
    assert_eq!(parse_signed(b"-", 0, 1), None);
    assert_eq!(parse_signed(b"", 0, 0), None);
    assert!(check_signed_decimal(b"-12"));
    assert!(!check_signed_decimal(b"1-2"));
    assert!(!check_signed_decimal(b""));
    assert!(check_digits(b"0123456789"));
    assert!(check_digits(b""));
    assert!(!check_digits(b"12 "));
}

#[test]
fn byte_helpers() {
    let mut out = b"ab".to_vec();
    push_bytes(&mut out, b"cd");
    assert_eq!(out, b"abcd");
    assert_eq!(copy_bytes(b"xyz"), b"xyz");
    assert!(same_bytes(b"abc", b"abc"));
    assert!(!same_bytes(b"abc", b"abd"));
    assert!(!same_bytes(b"abc", b"ab"));
    assert_eq!(ascii_string(b"-12".to_vec()), "-12");
    assert_eq!(find_line_end(b"ab\r\ncd\r\n", 0), 2);
    assert_eq!(find_line_end(b"ab\r\ncd\r\n", 3), 6);
    assert_eq!(find_line_end(b"ab\rcd\n", 0), 6);
    assert_eq!(find_line_end(b"ab\r", 0), 3);
}

#[test]
fn values_compare_by_what_they_hold() {
    assert_eq!(nested(3), nested(3));
    assert_ne!(nested(3), nested(2));
    assert_ne!(text("a"), ProtocolDataType::SimpleString("a".into()));
    assert_ne!(ProtocolDataType::Null, text(""));
    assert_ne!(ProtocolDataType::Null, ProtocolDataType::Array(vec![]));
    assert_ne!(
        ProtocolDataType::Array(vec![ProtocolDataType::Integer(1), ProtocolDataType::Integer(2)]),
        ProtocolDataType::Array(vec![ProtocolDataType::Integer(2), ProtocolDataType::Integer(1)])
    );
    assert_ne!(
        ProtocolDataType::Array(vec![ProtocolDataType::Integer(1)]),
        ProtocolDataType::Array(vec![ProtocolDataType::Integer(1), ProtocolDataType::Integer(1)])
    );
    assert_eq!(
        ProtocolDataType::Double(Double::NotANumber),
        ProtocolDataType::Double(Double::NotANumber)
    );
    assert_eq!(ProtocolDataType::from_text("a"), text("a"));
    assert!(nested(2).same(&nested(2).duplicate()));
}

#[test]
fn values_are_shown_for_a_reader() {
    assert_eq!(ProtocolDataType::Null.to_text(), "null");
    assert_eq!(text("a b").to_text(), "\"a b\"");
    assert_eq!(ProtocolDataType::Integer(-42).to_text(), "-42");
    assert_eq!(ProtocolDataType::SimpleString("OK".into()).to_text(), "OK");
    assert_eq!(ProtocolDataType::SimpleError("ERR x".into()).to_text(), "ERR x");
    assert_eq!(ProtocolDataType::BulkError("ERR y".into()).to_text(), "ERR y");
    assert_eq!(ProtocolDataType::Boolean(true).to_text(), "true");
    assert_eq!(ProtocolDataType::Boolean(false).to_text(), "false");
    assert_eq!(number("3.5").to_text(), 3.5_f64.to_string());
    assert_eq!(ProtocolDataType::Double(Double::NotANumber).to_text(), f64::NAN.to_string());
    assert_eq!(ProtocolDataType::Double(Double::Infinity).to_text(), f64::INFINITY.to_string());
    assert_eq!(
        ProtocolDataType::Double(Double::NegativeInfinity).to_text(),
        f64::NEG_INFINITY.to_string()
    );
    assert_eq!(big("-18446744073709551616").to_text(), "-18446744073709551616");
    assert_eq!(ProtocolDataType::Array(vec![]).to_text(), "[]");
    assert_eq!(
        ProtocolDataType::Array(vec![
            text("a"),
            ProtocolDataType::Integer(1),
            ProtocolDataType::Array(vec![ProtocolDataType::Null, ProtocolDataType::Boolean(true)]),
        ])
        .to_text(),
        "[\"a\",1,[null,true]]"
    );
}

#[test]
fn well_formed_values_are_told_from_the_others() {
    assert!(nested(4).check_well_formed());
    assert!(text("a\r\nb").check_well_formed());
    assert!(ProtocolDataType::SimpleString("a\rb\n".into()).check_well_formed());
    assert!(!ProtocolDataType::SimpleString("a\r\nb".into()).check_well_formed());
    assert!(!ProtocolDataType::SimpleError("\r\n".into()).check_well_formed());
    assert!(number("1e5").check_well_formed());
    assert!(!ProtocolDataType::Double(Double::Number("one".into())).check_well_formed());
    assert!(!ProtocolDataType::Double(Double::Number("nan".into())).check_well_formed());
    assert!(big("-5").check_well_formed());
    assert!(!ProtocolDataType::BigNumber(BigNumber { negative: true, magnitude: vec![] })
        .check_well_formed());
    assert!(!ProtocolDataType::BigNumber(BigNumber { negative: false, magnitude: vec![1, 0] })
        .check_well_formed());
    assert!(!ProtocolDataType::Array(vec![
        text("fine"),
        ProtocolDataType::Array(vec![ProtocolDataType::SimpleString("a\r\nb".into())]),
    ])
    .check_well_formed());
}

#[test]
fn a_value_that_is_not_well_formed_does_not_come_back() {
    let value = ProtocolDataType::SimpleString("a\r\nb".into());
    assert_eq!(parse(&value.serialize()), Ok(ProtocolDataType::SimpleString("a".into())));
    let value = ProtocolDataType::BigNumber(BigNumber { negative: true, magnitude: vec![] });
    assert_eq!(value.serialize(), b"(0\r\n");
    assert_ne!(parse(&value.serialize()), Ok(value));
}
