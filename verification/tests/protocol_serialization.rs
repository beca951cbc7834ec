use camas::bignum::BigNumber;
use camas::double::Double;
use camas::protocol::ProtocolDataType;
use num_bigint::{BigInt, Sign};
use std::str::FromStr;

fn double(value: f64) -> Double {
    if value.is_nan() {
        Double::NotANumber
    } else if value == f64::INFINITY {
        Double::Infinity
    } else if value == f64::NEG_INFINITY {
        Double::NegativeInfinity
    } else {
        Double::from_token(value.to_string().as_bytes()).unwrap()
    }
}

fn big_number(text: &str) -> BigNumber {
    let (sign, limbs) = BigInt::from_str(text).unwrap().to_u32_digits();
    BigNumber::from_limbs(sign == Sign::Minus, limbs).unwrap()
}

#[test]
fn serializes_null() {
    let result = ProtocolDataType::Null.serialize();

    assert_eq!(result, "_\r\n".as_bytes());
}

#[test]
fn serializes_double_with_no_fractional_part() {
    let result = ProtocolDataType::Double(double(3_f64)).serialize();

    assert_eq!(result, ",3\r\n".as_bytes());
}

#[test]
fn serializes_double_with_fractional_part() {
    let result = ProtocolDataType::Double(double(3.141592)).serialize();

    assert_eq!(result, ",3.141592\r\n".as_bytes());
}

#[test]
fn serializes_double_with_infinity() {
    let result = ProtocolDataType::Double(double(f64::INFINITY)).serialize();

    assert_eq!(result, ",inf\r\n".as_bytes());
}

#[test]
fn serializes_double_with_negative_infinity() {
    let result = ProtocolDataType::Double(double(f64::NEG_INFINITY)).serialize();

    assert_eq!(result, ",-inf\r\n".as_bytes());
}

#[test]
fn serializes_double_with_not_a_number() {
    let result = ProtocolDataType::Double(double(f64::NAN)).serialize();

    assert_eq!(result, ",nan\r\n".as_bytes());
}

#[test]
fn serializes_boolean_true() {
    let result = ProtocolDataType::Boolean(true).serialize();

    assert_eq!(result, "#t\r\n".as_bytes());
}

#[test]
fn serializes_boolean_false() {
    let result = ProtocolDataType::Boolean(false).serialize();

    assert_eq!(result, "#f\r\n".as_bytes());
}

#[test]
fn serializes_positive_integer() {
    let result = ProtocolDataType::Integer(42).serialize();

    assert_eq!(result, ":42\r\n".as_bytes());
}

#[test]
fn serializes_negative_integer() {
    let result = ProtocolDataType::Integer(-42).serialize();

    assert_eq!(result, ":-42\r\n".as_bytes());
}

#[test]
fn serializes_positive_big_number() {
    let value = "298416298361318972639172639182763918263981267391826379128";

    let result = ProtocolDataType::BigNumber(big_number(value)).serialize();

    let expected = format!("({}\r\n", value);

    assert_eq!(result, expected.as_bytes());
}

#[test]
fn serializes_negative_big_number() {
    let value = "-298416298361318972639172639182763918263981267391826379128";

    let result = ProtocolDataType::BigNumber(big_number(value)).serialize();

    let expected = format!("({}\r\n", value);

    assert_eq!(result, expected.as_bytes());
}

#[test]
fn serializes_bulk_error() {
    let result = ProtocolDataType::BulkError("Some error".into()).serialize();

    assert_eq!(result, "!10\r\nSome error\r\n".as_bytes());
}

#[test]
fn serializes_bulk_string() {
    let result = ProtocolDataType::BulkString("Some string".into()).serialize();

    assert_eq!(result, "$11\r\nSome string\r\n".as_bytes());
}

#[test]
fn serializes_bulk_string_with_zero_length() {
    let result = ProtocolDataType::BulkString("".into()).serialize();

    assert_eq!(result, "$0\r\n".as_bytes());
}

#[test]
fn serializes_simple_error() {
    let result = ProtocolDataType::SimpleError("ERR Some error".into()).serialize();

    assert_eq!(result, "-ERR Some error\r\n".as_bytes());
}

#[test]
fn serializes_simple_string() {
    let result = ProtocolDataType::SimpleString("OK".into()).serialize();

    assert_eq!(result, "+OK\r\n".as_bytes());
}

#[test]
fn serializes_array() {
    let result = ProtocolDataType::Array(vec![
        ProtocolDataType::BulkString("Foo".into()),
        ProtocolDataType::Integer(42),
        ProtocolDataType::Boolean(true),
    ])
    .serialize();

    assert_eq!(result, "*3\r\n$3\r\nFoo\r\n:42\r\n#t\r\n".as_bytes());
}

#[test]
fn serializes_nested_array() {
    let result = ProtocolDataType::Array(vec![
        ProtocolDataType::BulkString("Foo".into()),
        ProtocolDataType::Array(vec![
            ProtocolDataType::Boolean(true),
            ProtocolDataType::Integer(42),
        ]),
    ])
    .serialize();

    assert_eq!(result, "*2\r\n$3\r\nFoo\r\n*2\r\n#t\r\n:42\r\n".as_bytes());
}

#[test]
fn serializes_array_with_no_items() {
    let result = ProtocolDataType::Array(vec![]).serialize();

    assert_eq!(result, "*0\r\n".as_bytes());
}
