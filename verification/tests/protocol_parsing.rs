use camas::bignum::BigNumber;
use camas::double::Double;
use camas::parser::ParseError;
use camas::protocol::ProtocolDataType;
use num_bigint::{BigInt, Sign};
use std::str::FromStr;

fn double(value: f64) -> Double {
    if value.is_nan() {
        Double::NotANumber
    } else if value == f64::INFINITY {
        Double::Infinity
    } else if value == f64::NEG_INFINITY {
        Double::NegativeInfinity
    } else {
        Double::from_token(value.to_string().as_bytes()).unwrap()
    }
}

fn number(value: &ProtocolDataType) -> f64 {
    match value {
        ProtocolDataType::Double(Double::NotANumber) => f64::NAN,
        ProtocolDataType::Double(Double::Infinity) => f64::INFINITY,
        ProtocolDataType::Double(Double::NegativeInfinity) => f64::NEG_INFINITY,
        ProtocolDataType::Double(Double::Number(text)) => text.parse().unwrap(),
        other => panic!("{:?} is no double", other),
    }
}

fn big_number(text: &str) -> BigNumber {
    let (sign, limbs) = BigInt::from_str(text).unwrap().to_u32_digits();
    BigNumber::from_limbs(sign == Sign::Minus, limbs).unwrap()
}

#[test]
fn parses_null() -> Result<(), ParseError> {
    let expected = ProtocolDataType::Null;

    let result: ProtocolDataType = "_\r\n".parse()?;

    assert_eq!(expected, result);

    Ok(())
}

#[test]
fn parses_unsigned_double_with_no_fractional_part() -> Result<(), ParseError> {
    let expected = ProtocolDataType::Double(double(3.0));

    let result: ProtocolDataType = ",3\r\n".parse()?;

    assert_eq!(expected, result);

    Ok(())
}

#[test]
fn parses_positive_double_with_no_fractional_part() -> Result<(), ParseError> {
    let expected = 3.0;

    let result: ProtocolDataType = ",+3\r\n".parse()?;

    assert_eq!(expected, number(&result));

    Ok(())
}

#[test]
fn parses_negative_double_with_no_fractional_part() -> Result<(), ParseError> {
    let expected = -3.0;

    let result: ProtocolDataType = ",-3\r\n".parse()?;

    assert_eq!(expected, number(&result));

    Ok(())
}

#[test]
fn parses_unsigned_double_with_fractional_part() -> Result<(), ParseError> {
    let expected = ProtocolDataType::Double(double(3.141592));

    let result: ProtocolDataType = ",3.141592\r\n".parse()?;

    assert_eq!(expected, result);

    Ok(())
}

#[test]
fn parses_positive_double_with_fractional_part() -> Result<(), ParseError> {
    let expected = 3.141592;

    let result: ProtocolDataType = ",+3.141592\r\n".parse()?;

    assert_eq!(expected, number(&result));

    Ok(())
}

#[test]
fn parses_negative_double_with_fractional_part() -> Result<(), ParseError> {
    let expected = -3.141592;

    let result: ProtocolDataType = ",-3.141592\r\n".parse()?;

    assert_eq!(expected, number(&result));

    Ok(())
}

#[test]
fn parses_double_with_infinity() -> Result<(), ParseError> {
    let expected = ProtocolDataType::Double(double(f64::INFINITY));

    let result: ProtocolDataType = ",inf\r\n".parse()?;

    assert_eq!(expected, result);

    Ok(())
}

#[test]
fn parses_double_with_negative_infinity() -> Result<(), ParseError> {
    let expected = ProtocolDataType::Double(double(f64::NEG_INFINITY));

    let result: ProtocolDataType = ",-inf\r\n".parse()?;

    assert_eq!(expected, result);

    Ok(())
}

#[test]
fn parses_double_with_not_a_number() -> Result<(), ParseError> {
    let expected = ProtocolDataType::Double(double(f64::NAN));

    let result: ProtocolDataType = ",nan\r\n".parse()?;

    assert_eq!(expected, result);

    Ok(())
}

#[test]
fn parses_boolean_true() -> Result<(), ParseError> {
    let expected = ProtocolDataType::Boolean(true);

    let result: ProtocolDataType = "#t\r\n".parse()?;

    assert_eq!(expected, result);

    Ok(())
}

#[test]
fn parses_boolean_false() -> Result<(), ParseError> {
    let expected = ProtocolDataType::Boolean(false);

    let result: ProtocolDataType = "#f\r\n".parse()?;

    assert_eq!(expected, result);

    Ok(())
}

#[test]
fn parses_unsigned_integer() -> Result<(), ParseError> {
    let expected = ProtocolDataType::Integer(42);

    let result: ProtocolDataType = ":42\r\n".parse()?;

    assert_eq!(expected, result);

    Ok(())
}

#[test]
fn parses_positive_integer() -> Result<(), ParseError> {
    let expected = ProtocolDataType::Integer(42);

    let result: ProtocolDataType = ":+42\r\n".parse()?;

    assert_eq!(expected, result);

    Ok(())
}

#[test]
fn parses_negative_integer() -> Result<(), ParseError> {
    let expected = ProtocolDataType::Integer(-42);

    let result: ProtocolDataType = ":-42\r\n".parse()?;

    assert_eq!(expected, result);

    Ok(())
}

#[test]
fn parses_positive_big_number() -> Result<(), ParseError> {
    let number_str = "298416298361318972639172639182763918263981267391826379128";

    let expected = ProtocolDataType::BigNumber(big_number(number_str));

    let result: ProtocolDataType = format!("({}\r\n", number_str).parse()?;

    assert_eq!(expected, result);

    Ok(())
}

#[test]
fn parses_negative_big_number() -> Result<(), ParseError> {
    let number_str = "-298416298361318972639172639182763918263981267391826379128";

    let expected = ProtocolDataType::BigNumber(big_number(number_str));

    let result: ProtocolDataType = format!("({}\r\n", number_str).parse()?;

    assert_eq!(expected, result);

    Ok(())
}

#[test]
fn parses_bulk_error() -> Result<(), ParseError> {
    let expected = ProtocolDataType::BulkError(String::from("Some error"));

    let result: ProtocolDataType = "!10\r\nSome error\r\n".parse()?;

    assert_eq!(expected, result);

    Ok(())
}

#[test]
fn parses_bulk_string() -> Result<(), ParseError> {
    let expected = ProtocolDataType::BulkString(String::from("Some string"));

    let result: ProtocolDataType = "$11\r\nSome string\r\n".parse()?;

    assert_eq!(expected, result);

    Ok(())
}

#[test]
fn parses_bulk_string_with_zero_length() -> Result<(), ParseError> {
    let expected = ProtocolDataType::BulkString(String::new());

    let result: ProtocolDataType = "$0\r\n".parse()?;

    assert_eq!(expected, result);

    Ok(())
}

#[test]
fn parses_simple_error() -> Result<(), ParseError> {
    let expected = ProtocolDataType::SimpleError(String::from("ERR Some error"));

    let result: ProtocolDataType = "-ERR Some error\r\n".parse()?;

    assert_eq!(expected, result);

    Ok(())
}

#[test]
fn parses_simple_string() -> Result<(), ParseError> {
    let expected = ProtocolDataType::SimpleString(String::from("OK"));

    let result: ProtocolDataType = "+OK\r\n".parse()?;

    assert_eq!(expected, result);

    Ok(())
}

#[test]
fn parses_array() -> Result<(), ParseError> {
    let expected = ProtocolDataType::Array(vec![
        ProtocolDataType::BulkString(String::from("Foo")),
        ProtocolDataType::Integer(42),
        ProtocolDataType::Boolean(true),
    ]);

    let result: ProtocolDataType = "*3\r\n$3\r\nFoo\r\n:42\r\n#t\r\n".parse()?;

    assert_eq!(expected, result);

    Ok(())
}

#[test]
fn parses_array_with_no_items() -> Result<(), ParseError> {
    let expected = ProtocolDataType::Array(Vec::new());

    let result: ProtocolDataType = "*0\r\n".parse()?;

    assert_eq!(expected, result);

    Ok(())
}

#[test]
fn parses_nested_array() -> Result<(), ParseError> {
    let expected = ProtocolDataType::Array(vec![
        ProtocolDataType::Array(vec![
            ProtocolDataType::Integer(1),
            ProtocolDataType::Integer(2),
            ProtocolDataType::Integer(3),
        ]),
        ProtocolDataType::Array(vec![
            ProtocolDataType::SimpleString(String::from("Hello")),
            ProtocolDataType::SimpleError(String::from("World")),
        ]),
    ]);

    let result: ProtocolDataType =
        "*2\r\n*3\r\n:1\r\n:2\r\n:3\r\n*2\r\n+Hello\r\n-World\r\n".parse()?;

    assert_eq!(expected, result);

    Ok(())
}
