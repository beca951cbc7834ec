//! What the answers of the store mean to the client.

use vstd::prelude::*;
use crate::data_type::{converted, not_convertible, DataType};
use crate::parser::{parse, parsed, ParseError};
use crate::protocol::{ProtocolDataType, WireValue};

verus! {

/// Why a command did not give a value.
#[derive(Debug)]
pub enum ReplyError {
    /// The answer could not be read.
    Unreadable(ParseError),
    /// The store refused the command, with this text.
    Refused(String),
}

/// The text of the error that a value is, where it is one.
pub open spec fn refusal(value: WireValue) -> Option<Seq<char>> {
    match value {
        WireValue::SimpleError(text) => Some(text),
        WireValue::BulkError(text) => Some(text),
        _ => None,
    }
}

/// Tells the errors among the answers of the store from the values: an
/// error gives its text as a failure, any other value is handed on.
pub fn accept(response: ProtocolDataType) -> (r: Result<ProtocolDataType, String>)
    ensures
        match r {
            Ok(value) => refusal(response@) is None && value@ == response@,
            Err(text) => refusal(response@) == Some(text@),
        },
{
    match response {
        ProtocolDataType::SimpleError(text) => Err(text),
        ProtocolDataType::BulkError(text) => Err(text),
        value => Ok(value),
    }
}

/// Reads the answer of the store from the bytes that came in: a failure
/// where they cannot be read or hold an error, the value otherwise.
pub fn read_reply(input: &[u8]) -> (r: Result<ProtocolDataType, ReplyError>)
    ensures
        match r {
            Ok(value) => parsed(input@) == Ok::<WireValue, ParseError>(value@) && refusal(value@)
                is None,
            Err(ReplyError::Unreadable(e)) => parsed(input@) == Err::<WireValue, ParseError>(e),
            Err(ReplyError::Refused(text)) => parsed(input@) is Ok && refusal(
                parsed(input@)->Ok_0,
            ) == Some(text@),
        },
{
    match parse(input) {
        Err(e) => Err(ReplyError::Unreadable(e)),
        Ok(value) => match accept(value) {
            Ok(value) => Ok(value),
            Err(text) => Err(ReplyError::Refused(text)),
        },
    }
}

/// What the answer to a read means: nothing where the key holds no value,
/// the value otherwise, and the text `sei la` as a failure where the answer
/// is nothing that a user can see.
pub fn get_reply(response: &ProtocolDataType) -> (r: Result<Option<DataType>, String>)
    ensures
        match r {
            Ok(None) => response@ is Null,
            Ok(Some(value)) => !(response@ is Null) && converted(response@) == Some(value@),
            Err(text) => !(response@ is Null) && converted(response@) is None && text@
                == not_convertible(),
        },
{
    match response {
        ProtocolDataType::Null => Ok(None),
        value => match DataType::try_from(value) {
            Ok(data) => Ok(Some(data)),
            Err(text) => Err(text),
        },
    }
}

/// How many keys an answer to a removal says were removed, where it is a
/// count that fits 32 bits.
pub open spec fn removed(response: WireValue) -> Option<u32> {
    match response {
        WireValue::Integer(count) => if 0 <= count <= u32::MAX {
            Some(count as u32)
        } else {
            None
        },
        _ => None,
    }
}

/// What the answer to a removal means: the number of keys that were
/// removed, or nothing where the answer is no such number.
pub fn del_reply(response: &ProtocolDataType) -> (r: Option<u32>)
    ensures
        r == removed(response@),
{
    match response {
        ProtocolDataType::Integer(count) => {
            if 0 <= *count && *count <= 4294967295i64 {
                Some(*count as u32)
            } else {
                None
            }
        },
        _ => None,
    }
}

} // verus!
