//! Emptying the database.

use vstd::prelude::*;
use vstd::string::StringExecFns;
use crate::commands::{push_token, token, CommandArguments, ProtocolCommandArguments};
use crate::protocol::{views_of, ProtocolDataType, WireValue};

verus! {

/// The arguments of the command that empties the database.
#[derive(Clone, Copy, Debug)]
pub struct FlushDbArguments {
    /// Whether the store may empty the database in the background.
    pub async_flush: bool,
}

impl FlushDbArguments {
    /// The arguments that empty the database, in the background where
    /// `async_flush` is set.
    pub fn new(async_flush: bool) -> (r: Self)
        ensures
            r.async_flush == async_flush,
    {
        Self { async_flush }
    }
}

impl CommandArguments for FlushDbArguments {
    /// `ASYNC` for the background, `SYNC` otherwise.
    open spec fn protocol_arguments(&self) -> Seq<WireValue> {
        if self.async_flush {
            seq![token("ASYNC"@)]
        } else {
            seq![token("SYNC"@)]
        }
    }

    fn to_protocol_arguments(&self) -> (r: ProtocolCommandArguments) {
        let mut arguments: Vec<ProtocolDataType> = Vec::new();
        if self.async_flush {
            push_token(&mut arguments, String::from_str("ASYNC"));
        } else {
            push_token(&mut arguments, String::from_str("SYNC"));
        }
        assert(views_of(arguments@) =~= self.protocol_arguments());
        arguments
    }
}

} // verus!
