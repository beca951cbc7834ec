//! Reading the value under a key.

use vstd::prelude::*;
use crate::commands::{push_token, token, CommandArguments, ProtocolCommandArguments};
use crate::protocol::{ProtocolDataType, WireValue};

verus! {

/// The arguments of the command that reads a key.
#[derive(Clone, Debug)]
pub struct GetArguments {
    /// The key to read.
    pub key: String,
}

impl GetArguments {
    /// The arguments that read `key`.
    pub fn new(key: &str) -> (r: Self)
        ensures
            r.key@ == key@,
    {
        Self { key: key.to_owned() }
    }
}

impl CommandArguments for GetArguments {
    /// The key alone.
    open spec fn protocol_arguments(&self) -> Seq<WireValue> {
        seq![token(self.key@)]
    }

    fn to_protocol_arguments(&self) -> (r: ProtocolCommandArguments) {
        let mut arguments: Vec<ProtocolDataType> = Vec::new();
        push_token(&mut arguments, self.key.clone());
        assert(crate::protocol::views_of(arguments@) =~= seq![token(self.key@)]);
        arguments
    }
}

} // verus!
