//! The commands that the client sends, and how each is put on the wire.

use vstd::prelude::*;
use vstd::string::StringExecFns;
use crate::protocol::{lemma_views_of, views_of, wire_bytes, ProtocolDataType, WireValue};
use self::del::DelArguments;
use self::flushdb::FlushDbArguments;
use self::get::GetArguments;
use self::set::SetArguments;

pub mod del;
pub mod flushdb;
pub mod get;
pub mod set;

verus! {

/// The arguments of a command, as values of the protocol.
pub type ProtocolCommandArguments = Vec<ProtocolDataType>;

/// What the arguments of every command can do.
pub trait CommandArguments {
    /// The tokens that follow the name of the command on the wire.
    spec fn protocol_arguments(&self) -> Seq<WireValue>;

    /// Builds the tokens that follow the name of the command on the wire.
    fn to_protocol_arguments(&self) -> (r: ProtocolCommandArguments)
        ensures
            views_of(r@) == self.protocol_arguments(),
    ;
}

/// One of the commands that the client can send.
#[derive(Clone, Debug)]
pub enum Command {
    /// Writes a value under a key.
    SetKey(SetArguments),
    /// Reads the value under a key.
    Get(GetArguments),
    /// Removes keys.
    Del(DelArguments),
    /// Empties the database.
    FlushDb(FlushDbArguments),
}

/// The token that holds `text`.
pub open spec fn token(text: Seq<char>) -> WireValue {
    WireValue::BulkString(text)
}

/// Appends the token that holds `text` to `arguments`.
pub fn push_token(arguments: &mut Vec<ProtocolDataType>, text: String)
    ensures
        views_of(final(arguments)@) == views_of(old(arguments)@).push(token(text@)),
{
    let ghost value = ProtocolDataType::BulkString(text);
    arguments.push(ProtocolDataType::BulkString(text));
    proof {
        assert(arguments@ =~= old(arguments)@.push(value));
        assert(arguments@.drop_last() =~= old(arguments)@);
        assert(arguments@.last() == value);
        assert(value@ == token(text@));
    }
}

/// The models of two runs of values, one behind the other, are the models
/// of the first, then those of the second.
pub proof fn lemma_views_of_concat(a: Seq<ProtocolDataType>, b: Seq<ProtocolDataType>)
    ensures
        views_of(a + b) == views_of(a) + views_of(b),
{
    lemma_views_of(a);
    lemma_views_of(b);
    lemma_views_of(a + b);
    assert(views_of(a + b) =~= views_of(a) + views_of(b));
}

impl Command {
    /// The name of the command, as the store knows it.
    pub open spec fn name(&self) -> Seq<char> {
        match self {
            Command::SetKey(_) => "SET"@,
            Command::Get(_) => "GET"@,
            Command::Del(_) => "DEL"@,
            Command::FlushDb(_) => "FLUSHDB"@,
        }
    }

    /// The tokens that follow the name of the command on the wire.
    pub open spec fn arguments(&self) -> Seq<WireValue> {
        match self {
            Command::SetKey(arguments) => arguments.protocol_arguments(),
            Command::Get(arguments) => arguments.protocol_arguments(),
            Command::Del(arguments) => arguments.protocol_arguments(),
            Command::FlushDb(arguments) => arguments.protocol_arguments(),
        }
    }

    /// The value that stands on the wire for the command: an array of its
    /// name and its arguments.
    pub open spec fn request(&self) -> WireValue {
        WireValue::Array(seq![token(self.name())] + self.arguments())
    }

    /// The name of the command, as the store knows it.
    pub fn command_name(&self) -> (r: &'static str)
        ensures
            r@ == self.name(),
    {
        match self {
            Command::SetKey(_) => "SET",
            Command::Get(_) => "GET",
            Command::Del(_) => "DEL",
            Command::FlushDb(_) => "FLUSHDB",
        }
    }

    /// The tokens that follow the name of the command on the wire.
    pub fn argument_list(&self) -> (r: ProtocolCommandArguments)
        ensures
            views_of(r@) == self.arguments(),
    {
        match self {
            Command::SetKey(arguments) => arguments.to_protocol_arguments(),
            Command::Get(arguments) => arguments.to_protocol_arguments(),
            Command::Del(arguments) => arguments.to_protocol_arguments(),
            Command::FlushDb(arguments) => arguments.to_protocol_arguments(),
        }
    }

    /// The bytes that stand on the wire for the command.
    pub fn serialize(&self) -> (r: Vec<u8>)
        ensures
            r@ == wire_bytes(self.request()),
    {
        let mut arguments: Vec<ProtocolDataType> = Vec::new();
        push_token(&mut arguments, String::from_str(self.command_name()));
        let ghost head = arguments@;
        let mut list = self.argument_list();
        let ghost tail = list@;
        arguments.append(&mut list);
        proof {
            lemma_views_of_concat(head, tail);
            assert(views_of(head) =~= seq![token(self.name())]);
        }
        ProtocolDataType::Array(arguments).serialize()
    }
}

} // verus!
