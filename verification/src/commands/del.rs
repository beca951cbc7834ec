//! Removing keys.

use vstd::prelude::*;
use crate::commands::{push_token, token, CommandArguments, ProtocolCommandArguments};
use crate::protocol::{views_of, ProtocolDataType, WireValue};

verus! {

/// The arguments of the command that removes keys.
#[derive(Clone, Debug)]
pub struct DelArguments {
    /// The keys to remove.
    pub keys: Vec<String>,
}

impl DelArguments {
    /// The arguments that remove `keys`.
    pub fn new(keys: Vec<&str>) -> (r: Self)
        ensures
            r.keys@.len() == keys@.len(),
            forall|i: int| 0 <= i < keys@.len() ==> (#[trigger] r.keys@[i])@ == keys@[i]@,
    {
        let mut owned: Vec<String> = Vec::new();
        let mut i: usize = 0;
        while i < keys.len()
            invariant
                i <= keys@.len(),
                owned@.len() == i,
                forall|j: int| 0 <= j < i ==> (#[trigger] owned@[j])@ == keys@[j]@,
            decreases keys@.len() - i,
        {
            owned.push(keys[i].to_owned());
            i += 1;
        }
        Self { keys: owned }
    }
}

impl CommandArguments for DelArguments {
    /// Each key, in the order given.
    open spec fn protocol_arguments(&self) -> Seq<WireValue> {
        Seq::new(self.keys@.len(), |i: int| token(self.keys@[i]@))
    }

    fn to_protocol_arguments(&self) -> (r: ProtocolCommandArguments) {
        let mut arguments: Vec<ProtocolDataType> = Vec::new();
        let mut i: usize = 0;
        assert(views_of(arguments@) =~= Seq::new(0, |j: int| token(self.keys@[j]@)));
        while i < self.keys.len()
            invariant
                i <= self.keys@.len(),
                views_of(arguments@) == Seq::new(i as nat, |j: int| token(self.keys@[j]@)),
            decreases self.keys@.len() - i,
        {
            push_token(&mut arguments, self.keys[i].clone());
            i += 1;
            assert(views_of(arguments@) =~= Seq::new(i as nat, |j: int| token(self.keys@[j]@)));
        }
        arguments
    }
}

} // verus!
