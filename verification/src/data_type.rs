//! The values that a user of the client sees: a text, or a list of texts.

use vstd::prelude::*;
use vstd::string::StringExecFns;
use crate::decimal::int_text;
use crate::display::{
    boolean_string, double_text, integer_string, join_texts, joined, texts_of,
};
use crate::double::Double;
use crate::protocol::{lemma_views_of, views_of, ProtocolDataType, WireValue};
use crate::text::{ascii_chars, ascii_string, lemma_int_text_ascii};

verus! {

/// A user-facing value.
#[derive(Clone, Debug)]
pub enum DataType {
    /// A text.
    String(String),
    /// A list of texts.
    List(Vec<String>),
}

/// What a user-facing value is: the model that the contracts speak of.
pub enum DataTypeView {
    /// A text.
    String(Seq<char>),
    /// A list of texts.
    List(Seq<Seq<char>>),
}

impl View for DataType {
    type V = DataTypeView;

    open spec fn view(&self) -> DataTypeView {
        match self {
            DataType::String(text) => DataTypeView::String(text@),
            DataType::List(items) => DataTypeView::List(texts_of(items@)),
        }
    }
}

/// How a user-facing value is shown: a text between double quotes, a list
/// between square brackets with commas between its texts.
pub open spec fn shown(value: DataTypeView) -> Seq<char> {
    match value {
        DataTypeView::String(text) => seq!['"'] + text + seq!['"'],
        DataTypeView::List(items) => seq!['['] + joined(items) + seq![']'],
    }
}

/// The text that a value of the protocol becomes for the user, where it is
/// neither null, nor an error, nor an array.
pub open spec fn scalar_text(value: WireValue) -> Option<Seq<char>> {
    match value {
        WireValue::Double(double) => Some(double_text(double)),
        WireValue::Boolean(boolean) => Some(
            if boolean {
                seq!['t', 'r', 'u', 'e']
            } else {
                seq!['f', 'a', 'l', 's', 'e']
            },
        ),
        WireValue::Integer(integer) => Some(ascii_chars(int_text(integer as int))),
        WireValue::BigNumber(number) => Some(ascii_chars(int_text(number.value()))),
        WireValue::BulkString(text) => Some(text),
        WireValue::SimpleString(text) => Some(text),
        _ => None,
    }
}

/// The user-facing value that a value of the protocol becomes: a scalar
/// becomes its text, an array the list of how each of its elements is shown
/// once it is converted. Null and errors become nothing, and so does an array
/// that holds an element that becomes nothing.
pub open spec fn converted(value: WireValue) -> Option<DataTypeView>
    decreases value, 0nat,
{
    match value {
        WireValue::Array(items) => match converted_items(items) {
            Some(texts) => Some(DataTypeView::List(texts)),
            None => None,
        },
        _ => match scalar_text(value) {
            Some(text) => Some(DataTypeView::String(text)),
            None => None,
        },
    }
}

/// How each of several values of the protocol is shown once it is converted,
/// where each of them becomes something.
pub open spec fn converted_items(items: Seq<WireValue>) -> Option<Seq<Seq<char>>>
    decreases items, 1nat,
{
    if items.len() == 0 {
        Some(Seq::empty())
    } else {
        match (converted_items(items.drop_last()), converted(items.last())) {
            (Some(front), Some(last)) => Some(front.push(shown(last))),
            _ => None,
        }
    }
}

/// The value of the protocol that stands for a user-facing value: a bulk
/// string for a text, an array of bulk strings for a list.
pub open spec fn protocol_value(value: DataTypeView) -> WireValue {
    match value {
        DataTypeView::String(text) => WireValue::BulkString(text),
        DataTypeView::List(items) => WireValue::Array(
            Seq::new(items.len(), |i: int| WireValue::BulkString(items[i])),
        ),
    }
}

/// Where the first values of a run do not all become something, the run
/// does not either.
pub proof fn lemma_converted_items_prefix(items: Seq<WireValue>, k: int)
    requires
        0 <= k <= items.len(),
        converted_items(items.subrange(0, k)) is None,
    ensures
        converted_items(items) is None,
    decreases items.len() - k,
{
    if k < items.len() {
        assert(items.subrange(0, k + 1).drop_last() =~= items.subrange(0, k));
        lemma_converted_items_prefix(items, k + 1);
    } else {
        assert(items.subrange(0, k) =~= items);
    }
}

/// The text `sei la`, which says that a value could not be converted.
pub open spec fn not_convertible() -> Seq<char> {
    seq!['s', 'e', 'i', ' ', 'l', 'a']
}

impl DataType {
    /// How the value is shown.
    pub fn to_text(&self) -> (r: String)
        ensures
            r@ == shown(self@),
    {
        proof {
            reveal_strlit("\"");
            reveal_strlit("[");
            reveal_strlit("]");
        }
        match self {
            DataType::String(text) => {
                let mut out = String::from_str("\"");
                out.append(text.as_str());
                out.append("\"");
                assert(out@ =~= shown(self@));
                out
            },
            DataType::List(items) => {
                let mut out = String::from_str("[");
                let inner = join_texts(items);
                out.append(inner.as_str());
                out.append("]");
                assert(out@ =~= shown(self@));
                out
            },
        }
    }

    /// The value of the protocol that stands for this value.
    pub fn into_protocol(self) -> (r: ProtocolDataType)
        ensures
            r@ == protocol_value(self@),
    {
        match self {
            DataType::String(text) => ProtocolDataType::BulkString(text),
            DataType::List(items) => {
                let mut values: Vec<ProtocolDataType> = Vec::new();
                let mut i: usize = 0;
                while i < items.len()
                    invariant
                        i <= items@.len(),
                        values@.len() == i,
                        forall|j: int|
                            0 <= j < i ==> (#[trigger] values@[j])@ == WireValue::BulkString(
                                items@[j]@,
                            ),
                    decreases items@.len() - i,
                {
                    values.push(ProtocolDataType::BulkString(items[i].clone()));
                    i += 1;
                }
                proof {
                    lemma_views_of(values@);
                    assert(views_of(values@) =~= Seq::new(
                        texts_of(items@).len(),
                        |i: int| WireValue::BulkString(texts_of(items@)[i]),
                    ));
                }
                ProtocolDataType::Array(values)
            },
        }
    }

    /// The user-facing value that a value of the protocol becomes, or the
    /// text `sei la` where it becomes none.
    pub fn try_from(value: &ProtocolDataType) -> (r: Result<DataType, String>)
        ensures
            match r {
                Ok(data) => converted(value@) == Some(data@),
                Err(message) => converted(value@) is None && message@ == not_convertible(),
            },
        decreases value,
    {
        proof {
            reveal_strlit("sei la");
            assert("sei la"@ =~= not_convertible());
        }
        match value {
            ProtocolDataType::Double(double) => Ok(DataType::String(double.to_text())),
            ProtocolDataType::Boolean(boolean) => Ok(DataType::String(boolean_string(*boolean))),
            ProtocolDataType::Integer(integer) => Ok(DataType::String(integer_string(*integer))),
            ProtocolDataType::BigNumber(number) => {
                let digits = number.to_decimal();
                proof {
                    lemma_int_text_ascii(number@.value());
                }
                Ok(DataType::String(ascii_string(digits)))
            },
            ProtocolDataType::BulkString(text) => Ok(DataType::String(text.clone())),
            ProtocolDataType::SimpleString(text) => Ok(DataType::String(text.clone())),
            ProtocolDataType::Array(items) => {
                let mut texts: Vec<String> = Vec::new();
                let mut i: usize = 0;
                proof {
                    lemma_views_of(items@);
                }
                while i < items.len()
                    invariant
                        i <= items@.len(),
                        converted_items(views_of(items@).subrange(0, i as int)) == Some(
                            texts_of(texts@),
                        ),
                        views_of(items@).len() == items@.len(),
                        forall|j: int|
                            0 <= j < items@.len() ==> (#[trigger] views_of(items@)[j])
                                == items@[j]@,
                        *value is Array,
                        value->Array_0 == *items,
                        "sei la"@ == not_convertible(),
                    decreases items@.len() - i,
                {
                    let ghost before = views_of(items@).subrange(0, i as int);
                    let ghost after = views_of(items@).subrange(0, i + 1);
                    proof {
                        assert(after.drop_last() =~= before);
                        assert(after.last() == items@[i as int]@);
                        vstd::std_specs::vec::axiom_vec_index_decreases(*items, i as int);
                        assert(decreases_to!(*value => value->Array_0));
                    }
                    match DataType::try_from(&items[i]) {
                        Ok(data) => {
                            let ghost texts_before = texts_of(texts@);
                            texts.push(data.to_text());
                            proof {
                                assert(texts_of(texts@) =~= texts_before.push(shown(data@)));
                            }
                        },
                        Err(_) => {
                            proof {
                                lemma_converted_items_prefix(views_of(items@), i + 1);
                            }
                            return Err(String::from_str("sei la"));
                        },
                    }
                    i += 1;
                }
                proof {
                    assert(views_of(items@).subrange(0, i as int) =~= views_of(items@));
                }
                Ok(DataType::List(texts))
            },
            _ => Err(String::from_str("sei la")),
        }
    }

    /// Whether `self` and `other` are the same value.
    pub fn same(&self, other: &DataType) -> (r: bool)
        ensures
            r == (self@ == other@),
    {
        match (self, other) {
            (DataType::String(lhs), DataType::String(rhs)) => *lhs == *rhs,
            (DataType::List(lhs), DataType::List(rhs)) => {
                if lhs.len() != rhs.len() {
                    assert(texts_of(lhs@).len() != texts_of(rhs@).len());
                    return false;
                }
                let mut i: usize = 0;
                while i < lhs.len()
                    invariant
                        i <= lhs@.len(),
                        lhs@.len() == rhs@.len(),
                        forall|j: int| 0 <= j < i ==> (#[trigger] lhs@[j])@ == rhs@[j]@,
                        self@ == DataTypeView::List(texts_of(lhs@)),
                        other@ == DataTypeView::List(texts_of(rhs@)),
                    decreases lhs@.len() - i,
                {
                    if lhs[i] != rhs[i] {
                        assert(texts_of(lhs@)[i as int] != texts_of(rhs@)[i as int]);
                        return false;
                    }
                    i += 1;
                }
                assert(texts_of(lhs@) =~= texts_of(rhs@));
                true
            },
            _ => false,
        }
    }
}

impl PartialEq for DataType {
    fn eq(&self, other: &Self) -> (r: bool) {
        self.same(other)
    }
}

impl vstd::std_specs::cmp::PartialEqSpecImpl for DataType {
    open spec fn obeys_eq_spec() -> bool {
        true
    }

    open spec fn eq_spec(&self, other: &Self) -> bool {
        self@ == other@
    }
}

} // verus!
