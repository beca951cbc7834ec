//! How values are shown to a reader.

use vstd::prelude::*;
use vstd::string::StringExecFns;
use crate::decimal::{int_text, push_signed};
use crate::double::{Double, DoubleView};
use crate::protocol::{lemma_views_of, views_of, ProtocolDataType, WireValue};
use crate::text::{ascii_chars, ascii_string, lemma_int_text_ascii};

verus! {

/// The texts that strings hold, in their order.
pub open spec fn texts_of(items: Seq<String>) -> Seq<Seq<char>> {
    Seq::new(items.len(), |i: int| items[i]@)
}

/// The texts of a list with a comma between each two.
pub open spec fn joined(items: Seq<Seq<char>>) -> Seq<char>
    decreases items.len(),
{
    if items.len() == 0 {
        Seq::empty()
    } else if items.len() == 1 {
        items[0]
    } else {
        joined(items.drop_last()) + seq![','] + items.last()
    }
}

/// How a floating-point value is shown: `NaN`, `inf`, `-inf`, or the
/// decimal text of a finite number.
pub open spec fn double_text(value: DoubleView) -> Seq<char> {
    match value {
        DoubleView::NotANumber => seq!['N', 'a', 'N'],
        DoubleView::Infinity => seq!['i', 'n', 'f'],
        DoubleView::NegativeInfinity => seq!['-', 'i', 'n', 'f'],
        DoubleView::Number(text) => text,
    }
}

/// How a value of the protocol is shown: `null` for the null value, a bulk
/// string between double quotes, every other text as it is, a number by its
/// decimal text, a boolean as `true` or `false`, and an array between square
/// brackets with commas between how its elements are shown.
pub open spec fn wire_shown(value: WireValue) -> Seq<char>
    decreases value, 0nat,
{
    match value {
        WireValue::Null => seq!['n', 'u', 'l', 'l'],
        WireValue::BulkString(text) => seq!['"'] + text + seq!['"'],
        WireValue::Integer(integer) => ascii_chars(int_text(integer as int)),
        WireValue::SimpleString(text) => text,
        WireValue::SimpleError(text) => text,
        WireValue::Boolean(boolean) => if boolean {
            seq!['t', 'r', 'u', 'e']
        } else {
            seq!['f', 'a', 'l', 's', 'e']
        },
        WireValue::Double(double) => double_text(double),
        WireValue::BigNumber(number) => ascii_chars(int_text(number.value())),
        WireValue::BulkError(text) => text,
        WireValue::Array(items) => seq!['['] + joined(wire_shown_all(items)) + seq![']'],
    }
}

/// How each of several values of the protocol is shown.
pub open spec fn wire_shown_all(items: Seq<WireValue>) -> Seq<Seq<char>>
    decreases items, 1nat,
{
    if items.len() == 0 {
        Seq::empty()
    } else {
        wire_shown_all(items.drop_last()).push(wire_shown(items.last()))
    }
}

/// The texts of `items` with a comma between each two.
pub fn join_texts(items: &Vec<String>) -> (r: String)
    ensures
        r@ == joined(texts_of(items@)),
{
    proof {
        reveal_strlit(",");
    }
    let mut out = String::new();
    let mut i: usize = 0;
    while i < items.len()
        invariant
            i <= items@.len(),
            out@ == joined(texts_of(items@).subrange(0, i as int)),
            ","@ == seq![','],
        decreases items@.len() - i,
    {
        let ghost before = texts_of(items@).subrange(0, i as int);
        let ghost after = texts_of(items@).subrange(0, i + 1);
        proof {
            assert(after.drop_last() =~= before);
            assert(after.last() == items@[i as int]@);
        }
        if i > 0 {
            out.append(",");
        }
        out.append(items[i].as_str());
        i += 1;
        proof {
            if i == 1 {
                assert(before =~= Seq::<Seq<char>>::empty());
                assert(out@ =~= joined(after));
            } else {
                assert(out@ =~= joined(after));
            }
        }
    }
    proof {
        assert(texts_of(items@).subrange(0, i as int) =~= texts_of(items@));
    }
    out
}

impl Double {
    /// How the value is shown.
    pub fn to_text(&self) -> (r: String)
        ensures
            r@ == double_text(self@),
    {
        proof {
            reveal_strlit("NaN");
            reveal_strlit("inf");
            reveal_strlit("-inf");
            assert("NaN"@ =~= seq!['N', 'a', 'N']);
            assert("inf"@ =~= seq!['i', 'n', 'f']);
            assert("-inf"@ =~= seq!['-', 'i', 'n', 'f']);
        }
        match self {
            Double::NotANumber => String::from_str("NaN"),
            Double::Infinity => String::from_str("inf"),
            Double::NegativeInfinity => String::from_str("-inf"),
            Double::Number(text) => text.clone(),
        }
    }
}

/// The decimal text of `integer`.
pub fn integer_string(integer: i64) -> (r: String)
    ensures
        r@ == ascii_chars(int_text(integer as int)),
{
    let mut digits: Vec<u8> = Vec::new();
    push_signed(&mut digits, integer);
    proof {
        assert(digits@ =~= int_text(integer as int));
        lemma_int_text_ascii(integer as int);
    }
    ascii_string(digits)
}

/// `true` or `false`.
pub fn boolean_string(boolean: bool) -> (r: String)
    ensures
        r@ == if boolean {
            seq!['t', 'r', 'u', 'e']
        } else {
            seq!['f', 'a', 'l', 's', 'e']
        },
{
    proof {
        reveal_strlit("true");
        reveal_strlit("false");
        assert("true"@ =~= seq!['t', 'r', 'u', 'e']);
        assert("false"@ =~= seq!['f', 'a', 'l', 's', 'e']);
    }
    if boolean {
        String::from_str("true")
    } else {
        String::from_str("false")
    }
}

impl ProtocolDataType {
    /// How the value is shown.
    pub fn to_text(&self) -> (r: String)
        ensures
            r@ == wire_shown(self@),
        decreases self,
    {
        proof {
            reveal_strlit("null");
            reveal_strlit("\"");
            reveal_strlit("[");
            reveal_strlit("]");
            assert("null"@ =~= seq!['n', 'u', 'l', 'l']);
        }
        match self {
            ProtocolDataType::Null => String::from_str("null"),
            ProtocolDataType::BulkString(text) => {
                let mut out = String::from_str("\"");
                out.append(text.as_str());
                out.append("\"");
                assert(out@ =~= wire_shown(self@));
                out
            },
            ProtocolDataType::Integer(integer) => integer_string(*integer),
            ProtocolDataType::SimpleString(text) => text.clone(),
            ProtocolDataType::SimpleError(text) => text.clone(),
            ProtocolDataType::Boolean(boolean) => boolean_string(*boolean),
            ProtocolDataType::Double(double) => double.to_text(),
            ProtocolDataType::BigNumber(number) => {
                let digits = number.to_decimal();
                proof {
                    lemma_int_text_ascii(number@.value());
                }
                ascii_string(digits)
            },
            ProtocolDataType::BulkError(text) => text.clone(),
            ProtocolDataType::Array(items) => {
                let mut texts: Vec<String> = Vec::new();
                let mut i: usize = 0;
                proof {
                    lemma_views_of(items@);
                }
                while i < items.len()
                    invariant
                        i <= items@.len(),
                        wire_shown_all(views_of(items@).subrange(0, i as int)) == texts_of(texts@),
                        views_of(items@).len() == items@.len(),
                        forall|j: int|
                            0 <= j < items@.len() ==> (#[trigger] views_of(items@)[j])
                                == items@[j]@,
                        *self is Array,
                        self->Array_0 == *items,
                    decreases items@.len() - i,
                {
                    let ghost before = views_of(items@).subrange(0, i as int);
                    let ghost after = views_of(items@).subrange(0, i + 1);
                    let ghost texts_before = texts_of(texts@);
                    proof {
                        assert(after.drop_last() =~= before);
                        assert(after.last() == items@[i as int]@);
                        vstd::std_specs::vec::axiom_vec_index_decreases(*items, i as int);
                        assert(decreases_to!(*self => self->Array_0));
                    }
                    let text = items[i].to_text();
                    texts.push(text);
                    proof {
                        assert(texts_of(texts@) =~= texts_before.push(wire_shown(items@[i as int]@)));
                    }
                    i += 1;
                }
                proof {
                    assert(views_of(items@).subrange(0, i as int) =~= views_of(items@));
                }
                let mut out = String::from_str("[");
                let inner = join_texts(&texts);
                out.append(inner.as_str());
                out.append("]");
                assert(out@ =~= wire_shown(self@));
                out
            },
        }
    }
}

} // verus!
