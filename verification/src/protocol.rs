//! The values that the wire carries, and their serialization.

use vstd::prelude::*;
use vstd::string::StringSliceAdditionalSpecFns;
use vstd::utf8::encode_utf8;
use crate::ascii::{
    CR, LF, LOWER_F, LOWER_T, TAG_ARRAY, TAG_BIG_NUMBER, TAG_BOOLEAN, TAG_BULK_ERROR,
    TAG_BULK_STRING, TAG_DOUBLE, TAG_INTEGER, TAG_NULL, TAG_SIMPLE_ERROR, TAG_SIMPLE_STRING,
};
use crate::bignum::{BigNumber, BigNumberView};
use crate::decimal::{int_text, nat_digits, push_signed, push_unsigned};
use crate::double::{value_token, value_well_formed, Double, DoubleView};
use crate::text::push_bytes;

verus! {

/// What a value of the protocol is: the model that the contracts speak of.
pub enum WireValue {
    /// The null value.
    Null,
    /// A floating-point value.
    Double(DoubleView),
    /// A boolean.
    Boolean(bool),
    /// A signed 64-bit integer.
    Integer(i64),
    /// An integer of any size.
    BigNumber(BigNumberView),
    /// An error with a length-prefixed text.
    BulkError(Seq<char>),
    /// A length-prefixed text.
    BulkString(Seq<char>),
    /// An error with a one-line text.
    SimpleError(Seq<char>),
    /// A one-line text.
    SimpleString(Seq<char>),
    /// A sequence of values.
    Array(Seq<WireValue>),
}

/// The line ending of the wire format.
pub open spec fn crlf() -> Seq<u8> {
    seq![CR, LF]
}

/// Whether a line ending starts at index `i` of `s`.
pub open spec fn crlf_at(s: Seq<u8>, i: int) -> bool {
    0 <= i && i + 1 < s.len() && s[i] == CR && s[i + 1] == LF
}

/// Whether `s` holds no line ending.
pub open spec fn no_crlf(s: Seq<u8>) -> bool {
    forall|i: int| !crlf_at(s, i)
}

/// The bytes that stand on the wire for a value.
pub open spec fn wire_bytes(value: WireValue) -> Seq<u8>
    decreases value,
{
    match value {
        WireValue::Null => seq![TAG_NULL] + crlf(),
        WireValue::Double(double) => seq![TAG_DOUBLE] + value_token(double) + crlf(),
        WireValue::Boolean(boolean) => seq![
            TAG_BOOLEAN,
            if boolean {
                LOWER_T
            } else {
                LOWER_F
            },
        ] + crlf(),
        WireValue::Integer(integer) => seq![TAG_INTEGER] + int_text(integer as int) + crlf(),
        WireValue::BigNumber(number) => seq![TAG_BIG_NUMBER] + int_text(number.value()) + crlf(),
        WireValue::BulkError(text) => seq![TAG_BULK_ERROR] + nat_digits(encode_utf8(text).len())
            + crlf() + encode_utf8(text) + crlf(),
        WireValue::BulkString(text) => if text.len() == 0 {
            seq![TAG_BULK_STRING] + nat_digits(0) + crlf()
        } else {
            seq![TAG_BULK_STRING] + nat_digits(encode_utf8(text).len()) + crlf() + encode_utf8(
                text,
            ) + crlf()
        },
        WireValue::SimpleError(text) => seq![TAG_SIMPLE_ERROR] + encode_utf8(text) + crlf(),
        WireValue::SimpleString(text) => seq![TAG_SIMPLE_STRING] + encode_utf8(text) + crlf(),
        WireValue::Array(items) => seq![TAG_ARRAY] + nat_digits(items.len()) + crlf()
            + wire_bytes_all(items),
    }
}

/// The bytes of several values, one after the other.
pub open spec fn wire_bytes_all(items: Seq<WireValue>) -> Seq<u8>
    decreases items,
{
    if items.len() == 0 {
        Seq::empty()
    } else {
        wire_bytes_all(items.drop_last()) + wire_bytes(items.last())
    }
}

/// Whether a value can stand on the wire and be read back: a one-line text
/// holds no line ending, a finite double is held by the decimal text of a
/// number, a big number has its shortest digits, and so for every element of
/// an array.
pub open spec fn wire_well_formed(value: WireValue) -> bool
    decreases value,
{
    match value {
        WireValue::Double(double) => value_well_formed(double),
        WireValue::BigNumber(number) => number.well_formed(),
        WireValue::SimpleError(text) => no_crlf(encode_utf8(text)),
        WireValue::SimpleString(text) => no_crlf(encode_utf8(text)),
        WireValue::Array(items) => forall|i: int|
            0 <= i < items.len() ==> wire_well_formed(#[trigger] items[i]),
        _ => true,
    }
}

/// A value of the protocol.
#[derive(Debug)]
pub enum ProtocolDataType {
    /// The null value.
    Null,
    /// A floating-point value.
    Double(Double),
    /// A boolean.
    Boolean(bool),
    /// A signed 64-bit integer.
    Integer(i64),
    /// An integer of any size.
    BigNumber(BigNumber),
    /// An error with a length-prefixed text.
    BulkError(String),
    /// A length-prefixed text, which may hold line endings.
    BulkString(String),
    /// An error with a one-line text.
    SimpleError(String),
    /// A one-line text.
    SimpleString(String),
    /// A sequence of values.
    Array(Vec<ProtocolDataType>),
}

/// The models of several values, in their order.
pub open spec fn views_of(items: Seq<ProtocolDataType>) -> Seq<WireValue>
    decreases items,
{
    if items.len() == 0 {
        Seq::empty()
    } else {
        views_of(items.drop_last()).push(items.last()@)
    }
}

impl View for ProtocolDataType {
    type V = WireValue;

    open spec fn view(&self) -> WireValue
        decreases self,
    {
        match self {
            ProtocolDataType::Null => WireValue::Null,
            ProtocolDataType::Double(double) => WireValue::Double(double@),
            ProtocolDataType::Boolean(boolean) => WireValue::Boolean(*boolean),
            ProtocolDataType::Integer(integer) => WireValue::Integer(*integer),
            ProtocolDataType::BigNumber(number) => WireValue::BigNumber(number@),
            ProtocolDataType::BulkError(text) => WireValue::BulkError(text@),
            ProtocolDataType::BulkString(text) => WireValue::BulkString(text@),
            ProtocolDataType::SimpleError(text) => WireValue::SimpleError(text@),
            ProtocolDataType::SimpleString(text) => WireValue::SimpleString(text@),
            ProtocolDataType::Array(items) => WireValue::Array(views_of(items@)),
        }
    }
}

/// The models of several values are as many, each the model of its value.
pub proof fn lemma_views_of(items: Seq<ProtocolDataType>)
    ensures
        views_of(items).len() == items.len(),
        forall|i: int| 0 <= i < items.len() ==> (#[trigger] views_of(items)[i]) == items[i]@,
    decreases items.len(),
{
    if items.len() > 0 {
        let front = items.drop_last();
        lemma_views_of(front);
        assert(views_of(items) == views_of(front).push(items.last()@));
        assert forall|i: int| 0 <= i < items.len() implies (#[trigger] views_of(items)[i])
            == items[i]@ by {
            if i < front.len() {
                assert(views_of(front)[i] == front[i]@);
            }
        }
    } else {
        assert(views_of(items) == Seq::<WireValue>::empty());
    }
}

/// The bytes of several values and one more are the bytes of the several,
/// then those of the one.
pub proof fn lemma_wire_bytes_all_push(items: Seq<WireValue>, value: WireValue)
    ensures
        wire_bytes_all(items.push(value)) == wire_bytes_all(items) + wire_bytes(value),
{
    assert(items.push(value).drop_last() =~= items);
}

impl ProtocolDataType {
    /// Whether the value can stand on the wire and be read back.
    pub open spec fn well_formed(&self) -> bool {
        wire_well_formed(self@)
    }

    /// The bytes that stand on the wire for the value.
    pub fn serialize(&self) -> (r: Vec<u8>)
        ensures
            r@ == wire_bytes(self@),
    {
        let mut out: Vec<u8> = Vec::new();
        self.serialize_into(&mut out);
        assert(out@ =~= wire_bytes(self@));
        out
    }

    /// Appends the bytes that stand on the wire for the value to `out`.
    pub fn serialize_into(&self, out: &mut Vec<u8>)
        ensures
            final(out)@ == old(out)@ + wire_bytes(self@),
        decreases self,
    {
        match self {
            ProtocolDataType::Array(items) => {
                out.push(TAG_ARRAY);
                push_unsigned(out, items.len() as u64);
                push_line_end(out);
                let ghost head = out@;
                proof {
                    lemma_views_of(items@);
                }
                let mut i: usize = 0;
                while i < items.len()
                    invariant
                        i <= items@.len(),
                        out@ == head + wire_bytes_all(views_of(items@.subrange(0, i as int))),
                        *self is Array,
                        self->Array_0 == *items,
                    decreases items@.len() - i,
                {
                    let ghost before = items@.subrange(0, i as int);
                    proof {
                        assert(items@.subrange(0, i + 1) =~= before.push(items@[i as int]));
                        assert(before.push(items@[i as int]).drop_last() =~= before);
                        lemma_wire_bytes_all_push(views_of(before), items@[i as int]@);
                        vstd::std_specs::vec::axiom_vec_index_decreases(*items, i as int);
                        assert(decreases_to!(*self => self->Array_0));
                    }
                    items[i].serialize_into(out);
                    i += 1;
                }
                proof {
                    assert(items@.subrange(0, i as int) =~= items@);
                    assert(out@ =~= old(out)@ + wire_bytes(self@));
                }
            },
            ProtocolDataType::BulkString(text) => {
                let bytes = text.as_str().as_bytes();
                out.push(TAG_BULK_STRING);
                push_unsigned(out, bytes.len() as u64);
                push_line_end(out);
                if bytes.len() > 0 {
                    push_bytes(out, bytes);
                    push_line_end(out);
                }
                proof {
                    lemma_encoding_empty(text@);
                    assert(out@ =~= old(out)@ + wire_bytes(self@));
                }
            },
            ProtocolDataType::Integer(integer) => {
                out.push(TAG_INTEGER);
                push_signed(out, *integer);
                push_line_end(out);
                assert(out@ =~= old(out)@ + wire_bytes(self@));
            },
            ProtocolDataType::SimpleString(text) => {
                out.push(TAG_SIMPLE_STRING);
                push_bytes(out, text.as_str().as_bytes());
                push_line_end(out);
                assert(out@ =~= old(out)@ + wire_bytes(self@));
            },
            ProtocolDataType::SimpleError(text) => {
                out.push(TAG_SIMPLE_ERROR);
                push_bytes(out, text.as_str().as_bytes());
                push_line_end(out);
                assert(out@ =~= old(out)@ + wire_bytes(self@));
            },
            ProtocolDataType::Null => {
                out.push(TAG_NULL);
                push_line_end(out);
                assert(out@ =~= old(out)@ + wire_bytes(self@));
            },
            ProtocolDataType::Boolean(boolean) => {
                out.push(TAG_BOOLEAN);
                out.push(
                    if *boolean {
                        LOWER_T
                    } else {
                        LOWER_F
                    },
                );
                push_line_end(out);
                assert(out@ =~= old(out)@ + wire_bytes(self@));
            },
            ProtocolDataType::Double(double) => {
                out.push(TAG_DOUBLE);
                double.push_token(out);
                push_line_end(out);
                assert(out@ =~= old(out)@ + wire_bytes(self@));
            },
            ProtocolDataType::BigNumber(number) => {
                out.push(TAG_BIG_NUMBER);
                number.push_decimal(out);
                push_line_end(out);
                assert(out@ =~= old(out)@ + wire_bytes(self@));
            },
            ProtocolDataType::BulkError(text) => {
                let bytes = text.as_str().as_bytes();
                out.push(TAG_BULK_ERROR);
                push_unsigned(out, bytes.len() as u64);
                push_line_end(out);
                push_bytes(out, bytes);
                push_line_end(out);
                assert(out@ =~= old(out)@ + wire_bytes(self@));
            },
        }
    }
}

/// Appends a line ending to `out`.
pub fn push_line_end(out: &mut Vec<u8>)
    ensures
        final(out)@ == old(out)@ + crlf(),
{
    out.push(CR);
    out.push(LF);
    assert(out@ =~= old(out)@ + crlf());
}

/// A text is empty exactly where its encoding is.
pub proof fn lemma_encoding_empty(text: Seq<char>)
    ensures
        (text.len() == 0) == (encode_utf8(text).len() == 0),
{
    if text.len() > 0 {
        vstd::utf8::encode_utf8_first_scalar(text);
    }
}

/// Two runs of values have the same models exactly where they are as many
/// and each value has the model of the one in its place.
pub proof fn lemma_views_equal(a: Seq<ProtocolDataType>, b: Seq<ProtocolDataType>)
    ensures
        (views_of(a) == views_of(b)) <==> (a.len() == b.len() && forall|i: int|
            0 <= i < a.len() ==> (#[trigger] a[i])@ == b[i]@),
{
    lemma_views_of(a);
    lemma_views_of(b);
    if a.len() == b.len() && (forall|i: int| 0 <= i < a.len() ==> (#[trigger] a[i])@ == b[i]@) {
        assert(views_of(a) =~= views_of(b));
    }
    if views_of(a) == views_of(b) {
        assert forall|i: int| 0 <= i < a.len() implies (#[trigger] a[i])@ == b[i]@ by {
            assert(views_of(a)[i] == views_of(b)[i]);
        }
    }
}

impl ProtocolDataType {
    /// Whether `self` and `other` are the same value: the same variant with
    /// the same payload, and for arrays as many elements, the same in each
    /// place.
    pub fn same(&self, other: &ProtocolDataType) -> (r: bool)
        ensures
            r == (self@ == other@),
        decreases self,
    {
        match (self, other) {
            (ProtocolDataType::Null, ProtocolDataType::Null) => true,
            (ProtocolDataType::Double(lhs), ProtocolDataType::Double(rhs)) => lhs.same(rhs),
            (ProtocolDataType::Boolean(lhs), ProtocolDataType::Boolean(rhs)) => *lhs == *rhs,
            (ProtocolDataType::Integer(lhs), ProtocolDataType::Integer(rhs)) => *lhs == *rhs,
            (ProtocolDataType::BigNumber(lhs), ProtocolDataType::BigNumber(rhs)) => lhs.same(rhs),
            (ProtocolDataType::BulkError(lhs), ProtocolDataType::BulkError(rhs)) => *lhs == *rhs,
            (ProtocolDataType::BulkString(lhs), ProtocolDataType::BulkString(rhs)) => *lhs == *rhs,
            (ProtocolDataType::SimpleError(lhs), ProtocolDataType::SimpleError(rhs)) => *lhs
                == *rhs,
            (ProtocolDataType::SimpleString(lhs), ProtocolDataType::SimpleString(rhs)) => *lhs
                == *rhs,
            (ProtocolDataType::Array(lhs), ProtocolDataType::Array(rhs)) => {
                proof {
                    lemma_views_equal(lhs@, rhs@);
                }
                if lhs.len() != rhs.len() {
                    return false;
                }
                let mut i: usize = 0;
                while i < lhs.len()
                    invariant
                        i <= lhs@.len(),
                        lhs@.len() == rhs@.len(),
                        forall|j: int| 0 <= j < i ==> (#[trigger] lhs@[j])@ == rhs@[j]@,
                        *self is Array,
                        self->Array_0 == *lhs,
                        *other is Array,
                        other->Array_0 == *rhs,
                    decreases lhs@.len() - i,
                {
                    proof {
                        vstd::std_specs::vec::axiom_vec_index_decreases(*lhs, i as int);
                        assert(decreases_to!(*self => self->Array_0));
                        lemma_views_equal(lhs@, rhs@);
                    }
                    if !lhs[i].same(&rhs[i]) {
                        return false;
                    }
                    i += 1;
                }
                true
            },
            _ => false,
        }
    }

    /// A copy of the value.
    pub fn duplicate(&self) -> (r: ProtocolDataType)
        ensures
            r@ == self@,
        decreases self,
    {
        match self {
            ProtocolDataType::Null => ProtocolDataType::Null,
            ProtocolDataType::Double(double) => ProtocolDataType::Double(double.duplicate()),
            ProtocolDataType::Boolean(boolean) => ProtocolDataType::Boolean(*boolean),
            ProtocolDataType::Integer(integer) => ProtocolDataType::Integer(*integer),
            ProtocolDataType::BigNumber(number) => ProtocolDataType::BigNumber(number.duplicate()),
            ProtocolDataType::BulkError(text) => ProtocolDataType::BulkError(text.clone()),
            ProtocolDataType::BulkString(text) => ProtocolDataType::BulkString(text.clone()),
            ProtocolDataType::SimpleError(text) => ProtocolDataType::SimpleError(text.clone()),
            ProtocolDataType::SimpleString(text) => ProtocolDataType::SimpleString(text.clone()),
            ProtocolDataType::Array(items) => {
                let mut copies: Vec<ProtocolDataType> = Vec::new();
                let mut i: usize = 0;
                while i < items.len()
                    invariant
                        i <= items@.len(),
                        copies@.len() == i,
                        forall|j: int| 0 <= j < i ==> (#[trigger] copies@[j])@ == items@[j]@,
                        *self is Array,
                        self->Array_0 == *items,
                    decreases items@.len() - i,
                {
                    proof {
                        vstd::std_specs::vec::axiom_vec_index_decreases(*items, i as int);
                        assert(decreases_to!(*self => self->Array_0));
                    }
                    let copy = items[i].duplicate();
                    copies.push(copy);
                    i += 1;
                }
                proof {
                    lemma_views_equal(copies@, items@);
                }
                ProtocolDataType::Array(copies)
            },
        }
    }
}

impl PartialEq for ProtocolDataType {
    fn eq(&self, other: &Self) -> (r: bool) {
        self.same(other)
    }
}

impl vstd::std_specs::cmp::PartialEqSpecImpl for ProtocolDataType {
    open spec fn obeys_eq_spec() -> bool {
        true
    }

    open spec fn eq_spec(&self, other: &Self) -> bool {
        self@ == other@
    }
}

impl From<i64> for ProtocolDataType {
    fn from(value: i64) -> (r: Self) {
        ProtocolDataType::Integer(value)
    }
}

impl vstd::std_specs::convert::FromSpecImpl<i64> for ProtocolDataType {
    open spec fn obeys_from_spec() -> bool {
        true
    }

    open spec fn from_spec(value: i64) -> Self {
        ProtocolDataType::Integer(value)
    }
}

impl ProtocolDataType {
    /// The bulk string that holds `text`.
    pub fn from_text(text: &str) -> (r: ProtocolDataType)
        ensures
            r@ == WireValue::BulkString(text@),
    {
        ProtocolDataType::BulkString(text.to_owned())
    }
}

/// Every element of a well-formed array is well formed.
pub proof fn lemma_well_formed_element(items: Seq<WireValue>, i: int)
    requires
        wire_well_formed(WireValue::Array(items)),
        0 <= i < items.len(),
    ensures
        wire_well_formed(items[i]),
{
    let array = WireValue::Array(items);
    assert(array->Array_0 == items);
    assert(forall|j: int| 0 <= j < items.len() ==> wire_well_formed(#[trigger] items[j]));
}

/// Whether `s` holds no line ending.
pub fn check_no_crlf(s: &[u8]) -> (r: bool)
    ensures
        r == no_crlf(s@),
{
    let n: usize = s.len();
    let mut i: usize = 0;
    while i < n
        invariant
            i <= n,
            n == s@.len(),
            forall|j: int| j < i ==> !crlf_at(s@, j),
        decreases n - i,
    {
        if i + 1 < n && s[i] == CR && s[i + 1] == LF {
            assert(crlf_at(s@, i as int));
            return false;
        }
        i += 1;
    }
    true
}

impl ProtocolDataType {
    /// Whether the value can stand on the wire and be read back.
    pub fn check_well_formed(&self) -> (r: bool)
        ensures
            r == self.well_formed(),
        decreases self,
    {
        match self {
            ProtocolDataType::Double(double) => double.check_well_formed(),
            ProtocolDataType::BigNumber(number) => number.check_well_formed(),
            ProtocolDataType::SimpleError(text) => check_no_crlf(text.as_str().as_bytes()),
            ProtocolDataType::SimpleString(text) => check_no_crlf(text.as_str().as_bytes()),
            ProtocolDataType::Array(items) => {
                proof {
                    lemma_views_of(items@);
                }
                let mut i: usize = 0;
                while i < items.len()
                    invariant
                        i <= items@.len(),
                        forall|j: int| 0 <= j < i ==> wire_well_formed(#[trigger] items@[j]@),
                        views_of(items@).len() == items@.len(),
                        forall|j: int|
                            0 <= j < items@.len() ==> (#[trigger] views_of(items@)[j])
                                == items@[j]@,
                        *self is Array,
                        self->Array_0 == *items,
                    decreases items@.len() - i,
                {
                    proof {
                        vstd::std_specs::vec::axiom_vec_index_decreases(*items, i as int);
                        assert(decreases_to!(*self => self->Array_0));
                    }
                    if !items[i].check_well_formed() {
                        proof {
                            let models = views_of(items@);
                            assert(self@ == WireValue::Array(models));
                            if wire_well_formed(WireValue::Array(models)) {
                                lemma_well_formed_element(models, i as int);
                            }
                        }
                        return false;
                    }
                    i += 1;
                }
                assert forall|j: int| 0 <= j < views_of(items@).len() implies wire_well_formed(
                    #[trigger] views_of(items@)[j],
                ) by {
                    assert(wire_well_formed(items@[j]@));
                }
                true
            },
            _ => true,
        }
    }
}

} // verus!
