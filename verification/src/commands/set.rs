//! Writing a value under a key, with options, and reading the answer.

use vstd::prelude::*;
use vstd::string::StringExecFns;
use crate::commands::{push_token, token, CommandArguments, ProtocolCommandArguments};
use crate::data_type::{converted, DataType, DataTypeView};
use crate::decimal::{int_text, nat_digits, push_unsigned};
use crate::protocol::{views_of, ProtocolDataType, WireValue};
use crate::text::{ascii_chars, ascii_string, lemma_int_text_ascii};

verus! {

/// When a written value expires.
#[derive(Clone, Copy, Debug)]
pub enum ExpirationTime {
    /// After this many seconds.
    Seconds(u64),
    /// After this many milliseconds.
    Milliseconds(u64),
    /// At this time, in seconds since the epoch.
    TimestampSeconds(u64),
    /// At this time, in milliseconds since the epoch.
    TimestampMilliseconds(u64),
    /// When the value that is replaced would have expired.
    KeepTTL,
}

/// On which condition a value is written.
#[derive(Clone, Copy, Debug)]
pub enum SetMode {
    /// Only where the key holds a value already.
    SetIfExists,
    /// Only where the key holds no value yet.
    SetIfNotExists,
}

/// The options of a write.
#[derive(Clone, Copy, Debug)]
pub struct SetOptions {
    /// When the value expires, if ever.
    pub expiration_time: Option<ExpirationTime>,
    /// On which condition the value is written, if on any.
    pub set_mode: Option<SetMode>,
    /// Whether the store is to answer with the value that was there before.
    pub get_previous_value: bool,
}

impl Default for SetOptions {
    fn default() -> (r: Self)
        ensures
            r == (SetOptions { expiration_time: None, set_mode: None, get_previous_value: false }),
    {
        SetOptions { expiration_time: None, set_mode: None, get_previous_value: false }
    }
}

/// The decimal text of a number, as characters.
pub open spec fn number_text(n: u64) -> Seq<char> {
    ascii_chars(nat_digits(n as nat))
}

/// The decimal text of a number.
pub fn number_string(n: u64) -> (r: String)
    ensures
        r@ == number_text(n),
{
    let mut digits: Vec<u8> = Vec::new();
    push_unsigned(&mut digits, n);
    proof {
        assert(digits@ =~= nat_digits(n as nat));
        assert(int_text(n as int) == nat_digits(n as nat));
        lemma_int_text_ascii(n as int);
    }
    ascii_string(digits)
}

/// The token of the condition of a write: `XX` or `NX`, or none.
pub open spec fn mode_tokens(mode: Option<SetMode>) -> Seq<WireValue> {
    match mode {
        Some(SetMode::SetIfExists) => seq![token("XX"@)],
        Some(SetMode::SetIfNotExists) => seq![token("NX"@)],
        None => Seq::empty(),
    }
}

/// The token that asks for the previous value: `GET`, or none.
pub open spec fn previous_value_tokens(get_previous_value: bool) -> Seq<WireValue> {
    if get_previous_value {
        seq![token("GET"@)]
    } else {
        Seq::empty()
    }
}

/// The tokens of an expiry: its flag and, but for `KEEPTTL`, its number.
pub open spec fn expiration_tokens(expiration_time: Option<ExpirationTime>) -> Seq<WireValue> {
    match expiration_time {
        Some(ExpirationTime::Seconds(n)) => seq![token("EX"@), token(number_text(n))],
        Some(ExpirationTime::Milliseconds(n)) => seq![token("PX"@), token(number_text(n))],
        Some(ExpirationTime::TimestampSeconds(n)) => seq![token("EXAT"@), token(number_text(n))],
        Some(ExpirationTime::TimestampMilliseconds(n)) => seq![
            token("PXAT"@),
            token(number_text(n)),
        ],
        Some(ExpirationTime::KeepTTL) => seq![token("KEEPTTL"@)],
        None => Seq::empty(),
    }
}

/// The tokens of the options of a write, in the one order that the store
/// takes them in: the condition, the previous value, the expiry.
pub open spec fn option_tokens(options: SetOptions) -> Seq<WireValue> {
    mode_tokens(options.set_mode) + previous_value_tokens(options.get_previous_value)
        + expiration_tokens(options.expiration_time)
}

/// The arguments of the command that writes a value under a key.
#[derive(Clone, Debug)]
pub struct SetArguments {
    /// The key to write.
    pub key: String,
    /// The value to write.
    pub value: String,
    /// The options of the write.
    pub options: SetOptions,
}

impl SetArguments {
    /// The arguments that write `value` under `key` with `options`.
    pub fn new(key: &str, value: &str, options: SetOptions) -> (r: Self)
        ensures
            r.key@ == key@,
            r.value@ == value@,
            r.options == options,
    {
        Self { key: key.to_owned(), value: value.to_owned(), options }
    }

    /// A copy of the arguments.
    pub fn duplicate(&self) -> (r: Self)
        ensures
            r.key@ == self.key@,
            r.value@ == self.value@,
            r.options == self.options,
    {
        Self { key: self.key.clone(), value: self.value.clone(), options: self.options }
    }
}

impl CommandArguments for SetArguments {
    /// The key, the value, then the tokens of the options.
    open spec fn protocol_arguments(&self) -> Seq<WireValue> {
        seq![token(self.key@), token(self.value@)] + option_tokens(self.options)
    }

    fn to_protocol_arguments(&self) -> (r: ProtocolCommandArguments) {
        let mut arguments: Vec<ProtocolDataType> = Vec::new();
        push_token(&mut arguments, self.key.clone());
        push_token(&mut arguments, self.value.clone());
        assert(views_of(arguments@) =~= seq![token(self.key@), token(self.value@)]);
        match self.options.set_mode {
            Some(SetMode::SetIfExists) => {
                push_token(&mut arguments, String::from_str("XX"));
            },
            Some(SetMode::SetIfNotExists) => {
                push_token(&mut arguments, String::from_str("NX"));
            },
            None => {},
        }
        assert(views_of(arguments@) =~= seq![token(self.key@), token(self.value@)] + mode_tokens(
            self.options.set_mode,
        ));
        if self.options.get_previous_value {
            push_token(&mut arguments, String::from_str("GET"));
        }
        let ghost before_expiry = views_of(arguments@);
        assert(before_expiry =~= seq![token(self.key@), token(self.value@)] + mode_tokens(
            self.options.set_mode,
        ) + previous_value_tokens(self.options.get_previous_value));
        match self.options.expiration_time {
            Some(ExpirationTime::Seconds(seconds)) => {
                push_token(&mut arguments, String::from_str("EX"));
                push_token(&mut arguments, number_string(seconds));
            },
            Some(ExpirationTime::Milliseconds(milliseconds)) => {
                push_token(&mut arguments, String::from_str("PX"));
                push_token(&mut arguments, number_string(milliseconds));
            },
            Some(ExpirationTime::TimestampSeconds(seconds)) => {
                push_token(&mut arguments, String::from_str("EXAT"));
                push_token(&mut arguments, number_string(seconds));
            },
            Some(ExpirationTime::TimestampMilliseconds(milliseconds)) => {
                push_token(&mut arguments, String::from_str("PXAT"));
                push_token(&mut arguments, number_string(milliseconds));
            },
            Some(ExpirationTime::KeepTTL) => {
                push_token(&mut arguments, String::from_str("KEEPTTL"));
            },
            None => {},
        }
        assert(views_of(arguments@) =~= before_expiry + expiration_tokens(
            self.options.expiration_time,
        ));
        assert(views_of(arguments@) =~= self.protocol_arguments());
        arguments
    }
}

/// What the answer to a write means.
#[derive(Debug)]
pub enum SetResponse {
    /// The value was written.
    Completed,
    /// The condition of the write did not hold, and nothing was written.
    Aborted,
    /// The value was written, and this is the value that was there before,
    /// if there was one.
    PreviousValue(Option<DataType>),
}

/// What the answer to a write means: the model that the contracts speak of.
pub enum SetResponseView {
    /// The value was written.
    Completed,
    /// The condition of the write did not hold, and nothing was written.
    Aborted,
    /// The value was written, and this is the value that was there before,
    /// if there was one.
    PreviousValue(Option<DataTypeView>),
}

impl View for SetResponse {
    type V = SetResponseView;

    open spec fn view(&self) -> SetResponseView {
        match self {
            SetResponse::Completed => SetResponseView::Completed,
            SetResponse::Aborted => SetResponseView::Aborted,
            SetResponse::PreviousValue(None) => SetResponseView::PreviousValue(None),
            SetResponse::PreviousValue(Some(value)) => SetResponseView::PreviousValue(
                Some(value@),
            ),
        }
    }
}

/// What an answer means for a write with the given options, where it can be
/// an answer to such a write at all. Where the previous value was asked for,
/// null says that there was none, and anything else is that value. Else,
/// where the write had a condition, null says that it did not hold. Else the
/// simple string `OK` says that the value was written.
pub open spec fn shaped(options: SetOptions, response: WireValue) -> Option<SetResponseView> {
    if options.get_previous_value {
        if response is Null {
            Some(SetResponseView::PreviousValue(None))
        } else {
            match converted(response) {
                Some(value) => Some(SetResponseView::PreviousValue(Some(value))),
                None => None,
            }
        }
    } else if options.set_mode is Some && response is Null {
        Some(SetResponseView::Aborted)
    } else if response == WireValue::SimpleString("OK"@) {
        Some(SetResponseView::Completed)
    } else {
        None
    }
}

impl SetResponse {
    /// What `response` means as the answer to the write of `arguments`, or
    /// nothing where it cannot be the answer to that write.
    pub fn try_parse(arguments: &SetArguments, response: &ProtocolDataType) -> (r: Option<Self>)
        ensures
            match r {
                Some(shape) => shaped(arguments.options, response@) == Some(shape@),
                None => shaped(arguments.options, response@) is None,
            },
    {
        if arguments.options.get_previous_value {
            return match response {
                ProtocolDataType::Null => Some(SetResponse::PreviousValue(None)),
                value => match DataType::try_from(value) {
                    Ok(data) => Some(SetResponse::PreviousValue(Some(data))),
                    Err(_) => None,
                },
            };
        }
        if arguments.options.set_mode.is_some() {
            if let ProtocolDataType::Null = response {
                return Some(SetResponse::Aborted);
            }
        }
        if let ProtocolDataType::SimpleString(text) = response {
            if *text == String::from_str("OK") {
                return Some(SetResponse::Completed);
            }
        }
        None
    }

    /// What `response` means as the answer to the write of `arguments`.
    pub fn parse(arguments: &SetArguments, response: &ProtocolDataType) -> (r: Self)
        requires
            shaped(arguments.options, response@) is Some,
        ensures
            shaped(arguments.options, response@) == Some(r@),
    {
        match SetResponse::try_parse(arguments, response) {
            Some(shape) => shape,
            None => SetResponse::Aborted,
        }
    }
}

/// Why options could not be built.
#[derive(Debug)]
pub enum SetOptionsBuilderError {
    /// A field that has no default was not set.
    UninitializedField(&'static str),
    /// The options that were set do not go together.
    ValidationError(String),
}

/// Collects the options of a write one by one. What is not set stays as it
/// is by default: no expiry, no condition, no previous value.
#[derive(Clone, Copy, Debug)]
pub struct SetOptionsBuilder {
    /// The expiry, where one was set.
    pub expiration_time: Option<ExpirationTime>,
    /// The condition, where one was set.
    pub set_mode: Option<SetMode>,
    /// Whether the previous value is asked for, where that was set.
    pub get_previous_value: Option<bool>,
}

impl Default for SetOptionsBuilder {
    fn default() -> (r: Self)
        ensures
            r == (SetOptionsBuilder {
                expiration_time: None,
                set_mode: None,
                get_previous_value: None,
            }),
    {
        SetOptionsBuilder { expiration_time: None, set_mode: None, get_previous_value: None }
    }
}

impl SetOptionsBuilder {
    /// The builder with the expiry set to `value`.
    pub open spec fn with_expiration_time(self, value: ExpirationTime) -> Self {
        SetOptionsBuilder { expiration_time: Some(value), ..self }
    }

    /// The builder with the condition set to `value`.
    pub open spec fn with_set_mode(self, value: SetMode) -> Self {
        SetOptionsBuilder { set_mode: Some(value), ..self }
    }

    /// The builder with the wish for the previous value set to `value`.
    pub open spec fn with_get_previous_value(self, value: bool) -> Self {
        SetOptionsBuilder { get_previous_value: Some(value), ..self }
    }

    /// The options that the builder stands for.
    pub open spec fn built(self) -> SetOptions {
        SetOptions {
            expiration_time: self.expiration_time,
            set_mode: self.set_mode,
            get_previous_value: match self.get_previous_value {
                Some(value) => value,
                None => false,
            },
        }
    }

    /// Sets the expiry.
    pub fn expiration_time(self, value: ExpirationTime) -> (r: Self)
        ensures
            r == self.with_expiration_time(value),
    {
        SetOptionsBuilder { expiration_time: Some(value), ..self }
    }

    /// Sets the condition.
    pub fn set_mode(self, value: SetMode) -> (r: Self)
        ensures
            r == self.with_set_mode(value),
    {
        SetOptionsBuilder { set_mode: Some(value), ..self }
    }

    /// Sets whether the previous value is asked for.
    pub fn get_previous_value(self, value: bool) -> (r: Self)
        ensures
            r == self.with_get_previous_value(value),
    {
        SetOptionsBuilder { get_previous_value: Some(value), ..self }
    }

    /// The options that were collected. Every field has a default, so this
    /// never fails.
    pub fn build(&self) -> (r: Result<SetOptions, SetOptionsBuilderError>)
        ensures
            r is Ok,
            r->Ok_0 == self.built(),
    {
        Ok(
            SetOptions {
                expiration_time: self.expiration_time,
                set_mode: self.set_mode,
                get_previous_value: match self.get_previous_value {
                    Some(value) => value,
                    None => false,
                },
            },
        )
    }
}

/// Option ordering: in whatever order a condition, the wish for the previous
/// value and an expiry are set on a builder, the options that it builds are
/// the same, and their tokens stand in the one fixed order: the condition,
/// then `GET`, then the expiry.
pub proof fn lemma_option_order(
    builder: SetOptionsBuilder,
    mode: SetMode,
    previous: bool,
    expiry: ExpirationTime,
)
    ensures
        builder.with_set_mode(mode).with_expiration_time(expiry).with_get_previous_value(previous)
            == builder.with_set_mode(mode).with_get_previous_value(previous).with_expiration_time(
            expiry,
        ),
        builder.with_get_previous_value(previous).with_set_mode(mode).with_expiration_time(expiry)
            == builder.with_set_mode(mode).with_get_previous_value(previous).with_expiration_time(
            expiry,
        ),
        builder.with_get_previous_value(previous).with_expiration_time(expiry).with_set_mode(mode)
            == builder.with_set_mode(mode).with_get_previous_value(previous).with_expiration_time(
            expiry,
        ),
        builder.with_expiration_time(expiry).with_set_mode(mode).with_get_previous_value(previous)
            == builder.with_set_mode(mode).with_get_previous_value(previous).with_expiration_time(
            expiry,
        ),
        builder.with_expiration_time(expiry).with_get_previous_value(previous).with_set_mode(mode)
            == builder.with_set_mode(mode).with_get_previous_value(previous).with_expiration_time(
            expiry,
        ),
        option_tokens(
            builder.with_set_mode(mode).with_get_previous_value(previous).with_expiration_time(
                expiry,
            ).built(),
        ) == mode_tokens(Some(mode)) + previous_value_tokens(previous) + expiration_tokens(
            Some(expiry),
        ),
{
}

/// With a condition, the previous value and an expiry in seconds, the tokens
/// of the options are the flag of the condition, `GET`, `EX` and the number
/// of seconds, in that order.
pub proof fn lemma_option_tokens_in_seconds(mode: SetMode, seconds: u64)
    ensures
        option_tokens(
            SetOptions {
                expiration_time: Some(ExpirationTime::Seconds(seconds)),
                set_mode: Some(mode),
                get_previous_value: true,
            },
        ) == mode_tokens(Some(mode)) + seq![
            token("GET"@),
            token("EX"@),
            token(number_text(seconds)),
        ],
        mode_tokens(Some(mode)).len() == 1,
{
    assert(seq![token("GET"@)] + seq![token("EX"@), token(number_text(seconds))] =~= seq![
        token("GET"@),
        token("EX"@),
        token(number_text(seconds)),
    ]);
    assert(mode_tokens(Some(mode)) + seq![token("GET"@)] + seq![
        token("EX"@),
        token(number_text(seconds)),
    ] =~= mode_tokens(Some(mode)) + seq![
        token("GET"@),
        token("EX"@),
        token(number_text(seconds)),
    ]);
}

impl SetResponse {
    /// Whether `self` and `other` say the same of a write.
    pub fn same(&self, other: &SetResponse) -> (r: bool)
        ensures
            r == (self@ == other@),
    {
        match (self, other) {
            (SetResponse::Completed, SetResponse::Completed) => true,
            (SetResponse::Aborted, SetResponse::Aborted) => true,
            (SetResponse::PreviousValue(None), SetResponse::PreviousValue(None)) => true,
            (SetResponse::PreviousValue(Some(lhs)), SetResponse::PreviousValue(Some(rhs))) => {
                lhs.same(rhs)
            },
            _ => false,
        }
    }
}

impl PartialEq for SetResponse {
    fn eq(&self, other: &Self) -> (r: bool) {
        self.same(other)
    }
}

impl vstd::std_specs::cmp::PartialEqSpecImpl for SetResponse {
    open spec fn obeys_eq_spec() -> bool {
        true
    }

    open spec fn eq_spec(&self, other: &Self) -> bool {
        self@ == other@
    }
}

/// Response shaping: for a write that asks for the previous value, null
/// means that there was none and a bulk string is that value; for a write
/// with a condition that does not ask for the previous value, null means
/// that the condition did not hold; and for a write that does not ask for
/// the previous value, the simple string `OK` means that the value was
/// written.
pub proof fn lemma_response_shaping(options: SetOptions, text: Seq<char>)
    ensures
        options.get_previous_value ==> shaped(options, WireValue::Null) == Some(
            SetResponseView::PreviousValue(None),
        ),
        options.get_previous_value ==> shaped(options, WireValue::BulkString(text)) == Some(
            SetResponseView::PreviousValue(Some(DataTypeView::String(text))),
        ),
        !options.get_previous_value && options.set_mode is Some ==> shaped(
            options,
            WireValue::Null,
        ) == Some(SetResponseView::Aborted),
        !options.get_previous_value && options.set_mode is None ==> shaped(
            options,
            WireValue::Null,
        ) is None,
        !options.get_previous_value ==> shaped(options, WireValue::SimpleString("OK"@)) == Some(
            SetResponseView::Completed,
        ),
{
}

} // verus!
