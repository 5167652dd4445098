use base64::Engine;
use vstd::prelude::*;
use vstd::string::StringExecFns;

use crate::types::data_type::{DataType, DataTypeView};

verus! {

/// The name under which a model is resident.
#[derive(Debug, PartialEq, Eq, Hash)]
pub struct ModelId(pub String);

impl View for ModelId {
    type V = Seq<char>;

    open spec fn view(&self) -> Seq<char> {
        self.0@
    }
}

impl Clone for ModelId {
    fn clone(&self) -> (r: Self)
        ensures
            r@ == self@,
    {
        ModelId(self.0.clone())
    }
}

impl ModelId {
    /// Whether two ids name the same model.
    pub fn same(&self, other: &ModelId) -> (r: bool)
        ensures
            r == (self@ == other@),
    {
        self.0 == other.0
    }
}

/// What can go wrong when a value is read or converted.
#[derive(Debug, PartialEq, Eq)]
pub enum Error {
    TypeMismatch(String),
    ConversionError(String),
    StreamError(String),
    PathError(String),
}

/// Mathematical model of an [`Error`].
pub enum ErrorView {
    TypeMismatch(Seq<char>),
    ConversionError(Seq<char>),
    StreamError(Seq<char>),
    PathError(Seq<char>),
}

impl View for Error {
    type V = ErrorView;

    open spec fn view(&self) -> ErrorView {
        match self {
            Error::TypeMismatch(msg) => ErrorView::TypeMismatch(msg@),
            Error::ConversionError(msg) => ErrorView::ConversionError(msg@),
            Error::StreamError(msg) => ErrorView::StreamError(msg@),
            Error::PathError(msg) => ErrorView::PathError(msg@),
        }
    }
}

impl Error {
    /// The text that the error carries.
    pub open spec fn detail(&self) -> Seq<char> {
        match self {
            Error::TypeMismatch(msg) => msg@,
            Error::ConversionError(msg) => msg@,
            Error::StreamError(msg) => msg@,
            Error::PathError(msg) => msg@,
        }
    }

    /// The words that introduce each kind of error.
    pub open spec fn prefix(&self) -> Seq<char> {
        match self {
            Error::TypeMismatch(_) => "Type mismatch: "@,
            Error::ConversionError(_) => "Conversion error: "@,
            Error::StreamError(_) => "Stream error: "@,
            Error::PathError(_) => "Path error: "@,
        }
    }

    /// The error as a line of text: the kind, a colon, and the detail.
    pub fn to_string(&self) -> (r: String)
        ensures
            r@ == self.prefix() + self.detail(),
    {
        match self {
            Error::TypeMismatch(msg) => String::from_str("Type mismatch: ").concat(msg.as_str()),
            Error::ConversionError(msg) => String::from_str("Conversion error: ").concat(
                msg.as_str(),
            ),
            Error::StreamError(msg) => String::from_str("Stream error: ").concat(msg.as_str()),
            Error::PathError(msg) => String::from_str("Path error: ").concat(msg.as_str()),
        }
    }
}

impl Clone for Error {
    fn clone(&self) -> (r: Self)
        ensures
            r@ == self@,
    {
        match self {
            Error::TypeMismatch(msg) => Error::TypeMismatch(msg.clone()),
            Error::ConversionError(msg) => Error::ConversionError(msg.clone()),
            Error::StreamError(msg) => Error::StreamError(msg.clone()),
            Error::PathError(msg) => Error::PathError(msg.clone()),
        }
    }
}

/// A value on a port.
///
/// A number is held as the bit pattern of an IEEE 754 double, a path as its
/// text, and a dictionary as its entries in insertion order.
#[derive(Debug, PartialEq, Eq, Hash)]
pub enum DataValue {
    Number(u64),
    Text(String),
    Boolean(bool),
    Path(String),
    Binary(Vec<u8>),
    List(Vec<DataValue>),
    Dict(Vec<(String, DataValue)>),
    Model(ModelId),
}

/// Mathematical model of a [`DataValue`].
pub enum DataValueView {
    Number(u64),
    Text(Seq<char>),
    Boolean(bool),
    Path(Seq<char>),
    Binary(Seq<u8>),
    List(Seq<DataValueView>),
    Dict(Seq<(Seq<char>, DataValueView)>),
    Model(Seq<char>),
}

impl DataValue {
    /// The model of this value.
    pub open spec fn model(&self) -> DataValueView
        decreases self,
    {
        match self {
            DataValue::Number(bits) => DataValueView::Number(*bits),
            DataValue::Text(s) => DataValueView::Text(s@),
            DataValue::Boolean(b) => DataValueView::Boolean(*b),
            DataValue::Path(p) => DataValueView::Path(p@),
            DataValue::Binary(bytes) => DataValueView::Binary(bytes@),
            DataValue::List(items) => DataValueView::List(
                Seq::new(
                    items@.len(),
                    |i: int|
                        if 0 <= i < items@.len() {
                            items@[i].model()
                        } else {
                            DataValueView::Boolean(false)
                        },
                ),
            ),
            DataValue::Dict(entries) => DataValueView::Dict(
                Seq::new(
                    entries@.len(),
                    |i: int|
                        if 0 <= i < entries@.len() {
                            (entries@[i].0@, entries@[i].1.model())
                        } else {
                            (Seq::empty(), DataValueView::Boolean(false))
                        },
                ),
            ),
            DataValue::Model(id) => DataValueView::Model(id@),
        }
    }
}

impl View for DataValue {
    type V = DataValueView;

    open spec fn view(&self) -> DataValueView {
        self.model()
    }
}

impl DataValueView {
    /// The type of a value. A list has the type of its first item, an empty
    /// list that of a list of numbers; a dictionary is reported as numbers
    /// under the key name `key`.
    pub open spec fn data_type(self) -> DataTypeView
        decreases self,
    {
        match self {
            DataValueView::Number(_) => DataTypeView::Number,
            DataValueView::Text(_) => DataTypeView::Text,
            DataValueView::Boolean(_) => DataTypeView::Boolean,
            DataValueView::Path(_) => DataTypeView::Path,
            DataValueView::Binary(_) => DataTypeView::Binary,
            DataValueView::List(items) => if items.len() > 0 {
                DataTypeView::List(Box::new(items[0].data_type()))
            } else {
                DataTypeView::List(Box::new(DataTypeView::Number))
            },
            DataValueView::Dict(_) => DataTypeView::Dict("key"@, Box::new(DataTypeView::Number)),
            DataValueView::Model(_) => DataTypeView::Model,
        }
    }
}

impl Clone for DataValue {
    fn clone(&self) -> (r: Self)
        ensures
            r@ == self@,
    {
        self.duplicate()
    }
}

impl DataValue {
    /// A copy of this value.
    pub fn duplicate(&self) -> (r: Self)
        ensures
            r@ == self@,
        decreases self,
    {
        match self {
            DataValue::Number(bits) => DataValue::Number(*bits),
            DataValue::Text(s) => DataValue::Text(s.clone()),
            DataValue::Boolean(b) => DataValue::Boolean(*b),
            DataValue::Path(p) => DataValue::Path(p.clone()),
            DataValue::Binary(bytes) => {
                let copy = bytes.clone();
                DataValue::Binary(copy)
            },
            DataValue::List(items) => {
                let mut copy: Vec<DataValue> = Vec::new();
                let mut i: usize = 0;
                while i < items.len()
                    invariant
                        i <= items.len(),
                        copy.len() == i,
                        *self == DataValue::List(*items),
                        forall|j: int| 0 <= j < i ==> copy@[j].model() == items@[j].model(),
                    decreases items.len() - i,
                {
                    assert(decreases_to!(self => self->List_0));
                    assert(decreases_to!(*items => items@));
                    assert(decreases_to!(items@ => items@[i as int]));
                    let item = items[i].duplicate();
                    copy.push(item);
                    i = i + 1;
                }
                let r = DataValue::List(copy);
                assert(r.model()->List_0 =~= self.model()->List_0);
                r
            },
            DataValue::Dict(entries) => {
                let mut copy: Vec<(String, DataValue)> = Vec::new();
                let mut i: usize = 0;
                while i < entries.len()
                    invariant
                        i <= entries.len(),
                        copy.len() == i,
                        *self == DataValue::Dict(*entries),
                        forall|j: int|
                            0 <= j < i ==> copy@[j].0@ == entries@[j].0@ && copy@[j].1.model()
                                == entries@[j].1.model(),
                    decreases entries.len() - i,
                {
                    let key = entries[i].0.clone();
                    assert(decreases_to!(self => self->Dict_0));
                    assert(decreases_to!(*entries => entries@));
                    assert(decreases_to!(entries@ => entries@[i as int]));
                    assert(decreases_to!(entries@[i as int] => entries@[i as int].1));
                    let value = entries[i].1.duplicate();
                    copy.push((key, value));
                    i = i + 1;
                }
                let r = DataValue::Dict(copy);
                assert(r.model()->Dict_0 =~= self.model()->Dict_0);
                r
            },
            DataValue::Model(id) => DataValue::Model(id.clone()),
        }
    }
}

impl DataValue {
    /// Whether two values are the same: the same variant holding the same
    /// contents, a number by its bit pattern.
    pub fn same(&self, other: &DataValue) -> (r: bool)
        ensures
            r == (self@ == other@),
        decreases self,
    {
        match (self, other) {
            (DataValue::Number(a), DataValue::Number(b)) => *a == *b,
            (DataValue::Text(a), DataValue::Text(b)) => *a == *b,
            (DataValue::Boolean(a), DataValue::Boolean(b)) => *a == *b,
            (DataValue::Path(a), DataValue::Path(b)) => *a == *b,
            (DataValue::Binary(a), DataValue::Binary(b)) => {
                if a.len() != b.len() {
                    assert(a@.len() != b@.len());
                    return false;
                }
                let mut i: usize = 0;
                while i < a.len()
                    invariant
                        i <= a.len(),
                        a.len() == b.len(),
                        *self == DataValue::Binary(*a),
                        *other == DataValue::Binary(*b),
                        forall|j: int| 0 <= j < i ==> a@[j] == b@[j],
                    decreases a.len() - i,
                {
                    if a[i] != b[i] {
                        assert(a@[i as int] != b@[i as int]);
                        return false;
                    }
                    i = i + 1;
                }
                assert(a@ =~= b@);
                true
            },
            (DataValue::List(a), DataValue::List(b)) => {
                if a.len() != b.len() {
                    assert(self.model()->List_0.len() != other.model()->List_0.len());
                    return false;
                }
                let mut i: usize = 0;
                while i < a.len()
                    invariant
                        i <= a.len(),
                        a.len() == b.len(),
                        *self == DataValue::List(*a),
                        *other == DataValue::List(*b),
                        forall|j: int| 0 <= j < i ==> a@[j].model() == b@[j].model(),
                    decreases a.len() - i,
                {
                    if !a[i].same(&b[i]) {
                        assert(self.model()->List_0[i as int] == a@[i as int].model());
                        assert(other.model()->List_0[i as int] == b@[i as int].model());
                        return false;
                    }
                    i = i + 1;
                }
                assert(self.model()->List_0 =~= other.model()->List_0);
                true
            },
            (DataValue::Dict(a), DataValue::Dict(b)) => {
                if a.len() != b.len() {
                    assert(self.model()->Dict_0.len() != other.model()->Dict_0.len());
                    return false;
                }
                let mut i: usize = 0;
                while i < a.len()
                    invariant
                        i <= a.len(),
                        a.len() == b.len(),
                        *self == DataValue::Dict(*a),
                        *other == DataValue::Dict(*b),
                        forall|j: int|
                            0 <= j < i ==> a@[j].0@ == b@[j].0@ && a@[j].1.model()
                                == b@[j].1.model(),
                    decreases a.len() - i,
                {
                    if !(a[i].0 == b[i].0) || !a[i].1.same(&b[i].1) {
                        assert(self.model()->Dict_0[i as int] == (
                            a@[i as int].0@,
                            a@[i as int].1.model(),
                        ));
                        assert(other.model()->Dict_0[i as int] == (
                            b@[i as int].0@,
                            b@[i as int].1.model(),
                        ));
                        return false;
                    }
                    i = i + 1;
                }
                assert(self.model()->Dict_0 =~= other.model()->Dict_0);
                true
            },
            (DataValue::Model(a), DataValue::Model(b)) => a.same(b),
            _ => false,
        }
    }

    /// The type of this value.
    pub fn data_type(&self) -> (r: DataType)
        ensures
            r@ == self@.data_type(),
        decreases self,
    {
        proof {
            reveal_with_fuel(DataType::model, 2);
        }
        match self {
            DataValue::Number(_) => DataType::Number,
            DataValue::Text(_) => DataType::Text,
            DataValue::Boolean(_) => DataType::Boolean,
            DataValue::Path(_) => DataType::Path,
            DataValue::Binary(_) => DataType::Binary,
            DataValue::List(items) => {
                if items.len() > 0 {
                    assert(self.model()->List_0[0] == items@[0].model());
                    DataType::List(Box::new(items[0].data_type()))
                } else {
                    DataType::List(Box::new(DataType::Number))
                }
            },
            DataValue::Dict(_) => DataType::Dict(
                String::from_str("key"),
                Box::new(DataType::Number),
            ),
            DataValue::Model(_) => DataType::Model,
        }
    }

    /// The text, where the value is text.
    pub fn as_text(&self) -> (r: Option<&str>)
        ensures
            match self@ {
                DataValueView::Text(s) => r matches Some(t) && t@ == s,
                _ => r is None,
            },
    {
        match self {
            DataValue::Text(s) => Some(s.as_str()),
            _ => None,
        }
    }
}

/// Reads and writes numbers as text. A number is the bit pattern of an
/// IEEE 754 double. The library promises nothing about what an
/// implementation returns, and decides only by the result of each call.
pub trait NumberText {
    /// The number in decimal.
    fn print(&self, bits: u64) -> String;

    /// The number that the text denotes, if it denotes one.
    fn parse(&self, text: &str) -> Option<u64>;
}

/// The text that `encode` of base64's standard engine gives for `bytes`.
pub uninterp spec fn base64_text(bytes: Seq<u8>) -> Seq<char>;

/// The bytes that `decode` of base64's standard engine reads from `text`;
/// `None` where it refuses the text.
pub uninterp spec fn base64_bytes(text: Seq<char>) -> Option<Seq<u8>>;

/// The text that `to_lowercase` of the standard library gives for `text`.
pub uninterp spec fn lowercase_text(text: Seq<char>) -> Seq<char>;

/// `Engine::encode` of base64, on its standard engine with padding: the
/// bytes in the standard alphabet.
#[verifier::external_body]
fn encode_base64(bytes: &Vec<u8>) -> (r: String)
    ensures
        r@ == base64_text(bytes@),
{
    base64::engine::general_purpose::STANDARD.encode(bytes)
}

/// `Engine::decode` of base64, on its standard engine with padding: the
/// bytes that the text stands for, or nothing where the text is not
/// well-formed.
#[verifier::external_body]
fn decode_base64(text: &str) -> (r: Option<Vec<u8>>)
    ensures
        match r {
            Some(bytes) => base64_bytes(text@) == Some(bytes@),
            None => base64_bytes(text@) is None,
        },
{
    base64::engine::general_purpose::STANDARD.decode(text).ok()
}

/// `str::to_lowercase` of the standard library: the text with every
/// character in lower case.
#[verifier::external_body]
fn lowercase(text: &str) -> (r: String)
    ensures
        r@ == lowercase_text(text@),
{
    text.to_lowercase()
}

/// The bit pattern of the number one.
pub const ONE_BITS: u64 = 0x3FF0_0000_0000_0000;

/// The bit pattern of the number zero with the sign set.
pub const MINUS_ZERO_BITS: u64 = 0x8000_0000_0000_0000;

/// Whether a number differs from zero. Zero with either sign does not;
/// every other bit pattern does, those that are no numbers included.
pub open spec fn is_nonzero(bits: u64) -> bool {
    bits != 0 && bits != MINUS_ZERO_BITS
}

/// The number that stands for a truth value: one or zero.
pub open spec fn truth_bits(b: bool) -> u64 {
    if b {
        ONE_BITS
    } else {
        0
    }
}

/// The truth value that a text in lower case names.
pub open spec fn truth_of(lower: Seq<char>) -> Option<bool> {
    if lower == "true"@ || lower == "yes"@ || lower == "1"@ {
        Some(true)
    } else if lower == "false"@ || lower == "no"@ || lower == "0"@ {
        Some(false)
    } else {
        None
    }
}

/// The text of a truth value.
pub open spec fn truth_text(b: bool) -> Seq<char> {
    if b {
        "true"@
    } else {
        "false"@
    }
}

/// The error for a text that names no number.
pub open spec fn not_a_number(text: Seq<char>) -> ErrorView {
    ErrorView::ConversionError("Cannot convert '"@ + text + "' to number"@)
}

/// The error for a text that names no truth value.
pub open spec fn not_a_truth(text: Seq<char>) -> ErrorView {
    ErrorView::ConversionError("Cannot convert '"@ + text + "' to boolean"@)
}

/// The error for a text that is no base64.
pub open spec fn not_base64() -> ErrorView {
    ErrorView::ConversionError("Cannot convert string to binary"@)
}

/// The error for two types between which there is no conversion.
pub open spec fn no_conversion(from: DataTypeView, to: DataTypeView) -> ErrorView {
    ErrorView::TypeMismatch("Cannot convert "@ + from.name() + " to "@ + to.name())
}

/// What a conversion comes to: a result, or a number to print, or a text
/// to read as a number.
pub enum Conversion {
    Done(Result<DataValueView, ErrorView>),
    PrintNumber(u64),
    ParseNumber(Seq<char>),
}

/// What it takes to convert `value` to the type `target`. Numbers, truth
/// values and text convert into one another; a path converts to text; bytes
/// convert to text and back in base64; and every value converts to its own
/// type. There is no other conversion.
pub open spec fn conversion(value: DataValueView, target: DataTypeView) -> Conversion {
    match (value, target) {
        (DataValueView::Number(n), DataTypeView::Number) => Conversion::Done(
            Ok(DataValueView::Number(n)),
        ),
        (DataValueView::Number(n), DataTypeView::Text) => Conversion::PrintNumber(n),
        (DataValueView::Number(n), DataTypeView::Boolean) => Conversion::Done(
            Ok(DataValueView::Boolean(is_nonzero(n))),
        ),
        (DataValueView::Text(s), DataTypeView::Text) => Conversion::Done(
            Ok(DataValueView::Text(s)),
        ),
        (DataValueView::Text(s), DataTypeView::Number) => Conversion::ParseNumber(s),
        (DataValueView::Text(s), DataTypeView::Boolean) => Conversion::Done(
            match truth_of(lowercase_text(s)) {
                Some(b) => Ok(DataValueView::Boolean(b)),
                None => Err(not_a_truth(s)),
            },
        ),
        (DataValueView::Boolean(b), DataTypeView::Boolean) => Conversion::Done(
            Ok(DataValueView::Boolean(b)),
        ),
        (DataValueView::Boolean(b), DataTypeView::Number) => Conversion::Done(
            Ok(DataValueView::Number(truth_bits(b))),
        ),
        (DataValueView::Boolean(b), DataTypeView::Text) => Conversion::Done(
            Ok(DataValueView::Text(truth_text(b))),
        ),
        (DataValueView::Path(p), DataTypeView::Path) => Conversion::Done(
            Ok(DataValueView::Path(p)),
        ),
        (DataValueView::Path(p), DataTypeView::Text) => Conversion::Done(
            Ok(DataValueView::Text(p)),
        ),
        (DataValueView::Binary(b), DataTypeView::Binary) => Conversion::Done(
            Ok(DataValueView::Binary(b)),
        ),
        (DataValueView::Binary(b), DataTypeView::Text) => Conversion::Done(
            Ok(DataValueView::Text(base64_text(b))),
        ),
        (DataValueView::Text(s), DataTypeView::Binary) => Conversion::Done(
            match base64_bytes(s) {
                Some(b) => Ok(DataValueView::Binary(b)),
                None => Err(not_base64()),
            },
        ),
        _ => Conversion::Done(Err(no_conversion(value.data_type(), target))),
    }
}

/// The outcome of a conversion as contracts speak of it.
pub open spec fn converted_view(r: Result<DataValue, Error>) -> Result<DataValueView, ErrorView> {
    match r {
        Ok(v) => Ok(v@),
        Err(e) => Err(e@),
    }
}

/// What reading a text as a number comes to, given what the reader said.
pub open spec fn number_read(text: Seq<char>, parsed: Option<u64>) -> Result<
    DataValueView,
    ErrorView,
> {
    match parsed {
        Some(bits) => Ok(DataValueView::Number(bits)),
        None => Err(not_a_number(text)),
    }
}

/// The value of a text that was read as a number: the number, or the error
/// that names the text.
pub fn number_from_text(text: &str, parsed: Option<u64>) -> (r: Result<DataValue, Error>)
    ensures
        converted_view(r) == number_read(text@, parsed),
{
    match parsed {
        Some(bits) => Ok(DataValue::Number(bits)),
        None => {
            let mut msg = String::from_str("Cannot convert '");
            msg.append(text);
            msg.append("' to number");
            Err(Error::ConversionError(msg))
        },
    }
}

/// The truth value that a text names, in any case of letters: `true`, `yes`
/// and `1`, or `false`, `no` and `0`.
pub fn truth_from_text(text: &str) -> (r: Option<bool>)
    ensures
        r == truth_of(lowercase_text(text@)),
{
    let lower = lowercase(text);
    let is = |word: &str| -> (same: bool)
        ensures
            same == (lower@ == word@),
        {
            let w = word.to_owned();
            lower == w
        };
    if is("true") || is("yes") || is("1") {
        Some(true)
    } else if is("false") || is("no") || is("0") {
        Some(false)
    } else {
        None
    }
}

impl DataValue {
    /// The value as a number, where it has one: a number itself, one or
    /// zero for a truth value, and for a text the number that `numbers`
    /// reads from it, if any.
    pub fn as_number<N: NumberText>(&self, numbers: &N) -> (r: Option<u64>)
        ensures
            match self@ {
                DataValueView::Number(n) => r == Some(n),
                DataValueView::Boolean(b) => r == Some(truth_bits(b)),
                DataValueView::Text(s) => exists|text: &str|
                    text@ == s && #[trigger] call_ensures(N::parse, (numbers, text), r),
                _ => r is None,
            },
    {
        match self {
            DataValue::Number(n) => Some(*n),
            DataValue::Boolean(b) => Some(
                if *b {
                    ONE_BITS
                } else {
                    0
                },
            ),
            DataValue::Text(s) => numbers.parse(s.as_str()),
            _ => None,
        }
    }

    /// The value converted to the type `target`; see [`conversion`]. Where
    /// a number has to be printed or read, `numbers` is asked once, for
    /// this number or this text, and its answer settles the outcome: the
    /// printed text is the result, and a text that it cannot read is
    /// refused.
    pub fn convert_to<N: NumberText>(&self, target: DataType, numbers: &N) -> (r: Result<
        DataValue,
        Error,
    >)
        ensures
            match conversion(self@, target@) {
                Conversion::Done(outcome) => converted_view(r) == outcome,
                Conversion::PrintNumber(bits) => exists|text: String|
                    #[trigger] call_ensures(N::print, (numbers, bits), text) && converted_view(r)
                        == Ok::<DataValueView, ErrorView>(DataValueView::Text(text@)),
                Conversion::ParseNumber(s) => exists|text: &str, parsed: Option<u64>|
                    text@ == s && #[trigger] call_ensures(N::parse, (numbers, text), parsed)
                        && converted_view(r) == number_read(s, parsed),
            },
    {
        proof {
            reveal_with_fuel(DataType::model, 2);
        }
        match (self, &target) {
            (DataValue::Number(n), DataType::Number) => Ok(DataValue::Number(*n)),
            (DataValue::Number(n), DataType::Text) => Ok(DataValue::Text(numbers.print(*n))),
            (DataValue::Number(n), DataType::Boolean) => Ok(
                DataValue::Boolean(*n != 0 && *n != MINUS_ZERO_BITS),
            ),
            (DataValue::Text(s), DataType::Text) => Ok(DataValue::Text(s.clone())),
            (DataValue::Text(s), DataType::Number) => {
                let parsed = numbers.parse(s.as_str());
                number_from_text(s.as_str(), parsed)
            },
            (DataValue::Text(s), DataType::Boolean) => match truth_from_text(s.as_str()) {
                Some(b) => Ok(DataValue::Boolean(b)),
                None => {
                    let mut msg = String::from_str("Cannot convert '");
                    msg.append(s.as_str());
                    msg.append("' to boolean");
                    Err(Error::ConversionError(msg))
                },
            },
            (DataValue::Boolean(b), DataType::Boolean) => Ok(DataValue::Boolean(*b)),
            (DataValue::Boolean(b), DataType::Number) => Ok(
                DataValue::Number(
                    if *b {
                        ONE_BITS
                    } else {
                        0
                    },
                ),
            ),
            (DataValue::Boolean(b), DataType::Text) => Ok(
                DataValue::Text(
                    if *b {
                        String::from_str("true")
                    } else {
                        String::from_str("false")
                    },
                ),
            ),
            (DataValue::Path(p), DataType::Path) => Ok(DataValue::Path(p.clone())),
            (DataValue::Path(p), DataType::Text) => Ok(DataValue::Text(p.clone())),
            (DataValue::Binary(b), DataType::Binary) => {
                let copy = b.clone();
                Ok(DataValue::Binary(copy))
            },
            (DataValue::Binary(b), DataType::Text) => Ok(DataValue::Text(encode_base64(b))),
            (DataValue::Text(s), DataType::Binary) => match decode_base64(s.as_str()) {
                Some(bytes) => Ok(DataValue::Binary(bytes)),
                None => Err(
                    Error::ConversionError(String::from_str("Cannot convert string to binary")),
                ),
            },
            _ => {
                let mut msg = String::from_str("Cannot convert ");
                let from = self.data_type().to_string();
                msg.append(from.as_str());
                msg.append(" to ");
                let to = target.to_string();
                msg.append(to.as_str());
                Err(Error::TypeMismatch(msg))
            },
        }
    }
}

} // verus!
