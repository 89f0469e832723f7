//! The errors of the bridge.

use crate::text::{decimal, decimal_string};
use vstd::prelude::*;

verus! {

/// Why a host number has no place in the integer type that was asked for.
#[derive(Clone, Copy, Debug, PartialEq, Eq, Structural)]
pub enum CastError {
    /// The number is an infinity.
    Infinite,
    /// The number is not a number.
    NaN,
    /// The number lies above the largest value of the type.
    Overflow,
    /// The number lies below the smallest value of the type.
    Underflow,
    /// The number has a fractional part.
    Inexact,
}

/// What can go wrong while a value crosses the bridge.
#[derive(Clone, Debug, PartialEq, Eq)]
pub enum Error {
    /// A string of this many bytes is longer than the host allows.
    StringTooLong(usize),
    /// The host value cannot be read as the named type.
    UnableToCoerce(&'static str),
    /// A character was asked for and the host string is empty.
    EmptyString,
    /// A character was asked for and the host string holds this many more.
    StringTooLongForChar(usize),
    /// Null or undefined was expected.
    ExpectingNull,
    /// The host value cannot name an enum variant or a field.
    InvalidKeyType(String),
    /// A value was pulled from a cursor of the given length at the given index.
    ArrayIndexOutOfBounds(usize, usize),
    /// The host value is of a kind that has no decoding.
    NotImplemented(&'static str),
    /// The host itself refused an operation.
    Js,
    /// A number did not fit the integer type that was asked for.
    NumberCastError(CastError),
    /// A free-form message.
    Msg(String),
}

/// The mathematical content of an [`Error`].
pub enum ErrorView {
    StringTooLong(usize),
    UnableToCoerce(Seq<char>),
    EmptyString,
    StringTooLongForChar(usize),
    ExpectingNull,
    InvalidKeyType(Seq<char>),
    ArrayIndexOutOfBounds(usize, usize),
    NotImplemented(Seq<char>),
    Js,
    NumberCastError(CastError),
    Msg(Seq<char>),
}

impl View for Error {
    type V = ErrorView;

    open spec fn view(&self) -> ErrorView {
        match self {
            Error::StringTooLong(len) => ErrorView::StringTooLong(*len),
            Error::UnableToCoerce(to_type) => ErrorView::UnableToCoerce(to_type@),
            Error::EmptyString => ErrorView::EmptyString,
            Error::StringTooLongForChar(extra) => ErrorView::StringTooLongForChar(*extra),
            Error::ExpectingNull => ErrorView::ExpectingNull,
            Error::InvalidKeyType(key) => ErrorView::InvalidKeyType(key@),
            Error::ArrayIndexOutOfBounds(length, index) => ErrorView::ArrayIndexOutOfBounds(
                *length,
                *index,
            ),
            Error::NotImplemented(name) => ErrorView::NotImplemented(name@),
            Error::Js => ErrorView::Js,
            Error::NumberCastError(cause) => ErrorView::NumberCastError(*cause),
            Error::Msg(text) => ErrorView::Msg(text@),
        }
    }
}

/// The view of a result whose value is its own view.
pub open spec fn plain<T>(r: Result<T, Error>) -> Result<T, ErrorView> {
    match r {
        Ok(v) => Ok(v),
        Err(e) => Err(e@),
    }
}

/// The view of a result, value and error alike.
pub open spec fn viewed<T: View>(r: Result<T, Error>) -> Result<T::V, ErrorView> {
    match r {
        Ok(v) => Ok(v@),
        Err(e) => Err(e@),
    }
}

impl CastError {
    /// What the error says.
    pub open spec fn text(self) -> Seq<char> {
        match self {
            CastError::Infinite => "Cannot store infinite value in finite type"@,
            CastError::NaN => "Cannot store NaN in type which does not support it"@,
            CastError::Overflow => "Overflow during numeric conversion"@,
            CastError::Underflow => "Underflow during numeric conversion"@,
            CastError::Inexact => "Cannot store a fractional value in an integer type"@,
        }
    }

    /// What the error says.
    pub fn message(self) -> (s: &'static str)
        ensures
            s@ == self.text(),
    {
        match self {
            CastError::Infinite => "Cannot store infinite value in finite type",
            CastError::NaN => "Cannot store NaN in type which does not support it",
            CastError::Overflow => "Overflow during numeric conversion",
            CastError::Underflow => "Underflow during numeric conversion",
            CastError::Inexact => "Cannot store a fractional value in an integer type",
        }
    }
}

impl ErrorView {
    /// What the error says: what was expected, and what was found.
    pub open spec fn text(self) -> Seq<char> {
        match self {
            ErrorView::StringTooLong(len) => "String too long for nodejs len: "@ + decimal(
                len as nat,
            ),
            ErrorView::UnableToCoerce(to_type) => "Unable to coerce value to type: "@ + to_type,
            ErrorView::EmptyString => "EmptyString"@,
            ErrorView::StringTooLongForChar(extra) =>
                "String too long to be a char expected len: 1 got len: "@ + decimal(extra as nat),
            ErrorView::ExpectingNull => "ExpectingNull"@,
            ErrorView::InvalidKeyType(key) => "key: '"@ + key + "'"@,
            ErrorView::ArrayIndexOutOfBounds(length, index) =>
                "ArrayIndexOutOfBounds: attempt to access ("@ + decimal(index as nat)
                    + ") size: ("@ + decimal(length as nat) + ")"@,
            ErrorView::NotImplemented(name) => "Not Implemented: '"@ + name + "'"@,
            ErrorView::Js => "JavaScript Error"@,
            ErrorView::NumberCastError(cause) => cause.text(),
            ErrorView::Msg(text) => text,
        }
    }
}

impl Error {
    /// What the error says: what was expected, and what was found.
    pub fn message(&self) -> (s: String)
        ensures
            s@ == self@.text(),
    {
        match self {
            Error::StringTooLong(len) => String::from_str("String too long for nodejs len: ").concat(
                decimal_string(*len as u64).as_str(),
            ),
            Error::UnableToCoerce(to_type) => String::from_str(
                "Unable to coerce value to type: ",
            ).concat(to_type),
            Error::EmptyString => String::from_str("EmptyString"),
            Error::StringTooLongForChar(extra) => String::from_str(
                "String too long to be a char expected len: 1 got len: ",
            ).concat(decimal_string(*extra as u64).as_str()),
            Error::ExpectingNull => String::from_str("ExpectingNull"),
            Error::InvalidKeyType(key) => String::from_str("key: '").concat(key.as_str()).concat(
                "'",
            ),
            Error::ArrayIndexOutOfBounds(length, index) => String::from_str(
                "ArrayIndexOutOfBounds: attempt to access (",
            ).concat(decimal_string(*index as u64).as_str()).concat(") size: (").concat(
                decimal_string(*length as u64).as_str(),
            ).concat(")"),
            Error::NotImplemented(name) => String::from_str("Not Implemented: '").concat(
                name,
            ).concat("'"),
            Error::Js => String::from_str("JavaScript Error"),
            Error::NumberCastError(cause) => String::from_str(cause.message()),
            Error::Msg(text) => text.clone(),
        }
    }

    /// An error that carries `msg` and nothing else.
    pub fn custom(msg: &str) -> (e: Error)
        ensures
            e@ == ErrorView::Msg(msg@),
    {
        Error::Msg(String::from_str(msg))
    }
}

} // verus!
