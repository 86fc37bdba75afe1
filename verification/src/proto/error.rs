//! Errors of parsing and writing the wire format.

use vstd::prelude::*;
use vstd::string::StringExecFns;

use crate::text::{decimal, decimal_text};

verus! {

/// `std::str::Utf8Error`, carried by [`ParseError::InvalidUtf8`].
#[verifier::external_type_specification]
#[verifier::external_body]
pub struct ExUtf8Error(std::str::Utf8Error);

/// `<Utf8Error as Clone>::clone`: `Utf8Error` is `Copy`, so its clone is an
/// exact copy.
pub assume_specification[ <std::str::Utf8Error as Clone>::clone ](e: &std::str::Utf8Error) -> (r:
    std::str::Utf8Error)
    ensures
        r == *e,
;

/// Why a buffer could not be parsed as a DNS message.
#[derive(Debug, Clone, PartialEq, Eq)]
pub enum ParseError {
    UnexpectedEof,
    InvalidPointer,
    PointerLoop,
    LabelTooLong,
    NameTooLong,
    RdataLengthMismatch,
    UnknownRecordType(u16),
    UnknownClass(u16),
    InvalidUtf8(std::str::Utf8Error),
    ReservedBitSet,
}

/// The kind of a [`ParseError`], without the UTF-8 error's details.
#[derive(Debug, Clone, Copy, PartialEq, Eq)]
pub enum ParseFailure {
    UnexpectedEof,
    InvalidPointer,
    PointerLoop,
    LabelTooLong,
    NameTooLong,
    RdataLengthMismatch,
    UnknownRecordType(u16),
    UnknownClass(u16),
    InvalidUtf8,
    ReservedBitSet,
}

impl ParseError {
    /// The kind of this error.
    pub open spec fn kind(&self) -> ParseFailure {
        match self {
            ParseError::UnexpectedEof => ParseFailure::UnexpectedEof,
            ParseError::InvalidPointer => ParseFailure::InvalidPointer,
            ParseError::PointerLoop => ParseFailure::PointerLoop,
            ParseError::LabelTooLong => ParseFailure::LabelTooLong,
            ParseError::NameTooLong => ParseFailure::NameTooLong,
            ParseError::RdataLengthMismatch => ParseFailure::RdataLengthMismatch,
            ParseError::UnknownRecordType(t) => ParseFailure::UnknownRecordType(*t),
            ParseError::UnknownClass(c) => ParseFailure::UnknownClass(*c),
            ParseError::InvalidUtf8(_) => ParseFailure::InvalidUtf8,
            ParseError::ReservedBitSet => ParseFailure::ReservedBitSet,
        }
    }
}

/// `<Utf8Error as ToString>::to_string`: the error's description. Nothing
/// is stated of the text.
#[verifier::external_body]
fn utf8_error_text(e: &std::str::Utf8Error) -> String {
    e.to_string()
}

/// A string holding `prefix` followed by `rest`.
pub(crate) fn joined(prefix: &str, rest: &str) -> (r: String)
    ensures
        r@ == prefix@ + rest@,
{
    String::from_str(prefix).concat(rest)
}

/// The description of a [`ParseError`]. For `InvalidUtf8` it is the text
/// that the description of the bad bytes follows.
pub open spec fn parse_error_text(e: ParseError) -> Seq<char> {
    match e {
        ParseError::UnexpectedEof => "unexpected end of buffer"@,
        ParseError::InvalidPointer => "compression pointer out of bounds"@,
        ParseError::PointerLoop => "compression pointer loop detected"@,
        ParseError::LabelTooLong => "label exceeds 63 bytes"@,
        ParseError::NameTooLong => "name exceeds 253 bytes"@,
        ParseError::RdataLengthMismatch => "rdata length mismatch"@,
        ParseError::UnknownRecordType(t) => "unknown record type: "@ + decimal_text(t as nat),
        ParseError::UnknownClass(c) => "unknown class: "@ + decimal_text(c as nat),
        ParseError::InvalidUtf8(_) => "invalid UTF-8 in label: "@,
        ParseError::ReservedBitSet => "reserved Z bit is set"@,
    }
}

impl ParseError {
    /// A description of the error.
    pub fn message(&self) -> (r: String)
        ensures
            !(self is InvalidUtf8) ==> r@ == parse_error_text(*self),
            self is InvalidUtf8 ==> exists|d: Seq<char>| r@ == parse_error_text(*self) + d,
    {
        match self {
            ParseError::UnexpectedEof => String::from_str("unexpected end of buffer"),
            ParseError::InvalidPointer => String::from_str("compression pointer out of bounds"),
            ParseError::PointerLoop => String::from_str("compression pointer loop detected"),
            ParseError::LabelTooLong => String::from_str("label exceeds 63 bytes"),
            ParseError::NameTooLong => String::from_str("name exceeds 253 bytes"),
            ParseError::RdataLengthMismatch => String::from_str("rdata length mismatch"),
            ParseError::UnknownRecordType(t) => joined(
                "unknown record type: ",
                decimal(*t as u32).as_str(),
            ),
            ParseError::UnknownClass(c) => joined("unknown class: ", decimal(*c as u32).as_str()),
            ParseError::InvalidUtf8(e) => {
                let detail = utf8_error_text(e);
                let r = joined("invalid UTF-8 in label: ", detail.as_str());
                assert(r@ == parse_error_text(*self) + detail@);
                r
            },
            ParseError::ReservedBitSet => String::from_str("reserved Z bit is set"),
        }
    }
}

/// Why a message could not be written to the wire.
#[derive(Debug, Clone, Copy, PartialEq, Eq)]
pub enum WriteError {
    LabelTooLong,
    EmptyLabel,
    TxtChunkTooLong,
}

/// The description of a [`WriteError`].
pub open spec fn write_error_text(e: WriteError) -> Seq<char> {
    match e {
        WriteError::LabelTooLong => "label exceeds 63 bytes"@,
        WriteError::EmptyLabel => "domain name contains an empty label"@,
        WriteError::TxtChunkTooLong => "TXT chunk exceeds 255 bytes"@,
    }
}

impl WriteError {
    /// A description of the error.
    pub fn message(&self) -> (r: String)
        ensures
            r@ == write_error_text(*self),
    {
        match self {
            WriteError::LabelTooLong => String::from_str("label exceeds 63 bytes"),
            WriteError::EmptyLabel => String::from_str("domain name contains an empty label"),
            WriteError::TxtChunkTooLong => String::from_str("TXT chunk exceeds 255 bytes"),
        }
    }
}

} // verus!
