//! Errors of the message codec.

use crate::text::{copy_text, debug_text, decimal_int, push_decimal_int, str_debug};
use crate::transport::{TransportError, TransportErrorView};
use vstd::prelude::*;

verus! {

/// Why a message or a dictionary could not be read or written.
#[derive(Debug)]
#[allow(inconsistent_fields)]
pub enum ParseError {
    UnknownFormatCode(String),
    EmptyFormat,
    EmptyCommand,
    EmptyBody,
    MalformedField,
    MalformedArg,
    UnknownCommand(String),
    UnknownMsgid(i32),
    BadMsgid,
    UnknownEnumName(String),
    UnknownEnumValue { enum_name: String, value: String },
    MissingField(String),
    OutOfRange { value: i64, range: &'static str },
    ShortFrame,
    Truncated,
    BadVlq,
    BadHex(String),
    DuplicateMsgid(i32),
    DuplicateFormatString(String),
    DuplicateMessageName(String),
    Zlib(String),
    Json(String),
}

/// Model of [`ParseError`].
#[allow(inconsistent_fields)]
pub enum ErrorView {
    UnknownFormatCode(Seq<char>),
    EmptyFormat,
    EmptyCommand,
    EmptyBody,
    MalformedField,
    MalformedArg,
    UnknownCommand(Seq<char>),
    UnknownMsgid(i32),
    BadMsgid,
    UnknownEnumName(Seq<char>),
    UnknownEnumValue { enum_name: Seq<char>, value: Seq<char> },
    MissingField(Seq<char>),
    OutOfRange { value: i64, range: Seq<char> },
    ShortFrame,
    Truncated,
    BadVlq,
    BadHex(Seq<char>),
    DuplicateMsgid(i32),
    DuplicateFormatString(Seq<char>),
    DuplicateMessageName(Seq<char>),
    Zlib(Seq<char>),
    Json(Seq<char>),
}

impl View for ParseError {
    type V = ErrorView;

    open spec fn view(&self) -> ErrorView {
        match self {
            ParseError::UnknownFormatCode(s) => ErrorView::UnknownFormatCode(s@),
            ParseError::EmptyFormat => ErrorView::EmptyFormat,
            ParseError::EmptyCommand => ErrorView::EmptyCommand,
            ParseError::EmptyBody => ErrorView::EmptyBody,
            ParseError::MalformedField => ErrorView::MalformedField,
            ParseError::MalformedArg => ErrorView::MalformedArg,
            ParseError::UnknownCommand(s) => ErrorView::UnknownCommand(s@),
            ParseError::UnknownMsgid(i) => ErrorView::UnknownMsgid(*i),
            ParseError::BadMsgid => ErrorView::BadMsgid,
            ParseError::UnknownEnumName(s) => ErrorView::UnknownEnumName(s@),
            ParseError::UnknownEnumValue { enum_name, value } => ErrorView::UnknownEnumValue {
                enum_name: enum_name@,
                value: value@,
            },
            ParseError::MissingField(s) => ErrorView::MissingField(s@),
            ParseError::OutOfRange { value, range } => ErrorView::OutOfRange {
                value: *value,
                range: range@,
            },
            ParseError::ShortFrame => ErrorView::ShortFrame,
            ParseError::Truncated => ErrorView::Truncated,
            ParseError::BadVlq => ErrorView::BadVlq,
            ParseError::BadHex(s) => ErrorView::BadHex(s@),
            ParseError::DuplicateMsgid(i) => ErrorView::DuplicateMsgid(*i),
            ParseError::DuplicateFormatString(s) => ErrorView::DuplicateFormatString(s@),
            ParseError::DuplicateMessageName(s) => ErrorView::DuplicateMessageName(s@),
            ParseError::Zlib(s) => ErrorView::Zlib(s@),
            ParseError::Json(s) => ErrorView::Json(s@),
        }
    }
}

/// A text between two others.
pub open spec fn around(head: Seq<char>, text: Seq<char>, tail: Seq<char>) -> Seq<char> {
    head + text + tail
}

/// An error in words.
pub open spec fn error_text(e: ErrorView) -> Seq<char> {
    match e {
        ErrorView::EmptyFormat => "EmptyFormat"@,
        ErrorView::EmptyCommand => "EmptyCommand"@,
        ErrorView::EmptyBody => "EmptyBody"@,
        ErrorView::MalformedField => "MalformedField"@,
        ErrorView::MalformedArg => "MalformedArg"@,
        ErrorView::BadMsgid => "BadMsgid"@,
        ErrorView::ShortFrame => "ShortFrame"@,
        ErrorView::Truncated => "Truncated"@,
        ErrorView::BadVlq => "BadVlq"@,
        ErrorView::UnknownFormatCode(s) => around("UnknownFormatCode("@, str_debug(s), ")"@),
        ErrorView::UnknownCommand(s) => around("UnknownCommand("@, str_debug(s), ")"@),
        ErrorView::UnknownEnumName(s) => around("UnknownEnumName("@, str_debug(s), ")"@),
        ErrorView::MissingField(s) => around("MissingField("@, str_debug(s), ")"@),
        ErrorView::BadHex(s) => around("BadHex("@, str_debug(s), ")"@),
        ErrorView::DuplicateFormatString(s) => around("DuplicateFormatString("@, str_debug(s), ")"@),
        ErrorView::DuplicateMessageName(s) => around("DuplicateMessageName("@, str_debug(s), ")"@),
        ErrorView::Zlib(s) => around("Zlib("@, str_debug(s), ")"@),
        ErrorView::Json(s) => around("Json("@, str_debug(s), ")"@),
        ErrorView::UnknownMsgid(i) => around("UnknownMsgid("@, decimal_int(i as int), ")"@),
        ErrorView::DuplicateMsgid(i) => around("DuplicateMsgid("@, decimal_int(i as int), ")"@),
        ErrorView::UnknownEnumValue { enum_name, value } => around(
            "UnknownEnumValue { enum_name: "@,
            around(str_debug(enum_name), ", value: "@, str_debug(value)),
            " }"@,
        ),
        ErrorView::OutOfRange { value, range } => around(
            "OutOfRange { value: "@,
            around(decimal_int(value as int), ", range: "@, str_debug(range)),
            " }"@,
        ),
    }
}

/// Puts a text between two others.
pub(crate) fn enclose(head: &str, text: String, tail: &str) -> (r: String)
    ensures
        r@ == around(head@, text@, tail@),
{
    let mut s: String = copy_text(head);
    s.append(text.as_str());
    s.append(tail);
    s
}

/// A number in decimal digits.
pub(crate) fn number_text(i: i64) -> (r: String)
    ensures
        r@ == decimal_int(i as int),
{
    let mut s: String = String::new();
    push_decimal_int(&mut s, i);
    proof {
        assert(s@ =~= decimal_int(i as int));
    }
    s
}

impl ParseError {
    /// The error in words.
    pub fn to_text(&self) -> (r: String)
        ensures
            r@ == error_text(self@),
    {
        match self {
            ParseError::EmptyFormat => copy_text("EmptyFormat"),
            ParseError::EmptyCommand => copy_text("EmptyCommand"),
            ParseError::EmptyBody => copy_text("EmptyBody"),
            ParseError::MalformedField => copy_text("MalformedField"),
            ParseError::MalformedArg => copy_text("MalformedArg"),
            ParseError::BadMsgid => copy_text("BadMsgid"),
            ParseError::ShortFrame => copy_text("ShortFrame"),
            ParseError::Truncated => copy_text("Truncated"),
            ParseError::BadVlq => copy_text("BadVlq"),
            ParseError::UnknownFormatCode(s) => enclose("UnknownFormatCode(", debug_text(s.as_str()), ")"),
            ParseError::UnknownCommand(s) => enclose("UnknownCommand(", debug_text(s.as_str()), ")"),
            ParseError::UnknownEnumName(s) => enclose("UnknownEnumName(", debug_text(s.as_str()), ")"),
            ParseError::MissingField(s) => enclose("MissingField(", debug_text(s.as_str()), ")"),
            ParseError::BadHex(s) => enclose("BadHex(", debug_text(s.as_str()), ")"),
            ParseError::DuplicateFormatString(s) => enclose("DuplicateFormatString(", debug_text(s.as_str()), ")"),
            ParseError::DuplicateMessageName(s) => enclose("DuplicateMessageName(", debug_text(s.as_str()), ")"),
            ParseError::Zlib(s) => enclose("Zlib(", debug_text(s.as_str()), ")"),
            ParseError::Json(s) => enclose("Json(", debug_text(s.as_str()), ")"),
            ParseError::UnknownMsgid(i) => enclose("UnknownMsgid(", number_text(*i as i64), ")"),
            ParseError::DuplicateMsgid(i) => enclose("DuplicateMsgid(", number_text(*i as i64), ")"),
            ParseError::UnknownEnumValue { enum_name, value } => {
                let first: String = debug_text(enum_name.as_str());
                let second: String = debug_text(value.as_str());
                let both: String = enclose(
                    first.as_str(),
                    copy_text(", value: "),
                    second.as_str(),
                );
                enclose("UnknownEnumValue { enum_name: ", both, " }")
            },
            ParseError::OutOfRange { value, range } => {
                let first: String = number_text(*value);
                let second: String = debug_text(range);
                let both: String = enclose(
                    first.as_str(),
                    copy_text(", range: "),
                    second.as_str(),
                );
                enclose("OutOfRange { value: ", both, " }")
            },
        }
    }

    /// The error as a transport's error.
    pub fn into_transport(self) -> (r: TransportError)
        ensures
            r@ == TransportErrorView::Parse(error_text(self@)),
    {
        TransportError::Parse(self.to_text())
    }
}

} // verus!
