use vstd::prelude::*;

use crate::field_info::FieldInfo;
use crate::msg::Msg;
use crate::value::Value;
use crate::wire::WireFault;

verus! {

/// What went wrong while decoding a payload.
#[derive(Debug)]
pub enum DecodeCause {
    /// The bytes ran out before the schema was satisfied.
    UnexpectedEof,
    /// A header other than `00 01 00 00`; carries the header's second byte.
    BadHeader(u8),
    /// A string's terminator byte was not zero.
    BadStringTerminator,
    /// A string's payload was not valid UTF-8.
    InvalidText,
    /// A duration field was met; durations are unsupported.
    DurationUnsupported,
    /// A chain of message references deeper than the dependency count.
    RecursionLimit,
    /// A constant field without a stored value.
    MissingConstant,
    /// Bytes left over after the message and the final alignment skip;
    /// carries the values decoded before the leftover bytes were found.
    Leftover(Vec<Value>),
    /// A positional value did not have the shape its field requires while
    /// mapping values to field names.
    StructureMismatch,
}

/// Whether a decode cause renders the given wire fault.
pub open spec fn cause_matches(c: DecodeCause, fault: WireFault) -> bool {
    match c {
        DecodeCause::UnexpectedEof => fault is Eof,
        DecodeCause::BadStringTerminator => fault is BadTerminator,
        DecodeCause::InvalidText => fault is BadText,
        DecodeCause::DurationUnsupported => fault is NoDuration,
        DecodeCause::RecursionLimit => fault is TooDeep,
        DecodeCause::MissingConstant => fault is NoConstant,
        _ => false,
    }
}

/// Enumeration of all errors that can be returned.
#[derive(Debug)]
pub enum Error {
    /// Message doesn't have a valid format.
    ///
    /// Message names must follow the `package_name/MessageName` format,
    /// and packages must start with a lowercase letter, be at least two
    /// characters long, use only lowercase letters, digits and single
    /// underscores.
    InvalidMessagePath {
        /// Full name of the message we are trying to parse.
        name: String,
        /// Reason for the failure.
        reason: String,
    },
    /// Field in the schema text has a type token that fits no data type category.
    UnsupportedDataType {
        /// Full name of the data type we are trying to parse.
        name: String,
        /// Reason for the failure.
        reason: String,
    },
    /// The schema text being parsed has invalid content.
    BadMessageContent(String),
    /// Certain operations require all messages that a message depends upon.
    MessageDependencyMissing {
        /// Package that the message is located in.
        package: String,
        /// Name of the missing message.
        name: String,
    },
    /// Passed in constant value is not parsable as its data type.
    BadConstant {
        /// Name of the constant.
        name: String,
        /// Type of the invalid value.
        datatype: String,
        /// The invalid value provided.
        value: String,
    },
    /// The provided message data is either invalid or unsupported.
    ///
    /// The context is attached once, where the failure struck: `msg` and
    /// `field` name the innermost message definition and field being decoded
    /// (no field for header and leftover failures), and `offset` the byte
    /// position at the failure.
    DecodingError {
        /// The innermost message definition being decoded at the failure.
        msg: Msg,
        /// The field being decoded at the failure, if any.
        field: Option<FieldInfo>,
        /// The byte offset at the failure.
        offset: usize,
        /// The underlying cause.
        cause: DecodeCause,
    },
}

/// Convenience type for shorter return value syntax of this crate's errors.
pub type Result<T> = core::result::Result<T, Error>;

} // verus!
