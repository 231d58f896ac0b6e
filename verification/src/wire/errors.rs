//! The two families of errors: building bytes, and reading them.
use crate::signature;
use vstd::prelude::*;

verus! {

/// Why a value could not be marshalled.
#[derive(Clone, Copy, Debug, PartialEq, Eq, Structural)]
pub enum MarshalError {
    /// A signature is malformed, or a value does not have the type that was declared for it.
    InvalidSignature,
    /// A signature is longer than 255 characters, an array holds more than
    /// 2^26 bytes, or a string is longer than a `u32` can say.
    TooLong,
    /// A type nests containers deeper than 32 levels.
    ExceedsMaxDepth,
    /// A struct has no members.
    EmptyStruct,
    /// A text is no object path.
    InvalidObjectPath,
    /// A signature text holds a character that no signature may hold.
    InvalidSignatureChar,
    /// The key type of a dict is not a basic type.
    DictKeyMustBeBase,
    /// A variant declares another type than its value has.
    VariantSigMismatch,
    /// There are more file descriptors than a `u32` can index.
    FdIndexOverflow,
}

/// Why bytes could not be read as a value.
#[derive(Clone, Copy, Debug, PartialEq, Eq, Structural)]
pub enum UnmarshalError {
    /// The buffer ends before the value does.
    NotEnoughBytes,
    /// An array or dict claims more bytes than the buffer holds.
    NotEnoughBytesForCollection,
    /// Bytes are left over behind the last value.
    NotAllBytesUsed,
    /// A byte of alignment padding is not zero.
    PaddingContainedData,
    /// A boolean is neither 0 nor 1.
    InvalidBoolean,
    /// A text is no object path.
    InvalidObjectPath,
    /// The bytes of a string are not UTF-8 text followed by a zero byte.
    InvalidUtf8,
    /// A signature is malformed.
    InvalidSignature,
    /// The type asked for is not the type that comes next.
    WrongSignature,
    /// No value is left.
    EndOfMessage,
    /// A file descriptor index points behind the list of descriptors.
    BadFdIndex,
}

impl MarshalError {
    /// The marshalling error that a signature error becomes.
    pub open spec fn of_signature(e: signature::Error) -> MarshalError {
        match e {
            signature::Error::InvalidSignature => MarshalError::InvalidSignature,
            signature::Error::ExceedsMaxDepth => MarshalError::ExceedsMaxDepth,
            signature::Error::TooLong => MarshalError::TooLong,
            signature::Error::EmptyStruct => MarshalError::EmptyStruct,
        }
    }

    pub fn from_signature(e: signature::Error) -> (r: MarshalError)
        ensures
            r == MarshalError::of_signature(e),
    {
        match e {
            signature::Error::InvalidSignature => MarshalError::InvalidSignature,
            signature::Error::ExceedsMaxDepth => MarshalError::ExceedsMaxDepth,
            signature::Error::TooLong => MarshalError::TooLong,
            signature::Error::EmptyStruct => MarshalError::EmptyStruct,
        }
    }
}

impl UnmarshalError {
    /// Every signature error is, to a reader, an invalid signature.
    pub fn from_signature(e: signature::Error) -> (r: UnmarshalError)
        ensures
            r == UnmarshalError::InvalidSignature,
    {
        UnmarshalError::InvalidSignature
    }
}

} // verus!
