//! Error taxonomy shared by every codec: one enum for the encode
//! direction and one for the decode direction.

use vstd::prelude::*;

verus! {

/// All possible errors that can occur while encoding.
#[derive(Debug, Clone, PartialEq, Eq, Structural)]
pub enum EncodeError {
    /// calling encode() on a state on which alloc() was not called
    NoBuffer,
    /// rest of the buffer is too small to encode the expected type
    BufferTooSmall,
    /// trying to encode a type which is not supported, e.g. u128
    TypeNotSupported,
}

impl EncodeError {
    /// A human-readable description of the error.
    pub fn message(&self) -> (r: &'static str)
        ensures
            self is NoBuffer ==> r@ == "no buffer allocated in State struct"@,
            self is BufferTooSmall ==> r@ == "buffer is too small to decode the expected type"@,
            self is TypeNotSupported ==> r@ == "the type is not supported by compact-encoding"@,
    {
        match self {
            Self::NoBuffer => "no buffer allocated in State struct",
            Self::BufferTooSmall => "buffer is too small to decode the expected type",
            Self::TypeNotSupported => "the type is not supported by compact-encoding",
        }
    }
}

/// shorthand type for encoding results
pub type EncodeResult = Result<(), EncodeError>;

/// All possible errors that can occur while decoding.
#[derive(Debug, Clone, PartialEq, Eq, Structural)]
pub enum DecodeError {
    /// calling decode() on a state on which alloc() was not called
    NoBuffer,
    /// buffer is too small to decode the expected type
    BufferTooSmall,
    /// trying to decode a type which is not supported, e.g. u128
    TypeNotSupported,
    /// type does not match the expected type to decode
    TypeMismatch,
    /// buffer did not contain valid UTF8 during decoding to a string
    InvalidUtf8,
    /// encoded array is too large for decoding
    ArrayTooLarge,
}

impl DecodeError {
    /// A human-readable description of the error.
    pub fn message(&self) -> (r: &'static str)
        ensures
            self is NoBuffer ==> r@ == "no buffer allocated in State struct"@,
            self is BufferTooSmall ==> r@ == "buffer is too small to decode the expected type"@,
            self is TypeNotSupported ==> r@ == "the type is not supported by compact-encoding"@,
            self is TypeMismatch ==> r@ == "the encoding does not match the type to be decoded into"@,
            self is InvalidUtf8 ==> r@
                == "the buffer did not contain a valid UTF8 string when decoding to a string"@,
            self is ArrayTooLarge ==> r@
                == "the encoded array is bigger than the maximum supported array size of 1048576"@,
    {
        match self {
            Self::NoBuffer => "no buffer allocated in State struct",
            Self::BufferTooSmall => "buffer is too small to decode the expected type",
            Self::TypeNotSupported => "the type is not supported by compact-encoding",
            Self::TypeMismatch => "the encoding does not match the type to be decoded into",
            Self::InvalidUtf8 => "the buffer did not contain a valid UTF8 string when decoding to a string",
            Self::ArrayTooLarge => "the encoded array is bigger than the maximum supported array size of 1048576",
        }
    }
}

/// shorthand type for decoding results;
/// must be parameterized with the type of the returned value
pub type DecodeResultT<T> = Result<T, DecodeError>;

} // verus!
