//! The ways in which decoding or encoding can fail, and the decoding policy.

use vstd::prelude::*;

verus! {

/// Why a text could not be decoded, or bytes could not be encoded.
#[derive(Clone, Copy, Debug, PartialEq, Eq, Structural)]
pub enum Error {
    /// The first character of the text is the tag of no base.
    UnknownTag,
    /// A character of the body is no symbol of the base's alphabet.
    InvalidSymbol,
    /// The padding at the end of the body is not the canonical amount.
    InvalidPadding,
    /// The bits that remain after the last whole byte are not the zero
    /// padding of one final symbol.
    TrailingBits,
    /// The bytes handed to the identity base are not well-formed text.
    InvalidEncoding,
}

/// How exact a text has to be for decoding to accept it.
#[derive(Clone, Copy, Debug, PartialEq, Eq, Structural)]
pub enum DecodeMode {
    /// Symbols in the alphabet's own case, padding in the canonical amount.
    Strict,
    /// Letters of either case, and any amount of trailing padding.
    Permissive,
}

/// The result of a decoding function as a value of the model: the bytes
/// as a sequence.
pub open spec fn bytes_result(out: Result<Vec<u8>, Error>) -> Result<Seq<u8>, Error> {
    match out {
        Ok(bytes) => Ok(bytes@),
        Err(e) => Err(e),
    }
}

/// The result of an encoding function as a value of the model: the text as
/// a sequence of characters.
pub open spec fn text_result(out: Result<String, Error>) -> Result<Seq<char>, Error> {
    match out {
        Ok(text) => Ok(text@),
        Err(e) => Err(e),
    }
}

impl Error {
    /// A short description of the failure.
    pub fn message(&self) -> (text: &'static str)
        ensures
            text@ == Self::message_of(*self),
    {
        match self {
            Error::UnknownTag => "unknown base tag",
            Error::InvalidSymbol => "symbol outside the alphabet",
            Error::InvalidPadding => "invalid padding",
            Error::TrailingBits => "non-zero or surplus trailing bits",
            Error::InvalidEncoding => "bytes are not valid text",
        }
    }

    /// The description that `message` returns for each kind.
    pub open spec fn message_of(e: Error) -> Seq<char> {
        match e {
            Error::UnknownTag => "unknown base tag"@,
            Error::InvalidSymbol => "symbol outside the alphabet"@,
            Error::InvalidPadding => "invalid padding"@,
            Error::TrailingBits => "non-zero or surplus trailing bits"@,
            Error::InvalidEncoding => "bytes are not valid text"@,
        }
    }
}

} // verus!
