//! The identity base: the text is the bytes themselves, which therefore
//! have to be well-formed UTF-8.

use crate::error::{text_result, DecodeMode, Error};
use vstd::prelude::*;
use vstd::slice::slice_to_vec;
use vstd::string::{StrSliceExecFns, StringSliceAdditionalSpecFns};
use vstd::utf8::{
    decode_utf8, decode_utf8_encode_utf8, encode_utf8, encode_utf8_decode_utf8,
    encode_utf8_valid_utf8, valid_utf8,
};

verus! {

// The model.

/// What encoding `bytes` gives: the text that the bytes are in UTF-8, or
/// `InvalidEncoding` where they are not well-formed.
pub open spec fn identity_encoded(bytes: Seq<u8>) -> Result<Seq<char>, Error> {
    if valid_utf8(bytes) {
        Ok(decode_utf8(bytes))
    } else {
        Err(Error::InvalidEncoding)
    }
}

/// The bytes of `text` in UTF-8.
pub open spec fn identity_bytes(text: Seq<char>) -> Seq<u8> {
    encode_utf8(text)
}

// The call into std.

/// Calls `String::from_utf8` of std: it fails where the bytes are not
/// well-formed UTF-8; otherwise the result is the text that they encode.
#[verifier::external_body]
fn text_from(bytes: Vec<u8>) -> (out: Option<String>)
    ensures
        match out {
            Some(text) => valid_utf8(bytes@) && text@ == decode_utf8(bytes@),
            None => !valid_utf8(bytes@),
        },
{
    String::from_utf8(bytes).ok()
}

// The codec.

/// Returns `input` as text, where it is well-formed UTF-8.
pub fn encode(input: &[u8]) -> (out: Result<String, Error>)
    ensures
        text_result(out) == identity_encoded(input@),
{
    match text_from(slice_to_vec(input)) {
        Some(text) => Ok(text),
        None => Err(Error::InvalidEncoding),
    }
}

/// Returns the bytes of `text`, in either mode; it never fails.
pub fn decode(text: &str, _mode: DecodeMode) -> (bytes: Vec<u8>)
    ensures
        bytes@ == identity_bytes(text@),
{
    text.as_bytes_vec()
}

// The laws.

/// Decoding the text that encoding gave returns the bytes.
pub proof fn lemma_identity_round_trip(bytes: Seq<u8>)
    requires
        valid_utf8(bytes),
    ensures
        identity_encoded(bytes) == Ok::<Seq<char>, Error>(decode_utf8(bytes)),
        identity_bytes(decode_utf8(bytes)) == bytes,
{
    decode_utf8_encode_utf8(bytes);
}

/// Encoding the bytes of a text gives the text.
pub proof fn lemma_identity_canonical(text: Seq<char>)
    ensures
        identity_encoded(identity_bytes(text)) == Ok::<Seq<char>, Error>(text),
{
    encode_utf8_valid_utf8(text);
    encode_utf8_decode_utf8(text);
}

} // verus!
