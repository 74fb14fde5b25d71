//! Self-describing binary-to-text encodings: a text carries, as its first
//! character, the tag of the base that the rest of it is written in, so
//! that it can be decoded without being told the base.

pub mod alphabet;
pub mod base;
pub mod bits;
pub mod emoji;
pub mod error;
pub mod identity;
pub mod radix;
pub mod seqs;
pub mod tables;
pub mod text;

pub use crate::base::{Base, Codec};
pub use crate::error::{text_result, DecodeMode, Error};
use crate::alphabet::fold_text;
use crate::text::push_char;
use vstd::prelude::*;
use vstd::string::{StrSliceExecFns, StringExecFns};

verus! {

/// What encoding `bytes` in `base` gives: the tag of the base followed by
/// the text that the base's codec writes, or the codec's error.
pub open spec fn encoded(base: Base, bytes: Seq<u8>) -> Result<Seq<char>, Error> {
    match base.codec().encoded(bytes) {
        Ok(body) => Ok(seq![base.tag()] + body),
        Err(e) => Err(e),
    }
}

/// What decoding the non-empty `text` in `mode` gives: `UnknownTag` where
/// its first character is the tag of no base; otherwise the base of that
/// tag together with the bytes that the base's codec reads from the rest
/// of the text, or the codec's error.
pub open spec fn decoded(text: Seq<char>, mode: DecodeMode) -> Result<(Base, Seq<u8>), Error> {
    match Base::with_tag(text[0]) {
        None => Err(Error::UnknownTag),
        Some(base) => match base.codec().decoded(text.skip(1), mode) {
            Ok(bytes) => Ok((base, bytes)),
            Err(e) => Err(e),
        },
    }
}

/// The text behind the tag is short enough for the codec of its base.
pub open spec fn can_decode(text: Seq<char>) -> bool {
    match Base::with_tag(text[0]) {
        Some(base) => base.codec().can_decode((text.len() - 1) as nat),
        None => true,
    }
}

/// The result of `decode` as a value of the model.
pub open spec fn decode_result(out: Result<(Base, Vec<u8>), Error>) -> Result<
    (Base, Seq<u8>),
    Error,
> {
    match out {
        Ok((base, bytes)) => Ok((base, bytes@)),
        Err(e) => Err(e),
    }
}

/// Encodes `input` in `base`: the result begins with the tag of the base.
pub fn encode(base: Base, input: &[u8]) -> (out: Result<String, Error>)
    requires
        base.codec().can_encode(input@.len()),
    ensures
        text_result(out) == encoded(base, input@),
{
    match base.encode(input) {
        Ok(body) => {
            let mut text = String::new();
            push_char(&mut text, base.code());
            text.append(body.as_str());
            Ok(text)
        },
        Err(e) => Err(e),
    }
}

/// Decodes `text`, whose first character says which base it is written in.
pub fn decode(text: &str, mode: DecodeMode) -> (out: Result<(Base, Vec<u8>), Error>)
    requires
        text@.len() > 0,
        can_decode(text@),
    ensures
        decode_result(out) == decoded(text@, mode),
{
    let tag = text.get_char(0);
    match Base::from_code(tag) {
        Ok(base) => {
            let len = text.unicode_len();
            let body = text.substring_char(1, len);
            match base.decode(body, mode) {
                Ok(bytes) => Ok((base, bytes)),
                Err(e) => Err(e),
            }
        },
        Err(e) => Err(e),
    }
}

/// Round trip: in either mode, decoding a text that `encode` gave returns
/// the base and the bytes that were encoded.
pub proof fn lemma_round_trip(base: Base, bytes: Seq<u8>, mode: DecodeMode)
    requires
        encoded(base, bytes).is_ok(),
    ensures
        decoded(encoded(base, bytes).unwrap(), mode) == Ok::<(Base, Seq<u8>), Error>(
            (base, bytes),
        ),
{
    let body = base.codec().encoded(bytes).unwrap();
    let text = encoded(base, bytes).unwrap();
    base.lemma_tag_unique();
    base.lemma_codec_wf();
    base.codec().lemma_round_trip(bytes, mode);
    assert(text.skip(1) =~= body);
}

/// Encoding fails for the identity base alone, and there only where the
/// bytes are not well-formed UTF-8.
pub proof fn lemma_encode_succeeds(base: Base, bytes: Seq<u8>)
    ensures
        encoded(base, bytes).is_err() <==> base == Base::Identity && !vstd::utf8::valid_utf8(
            bytes,
        ),
        encoded(base, bytes).is_err() ==> encoded(base, bytes) == Err::<Seq<char>, Error>(
            Error::InvalidEncoding,
        ),
{
}

/// Permissive decoding does not look at the case of the letters that the
/// base folds: behind the exact tag, a text that folds to what `encode`
/// wrote decodes to the bytes that were encoded.
pub proof fn lemma_case_folded(base: Base, bytes: Seq<u8>, body: Seq<char>)
    requires
        base.codec().encoded(bytes) == Ok::<Seq<char>, Error>(
            fold_text(base.codec().fold(), body),
        ),
    ensures
        decoded(seq![base.tag()] + body, DecodeMode::Permissive) == Ok::<
            (Base, Seq<u8>),
            Error,
        >((base, bytes)),
{
    let text = seq![base.tag()] + body;
    base.lemma_codec_wf();
    base.codec().lemma_case_folded(bytes, body);
    assert(text.skip(1) =~= body);
}

/// Permissive decoding accepts every text that strict decoding accepts,
/// and gives the same base and bytes for it.
pub proof fn lemma_permissive_accepts_strict(text: Seq<char>)
    requires
        decoded(text, DecodeMode::Strict).is_ok(),
    ensures
        decoded(text, DecodeMode::Permissive) == decoded(text, DecodeMode::Strict),
{
    let base = Base::with_tag(text[0]).unwrap();
    base.lemma_codec_wf();
    base.codec().lemma_permissive_accepts_strict(text.skip(1));
}

/// Strict decoding accepts only what `encode` writes: a text that it
/// decodes is the encoding, in the base it names, of the bytes it gives.
pub proof fn lemma_strict_canonical(text: Seq<char>)
    requires
        text.len() > 0,
        decoded(text, DecodeMode::Strict).is_ok(),
    ensures
        encoded(
            decoded(text, DecodeMode::Strict).unwrap().0,
            decoded(text, DecodeMode::Strict).unwrap().1,
        ) == Ok::<Seq<char>, Error>(text),
{
    let base = Base::with_tag(text[0]).unwrap();
    Base::lemma_with_tag(text[0]);
    base.lemma_codec_wf();
    base.codec().lemma_strict_canonical(text.skip(1));
    assert(seq![text[0]] + text.skip(1) =~= text);
}

/// A first character that is the tag of no base is `UnknownTag`, whatever
/// follows it and in either mode.
pub proof fn lemma_unknown_tag(text: Seq<char>, mode: DecodeMode)
    requires
        forall|base: Base| base.tag() != text[0],
    ensures
        decoded(text, mode) == Err::<(Base, Seq<u8>), Error>(Error::UnknownTag),
{
    Base::lemma_with_tag(text[0]);
}

/// Empty input: encoding no bytes gives the tag alone, and decoding the tag
/// alone gives no bytes, in every base and either mode.
pub proof fn lemma_empty_input(base: Base, mode: DecodeMode)
    ensures
        encoded(base, Seq::<u8>::empty()) == Ok::<Seq<char>, Error>(seq![base.tag()]),
        decoded(seq![base.tag()], mode) == Ok::<(Base, Seq<u8>), Error>(
            (base, Seq::<u8>::empty()),
        ),
{
    let none = Seq::<u8>::empty();
    base.lemma_codec_wf();
    base.codec().lemma_encodes_empty();
    lemma_round_trip(base, none, mode);
}

} // verus!
