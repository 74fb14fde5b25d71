//! The bases: each has a tag, the character that a text of the base begins
//! with, and a codec, the conversion that the rest of the text is written
//! in.

use crate::alphabet::{fold_text, Alphabet, CaseFold};
use crate::bits::{
    bit_width, bits_decoded, bits_encoded, is_bits_alphabet, lemma_bits_decode_encode,
    lemma_bits_own_text, lemma_bits_strict_canonical, lemma_bits_strict_text, lemma_symbol_count,
    symbol_count,
};
use crate::emoji::{
    emoji_decoded, emoji_symbols, emoji_text, lemma_emoji_canonical, lemma_emoji_round_trip,
};
use crate::error::{bytes_result, text_result, DecodeMode, Error};
use crate::identity::{
    identity_bytes, identity_encoded, lemma_identity_canonical, lemma_identity_round_trip,
};
use crate::radix::{
    lemma_radix_canonical, lemma_radix_decode_encode, lemma_radix_round_trip, radix_decoded,
    radix_text,
};
use crate::seqs::{lemma_trailing_split, trailing_count};
use crate::tables::{
    BASE10, BASE16_LOWER, BASE16_UPPER, BASE2, BASE32HEX_LOWER, BASE32HEX_UPPER, BASE32Z,
    BASE32_LOWER, BASE32_UPPER, BASE36_LOWER, BASE36_UPPER, BASE58_BITCOIN, BASE58_FLICKR, BASE64,
    BASE64URL, BASE8, lemma_base10, lemma_base16_lower, lemma_base16_upper, lemma_base2,
    lemma_base32_lower, lemma_base32_upper, lemma_base32hex_lower, lemma_base32hex_upper,
    lemma_base32z, lemma_base36_lower, lemma_base36_upper, lemma_base58_bitcoin,
    lemma_base58_flickr, lemma_base64, lemma_base64url, lemma_base8, padded, plain,
};
use vstd::prelude::*;

verus! {

/// A conversion between bytes and text, with the alphabet it uses.
#[derive(Clone, Copy, Debug)]
pub enum Codec {
    /// The text is the bytes.
    Identity,
    /// Groups of bits, for an alphabet whose size is a power of two.
    Bits(Alphabet),
    /// The digits of one big number, for an alphabet of any other size.
    Radix(Alphabet),
    /// One symbol out of 256 for each byte.
    Emoji,
}

/// A base that a text can be written in.
#[derive(Clone, Copy, Debug, PartialEq, Eq, Structural)]
pub enum Base {
    /// The bytes themselves, as text.
    Identity,
    /// Binary.
    Base2,
    /// Octal.
    Base8,
    /// Decimal.
    Base10,
    /// Hexadecimal, lower case.
    Base16Lower,
    /// Hexadecimal, upper case.
    Base16Upper,
    /// RFC 4648 base32, lower case, no padding.
    Base32Lower,
    /// RFC 4648 base32, upper case, no padding.
    Base32Upper,
    /// RFC 4648 base32, lower case, padded.
    Base32PadLower,
    /// RFC 4648 base32, upper case, padded.
    Base32PadUpper,
    /// RFC 4648 base32hex, lower case, no padding.
    Base32HexLower,
    /// RFC 4648 base32hex, upper case, no padding.
    Base32HexUpper,
    /// RFC 4648 base32hex, lower case, padded.
    Base32HexPadLower,
    /// RFC 4648 base32hex, upper case, padded.
    Base32HexPadUpper,
    /// z-base-32.
    Base32Z,
    /// Base36, lower case.
    Base36Lower,
    /// Base36, upper case.
    Base36Upper,
    /// Base58 in Flickr's order.
    Base58Flickr,
    /// Base58 in Bitcoin's order.
    Base58Btc,
    /// RFC 4648 base64, no padding.
    Base64,
    /// RFC 4648 base64, padded.
    Base64Pad,
    /// RFC 4648 base64 for URLs, no padding.
    Base64Url,
    /// RFC 4648 base64 for URLs, padded.
    Base64UrlPad,
    /// One pictographic symbol for each byte.
    Base256Emoji,
}

impl Codec {
    /// The codec's alphabet is well formed and of the kind that the codec
    /// converts with.
    pub open spec fn wf(self) -> bool {
        match self {
            Codec::Bits(alphabet) => is_bits_alphabet(alphabet),
            Codec::Radix(alphabet) => alphabet.wf(),
            Codec::Identity | Codec::Emoji => true,
        }
    }

    /// What encoding `bytes` gives: the text, or for the identity codec
    /// `InvalidEncoding` where the bytes are no text.
    pub open spec fn encoded(self, bytes: Seq<u8>) -> Result<Seq<char>, Error> {
        match self {
            Codec::Identity => identity_encoded(bytes),
            Codec::Bits(alphabet) => Ok(bits_encoded(alphabet, bytes)),
            Codec::Radix(alphabet) => Ok(radix_text(alphabet.symbols@, bytes)),
            Codec::Emoji => Ok(emoji_text(bytes)),
        }
    }

    /// What decoding `text` in `mode` gives: the bytes, or the one error
    /// that the codec finds.
    pub open spec fn decoded(self, text: Seq<char>, mode: DecodeMode) -> Result<Seq<u8>, Error> {
        match self {
            Codec::Identity => Ok(identity_bytes(text)),
            Codec::Bits(alphabet) => bits_decoded(alphabet, text, mode),
            Codec::Radix(alphabet) => radix_decoded(alphabet, text, mode),
            Codec::Emoji => emoji_decoded(text),
        }
    }

    /// The folding that permissive decoding applies to a text of the codec.
    pub open spec fn fold(self) -> CaseFold {
        match self {
            Codec::Bits(alphabet) | Codec::Radix(alphabet) => alphabet.fold,
            Codec::Identity | Codec::Emoji => CaseFold::Exact,
        }
    }

    /// An input of `len` bytes is short enough for the length of its text
    /// to be computed in a `usize`.
    pub open spec fn can_encode(self, len: nat) -> bool {
        match self {
            Codec::Bits(_) => len <= usize::MAX / 512,
            Codec::Emoji => len <= usize::MAX / 4,
            Codec::Identity | Codec::Radix(_) => true,
        }
    }

    /// A text of `len` characters is short enough for the number of its
    /// bits to be computed in a `usize`.
    pub open spec fn can_decode(self, len: nat) -> bool {
        match self {
            Codec::Bits(_) => len <= usize::MAX / 8,
            Codec::Identity | Codec::Radix(_) | Codec::Emoji => true,
        }
    }

    /// Encodes `input` without a tag.
    pub fn encode(&self, input: &[u8]) -> (out: Result<String, Error>)
        requires
            self.wf(),
            self.can_encode(input@.len()),
        ensures
            text_result(out) == self.encoded(input@),
    {
        match self {
            Codec::Identity => crate::identity::encode(input),
            Codec::Bits(alphabet) => Ok(crate::bits::encode(alphabet, input)),
            Codec::Radix(alphabet) => Ok(crate::radix::encode(alphabet, input)),
            Codec::Emoji => Ok(crate::emoji::encode(input)),
        }
    }

    /// Decodes `text`, which carries no tag.
    pub fn decode(&self, text: &str, mode: DecodeMode) -> (out: Result<Vec<u8>, Error>)
        requires
            self.wf(),
            self.can_decode(text@.len()),
        ensures
            bytes_result(out) == self.decoded(text@, mode),
    {
        match self {
            Codec::Identity => Ok(crate::identity::decode(text, mode)),
            Codec::Bits(alphabet) => crate::bits::decode(alphabet, text, mode),
            Codec::Radix(alphabet) => crate::radix::decode(alphabet, text, mode),
            Codec::Emoji => crate::emoji::decode(text, mode),
        }
    }

    /// In either mode, decoding a text that encoding gave returns the bytes
    /// that were encoded.
    pub proof fn lemma_round_trip(self, bytes: Seq<u8>, mode: DecodeMode)
        requires
            self.wf(),
            self.encoded(bytes).is_ok(),
        ensures
            self.decoded(self.encoded(bytes).unwrap(), mode) == Ok::<Seq<u8>, Error>(bytes),
    {
        match self {
            Codec::Identity => lemma_identity_round_trip(bytes),
            Codec::Bits(alphabet) => lemma_bits_decode_encode(alphabet, bytes, mode),
            Codec::Radix(alphabet) => lemma_radix_decode_encode(alphabet, bytes, mode),
            Codec::Emoji => lemma_emoji_round_trip(bytes),
        }
    }

    /// Strict decoding accepts only what encoding writes: a text that it
    /// decodes is the encoding of the bytes that it gives.
    pub proof fn lemma_strict_canonical(self, text: Seq<char>)
        requires
            self.wf(),
            self.decoded(text, DecodeMode::Strict).is_ok(),
        ensures
            self.encoded(self.decoded(text, DecodeMode::Strict).unwrap()) == Ok::<
                Seq<char>,
                Error,
            >(text),
    {
        match self {
            Codec::Identity => lemma_identity_canonical(text),
            Codec::Bits(alphabet) => lemma_bits_strict_canonical(alphabet, text),
            Codec::Radix(alphabet) => lemma_radix_canonical(alphabet.symbols@, text),
            Codec::Emoji => lemma_emoji_canonical(text),
        }
    }

    /// Permissive decoding does not look at the case of letters that the
    /// codec folds: a text that folds to what encoding gave decodes to the
    /// bytes that were encoded.
    pub proof fn lemma_case_folded(self, bytes: Seq<u8>, text: Seq<char>)
        requires
            self.wf(),
            self.encoded(bytes) == Ok::<Seq<char>, Error>(fold_text(self.fold(), text)),
        ensures
            self.decoded(text, DecodeMode::Permissive) == Ok::<Seq<u8>, Error>(bytes),
    {
        let canonical = fold_text(self.fold(), text);
        self.lemma_round_trip(bytes, DecodeMode::Permissive);
        match self {
            Codec::Identity | Codec::Emoji => {
                assert(canonical =~= text);
            },
            Codec::Bits(alphabet) => {
                lemma_bits_own_text(alphabet, bytes);
                alphabet.lemma_reading_own_text(canonical, DecodeMode::Permissive);
            },
            Codec::Radix(alphabet) => {
                lemma_radix_round_trip(alphabet.symbols@, bytes);
            },
        }
    }

    /// Permissive decoding accepts every text that strict decoding accepts,
    /// and reads the same bytes from it.
    pub proof fn lemma_permissive_accepts_strict(self, text: Seq<char>)
        requires
            self.wf(),
            self.decoded(text, DecodeMode::Strict).is_ok(),
        ensures
            self.decoded(text, DecodeMode::Permissive) == self.decoded(text, DecodeMode::Strict),
    {
        match self {
            Codec::Identity | Codec::Emoji => {},
            Codec::Bits(alphabet) => {
                lemma_bits_strict_text(alphabet, text);
                alphabet.lemma_reading_own_text(text, DecodeMode::Permissive);
            },
            Codec::Radix(alphabet) => {
                alphabet.lemma_reading_own_text(text, DecodeMode::Permissive);
            },
        }
    }

    /// Strict decoding takes the alphabet as it is written: a text with a
    /// character that is neither a symbol nor the padding symbol, such as a
    /// letter in the other case, is `InvalidSymbol`.
    pub proof fn lemma_foreign_character(self, text: Seq<char>, i: int)
        requires
            self.wf(),
            0 <= i < text.len(),
            match self {
                Codec::Bits(alphabet) => !alphabet.symbols@.contains(text[i]) && Some(text[i])
                    != alphabet.padding,
                Codec::Radix(alphabet) => !alphabet.symbols@.contains(text[i]),
                Codec::Emoji => !emoji_symbols().contains(text[i]),
                Codec::Identity => false,
            },
        ensures
            self.decoded(text, DecodeMode::Strict) == Err::<Seq<u8>, Error>(Error::InvalidSymbol),
    {
        match self {
            Codec::Bits(alphabet) => {
                let pads = match alphabet.padding {
                    Some(pad) => trailing_count(text, pad),
                    None => 0,
                };
                if alphabet.padding.is_some() {
                    lemma_trailing_split(text, alphabet.padding.unwrap());
                }
                assert(text.take(text.len() - pads)[i] == text[i]);
            },
            _ => {},
        }
    }

    /// No bytes are written as the empty text.
    pub proof fn lemma_encodes_empty(self)
        requires
            self.wf(),
        ensures
            self.encoded(Seq::<u8>::empty()) == Ok::<Seq<char>, Error>(Seq::<char>::empty()),
    {
        let none = Seq::<u8>::empty();
        match self {
            Codec::Identity => {},
            Codec::Bits(alphabet) => {
                let width = bit_width(alphabet.base());
                lemma_symbol_count(width, 0);
                assert(symbol_count(width, 0) == 0) by (nonlinear_arith)
                    requires
                        width >= 1,
                        0 <= width * symbol_count(width, 0) < width,
                ;
                assert(bits_encoded(alphabet, none) =~= Seq::<char>::empty());
            },
            Codec::Radix(alphabet) => {
                assert(radix_text(alphabet.symbols@, none) =~= Seq::<char>::empty());
            },
            Codec::Emoji => {
                assert(emoji_text(none) =~= Seq::<char>::empty());
            },
        }
    }
}

impl Base {
    /// The tag of the base.
    pub open spec fn tag(self) -> char {
        match self {
            Base::Identity => '\0',
            Base::Base2 => '0',
            Base::Base8 => '7',
            Base::Base10 => '9',
            Base::Base16Lower => 'f',
            Base::Base16Upper => 'F',
            Base::Base32Lower => 'b',
            Base::Base32Upper => 'B',
            Base::Base32PadLower => 'c',
            Base::Base32PadUpper => 'C',
            Base::Base32HexLower => 'v',
            Base::Base32HexUpper => 'V',
            Base::Base32HexPadLower => 't',
            Base::Base32HexPadUpper => 'T',
            Base::Base32Z => 'h',
            Base::Base36Lower => 'k',
            Base::Base36Upper => 'K',
            Base::Base58Flickr => 'Z',
            Base::Base58Btc => 'z',
            Base::Base64 => 'm',
            Base::Base64Pad => 'M',
            Base::Base64Url => 'u',
            Base::Base64UrlPad => 'U',
            Base::Base256Emoji => '🚀',
        }
    }

    /// The base that has the tag `tag`, if there is one.
    pub open spec fn with_tag(tag: char) -> Option<Base> {
        match tag {
            '\0' => Some(Base::Identity),
            '0' => Some(Base::Base2),
            '7' => Some(Base::Base8),
            '9' => Some(Base::Base10),
            'f' => Some(Base::Base16Lower),
            'F' => Some(Base::Base16Upper),
            'b' => Some(Base::Base32Lower),
            'B' => Some(Base::Base32Upper),
            'c' => Some(Base::Base32PadLower),
            'C' => Some(Base::Base32PadUpper),
            'v' => Some(Base::Base32HexLower),
            'V' => Some(Base::Base32HexUpper),
            't' => Some(Base::Base32HexPadLower),
            'T' => Some(Base::Base32HexPadUpper),
            'h' => Some(Base::Base32Z),
            'k' => Some(Base::Base36Lower),
            'K' => Some(Base::Base36Upper),
            'Z' => Some(Base::Base58Flickr),
            'z' => Some(Base::Base58Btc),
            'm' => Some(Base::Base64),
            'M' => Some(Base::Base64Pad),
            'u' => Some(Base::Base64Url),
            'U' => Some(Base::Base64UrlPad),
            '🚀' => Some(Base::Base256Emoji),
            _ => None,
        }
    }

    /// The codec of the base.
    pub open spec fn codec(self) -> Codec {
        match self {
            Base::Identity => Codec::Identity,
            Base::Base2 => Codec::Bits(plain(BASE2, CaseFold::Exact)),
            Base::Base8 => Codec::Bits(plain(BASE8, CaseFold::Exact)),
            Base::Base10 => Codec::Radix(plain(BASE10, CaseFold::Exact)),
            Base::Base16Lower => Codec::Bits(plain(BASE16_LOWER, CaseFold::Lower)),
            Base::Base16Upper => Codec::Bits(plain(BASE16_UPPER, CaseFold::Upper)),
            Base::Base32Lower => Codec::Bits(plain(BASE32_LOWER, CaseFold::Lower)),
            Base::Base32Upper => Codec::Bits(plain(BASE32_UPPER, CaseFold::Upper)),
            Base::Base32PadLower => Codec::Bits(padded(BASE32_LOWER, CaseFold::Lower)),
            Base::Base32PadUpper => Codec::Bits(padded(BASE32_UPPER, CaseFold::Upper)),
            Base::Base32HexLower => Codec::Bits(plain(BASE32HEX_LOWER, CaseFold::Lower)),
            Base::Base32HexUpper => Codec::Bits(plain(BASE32HEX_UPPER, CaseFold::Upper)),
            Base::Base32HexPadLower => Codec::Bits(padded(BASE32HEX_LOWER, CaseFold::Lower)),
            Base::Base32HexPadUpper => Codec::Bits(padded(BASE32HEX_UPPER, CaseFold::Upper)),
            Base::Base32Z => Codec::Bits(plain(BASE32Z, CaseFold::Exact)),
            Base::Base36Lower => Codec::Radix(plain(BASE36_LOWER, CaseFold::Lower)),
            Base::Base36Upper => Codec::Radix(plain(BASE36_UPPER, CaseFold::Upper)),
            Base::Base58Flickr => Codec::Radix(plain(BASE58_FLICKR, CaseFold::Exact)),
            Base::Base58Btc => Codec::Radix(plain(BASE58_BITCOIN, CaseFold::Exact)),
            Base::Base64 => Codec::Bits(plain(BASE64, CaseFold::Exact)),
            Base::Base64Pad => Codec::Bits(padded(BASE64, CaseFold::Exact)),
            Base::Base64Url => Codec::Bits(plain(BASE64URL, CaseFold::Exact)),
            Base::Base64UrlPad => Codec::Bits(padded(BASE64URL, CaseFold::Exact)),
            Base::Base256Emoji => Codec::Emoji,
        }
    }

    /// The tag of the base.
    pub fn code(&self) -> (tag: char)
        ensures
            tag == self.tag(),
    {
        match self {
            Base::Identity => '\0',
            Base::Base2 => '0',
            Base::Base8 => '7',
            Base::Base10 => '9',
            Base::Base16Lower => 'f',
            Base::Base16Upper => 'F',
            Base::Base32Lower => 'b',
            Base::Base32Upper => 'B',
            Base::Base32PadLower => 'c',
            Base::Base32PadUpper => 'C',
            Base::Base32HexLower => 'v',
            Base::Base32HexUpper => 'V',
            Base::Base32HexPadLower => 't',
            Base::Base32HexPadUpper => 'T',
            Base::Base32Z => 'h',
            Base::Base36Lower => 'k',
            Base::Base36Upper => 'K',
            Base::Base58Flickr => 'Z',
            Base::Base58Btc => 'z',
            Base::Base64 => 'm',
            Base::Base64Pad => 'M',
            Base::Base64Url => 'u',
            Base::Base64UrlPad => 'U',
            Base::Base256Emoji => '🚀',
        }
    }

    /// The base that has the tag `tag`, or `UnknownTag`.
    pub fn from_code(tag: char) -> (out: Result<Base, Error>)
        ensures
            match out {
                Ok(base) => Base::with_tag(tag) == Some(base),
                Err(e) => e == Error::UnknownTag && Base::with_tag(tag).is_none(),
            },
    {
        match tag {
            '\0' => Ok(Base::Identity),
            '0' => Ok(Base::Base2),
            '7' => Ok(Base::Base8),
            '9' => Ok(Base::Base10),
            'f' => Ok(Base::Base16Lower),
            'F' => Ok(Base::Base16Upper),
            'b' => Ok(Base::Base32Lower),
            'B' => Ok(Base::Base32Upper),
            'c' => Ok(Base::Base32PadLower),
            'C' => Ok(Base::Base32PadUpper),
            'v' => Ok(Base::Base32HexLower),
            'V' => Ok(Base::Base32HexUpper),
            't' => Ok(Base::Base32HexPadLower),
            'T' => Ok(Base::Base32HexPadUpper),
            'h' => Ok(Base::Base32Z),
            'k' => Ok(Base::Base36Lower),
            'K' => Ok(Base::Base36Upper),
            'Z' => Ok(Base::Base58Flickr),
            'z' => Ok(Base::Base58Btc),
            'm' => Ok(Base::Base64),
            'M' => Ok(Base::Base64Pad),
            'u' => Ok(Base::Base64Url),
            'U' => Ok(Base::Base64UrlPad),
            '🚀' => Ok(Base::Base256Emoji),
            _ => Err(Error::UnknownTag),
        }
    }

    /// The codec of the base.
    pub fn resolve(&self) -> (codec: Codec)
        ensures
            codec == self.codec(),
            codec.wf(),
    {
        proof {
            self.lemma_codec_wf();
        }
        match self {
            Base::Identity => Codec::Identity,
            Base::Base2 => Codec::Bits(plain(BASE2, CaseFold::Exact)),
            Base::Base8 => Codec::Bits(plain(BASE8, CaseFold::Exact)),
            Base::Base10 => Codec::Radix(plain(BASE10, CaseFold::Exact)),
            Base::Base16Lower => Codec::Bits(plain(BASE16_LOWER, CaseFold::Lower)),
            Base::Base16Upper => Codec::Bits(plain(BASE16_UPPER, CaseFold::Upper)),
            Base::Base32Lower => Codec::Bits(plain(BASE32_LOWER, CaseFold::Lower)),
            Base::Base32Upper => Codec::Bits(plain(BASE32_UPPER, CaseFold::Upper)),
            Base::Base32PadLower => Codec::Bits(padded(BASE32_LOWER, CaseFold::Lower)),
            Base::Base32PadUpper => Codec::Bits(padded(BASE32_UPPER, CaseFold::Upper)),
            Base::Base32HexLower => Codec::Bits(plain(BASE32HEX_LOWER, CaseFold::Lower)),
            Base::Base32HexUpper => Codec::Bits(plain(BASE32HEX_UPPER, CaseFold::Upper)),
            Base::Base32HexPadLower => Codec::Bits(padded(BASE32HEX_LOWER, CaseFold::Lower)),
            Base::Base32HexPadUpper => Codec::Bits(padded(BASE32HEX_UPPER, CaseFold::Upper)),
            Base::Base32Z => Codec::Bits(plain(BASE32Z, CaseFold::Exact)),
            Base::Base36Lower => Codec::Radix(plain(BASE36_LOWER, CaseFold::Lower)),
            Base::Base36Upper => Codec::Radix(plain(BASE36_UPPER, CaseFold::Upper)),
            Base::Base58Flickr => Codec::Radix(plain(BASE58_FLICKR, CaseFold::Exact)),
            Base::Base58Btc => Codec::Radix(plain(BASE58_BITCOIN, CaseFold::Exact)),
            Base::Base64 => Codec::Bits(plain(BASE64, CaseFold::Exact)),
            Base::Base64Pad => Codec::Bits(padded(BASE64, CaseFold::Exact)),
            Base::Base64Url => Codec::Bits(plain(BASE64URL, CaseFold::Exact)),
            Base::Base64UrlPad => Codec::Bits(padded(BASE64URL, CaseFold::Exact)),
            Base::Base256Emoji => Codec::Emoji,
        }
    }

    /// Encodes `input` in the base, without the tag.
    pub fn encode(&self, input: &[u8]) -> (out: Result<String, Error>)
        requires
            self.codec().can_encode(input@.len()),
        ensures
            text_result(out) == self.codec().encoded(input@),
    {
        self.resolve().encode(input)
    }

    /// Decodes `text`, which is written in the base and carries no tag.
    pub fn decode(&self, text: &str, mode: DecodeMode) -> (out: Result<Vec<u8>, Error>)
        requires
            self.codec().can_decode(text@.len()),
        ensures
            bytes_result(out) == self.codec().decoded(text@, mode),
    {
        self.resolve().decode(text, mode)
    }

    /// No two bases share a tag: the base that has the tag of `self` is
    /// `self`.
    pub proof fn lemma_tag_unique(self)
        ensures
            Base::with_tag(self.tag()) == Some(self),
    {
    }

    /// The base found for a tag has that tag.
    pub proof fn lemma_with_tag(tag: char)
        ensures
            match Base::with_tag(tag) {
                Some(base) => base.tag() == tag,
                None => forall|base: Base| base.tag() != tag,
            },
    {
    }

    /// The codec of every base is well formed.
    pub proof fn lemma_codec_wf(self)
        ensures
            self.codec().wf(),
    {
        match self {
            Base::Identity => {},
            Base::Base2 => lemma_base2(),
            Base::Base8 => lemma_base8(),
            Base::Base10 => lemma_base10(),
            Base::Base16Lower => lemma_base16_lower(),
            Base::Base16Upper => lemma_base16_upper(),
            Base::Base32Lower => lemma_base32_lower(),
            Base::Base32Upper => lemma_base32_upper(),
            Base::Base32PadLower => lemma_base32_lower(),
            Base::Base32PadUpper => lemma_base32_upper(),
            Base::Base32HexLower => lemma_base32hex_lower(),
            Base::Base32HexUpper => lemma_base32hex_upper(),
            Base::Base32HexPadLower => lemma_base32hex_lower(),
            Base::Base32HexPadUpper => lemma_base32hex_upper(),
            Base::Base32Z => lemma_base32z(),
            Base::Base36Lower => lemma_base36_lower(),
            Base::Base36Upper => lemma_base36_upper(),
            Base::Base58Flickr => lemma_base58_flickr(),
            Base::Base58Btc => lemma_base58_bitcoin(),
            Base::Base64 => lemma_base64(),
            Base::Base64Pad => lemma_base64(),
            Base::Base64Url => lemma_base64url(),
            Base::Base64UrlPad => lemma_base64url(),
            Base::Base256Emoji => {},
        }
    }
}

} // verus!
