//! The symbols of every alphabet, in the order of their values.

use crate::alphabet::{Alphabet, CaseFold};
use crate::bits::bit_width;
use vstd::prelude::*;

verus! {

/// The padding symbol of the padded alphabets.
pub const PADDING: char = '=';

/// The binary digits.
pub const BASE2: &'static str = "01";

/// The octal digits.
pub const BASE8: &'static str = "01234567";

/// The decimal digits.
pub const BASE10: &'static str = "0123456789";

/// The hexadecimal digits, in lower case.
pub const BASE16_LOWER: &'static str = "0123456789abcdef";

/// The hexadecimal digits, in upper case.
pub const BASE16_UPPER: &'static str = "0123456789ABCDEF";

/// The base32 alphabet of RFC 4648, in lower case.
pub const BASE32_LOWER: &'static str = "abcdefghijklmnopqrstuvwxyz234567";

/// The base32 alphabet of RFC 4648, in upper case.
pub const BASE32_UPPER: &'static str = "ABCDEFGHIJKLMNOPQRSTUVWXYZ234567";

/// The base32hex alphabet of RFC 4648, in lower case.
pub const BASE32HEX_LOWER: &'static str = "0123456789abcdefghijklmnopqrstuv";

/// The base32hex alphabet of RFC 4648, in upper case.
pub const BASE32HEX_UPPER: &'static str = "0123456789ABCDEFGHIJKLMNOPQRSTUV";

/// The z-base-32 alphabet.
pub const BASE32Z: &'static str = "ybndrfg8ejkmcpqxot1uwisza345h769";

/// The digits and the letters, in lower case.
pub const BASE36_LOWER: &'static str = "0123456789abcdefghijklmnopqrstuvwxyz";

/// The digits and the letters, in upper case.
pub const BASE36_UPPER: &'static str = "0123456789ABCDEFGHIJKLMNOPQRSTUVWXYZ";

/// The base58 alphabet in the order that Flickr uses.
pub const BASE58_FLICKR: &'static str =
    "123456789abcdefghijkmnopqrstuvwxyzABCDEFGHJKLMNPQRSTUVWXYZ";

/// The base58 alphabet in the order that Bitcoin uses.
pub const BASE58_BITCOIN: &'static str =
    "123456789ABCDEFGHJKLMNPQRSTUVWXYZabcdefghijkmnopqrstuvwxyz";

/// The base64 alphabet of RFC 4648.
pub const BASE64: &'static str = "ABCDEFGHIJKLMNOPQRSTUVWXYZabcdefghijklmnopqrstuvwxyz0123456789+/";

/// The base64 alphabet of RFC 4648 for URLs and file names.
pub const BASE64URL: &'static str =
    "ABCDEFGHIJKLMNOPQRSTUVWXYZabcdefghijklmnopqrstuvwxyz0123456789-_";

/// The alphabet of `symbols` without padding.
pub open spec fn plain_alphabet(symbols: &'static str, fold: CaseFold) -> Alphabet {
    Alphabet { symbols, padding: None, fold }
}

/// The alphabet of `symbols` with the padding symbol.
pub open spec fn padded_alphabet(symbols: &'static str, fold: CaseFold) -> Alphabet {
    Alphabet { symbols, padding: Some(PADDING), fold }
}

/// The alphabet of `symbols` without padding.
#[verifier::when_used_as_spec(plain_alphabet)]
pub fn plain(symbols: &'static str, fold: CaseFold) -> (alphabet: Alphabet)
    ensures
        alphabet == plain_alphabet(symbols, fold),
{
    Alphabet { symbols, padding: None, fold }
}

/// The alphabet of `symbols` with the padding symbol.
#[verifier::when_used_as_spec(padded_alphabet)]
pub fn padded(symbols: &'static str, fold: CaseFold) -> (alphabet: Alphabet)
    ensures
        alphabet == padded_alphabet(symbols, fold),
{
    Alphabet { symbols, padding: Some(PADDING), fold }
}

/// `BASE2` holds 2 symbols of 1 bit each, written as its folding leaves
/// them, and none of them is the padding symbol.
pub proof fn lemma_base2()
    ensures
        padded(BASE2, CaseFold::Exact).wf(),
        bit_width(BASE2@.len()) == 1,
{
    reveal_strlit("01");
}

/// `BASE8` holds 8 symbols of 3 bits each, written as its folding leaves
/// them, and none of them is the padding symbol.
pub proof fn lemma_base8()
    ensures
        padded(BASE8, CaseFold::Exact).wf(),
        bit_width(BASE8@.len()) == 3,
{
    reveal_strlit("01234567");
}

/// `BASE10` holds 10 symbols, written as its folding leaves them.
pub proof fn lemma_base10()
    ensures
        plain(BASE10, CaseFold::Exact).wf(),
        BASE10@.len() == 10,
{
    reveal_strlit("0123456789");
}

/// `BASE16_LOWER` holds 16 symbols of 4 bits each, written as its folding leaves
/// them, and none of them is the padding symbol.
pub proof fn lemma_base16_lower()
    ensures
        padded(BASE16_LOWER, CaseFold::Lower).wf(),
        bit_width(BASE16_LOWER@.len()) == 4,
{
    reveal_strlit("0123456789abcdef");
}

/// `BASE16_UPPER` holds 16 symbols of 4 bits each, written as its folding leaves
/// them, and none of them is the padding symbol.
pub proof fn lemma_base16_upper()
    ensures
        padded(BASE16_UPPER, CaseFold::Upper).wf(),
        bit_width(BASE16_UPPER@.len()) == 4,
{
    reveal_strlit("0123456789ABCDEF");
}

/// `BASE32_LOWER` holds 32 symbols of 5 bits each, written as its folding leaves
/// them, and none of them is the padding symbol.
pub proof fn lemma_base32_lower()
    ensures
        padded(BASE32_LOWER, CaseFold::Lower).wf(),
        bit_width(BASE32_LOWER@.len()) == 5,
{
    reveal_strlit("abcdefghijklmnopqrstuvwxyz234567");
}

/// `BASE32_UPPER` holds 32 symbols of 5 bits each, written as its folding leaves
/// them, and none of them is the padding symbol.
pub proof fn lemma_base32_upper()
    ensures
        padded(BASE32_UPPER, CaseFold::Upper).wf(),
        bit_width(BASE32_UPPER@.len()) == 5,
{
    reveal_strlit("ABCDEFGHIJKLMNOPQRSTUVWXYZ234567");
}

/// `BASE32HEX_LOWER` holds 32 symbols of 5 bits each, written as its folding leaves
/// them, and none of them is the padding symbol.
pub proof fn lemma_base32hex_lower()
    ensures
        padded(BASE32HEX_LOWER, CaseFold::Lower).wf(),
        bit_width(BASE32HEX_LOWER@.len()) == 5,
{
    reveal_strlit("0123456789abcdefghijklmnopqrstuv");
}

/// `BASE32HEX_UPPER` holds 32 symbols of 5 bits each, written as its folding leaves
/// them, and none of them is the padding symbol.
pub proof fn lemma_base32hex_upper()
    ensures
        padded(BASE32HEX_UPPER, CaseFold::Upper).wf(),
        bit_width(BASE32HEX_UPPER@.len()) == 5,
{
    reveal_strlit("0123456789ABCDEFGHIJKLMNOPQRSTUV");
}

/// `BASE32Z` holds 32 symbols of 5 bits each, written as its folding leaves
/// them, and none of them is the padding symbol.
pub proof fn lemma_base32z()
    ensures
        padded(BASE32Z, CaseFold::Exact).wf(),
        bit_width(BASE32Z@.len()) == 5,
{
    reveal_strlit("ybndrfg8ejkmcpqxot1uwisza345h769");
}

/// `BASE36_LOWER` holds 36 symbols, written as its folding leaves them.
pub proof fn lemma_base36_lower()
    ensures
        plain(BASE36_LOWER, CaseFold::Lower).wf(),
        BASE36_LOWER@.len() == 36,
{
    reveal_strlit("0123456789abcdefghijklmnopqrstuvwxyz");
}

/// `BASE36_UPPER` holds 36 symbols, written as its folding leaves them.
pub proof fn lemma_base36_upper()
    ensures
        plain(BASE36_UPPER, CaseFold::Upper).wf(),
        BASE36_UPPER@.len() == 36,
{
    reveal_strlit("0123456789ABCDEFGHIJKLMNOPQRSTUVWXYZ");
}

/// `BASE58_FLICKR` holds 58 symbols, written as its folding leaves them.
pub proof fn lemma_base58_flickr()
    ensures
        plain(BASE58_FLICKR, CaseFold::Exact).wf(),
        BASE58_FLICKR@.len() == 58,
{
    reveal_strlit("123456789abcdefghijkmnopqrstuvwxyzABCDEFGHJKLMNPQRSTUVWXYZ");
}

/// `BASE58_BITCOIN` holds 58 symbols, written as its folding leaves them.
pub proof fn lemma_base58_bitcoin()
    ensures
        plain(BASE58_BITCOIN, CaseFold::Exact).wf(),
        BASE58_BITCOIN@.len() == 58,
{
    reveal_strlit("123456789ABCDEFGHJKLMNPQRSTUVWXYZabcdefghijkmnopqrstuvwxyz");
}

/// `BASE64` holds 64 symbols of 6 bits each, written as its folding leaves
/// them, and none of them is the padding symbol.
pub proof fn lemma_base64()
    ensures
        padded(BASE64, CaseFold::Exact).wf(),
        bit_width(BASE64@.len()) == 6,
{
    reveal_strlit("ABCDEFGHIJKLMNOPQRSTUVWXYZabcdefghijklmnopqrstuvwxyz0123456789+/");
}

/// `BASE64URL` holds 64 symbols of 6 bits each, written as its folding leaves
/// them, and none of them is the padding symbol.
pub proof fn lemma_base64url()
    ensures
        padded(BASE64URL, CaseFold::Exact).wf(),
        bit_width(BASE64URL@.len()) == 6,
{
    reveal_strlit("ABCDEFGHIJKLMNOPQRSTUVWXYZabcdefghijklmnopqrstuvwxyz0123456789-_");
}

} // verus!
