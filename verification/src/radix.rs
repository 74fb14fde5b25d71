//! Conversion for bases that are no power of two: the bytes are read as one
//! big-endian number and written in the digits of the base, and leading zero
//! bytes are kept as leading zero symbols.

use crate::alphabet::{digits_below, is_symbol_set, spelled_in, text_of, values_of, Alphabet};
use crate::error::{bytes_result, DecodeMode, Error};
use crate::seqs::{leading_count, lemma_leading_count, lemma_leading_split, repeat};
use vstd::arithmetic::div_mod::lemma_fundamental_div_mod_converse;
use vstd::prelude::*;

verus! {

// The model.

/// The number that `digits` write in `base`, most significant digit first.
pub open spec fn number_of(digits: Seq<int>, base: int) -> int
    decreases digits.len(),
{
    if digits.len() == 0 {
        0
    } else {
        number_of(digits.drop_last(), base) * base + digits.last()
    }
}

/// The digits of `n` in `base`, most significant first and without leading
/// zeros; zero has no digits.
pub open spec fn digits_of(n: int, base: int) -> Seq<int>
    decreases n,
    via digits_of_decreases
{
    if n <= 0 || base < 2 {
        Seq::empty()
    } else {
        digits_of(n / base, base).push(n % base)
    }
}

/// The quotient by the base is smaller than the number.
#[via_fn]
proof fn digits_of_decreases(n: int, base: int) {
    if n > 0 && base >= 2 {
        assert(0 <= n / base < n) by (nonlinear_arith)
            requires
                n > 0,
                base >= 2,
        ;
    }
}

/// The bytes as digits in base 256.
pub open spec fn byte_digits(bytes: Seq<u8>) -> Seq<int> {
    Seq::new(bytes.len(), |i: int| bytes[i] as int)
}

/// The digits in base 256 as bytes.
pub open spec fn digit_bytes(digits: Seq<int>) -> Seq<u8> {
    Seq::new(digits.len(), |i: int| digits[i] as u8)
}

/// The text that writes `bytes` in the base of `symbols`: one zero symbol for
/// each leading zero byte, then the digits of the number that the bytes
/// write in base 256.
pub open spec fn radix_text(symbols: Seq<char>, bytes: Seq<u8>) -> Seq<char> {
    repeat(symbols[0], leading_count(bytes, 0u8)) + text_of(
        symbols,
        digits_of(number_of(byte_digits(bytes), 256), symbols.len() as int),
    )
}

/// The bytes that `text` writes in the base of `symbols`: one zero byte for
/// each leading zero symbol, then the base-256 digits of the number that the
/// symbols write.
pub open spec fn radix_bytes(symbols: Seq<char>, text: Seq<char>) -> Seq<u8> {
    repeat(0u8, leading_count(text, symbols[0])) + digit_bytes(
        digits_of(number_of(values_of(symbols, text), symbols.len() as int), 256),
    )
}

/// What decoding `text` gives: the bytes that the text, read as `mode`
/// reads it, writes in the alphabet, or `InvalidSymbol` where one of its
/// characters is no symbol.
pub open spec fn radix_decoded(alphabet: Alphabet, text: Seq<char>, mode: DecodeMode) -> Result<
    Seq<u8>,
    Error,
> {
    let read = alphabet.reading(text, mode);
    if spelled_in(alphabet.symbols@, read) {
        Ok(radix_bytes(alphabet.symbols@, read))
    } else {
        Err(Error::InvalidSymbol)
    }
}

// The calls into `base_x`.

/// Calls `base_x::encode` with `symbols` as the alphabet. The result is one
/// zero symbol for each leading zero byte of the input, followed by the
/// digits, most significant first, of the number that the input writes as a
/// big-endian integer.
#[verifier::external_body]
fn write_number(symbols: &str, input: &[u8]) -> (out: String)
    requires
        is_symbol_set(symbols@),
    ensures
        out@ == radix_text(symbols@, input@),
{
    base_x::encode(symbols, input)
}

/// Calls `base_x::decode` with `symbols` as the alphabet. It fails where a
/// character of the text is no symbol; otherwise the result is one zero
/// byte for each leading zero symbol, followed by the big-endian bytes,
/// without leading zeros, of the number that the symbols write.
#[verifier::external_body]
fn read_number(symbols: &str, text: &str) -> (out: Option<Vec<u8>>)
    requires
        is_symbol_set(symbols@),
    ensures
        match out {
            Some(bytes) => spelled_in(symbols@, text@) && bytes@ == radix_bytes(symbols@, text@),
            None => !spelled_in(symbols@, text@),
        },
{
    base_x::decode(symbols, text).ok()
}

// The codec.

/// Writes `input` in the digits of the alphabet.
pub fn encode(alphabet: &Alphabet, input: &[u8]) -> (text: String)
    requires
        alphabet.wf(),
    ensures
        text@ == radix_text(alphabet.symbols@, input@),
{
    write_number(alphabet.symbols, input)
}

/// Reads the bytes that `text` writes in the digits of the alphabet.
pub fn decode(alphabet: &Alphabet, text: &str, mode: DecodeMode) -> (out: Result<Vec<u8>, Error>)
    requires
        alphabet.wf(),
    ensures
        bytes_result(out) == radix_decoded(*alphabet, text@, mode),
{
    let folded = alphabet.folded(text, mode);
    let found = match &folded {
        Some(read) => read_number(alphabet.symbols, read.as_str()),
        None => read_number(alphabet.symbols, text),
    };
    match found {
        Some(bytes) => Ok(bytes),
        None => Err(Error::InvalidSymbol),
    }
}

// The laws.

/// In either mode, decoding the text that encoding wrote gives the bytes
/// back.
pub proof fn lemma_radix_decode_encode(alphabet: Alphabet, bytes: Seq<u8>, mode: DecodeMode)
    requires
        alphabet.wf(),
    ensures
        radix_decoded(alphabet, radix_text(alphabet.symbols@, bytes), mode) == Ok::<
            Seq<u8>,
            Error,
        >(bytes),
{
    lemma_radix_round_trip(alphabet.symbols@, bytes);
    alphabet.lemma_reading_own_text(radix_text(alphabet.symbols@, bytes), mode);
}

/// Decoding what encoding wrote gives the bytes back.
pub proof fn lemma_radix_round_trip(symbols: Seq<char>, bytes: Seq<u8>)
    requires
        is_symbol_set(symbols),
    ensures
        spelled_in(symbols, radix_text(symbols, bytes)),
        radix_bytes(symbols, radix_text(symbols, bytes)) == bytes,
{
    let base = symbols.len() as int;
    let z = leading_count(bytes, 0u8);
    let tail = bytes.skip(z as int);
    let n = number_of(byte_digits(bytes), 256);
    let digits = digits_of(n, base);
    let text = radix_text(symbols, bytes);
    lemma_leading_split(bytes, 0u8);
    lemma_leading_zeros_kept(symbols, bytes);
    lemma_digits_of(n, base);
    // the values of the text are zeros followed by the digits
    assert(values_of(symbols, text) =~= repeat(0int, z) + digits);
    lemma_leading_zero_digits(z, digits, base);
    // and the number's digits in base 256 are the bytes behind the zeros
    lemma_number_of(byte_digits(tail), 256);
}

/// Encoding what decoding read gives the text back: no two texts of the
/// alphabet's symbols write the same bytes.
pub proof fn lemma_radix_canonical(symbols: Seq<char>, text: Seq<char>)
    requires
        is_symbol_set(symbols),
        spelled_in(symbols, text),
    ensures
        radix_text(symbols, radix_bytes(symbols, text)) == text,
{
    let base = symbols.len() as int;
    let z = leading_count(text, symbols[0]);
    let tail = text.skip(z as int);
    let digits = values_of(symbols, tail);
    let n = number_of(values_of(symbols, text), base);
    let bytes = radix_bytes(symbols, text);
    lemma_leading_split(text, symbols[0]);
    // the values of the text are zeros followed by digits that begin with no zero
    assert(values_of(symbols, text) =~= repeat(0int, z) + digits);
    lemma_leading_zero_digits(z, digits, base);
    lemma_number_sign(digits, base);
    // the bytes are zeros followed by the number's digits in base 256
    let high = digits_of(n, 256);
    lemma_digits_of(n, 256);
    lemma_leading_count(z, digit_bytes(high), 0u8);
    assert(bytes.skip(z as int) =~= digit_bytes(high));
    assert(byte_digits(digit_bytes(high)) =~= high);
    lemma_leading_zeros_kept(symbols, bytes);
    // so encoding writes the same zeros and the same digits
    lemma_number_of(digits, base);
}

/// Leading zeros are kept: the text begins with exactly as many zero
/// symbols as the bytes begin with zero bytes. Behind them stand the digits
/// of the number that the bytes write, the first of which is not zero.
pub proof fn lemma_leading_zeros_kept(symbols: Seq<char>, bytes: Seq<u8>)
    requires
        is_symbol_set(symbols),
    ensures
        leading_count(radix_text(symbols, bytes), symbols[0]) == leading_count(bytes, 0u8),
        number_of(byte_digits(bytes), 256) == number_of(
            byte_digits(bytes.skip(leading_count(bytes, 0u8) as int)),
            256,
        ),
        number_of(byte_digits(bytes), 256) >= 0,
{
    let base = symbols.len() as int;
    let z = leading_count(bytes, 0u8);
    let tail = bytes.skip(z as int);
    let n = number_of(byte_digits(bytes), 256);
    let digits = digits_of(n, base);
    lemma_leading_split(bytes, 0u8);
    assert(byte_digits(bytes) =~= repeat(0int, z) + byte_digits(tail));
    lemma_leading_zero_digits(z, byte_digits(tail), 256);
    lemma_number_sign(byte_digits(tail), 256);
    lemma_digits_of(n, base);
    let written = text_of(symbols, digits);
    lemma_leading_count(z, written, symbols[0]);
}

// The steps of their proofs.

/// The digits of a number are digits of the base, the first of them is not
/// zero, and they write the number.
pub proof fn lemma_digits_of(n: int, base: int)
    requires
        n >= 0,
        base >= 2,
    ensures
        digits_below(digits_of(n, base), base),
        number_of(digits_of(n, base), base) == n,
        n > 0 ==> digits_of(n, base).len() > 0 && digits_of(n, base)[0] != 0,
        n == 0 ==> digits_of(n, base).len() == 0,
    decreases n,
{
    if n > 0 {
        let q = n / base;
        let r = n % base;
        assert(0 <= q < n && 0 <= r < base && n == q * base + r) by (nonlinear_arith)
            requires
                n > 0,
                base >= 2,
                q == n / base,
                r == n % base,
        ;
        lemma_digits_of(q, base);
        let d = digits_of(n, base);
        assert(d.drop_last() =~= digits_of(q, base));
    }
}

/// A number written with digits of the base is not negative, and positive
/// where the first digit is not zero.
pub proof fn lemma_number_sign(digits: Seq<int>, base: int)
    requires
        base >= 2,
        digits_below(digits, base),
    ensures
        number_of(digits, base) >= 0,
        digits.len() > 0 && digits[0] != 0 ==> number_of(digits, base) > 0,
    decreases digits.len(),
{
    if digits.len() > 0 {
        let init = digits.drop_last();
        lemma_number_sign(init, base);
        let m = number_of(init, base);
        if digits.len() > 1 && digits[0] != 0 {
            assert(m * base > 0) by (nonlinear_arith)
                requires
                    m > 0,
                    base >= 2,
            ;
        }
    }
}

/// Digits without a leading zero are the digits of the number they write.
pub proof fn lemma_number_of(digits: Seq<int>, base: int)
    requires
        base >= 2,
        digits_below(digits, base),
        digits.len() > 0 ==> digits[0] != 0,
    ensures
        digits_of(number_of(digits, base), base) == digits,
    decreases digits.len(),
{
    if digits.len() == 0 {
    } else {
        let init = digits.drop_last();
        let last = digits.last();
        let m = number_of(init, base);
        let n = number_of(digits, base);
        lemma_number_of(init, base);
        lemma_fundamental_div_mod_converse(n, base, m, last);
    }
}

/// Zero digits in front do not change the number.
pub proof fn lemma_leading_zero_digits(zeros: nat, digits: Seq<int>, base: int)
    ensures
        number_of(repeat(0int, zeros) + digits, base) == number_of(digits, base),
    decreases digits.len(), zeros,
{
    let all = repeat(0int, zeros) + digits;
    if digits.len() > 0 {
        assert(all.drop_last() =~= repeat(0int, zeros) + digits.drop_last());
        lemma_leading_zero_digits(zeros, digits.drop_last(), base);
    } else if zeros > 0 {
        assert(all.drop_last() =~= repeat(0int, (zeros - 1) as nat) + digits);
        lemma_leading_zero_digits((zeros - 1) as nat, digits, base);
    }
}

} // verus!
