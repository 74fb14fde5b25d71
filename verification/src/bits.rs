//! Conversion for bases that are a power of two: the bytes form one stream of
//! bits, most significant bit first, and the stream is cut into groups of as
//! many bits as one symbol writes.

use crate::alphabet::{
    digits_below, is_symbol_set, lemma_char_floor, spelled_in, text_of, values_of, Alphabet,
};
use crate::error::{bytes_result, DecodeMode, Error};
use crate::seqs::{lemma_trailing_count, lemma_trailing_split, repeat, trailing_count};
use crate::text::push_char;
use vstd::arithmetic::div_mod::lemma_fundamental_div_mod_converse;
use vstd::prelude::*;
use vstd::string::{StrSliceExecFns, StringSliceAdditionalSpecFns};

verus! {

// The model.

/// The number of bits that one symbol of an alphabet of `size` symbols
/// writes; zero where `size` is no power of two from 2 to 64.
pub open spec fn bit_width(size: nat) -> int {
    if size == 2 {
        1
    } else if size == 4 {
        2
    } else if size == 8 {
        3
    } else if size == 16 {
        4
    } else if size == 32 {
        5
    } else if size == 64 {
        6
    } else {
        0
    }
}

/// Bit `t` of the `width`-bit number `x`, where bit 0 is the most
/// significant and bit `width - 1` the least.
pub open spec fn bit_of(x: int, width: int, t: int) -> int
    decreases width,
{
    if t < 0 || t >= width {
        0
    } else if t == width - 1 {
        x % 2
    } else {
        bit_of(x / 2, width - 1, t)
    }
}

/// The number that the bits `bits(start)`, ..., `bits(start + width - 1)`
/// write, the first of them the most significant.
pub open spec fn pack(bits: spec_fn(int) -> int, start: int, width: int) -> int
    decreases width,
{
    if width <= 0 {
        0
    } else {
        2 * pack(bits, start, width - 1) + bits(start + width - 1)
    }
}

/// Bit `i` of the stream that the bytes form: bit `i % 8` of byte `i / 8`,
/// and zero behind the last byte.
pub open spec fn byte_bit(bytes: Seq<u8>, i: int) -> int {
    if 0 <= i < 8 * bytes.len() {
        bit_of(bytes[i / 8] as int, 8, i % 8)
    } else {
        0
    }
}

/// Bit `i` of the stream that symbol values of `width` bits each form: bit
/// `i % width` of value `i / width`, and zero behind the last value.
pub open spec fn value_bit(values: Seq<int>, width: int, i: int) -> int {
    if 0 <= i < width * values.len() {
        bit_of(values[i / width], width, i % width)
    } else {
        0
    }
}

/// The stream of bits that the bytes form.
pub open spec fn byte_stream(bytes: Seq<u8>) -> spec_fn(int) -> int {
    |i: int| byte_bit(bytes, i)
}

/// The stream of bits that symbol values of `width` bits each form.
pub open spec fn value_stream(values: Seq<int>, width: int) -> spec_fn(int) -> int {
    |i: int| value_bit(values, width, i)
}

/// The number of symbols that write `len` bytes: the bits, divided by the
/// width and rounded up.
pub open spec fn symbol_count(width: int, len: int) -> int {
    (8 * len + width - 1) / width
}

/// The symbol values that write `bytes`: value `j` is the group of `width`
/// bits that begins at bit `j * width` of the stream.
pub open spec fn regrouped_values(bytes: Seq<u8>, width: int) -> Seq<int> {
    Seq::new(
        symbol_count(width, bytes.len() as int) as nat,
        |j: int| pack(byte_stream(bytes), j * width, width),
    )
}

/// The bytes that symbol values of `width` bits write: byte `j` is the
/// group of 8 bits that begins at bit `8 * j` of the stream; the bits behind
/// the last whole byte are dropped.
pub open spec fn regrouped_bytes(values: Seq<int>, width: int) -> Seq<u8> {
    Seq::new(
        (width * values.len() / 8) as nat,
        |j: int| pack(value_stream(values, width), 8 * j, 8) as u8,
    )
}

/// The bits behind the last whole byte are fewer than one symbol writes,
/// and all of them are zero: they are the filling of one last group.
pub open spec fn leftover_is_filling(values: Seq<int>, width: int) -> bool {
    let total = width * values.len();
    &&& total % 8 < width
    &&& forall|i: int|
        total - total % 8 <= i < total ==> #[trigger] value_bit(values, width, i) == 0
}

/// `symbols` can serve as the alphabet of a power-of-two base.
pub open spec fn is_bits_symbol_set(symbols: Seq<char>) -> bool {
    is_symbol_set(symbols) && bit_width(symbols.len()) > 0
}

/// The unpadded text that writes `bytes` in the alphabet `symbols`.
pub open spec fn bits_text(symbols: Seq<char>, bytes: Seq<u8>) -> Seq<char> {
    text_of(symbols, regrouped_values(bytes, bit_width(symbols.len())))
}

/// The number of symbols in one block: the least number of symbols whose
/// bits are a whole number of bytes.
pub open spec fn block_len(width: int) -> int {
    if width == 4 {
        2
    } else if width == 2 || width == 6 {
        4
    } else {
        8
    }
}

/// The number of padding symbols that fill the last block behind `count`
/// symbols.
pub open spec fn padding_len(width: int, count: int) -> int {
    (block_len(width) - count % block_len(width)) % block_len(width)
}

/// The alphabet is that of a power-of-two base.
pub open spec fn is_bits_alphabet(alphabet: Alphabet) -> bool {
    alphabet.wf() && bit_width(alphabet.base()) > 0
}

/// The text that writes `bytes` in the alphabet: the symbols of the groups
/// of bits, and behind them, where the alphabet has a padding symbol, as
/// many of it as fill the last block.
pub open spec fn bits_encoded(alphabet: Alphabet, bytes: Seq<u8>) -> Seq<char> {
    let body = bits_text(alphabet.symbols@, bytes);
    match alphabet.padding {
        Some(pad) => body + repeat(
            pad,
            padding_len(bit_width(alphabet.base()), body.len() as int) as nat,
        ),
        None => body,
    }
}

/// What decoding the text `read` gives, once its letters are folded. The
/// padding symbols at its end are set apart from the body. Then, in this
/// order: a character of the body that is no symbol is `InvalidSymbol`; in
/// strict decoding, padding in another amount than fills the last block is
/// `InvalidPadding`; bits behind the last whole byte that are not the
/// filling of one last group are `TrailingBits`; otherwise the result is
/// the bytes that the body's bits form.
pub open spec fn bits_read(alphabet: Alphabet, read: Seq<char>, strict: bool) -> Result<
    Seq<u8>,
    Error,
> {
    let width = bit_width(alphabet.base());
    let pads = match alphabet.padding {
        Some(pad) => trailing_count(read, pad),
        None => 0,
    };
    let body = read.take(read.len() - pads);
    let values = values_of(alphabet.symbols@, body);
    if !spelled_in(alphabet.symbols@, body) {
        Err(Error::InvalidSymbol)
    } else if strict && alphabet.padding.is_some() && pads != padding_len(
        width,
        body.len() as int,
    ) {
        Err(Error::InvalidPadding)
    } else if !leftover_is_filling(values, width) {
        Err(Error::TrailingBits)
    } else {
        Ok(regrouped_bytes(values, width))
    }
}

/// What decoding `text` in `mode` gives: permissive decoding folds the
/// letters first and accepts any amount of padding.
pub open spec fn bits_decoded(alphabet: Alphabet, text: Seq<char>, mode: DecodeMode) -> Result<
    Seq<u8>,
    Error,
> {
    bits_read(alphabet, alphabet.reading(text, mode), mode == DecodeMode::Strict)
}

// The calls into `data_encoding`.

/// Builds, with `data_encoding::Specification`, the encoding that has
/// `symbols` as its symbols and every other setting at its default (most
/// significant bit first, no padding), and calls its `Encoding::encode`.
/// The result has one symbol for each group of bits of the input, the last
/// group filled with zero bits.
#[verifier::external_body]
fn regroup_to_text(symbols: &str, input: &[u8]) -> (out: String)
    requires
        is_bits_symbol_set(symbols@),
        input@.len() <= usize::MAX / 512,
    ensures
        out@ == bits_text(symbols@, input@),
{
    let mut spec = data_encoding::Specification::new();
    spec.symbols.push_str(symbols);
    spec.encoding().unwrap().encode(input)
}

/// Builds the same encoding as `regroup_to_text` and calls its
/// `Encoding::decode` on a text of symbols. It fails where the bits behind
/// the last whole byte are a whole symbol or more, or are not all zero;
/// otherwise the result is the bytes that the bits of the symbols form.
#[verifier::external_body]
fn regroup_to_bytes(symbols: &str, text: &str) -> (out: Option<Vec<u8>>)
    requires
        is_bits_symbol_set(symbols@),
        spelled_in(symbols@, text@),
        text@.len() <= usize::MAX / 8,
    ensures
        match out {
            Some(bytes) => leftover_is_filling(
                values_of(symbols@, text@),
                bit_width(symbols@.len()),
            ) && bytes@ == regrouped_bytes(values_of(symbols@, text@), bit_width(symbols@.len())),
            None => !leftover_is_filling(values_of(symbols@, text@), bit_width(symbols@.len())),
        },
{
    let mut spec = data_encoding::Specification::new();
    spec.symbols.push_str(symbols);
    spec.encoding().unwrap().decode(text.as_bytes()).ok()
}

// The codec.

/// The number of bits that one symbol of an alphabet of `size` symbols
/// writes.
pub fn width_of(size: usize) -> (width: usize)
    requires
        bit_width(size as nat) > 0,
    ensures
        width == bit_width(size as nat),
{
    if size == 2 {
        1
    } else if size == 4 {
        2
    } else if size == 8 {
        3
    } else if size == 16 {
        4
    } else if size == 32 {
        5
    } else {
        6
    }
}

/// The number of padding symbols that fill the last block behind `count`
/// symbols of `width` bits.
pub fn padding_for(width: usize, count: usize) -> (pads: usize)
    requires
        1 <= width <= 6,
    ensures
        pads == padding_len(width as int, count as int),
{
    let block: usize = if width == 4 {
        2
    } else if width == 2 || width == 6 {
        4
    } else {
        8
    };
    (block - count % block) % block
}

/// Writes `input` in the symbols of the alphabet, with padding where the
/// alphabet has a padding symbol.
pub fn encode(alphabet: &Alphabet, input: &[u8]) -> (text: String)
    requires
        is_bits_alphabet(*alphabet),
        input@.len() <= usize::MAX / 512,
    ensures
        text@ == bits_encoded(*alphabet, input@),
{
    let mut text = regroup_to_text(alphabet.symbols, input);
    match alphabet.padding {
        Some(pad) => {
            let width = width_of(alphabet.size());
            let count = (8 * input.len() + width - 1) / width;
            let pads = padding_for(width, count);
            let ghost body = text@;
            let mut done: usize = 0;
            while done < pads
                invariant
                    done <= pads,
                    text@ == body + repeat(pad, done as nat),
                decreases pads - done,
            {
                push_char(&mut text, pad);
                done += 1;
            }
        },
        None => {},
    }
    text
}

/// Reads the bytes that `text` writes in the symbols of the alphabet.
pub fn decode(alphabet: &Alphabet, text: &str, mode: DecodeMode) -> (out: Result<Vec<u8>, Error>)
    requires
        is_bits_alphabet(*alphabet),
        text@.len() <= usize::MAX / 8,
    ensures
        bytes_result(out) == bits_decoded(*alphabet, text@, mode),
{
    let strict = match mode {
        DecodeMode::Strict => true,
        DecodeMode::Permissive => false,
    };
    let folded = alphabet.folded(text, mode);
    match &folded {
        Some(read) => decode_read(alphabet, read.as_str(), strict),
        None => decode_read(alphabet, text, strict),
    }
}

/// Decodes a text whose letters are already folded.
fn decode_read(alphabet: &Alphabet, read: &str, strict: bool) -> (out: Result<Vec<u8>, Error>)
    requires
        is_bits_alphabet(*alphabet),
        read@.len() <= usize::MAX / 8,
    ensures
        bytes_result(out) == bits_read(*alphabet, read@, strict),
{
    let ghost symbols = alphabet.symbols@;
    let ghost pads = match alphabet.padding {
        Some(pad) => trailing_count(read@, pad),
        None => 0,
    };
    proof {
        if alphabet.padding.is_some() {
            lemma_trailing_split(read@, alphabet.padding.unwrap());
        }
    }
    let ghost body = read@.take(read@.len() - pads);
    if !read.is_ascii() {
        proof {
            let i = choose|i: int|
                0 <= i < read@.len() && !('\0' <= #[trigger] read@[i] && read@[i] <= '\u{7f}');
            lemma_char_floor(read@[i]);
            assert(body[i] == read@[i]);
            if symbols.contains(body[i]) {
                assert(symbols[symbols.index_of(body[i])] == body[i]);
            }
        }
        return Err(Error::InvalidSymbol);
    }
    let bytes = read.as_bytes();
    let len = bytes.len();
    let mut kept = len;
    match alphabet.padding {
        Some(pad) => {
            let pad_byte = pad as u8;
            assert(read@.take(len as int) =~= read@);
            while kept > 0 && bytes[kept - 1] == pad_byte
                invariant
                    kept <= len,
                    len == read@.len(),
                    bytes@.len() == len,
                    pad_byte == pad as u8,
                    pad <= '\u{7f}',
                    vstd::utf8::is_ascii_chars(read@),
                    forall|i: int| 0 <= i < len ==> read@[i] as u8 == #[trigger] bytes@[i],
                    trailing_count(read@, pad) == (len - kept) + trailing_count(
                        read@.take(kept as int),
                        pad,
                    ),
                decreases kept,
            {
                proof {
                    let front = read@.take(kept as int);
                    assert(front.drop_last() =~= read@.take(kept - 1));
                }
                kept -= 1;
            }
        },
        None => {},
    }
    let text = read.substring_ascii(0, kept);
    if !alphabet.spells(text.as_bytes()) {
        return Err(Error::InvalidSymbol);
    }
    assert(spelled_in(symbols, body)) by {
        assert forall|i: int| 0 <= i < body.len() implies symbols.contains(#[trigger] body[i]) by {
            assert(text.spec_bytes()[i] == body[i] as u8);
        }
    }
    let width = width_of(alphabet.size());
    if strict && alphabet.padding.is_some() && len - kept != padding_for(width, kept) {
        return Err(Error::InvalidPadding);
    }
    match regroup_to_bytes(alphabet.symbols, text) {
        Some(bytes) => Ok(bytes),
        None => Err(Error::TrailingBits),
    }
}

// The laws.

/// In either mode, decoding the text that encoding wrote gives the bytes
/// back.
pub proof fn lemma_bits_decode_encode(alphabet: Alphabet, bytes: Seq<u8>, mode: DecodeMode)
    requires
        is_bits_alphabet(alphabet),
    ensures
        bits_decoded(alphabet, bits_encoded(alphabet, bytes), mode) == Ok::<Seq<u8>, Error>(
            bytes,
        ),
{
    let symbols = alphabet.symbols@;
    let body = bits_text(symbols, bytes);
    let text = bits_encoded(alphabet, bytes);
    lemma_bits_round_trip(symbols, bytes);
    match alphabet.padding {
        Some(pad) => {
            let count = padding_len(bit_width(alphabet.base()), body.len() as int) as nat;
            lemma_trailing_count(body, pad, count);
            assert(text.take(text.len() - count) =~= body);
        },
        None => {
            assert(text.take(text.len() as int) =~= body);
        },
    }
    alphabet.lemma_reading_own_text(text, mode);
}

/// Strict decoding accepts only what encoding writes: a text that it
/// decodes is the encoding of the bytes that it gives.
pub proof fn lemma_bits_strict_canonical(alphabet: Alphabet, text: Seq<char>)
    requires
        is_bits_alphabet(alphabet),
        bits_decoded(alphabet, text, DecodeMode::Strict).is_ok(),
    ensures
        bits_encoded(alphabet, bits_decoded(alphabet, text, DecodeMode::Strict).unwrap()) == text,
{
    let symbols = alphabet.symbols@;
    let pads = match alphabet.padding {
        Some(pad) => trailing_count(text, pad),
        None => 0,
    };
    let body = text.take(text.len() - pads);
    lemma_bits_canonical(symbols, body);
    if let Some(pad) = alphabet.padding {
        lemma_trailing_split(text, pad);
    }
}

/// A padded text is whole blocks: encoding adds the least number of padding
/// symbols that make the length a multiple of the block length.
pub proof fn lemma_padded_blocks(alphabet: Alphabet, bytes: Seq<u8>)
    requires
        is_bits_alphabet(alphabet),
        alphabet.padding.is_some(),
    ensures
        bits_encoded(alphabet, bytes).len() % (block_len(bit_width(alphabet.base())) as nat) == 0,
        bits_encoded(alphabet, bytes).len() - bits_text(alphabet.symbols@, bytes).len()
            == padding_len(
            bit_width(alphabet.base()),
            bits_text(alphabet.symbols@, bytes).len() as int,
        ),
        0 <= padding_len(
            bit_width(alphabet.base()),
            bits_text(alphabet.symbols@, bytes).len() as int,
        ) < block_len(bit_width(alphabet.base())),
{
    let width = bit_width(alphabet.base());
    let count = bits_text(alphabet.symbols@, bytes).len() as int;
    lemma_padding_fills(width, count);
}

/// Strict decoding refuses every other amount of padding: a body of symbols
/// followed by padding symbols in another number than fills the last block
/// is `InvalidPadding`.
pub proof fn lemma_wrong_padding(alphabet: Alphabet, body: Seq<char>, pads: nat)
    requires
        is_bits_alphabet(alphabet),
        alphabet.padding.is_some(),
        spelled_in(alphabet.symbols@, body),
        pads != padding_len(bit_width(alphabet.base()), body.len() as int),
    ensures
        bits_decoded(
            alphabet,
            body + repeat(alphabet.padding.unwrap(), pads),
            DecodeMode::Strict,
        ) == Err::<Seq<u8>, Error>(Error::InvalidPadding),
{
    let pad = alphabet.padding.unwrap();
    lemma_trailing_count(body, pad, pads);
}

/// Decoding the unpadded text that encoding wrote gives the bytes back.
pub proof fn lemma_bits_round_trip(symbols: Seq<char>, bytes: Seq<u8>)
    requires
        is_bits_symbol_set(symbols),
    ensures
        spelled_in(symbols, bits_text(symbols, bytes)),
        bits_text(symbols, bytes).len() == symbol_count(
            bit_width(symbols.len()),
            bytes.len() as int,
        ),
        leftover_is_filling(
            values_of(symbols, bits_text(symbols, bytes)),
            bit_width(symbols.len()),
        ),
        regrouped_bytes(values_of(symbols, bits_text(symbols, bytes)), bit_width(symbols.len()))
            == bytes,
{
    let width = bit_width(symbols.len());
    let values = regrouped_values(bytes, width);
    lemma_bit_width(symbols.len());
    lemma_regrouped_values(bytes, width);
    lemma_regroup_round_trip(bytes, width);
    assert(values_of(symbols, bits_text(symbols, bytes)) == values);
}

/// Encoding the bytes that decoding read from an unpadded text gives the
/// text back.
pub proof fn lemma_bits_canonical(symbols: Seq<char>, text: Seq<char>)
    requires
        is_bits_symbol_set(symbols),
        spelled_in(symbols, text),
        leftover_is_filling(values_of(symbols, text), bit_width(symbols.len())),
    ensures
        bits_text(
            symbols,
            regrouped_bytes(values_of(symbols, text), bit_width(symbols.len())),
        ) == text,
{
    let width = bit_width(symbols.len());
    let values = values_of(symbols, text);
    lemma_bit_width(symbols.len());
    lemma_regroup_canonical(values, width);
}

/// Regrouping the values that write `bytes` gives the bytes back, and
/// leaves only the filling of the last group.
pub proof fn lemma_regroup_round_trip(bytes: Seq<u8>, width: int)
    requires
        1 <= width <= 8,
    ensures
        leftover_is_filling(regrouped_values(bytes, width), width),
        regrouped_bytes(regrouped_values(bytes, width), width) == bytes,
{
    let values = regrouped_values(bytes, width);
    let len = bytes.len() as int;
    lemma_symbol_count(width, len);
    lemma_regrouped_values(bytes, width);
    let back = regrouped_bytes(values, width);
    lemma_two_to_8();
    assert forall|j: int| 0 <= j < len implies back[j] == bytes[j] by {
        lemma_pack_same(value_stream(values, width), byte_stream(bytes), 8 * j, 8);
        lemma_pack_of_bits(bytes[j] as int, byte_stream(bytes), 8 * j, 8);
    }
}

/// Regrouping the bytes that values wrote gives the values back, where the
/// values left only the filling of a last group behind the bytes.
pub proof fn lemma_regroup_canonical(values: Seq<int>, width: int)
    requires
        1 <= width <= 8,
        digits_below(values, two_to(width)),
        leftover_is_filling(values, width),
    ensures
        regrouped_values(regrouped_bytes(values, width), width) == values,
{
    let count = values.len() as int;
    let total = width * count;
    let bytes = regrouped_bytes(values, width);
    let len = bytes.len() as int;
    let back = regrouped_values(bytes, width);
    let spare = width - 1 - total % 8;
    assert(count * width == total) by (nonlinear_arith)
        requires
            total == width * count,
    ;
    lemma_fundamental_div_mod_converse(8 * len + width - 1, width, count, spare);
    assert forall|i: int| 0 <= i < total implies 0 <= #[trigger] value_bit(values, width, i)
        <= 1 by {
        lemma_bit_of_range(values[i / width], width, i % width);
    }
    assert forall|i: int| 0 <= i < total implies #[trigger] byte_bit(bytes, i) == value_bit(
        values,
        width,
        i,
    ) by {
        if i < 8 * len {
            let j = i / 8;
            let stream = value_stream(values, width);
            lemma_pack_range(stream, 8 * j, 8);
            lemma_two_to_8();
            lemma_bit_of_pack(stream, 8 * j, 8, i % 8);
        }
    }
    assert forall|j: int| 0 <= j < count implies back[j] == values[j] by {
        lemma_pack_same(byte_stream(bytes), value_stream(values, width), j * width, width);
        assert forall|t: int| 0 <= t < width implies #[trigger] value_stream(values, width)(
            j * width + t,
        ) == bit_of(values[j], width, t) by {
            lemma_group_position(width, count, j, t);
        }
        lemma_pack_of_bits(values[j], value_stream(values, width), j * width, width);
    }
}

// The steps of their proofs.

/// Two to the power `n`.
pub open spec fn two_to(n: int) -> int
    decreases n,
{
    if n <= 0 {
        1
    } else {
        2 * two_to(n - 1)
    }
}

/// An alphabet of `size` symbols has two to the power of its bit width
/// symbols.
pub proof fn lemma_bit_width(size: nat)
    requires
        bit_width(size) > 0,
    ensures
        1 <= bit_width(size) <= 6,
        two_to(bit_width(size)) == size,
{
    assert(two_to(0) == 1);
    assert(two_to(1) == 2);
    assert(two_to(2) == 4);
    assert(two_to(3) == 8);
    assert(two_to(4) == 16);
    assert(two_to(5) == 32);
    assert(two_to(6) == 64);
}

/// Eight bits write the numbers below 256.
pub proof fn lemma_two_to_8()
    ensures
        two_to(8) == 256,
{
    assert(two_to(0) == 1);
    assert(two_to(1) == 2);
    assert(two_to(2) == 4);
    assert(two_to(3) == 8);
    assert(two_to(4) == 16);
    assert(two_to(5) == 32);
    assert(two_to(6) == 64);
    assert(two_to(7) == 128);
}

/// A bit is zero or one.
pub proof fn lemma_bit_of_range(x: int, width: int, t: int)
    ensures
        0 <= bit_of(x, width, t) <= 1,
    decreases width,
{
    if 0 <= t < width && t != width - 1 {
        lemma_bit_of_range(x / 2, width - 1, t);
    }
}

/// Bits that are zero or one write a number below two to the power of
/// their count.
pub proof fn lemma_pack_range(bits: spec_fn(int) -> int, start: int, width: int)
    requires
        forall|t: int| 0 <= t < width ==> 0 <= #[trigger] bits(start + t) <= 1,
    ensures
        0 <= pack(bits, start, width) < two_to(width),
    decreases width,
{
    if width > 0 {
        lemma_pack_range(bits, start, width - 1);
    }
}

/// The bits of a packed number are the bits that were packed.
pub proof fn lemma_bit_of_pack(bits: spec_fn(int) -> int, start: int, width: int, t: int)
    requires
        0 <= t < width,
        forall|u: int| 0 <= u < width ==> 0 <= #[trigger] bits(start + u) <= 1,
    ensures
        bit_of(pack(bits, start, width), width, t) == bits(start + t),
    decreases width,
{
    if t != width - 1 {
        lemma_bit_of_pack(bits, start, width - 1, t);
    }
}

/// Packing the bits of a number gives the number.
pub proof fn lemma_pack_of_bits(x: int, bits: spec_fn(int) -> int, start: int, width: int)
    requires
        width >= 0,
        0 <= x < two_to(width),
        forall|t: int| 0 <= t < width ==> #[trigger] bits(start + t) == bit_of(x, width, t),
    ensures
        pack(bits, start, width) == x,
    decreases width,
{
    if width > 0 {
        assert(bits(start + (width - 1)) == bit_of(x, width, width - 1));
        lemma_pack_of_bits(x / 2, bits, start, width - 1);
    }
}

/// Two streams that agree on a range pack to the same number there.
pub proof fn lemma_pack_same(
    a: spec_fn(int) -> int,
    b: spec_fn(int) -> int,
    start: int,
    width: int,
)
    requires
        forall|t: int| 0 <= t < width ==> #[trigger] a(start + t) == b(start + t),
    ensures
        pack(a, start, width) == pack(b, start, width),
    decreases width,
{
    if width > 0 {
        lemma_pack_same(a, b, start, width - 1);
    }
}

/// The symbols that write `len` bytes hold all of their bits, and less than
/// one symbol more.
pub proof fn lemma_symbol_count(width: int, len: int)
    requires
        1 <= width <= 8,
        len >= 0,
    ensures
        symbol_count(width, len) >= 0,
        8 * len <= width * symbol_count(width, len) < 8 * len + width,
        width * symbol_count(width, len) / 8 == len,
{
    let m = symbol_count(width, len);
    let a = 8 * len + width - 1;
    assert(m >= 0 && width * m <= a < width * m + width) by (nonlinear_arith)
        requires
            width >= 1,
            a >= 0,
            m == a / width,
    ;
}

/// A position in a stream of `width`-bit values lies in the value
/// `i / width`, at bit `i % width`.
pub proof fn lemma_position(width: int, count: int, i: int)
    requires
        width >= 1,
        0 <= i < width * count,
    ensures
        0 <= i / width < count,
        0 <= i % width < width,
        i == (i / width) * width + i % width,
{
    let q = i / width;
    let r = i % width;
    assert(0 <= r < width && i == q * width + r && 0 <= q) by (nonlinear_arith)
        requires
            width >= 1,
            i >= 0,
            q == i / width,
            r == i % width,
    ;
    assert(q < count) by (nonlinear_arith)
        requires
            width >= 1,
            q * width <= i,
            i < width * count,
    ;
}

/// Bit `t` of value `j` stands at position `j * width + t` of the stream.
pub proof fn lemma_group_position(width: int, count: int, j: int, t: int)
    requires
        width >= 1,
        0 <= j < count,
        0 <= t < width,
    ensures
        0 <= j * width + t < width * count,
        (j * width + t) / width == j,
        (j * width + t) % width == t,
{
    lemma_fundamental_div_mod_converse(j * width + t, width, j, t);
    assert(0 <= j * width && j * width + t < width * count) by (nonlinear_arith)
        requires
            width >= 1,
            0 <= j < count,
            0 <= t < width,
    ;
}

/// The values that write `bytes` are digits of the base, and their stream
/// of bits is that of the bytes.
pub proof fn lemma_regrouped_values(bytes: Seq<u8>, width: int)
    requires
        1 <= width <= 8,
    ensures
        digits_below(regrouped_values(bytes, width), two_to(width)),
        forall|i: int|
            0 <= i < width * regrouped_values(bytes, width).len() ==> #[trigger] value_bit(
                regrouped_values(bytes, width),
                width,
                i,
            ) == byte_bit(bytes, i),
{
    let values = regrouped_values(bytes, width);
    let stream = byte_stream(bytes);
    assert forall|j: int, t: int| 0 <= t < width implies 0 <= #[trigger] stream(j * width + t)
        <= 1 by {
        let i = j * width + t;
        if 0 <= i < 8 * bytes.len() {
            lemma_bit_of_range(bytes[i / 8] as int, 8, i % 8);
        }
    }
    assert forall|j: int| 0 <= j < values.len() implies 0 <= #[trigger] values[j] < two_to(
        width,
    ) by {
        lemma_pack_range(stream, j * width, width);
    }
    assert forall|i: int| 0 <= i < width * values.len() implies #[trigger] value_bit(
        values,
        width,
        i,
    ) == byte_bit(bytes, i) by {
        lemma_position(width, values.len() as int, i);
        let j = i / width;
        let t = i % width;
        lemma_bit_of_pack(stream, j * width, width, t);
    }
}

/// The text that encoding writes holds symbols and padding only.
pub proof fn lemma_bits_own_text(alphabet: Alphabet, bytes: Seq<u8>)
    requires
        is_bits_alphabet(alphabet),
    ensures
        forall|i: int|
            0 <= i < bits_encoded(alphabet, bytes).len() ==> alphabet.symbols@.contains(
                #[trigger] bits_encoded(alphabet, bytes)[i],
            ) || Some(bits_encoded(alphabet, bytes)[i]) == alphabet.padding,
{
    let symbols = alphabet.symbols@;
    lemma_bits_round_trip(symbols, bytes);
}

/// A text that strict decoding accepts holds symbols and padding only.
pub proof fn lemma_bits_strict_text(alphabet: Alphabet, text: Seq<char>)
    requires
        is_bits_alphabet(alphabet),
        bits_decoded(alphabet, text, DecodeMode::Strict).is_ok(),
    ensures
        forall|i: int|
            0 <= i < text.len() ==> alphabet.symbols@.contains(#[trigger] text[i]) || Some(text[i])
                == alphabet.padding,
{
    let symbols = alphabet.symbols@;
    let pads = match alphabet.padding {
        Some(pad) => trailing_count(text, pad),
        None => 0,
    };
    if alphabet.padding.is_some() {
        lemma_trailing_split(text, alphabet.padding.unwrap());
    }
    let body = text.take(text.len() - pads);
    assert forall|i: int| 0 <= i < text.len() implies symbols.contains(#[trigger] text[i]) || Some(
        text[i],
    ) == alphabet.padding by {
        if i < body.len() {
            assert(text[i] == body[i]);
        }
    }
}

/// The padding behind `count` symbols is less than a block and makes the
/// length a multiple of the block length.
pub proof fn lemma_padding_fills(width: int, count: int)
    requires
        count >= 0,
    ensures
        0 <= padding_len(width, count) < block_len(width),
        (count + padding_len(width, count)) % block_len(width) == 0,
{
    let block = block_len(width);
    if block == 2 {
        assert((count + (2 - count % 2) % 2) % 2 == 0);
    } else if block == 4 {
        assert((count + (4 - count % 4) % 4) % 4 == 0);
    } else {
        assert((count + (8 - count % 8) % 8) % 8 == 0);
    }
}

} // verus!
