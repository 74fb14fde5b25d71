//! The codecs held against a second, plain computation of what their
//! contracts state, on many generated inputs.

use multibase::alphabet::{Alphabet, CaseFold};
use multibase::{Base, Codec, DecodeMode, Error};

/// A small generator of reproducible numbers.
struct Numbers(u64);

impl Numbers {
    fn next(&mut self) -> u64 {
        self.0 = self.0.wrapping_mul(6364136223846793005).wrapping_add(1442695040888963407);
        self.0 >> 33
    }

    fn below(&mut self, bound: usize) -> usize {
        (self.next() % bound as u64) as usize
    }

    fn bytes(&mut self, len: usize) -> Vec<u8> {
        let zeros = self.below(4);
        (0..len).map(|i| if i < zeros && self.below(2) == 0 { 0 } else { self.next() as u8 }).collect()
    }

    fn text(&mut self, symbols: &[char], extra: &[char], len: usize) -> String {
        (0..len)
            .map(|_| {
                if !extra.is_empty() && self.below(12) == 0 {
                    extra[self.below(extra.len())]
                } else {
                    symbols[self.below(symbols.len())]
                }
            })
            .collect()
    }
}

fn width_of(size: usize) -> usize {
    size.trailing_zeros() as usize
}

fn block_of(width: usize) -> usize {
    let mut symbols = 1;
    while symbols * width % 8 != 0 {
        symbols += 1;
    }
    symbols
}

fn bits_of(input: &[u8]) -> Vec<bool> {
    input.iter().flat_map(|b| (0..8).map(move |t| b >> (7 - t) & 1 == 1)).collect()
}

fn number(bits: &[bool]) -> usize {
    bits.iter().fold(0, |n, bit| 2 * n + *bit as usize)
}

fn model_bits_encode(alphabet: &Alphabet, input: &[u8]) -> String {
    let symbols: Vec<char> = alphabet.symbols.chars().collect();
    let width = width_of(symbols.len());
    let mut bits = bits_of(input);
    while bits.len() % width != 0 {
        bits.push(false);
    }
    let mut text: String = bits.chunks(width).map(|group| symbols[number(group)]).collect();
    if let Some(pad) = alphabet.padding {
        while text.len() % block_of(width) != 0 {
            text.push(pad);
        }
    }
    text
}

fn fold(alphabet: &Alphabet, text: &str, mode: DecodeMode) -> String {
    match (mode, alphabet.fold) {
        (DecodeMode::Strict, _) | (_, CaseFold::Exact) => text.to_string(),
        (_, CaseFold::Lower) => text.chars().map(|c| c.to_ascii_lowercase()).collect(),
        (_, CaseFold::Upper) => text.chars().map(|c| c.to_ascii_uppercase()).collect(),
    }
}

fn model_bits_decode(alphabet: &Alphabet, text: &str, mode: DecodeMode) -> Result<Vec<u8>, Error> {
    let symbols: Vec<char> = alphabet.symbols.chars().collect();
    let width = width_of(symbols.len());
    let read: Vec<char> = fold(alphabet, text, mode).chars().collect();
    let pads = match alphabet.padding {
        Some(pad) => read.iter().rev().take_while(|c| **c == pad).count(),
        None => 0,
    };
    let body = &read[..read.len() - pads];
    let mut bits = Vec::new();
    for c in body {
        let value = symbols.iter().position(|s| s == c).ok_or(Error::InvalidSymbol)?;
        bits.extend((0..width).map(|t| value >> (width - 1 - t) & 1 == 1));
    }
    let canonical = (block_of(width) - body.len() % block_of(width)) % block_of(width);
    if mode == DecodeMode::Strict && alphabet.padding.is_some() && pads != canonical {
        return Err(Error::InvalidPadding);
    }
    let whole = bits.len() / 8 * 8;
    if bits.len() - whole >= width || bits[whole..].iter().any(|bit| *bit) {
        return Err(Error::TrailingBits);
    }
    Ok(bits[..whole].chunks(8).map(|group| number(group) as u8).collect())
}

/// Divides the big-endian number in `digits`, written in `from`, by `to`;
/// returns the remainder.
fn divide(digits: &mut Vec<usize>, from: usize, to: usize) -> usize {
    let mut carry = 0;
    for d in digits.iter_mut() {
        let n = carry * from + *d;
        *d = n / to;
        carry = n % to;
    }
    let zeros = digits.iter().take_while(|d| **d == 0).count();
    digits.drain(..zeros);
    carry
}

fn convert(digits: &[usize], from: usize, to: usize) -> Vec<usize> {
    let zeros = digits.iter().take_while(|d| **d == 0).count();
    let mut number: Vec<usize> = digits[zeros..].to_vec();
    let mut out = Vec::new();
    while !number.is_empty() {
        out.push(divide(&mut number, from, to));
    }
    out.extend(std::iter::repeat(0).take(zeros));
    out.reverse();
    out
}

fn model_radix_encode(alphabet: &Alphabet, input: &[u8]) -> String {
    let symbols: Vec<char> = alphabet.symbols.chars().collect();
    let digits: Vec<usize> = input.iter().map(|b| *b as usize).collect();
    convert(&digits, 256, symbols.len()).into_iter().map(|d| symbols[d]).collect()
}

fn model_radix_decode(alphabet: &Alphabet, text: &str, mode: DecodeMode) -> Result<Vec<u8>, Error> {
    let symbols: Vec<char> = alphabet.symbols.chars().collect();
    let mut digits = Vec::new();
    for c in fold(alphabet, text, mode).chars() {
        digits.push(symbols.iter().position(|s| *s == c).ok_or(Error::InvalidSymbol)?);
    }
    Ok(convert(&digits, symbols.len(), 256).into_iter().map(|d| d as u8).collect())
}

const BASES: [Base; 22] = [
    Base::Base2,
    Base::Base8,
    Base::Base10,
    Base::Base16Lower,
    Base::Base16Upper,
    Base::Base32Lower,
    Base::Base32Upper,
    Base::Base32PadLower,
    Base::Base32PadUpper,
    Base::Base32HexLower,
    Base::Base32HexUpper,
    Base::Base32HexPadLower,
    Base::Base32HexPadUpper,
    Base::Base32Z,
    Base::Base36Lower,
    Base::Base36Upper,
    Base::Base58Flickr,
    Base::Base58Btc,
    Base::Base64,
    Base::Base64Pad,
    Base::Base64Url,
    Base::Base64UrlPad,
];

const EXTRA: [char; 12] = ['=', 'a', 'A', 'Z', 'z', '0', '1', '9', '+', '-', ' ', '\u{e9}'];

#[test]
fn encoding_agrees_with_the_model() {
    let mut numbers = Numbers(1);
    for base in BASES {
        for round in 0..120 {
            let input = numbers.bytes(round % 40);
            let text = base.encode(&input).unwrap();
            let expected = match base.resolve() {
                Codec::Bits(alphabet) => model_bits_encode(&alphabet, &input),
                Codec::Radix(alphabet) => model_radix_encode(&alphabet, &input),
                codec => panic!("{:?} has the codec {:?}", base, codec),
            };
            assert_eq!(text, expected, "{:?} of {:?}", base, input);
        }
    }
}

#[test]
fn decoding_agrees_with_the_model() {
    let mut numbers = Numbers(2);
    let mut accepted = 0;
    let mut refused = [0usize; 3];
    for base in BASES {
        let codec = base.resolve();
        let alphabet = match codec {
            Codec::Bits(alphabet) | Codec::Radix(alphabet) => alphabet,
            codec => panic!("{:?} has the codec {:?}", base, codec),
        };
        let symbols: Vec<char> = alphabet.symbols.chars().collect();
        for round in 0..400 {
            let extra: &[char] = if round % 3 == 0 { &EXTRA } else { &[] };
            let mut text = numbers.text(&symbols, extra, round % 24);
            if alphabet.padding.is_some() {
                for _ in 0..numbers.below(9) {
                    text.push('=');
                }
            }
            for mode in [DecodeMode::Strict, DecodeMode::Permissive] {
                let expected = match codec {
                    Codec::Bits(_) => model_bits_decode(&alphabet, &text, mode),
                    _ => model_radix_decode(&alphabet, &text, mode),
                };
                assert_eq!(base.decode(&text, mode), expected, "{:?} of {:?}", base, text);
                match expected {
                    Ok(bytes) => {
                        accepted += 1;
                        if mode == DecodeMode::Strict {
                            assert_eq!(base.encode(&bytes).unwrap(), text);
                        }
                    }
                    Err(Error::InvalidSymbol) => refused[0] += 1,
                    Err(Error::InvalidPadding) => refused[1] += 1,
                    Err(Error::TrailingBits) => refused[2] += 1,
                    Err(e) => panic!("{:?} of {:?} gives {:?}", base, text, e),
                }
            }
        }
    }
    assert!(accepted > 1000);
    assert!(refused.iter().all(|count| *count > 100));
}

#[test]
fn strict_decoding_of_what_was_encoded_is_the_input() {
    let mut numbers = Numbers(3);
    for base in BASES {
        for len in 0..64 {
            let input = numbers.bytes(len);
            let text = multibase::encode(base, &input).unwrap();
            assert_eq!(multibase::decode(&text, DecodeMode::Strict), Ok((base, input)));
        }
    }
}

#[test]
fn any_casing_of_an_encoded_text_decodes_permissively() {
    let mut numbers = Numbers(4);
    for base in BASES {
        let folds = match base.resolve() {
            Codec::Bits(alphabet) | Codec::Radix(alphabet) => alphabet.fold != CaseFold::Exact,
            _ => false,
        };
        if !folds {
            continue;
        }
        for len in 0..48 {
            let input = numbers.bytes(len);
            let body = base.encode(&input).unwrap();
            let recased: String = body
                .chars()
                .map(|c| if numbers.below(2) == 0 { c.to_ascii_uppercase() } else { c.to_ascii_lowercase() })
                .collect();
            assert_eq!(base.decode(&recased, DecodeMode::Permissive), Ok(input));
        }
    }
}

#[test]
fn long_inputs_round_trip() {
    let mut numbers = Numbers(5);
    let input = numbers.bytes(5000);
    for base in BASES {
        let text = multibase::encode(base, &input).unwrap();
        assert_eq!(multibase::decode(&text, DecodeMode::Strict), Ok((base, input.clone())));
    }
    let text = multibase::encode(Base::Base256Emoji, &input).unwrap();
    assert_eq!(text.chars().count(), 5001);
    assert_eq!(multibase::decode(&text, DecodeMode::Permissive), Ok((Base::Base256Emoji, input)));
}
