//! Known encodings of sample inputs in every base, and the way back.

use multibase::{decode, encode, Base, DecodeMode, Error};

fn check(base: Base, input: &[u8], text: &str) {
    assert_eq!(encode(base, input).unwrap(), text);
    let (found, bytes) = decode(text, DecodeMode::Strict).unwrap();
    assert_eq!(found, base);
    assert_eq!(bytes, input);
    let (found, bytes) = decode(text, DecodeMode::Permissive).unwrap();
    assert_eq!(found, base);
    assert_eq!(bytes, input);
}

#[test]
fn identity_keeps_the_bytes() {
    check(Base::Identity, b"yes mani !", "\0yes mani !");
    check(Base::Identity, "h\u{e9}llo \u{1F680}".as_bytes(), "\0h\u{e9}llo \u{1F680}");
}

#[test]
fn base2_vectors() {
    check(
        Base::Base2,
        b"yes mani !",
        "001111001011001010111001100100000011011010110000101101110011010010010000000100001",
    );
    check(Base::Base2, b"f", "001100110");
    check(Base::Base2, &[0, 0, 1], "0000000000000000000000001");
}

#[test]
fn base8_vectors() {
    check(Base::Base8, b"yes mani !", "7362625631006654133464440102");
    check(Base::Base8, b"f", "7314");
    check(Base::Base8, b"fo", "7314674");
    check(Base::Base8, b"foo", "731467557");
    check(Base::Base8, b"\x00yes mani !", "7000745453462015530267151100204");
}

#[test]
fn base10_vectors() {
    check(Base::Base10, b"yes mani !", "9573277761329450583662625");
    check(Base::Base10, b"\x00yes mani !", "90573277761329450583662625");
    check(Base::Base10, b"\x00\x00yes mani !", "900573277761329450583662625");
    check(Base::Base10, &[0xff], "9255");
}

#[test]
fn base16_vectors() {
    check(Base::Base16Lower, b"yes mani !", "f796573206d616e692021");
    check(Base::Base16Upper, b"yes mani !", "F796573206D616E692021");
    check(Base::Base16Lower, b"\x00\x00yes mani !", "f0000796573206d616e692021");
}

#[test]
fn base32_vectors() {
    check(Base::Base32Lower, b"yes mani !", "bpfsxgidnmfxgsibb");
    check(Base::Base32Upper, b"yes mani !", "BPFSXGIDNMFXGSIBB");
    check(Base::Base32PadLower, b"yes mani !", "cpfsxgidnmfxgsibb");
    check(Base::Base32PadUpper, b"yes mani !", "CPFSXGIDNMFXGSIBB");
    check(Base::Base32Lower, b"\x00yes mani !", "bab4wk4zanvqw42jaee");
    check(Base::Base32PadLower, b"\x00yes mani !", "cab4wk4zanvqw42jaee======");
    check(Base::Base32PadUpper, b"\x00\x00yes mani !", "CAAAHSZLTEBWWC3TJEAQQ====");
}

#[test]
fn base32_padding_of_every_length() {
    check(Base::Base32PadLower, b"f", "cmy======");
    check(Base::Base32PadLower, b"fo", "cmzxq====");
    check(Base::Base32PadLower, b"foo", "cmzxw6===");
    check(Base::Base32PadLower, b"foob", "cmzxw6yq=");
    check(Base::Base32PadLower, b"fooba", "cmzxw6ytb");
    check(Base::Base32PadLower, b"foobar", "cmzxw6ytboi======");
}

#[test]
fn base32hex_vectors() {
    check(Base::Base32HexLower, b"yes mani !", "vf5in683dc5n6i811");
    check(Base::Base32HexUpper, b"yes mani !", "VF5IN683DC5N6I811");
    check(Base::Base32HexPadLower, b"yes mani !", "tf5in683dc5n6i811");
    check(Base::Base32HexPadUpper, b"yes mani !", "TF5IN683DC5N6I811");
    check(Base::Base32HexPadLower, b"foob", "tcpnmuog=");
    check(Base::Base32HexPadUpper, b"f", "TCO======");
}

#[test]
fn base32z_vectors() {
    check(Base::Base32Z, b"yes mani !", "hxf1zgedpcfzg1ebb");
    check(Base::Base32Z, b"\x00yes mani !", "hybhskh3ypiosh4jyrr");
}

#[test]
fn base36_vectors() {
    check(Base::Base36Lower, b"yes mani !", "k2lcpzo5yikidynfl");
    check(Base::Base36Upper, b"yes mani !", "K2LCPZO5YIKIDYNFL");
    check(Base::Base36Lower, b"\x00\x00yes mani !", "k002lcpzo5yikidynfl");
}

#[test]
fn base58_vectors() {
    check(Base::Base58Flickr, b"yes mani !", "Z7Pznk19XTTzBtx");
    check(Base::Base58Btc, b"yes mani !", "z7paNL19xttacUY");
    check(Base::Base58Flickr, b"\x00yes mani !", "Z17Pznk19XTTzBtx");
    check(Base::Base58Btc, b"\x00\x00yes mani !", "z117paNL19xttacUY");
    check(Base::Base58Btc, b"foobar", "zt1Zv2yaZ");
}

#[test]
fn base64_vectors() {
    check(Base::Base64, b"yes mani !", "meWVzIG1hbmkgIQ");
    check(Base::Base64Pad, b"yes mani !", "MeWVzIG1hbmkgIQ==");
    check(Base::Base64Url, b"yes mani !", "ueWVzIG1hbmkgIQ");
    check(Base::Base64UrlPad, b"yes mani !", "UeWVzIG1hbmkgIQ==");
    check(Base::Base64Pad, b"\x00yes mani !", "MAHllcyBtYW5pICE=");
    check(Base::Base64Pad, b"\x00\x00yes mani !", "MAAB5ZXMgbWFuaSAh");
    check(Base::Base64, &[0xff], "m/w");
    check(Base::Base64Url, &[0xff], "u_w");
}

#[test]
fn base256emoji_vectors() {
    check(Base::Base256Emoji, b"yes mani !", "\u{1F680}\u{1F3C3}\u{270B}\u{1F308}\u{1F605}\u{1F337}\u{1F924}\u{1F63B}\u{1F31F}\u{1F605}\u{1F44F}");
    check(Base::Base256Emoji, b"hi juan!", "\u{1F680}\u{1F634}\u{1F31F}\u{1F605}\u{1F62C}\u{1F918}\u{1F924}\u{1F63B}\u{1F44F}");
    check(Base::Base256Emoji, &[0, 0, 1], "\u{1F680}\u{1F680}\u{1F680}\u{1FA90}");
}

#[test]
fn leading_zero_bytes_become_leading_zero_symbols() {
    let text = encode(Base::Base58Btc, &[0x00, 0x00, 0x01]).unwrap();
    assert_eq!(text, "z112");
    assert_eq!(
        decode("z112", DecodeMode::Strict),
        Ok((Base::Base58Btc, vec![0x00, 0x00, 0x01]))
    );
    assert_eq!(encode(Base::Base58Flickr, &[0x00, 0x00, 0x01]).unwrap(), "Z112");
    assert_eq!(encode(Base::Base10, &[0x00, 0x00, 0x01]).unwrap(), "9001");
    assert_eq!(encode(Base::Base36Lower, &[0x00, 0x00, 0x01]).unwrap(), "k001");
}

#[test]
fn zero_bytes_alone_are_zero_symbols_alone() {
    assert_eq!(encode(Base::Base58Btc, &[0, 0, 0]).unwrap(), "z111");
    assert_eq!(encode(Base::Base10, &[0]).unwrap(), "90");
    assert_eq!(decode("z111", DecodeMode::Strict), Ok((Base::Base58Btc, vec![0, 0, 0])));
    assert_eq!(decode("90", DecodeMode::Strict), Ok((Base::Base10, vec![0])));
    assert_eq!(decode("k0000", DecodeMode::Strict), Ok((Base::Base36Lower, vec![0, 0, 0, 0])));
}

#[test]
fn one_byte_in_padded_base32_has_six_padding_symbols() {
    let text = encode(Base::Base32PadLower, b"f").unwrap();
    assert_eq!(text, "cmy======");
    assert_eq!(text.chars().filter(|c| *c == '=').count(), 6);
    assert_eq!(decode("cmy=====", DecodeMode::Strict), Err(Error::InvalidPadding));
    assert_eq!(decode("cmy=======", DecodeMode::Strict), Err(Error::InvalidPadding));
    assert_eq!(decode("cmy", DecodeMode::Strict), Err(Error::InvalidPadding));
}

#[test]
fn every_base_round_trips_every_byte_value() {
    let all: Vec<u8> = (0..=255u8).collect();
    let bases = [
        Base::Base2,
        Base::Base8,
        Base::Base10,
        Base::Base16Lower,
        Base::Base16Upper,
        Base::Base32Lower,
        Base::Base32Upper,
        Base::Base32PadLower,
        Base::Base32PadUpper,
        Base::Base32HexLower,
        Base::Base32HexUpper,
        Base::Base32HexPadLower,
        Base::Base32HexPadUpper,
        Base::Base32Z,
        Base::Base36Lower,
        Base::Base36Upper,
        Base::Base58Flickr,
        Base::Base58Btc,
        Base::Base64,
        Base::Base64Pad,
        Base::Base64Url,
        Base::Base64UrlPad,
        Base::Base256Emoji,
    ];
    for base in bases {
        for len in [0usize, 1, 2, 3, 4, 5, 6, 7, 8, 9, 31, 32, 33, 256] {
            let input = &all[..len];
            let text = encode(base, input).unwrap();
            assert_eq!(decode(&text, DecodeMode::Strict), Ok((base, input.to_vec())));
            assert_eq!(decode(&text, DecodeMode::Permissive), Ok((base, input.to_vec())));
            let tail = &all[256 - len..];
            let text = encode(base, tail).unwrap();
            assert_eq!(decode(&text, DecodeMode::Strict), Ok((base, tail.to_vec())));
        }
    }
}
