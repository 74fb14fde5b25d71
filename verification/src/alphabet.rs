//! Alphabets: the ordered symbols of a base, its padding symbol and the case
//! folding that permissive decoding applies.

use crate::error::DecodeMode;
use crate::text::{to_lower, to_upper};
use vstd::prelude::*;
use vstd::string::StringSliceAdditionalSpecFns;
use vstd::utf8::is_ascii_chars;

verus! {

/// Which letters permissive decoding treats as the same symbol.
#[derive(Clone, Copy, Debug, PartialEq, Eq, Structural)]
pub enum CaseFold {
    /// Every character stands for itself.
    Exact,
    /// The alphabet is written in lower case; `A` to `Z` are read as `a` to `z`.
    Lower,
    /// The alphabet is written in upper case; `a` to `z` are read as `A` to `Z`.
    Upper,
}

/// `A` to `Z` become `a` to `z`; every other character stays.
pub open spec fn ascii_lower(c: char) -> char {
    if 'A' <= c && c <= 'Z' {
        ((c as u8 + 32) as u8) as char
    } else {
        c
    }
}

/// `a` to `z` become `A` to `Z`; every other character stays.
pub open spec fn ascii_upper(c: char) -> char {
    if 'a' <= c && c <= 'z' {
        ((c as u8 - 32) as u8) as char
    } else {
        c
    }
}

/// The character that `c` is read as under `fold`.
pub open spec fn fold_char(fold: CaseFold, c: char) -> char {
    match fold {
        CaseFold::Exact => c,
        CaseFold::Lower => ascii_lower(c),
        CaseFold::Upper => ascii_upper(c),
    }
}

/// `text` with every character folded.
pub open spec fn fold_text(fold: CaseFold, text: Seq<char>) -> Seq<char> {
    Seq::new(text.len(), |i: int| fold_char(fold, text[i]))
}

/// `symbols` can serve as an alphabet: at least two ASCII characters, none
/// of them twice.
pub open spec fn is_symbol_set(symbols: Seq<char>) -> bool {
    &&& symbols.len() >= 2
    &&& is_ascii_chars(symbols)
    &&& symbols.no_duplicates()
}

/// Every character of `text` is one of `symbols`.
pub open spec fn spelled_in(symbols: Seq<char>, text: Seq<char>) -> bool {
    forall|i: int| 0 <= i < text.len() ==> symbols.contains(#[trigger] text[i])
}

/// The digit values of `text`: for each character its position in `symbols`.
pub open spec fn values_of(symbols: Seq<char>, text: Seq<char>) -> Seq<int> {
    Seq::new(text.len(), |i: int| symbols.index_of(text[i]))
}

/// The text that writes `values`: for each value the symbol at that position.
pub open spec fn text_of(symbols: Seq<char>, values: Seq<int>) -> Seq<char> {
    Seq::new(values.len(), |i: int| symbols[values[i]])
}

/// Every digit lies in `0..base`.
pub open spec fn digits_below(digits: Seq<int>, base: int) -> bool {
    forall|i: int| 0 <= i < digits.len() ==> 0 <= #[trigger] digits[i] < base
}

/// The symbols of a base in the order of their values, with the padding
/// symbol and the case folding that go with them.
#[derive(Clone, Copy, Debug)]
pub struct Alphabet {
    /// The symbols; the symbol at position `i` writes the digit `i`.
    pub symbols: &'static str,
    /// The symbol that fills the last block of an encoded text, if any.
    pub padding: Option<char>,
    /// The folding that permissive decoding applies before looking symbols up.
    pub fold: CaseFold,
}

impl Alphabet {
    /// The alphabet's invariant: a symbol set written in the case that its
    /// folding produces, with a padding symbol that is neither a symbol nor a
    /// letter.
    pub open spec fn wf(&self) -> bool {
        &&& is_symbol_set(self.symbols@)
        &&& forall|i: int|
            0 <= i < self.symbols@.len() ==> fold_char(self.fold, #[trigger] self.symbols@[i])
                == self.symbols@[i]
        &&& match self.padding {
            Some(pad) => {
                &&& pad <= '\u{7f}'
                &&& !self.symbols@.contains(pad)
                &&& !('A' <= pad && pad <= 'Z')
                &&& !('a' <= pad && pad <= 'z')
            },
            None => true,
        }
    }

    /// The number of symbols.
    pub open spec fn base(&self) -> nat {
        self.symbols@.len()
    }

    /// The text as decoding in `mode` reads it: as it stands, or with
    /// its letters folded to the alphabet's case.
    pub open spec fn reading(&self, text: Seq<char>, mode: DecodeMode) -> Seq<char> {
        match mode {
            DecodeMode::Strict => text,
            DecodeMode::Permissive => fold_text(self.fold, text),
        }
    }

    /// The alphabet of `symbols` with this padding and folding, where that
    /// is a well-formed alphabet.
    pub fn new(symbols: &'static str, padding: Option<char>, fold: CaseFold) -> (out: Option<
        Alphabet,
    >)
        ensures
            out.is_some() <==> (Alphabet { symbols, padding, fold }).wf(),
            out.is_some() ==> out.unwrap() == (Alphabet { symbols, padding, fold }),
    {
        let alphabet = Alphabet { symbols, padding, fold };
        if !symbols.is_ascii() {
            return None;
        }
        proof {
            vstd::utf8::is_ascii_chars_encode_utf8(symbols@);
        }
        let bytes = symbols.as_bytes();
        let len = bytes.len();
        if len < 2 {
            return None;
        }
        let mut i: usize = 0;
        while i < len
            invariant
                i <= len,
                len == symbols@.len(),
                bytes@.len() == len,
                is_ascii_chars(symbols@),
                forall|k: int| 0 <= k < len ==> symbols@[k] as u8 == #[trigger] bytes@[k],
                forall|k: int, l: int| 0 <= k < i && k < l < len ==> symbols@[k] != symbols@[l],
                forall|k: int| 0 <= k < i ==> fold_char(fold, #[trigger] symbols@[k]) == symbols@[k],
            decreases len - i,
        {
            let b = bytes[i];
            let folds = match fold {
                CaseFold::Exact => false,
                CaseFold::Lower => 65 <= b && b <= 90,
                CaseFold::Upper => 97 <= b && b <= 122,
            };
            if folds {
                assert(fold_char(fold, symbols@[i as int]) != symbols@[i as int]);
                return None;
            }
            let mut j: usize = i + 1;
            while j < len
                invariant
                    i < j <= len,
                    len == symbols@.len(),
                    bytes@.len() == len,
                    b == bytes@[i as int],
                    is_ascii_chars(symbols@),
                    forall|k: int| 0 <= k < len ==> symbols@[k] as u8 == #[trigger] bytes@[k],
                    forall|l: int| i < l < j ==> symbols@[i as int] != symbols@[l],
                decreases len - j,
            {
                if bytes[j] == b {
                    assert(symbols@[i as int] == symbols@[j as int]);
                    return None;
                }
                j += 1;
            }
            i += 1;
        }
        assert(symbols@.no_duplicates()) by {
            assert forall|k: int, l: int|
                0 <= k < symbols@.len() && 0 <= l < symbols@.len() && k != l implies symbols@[k]
                != symbols@[l] by {
                if l < k {
                    assert(symbols@[l] != symbols@[k]);
                }
            }
        }
        match padding {
            Some(pad) => {
                if pad > '\u{7f}' || ('A' <= pad && pad <= 'Z') || ('a' <= pad && pad <= 'z') {
                    return None;
                }
                proof {
                    lemma_char_floor(pad);
                }
                if alphabet.value(pad as u8).is_some() {
                    return None;
                }
            },
            None => {},
        }
        Some(alphabet)
    }

    /// The number of symbols.
    pub fn size(&self) -> (n: usize)
        requires
            self.wf(),
        ensures
            n == self.base(),
    {
        proof {
            vstd::utf8::is_ascii_chars_encode_utf8(self.symbols@);
        }
        self.symbols.as_bytes().len()
    }

    /// The value of the symbol `b`, if `b` is a symbol.
    pub fn value(&self, b: u8) -> (value: Option<usize>)
        requires
            is_symbol_set(self.symbols@),
        ensures
            match value {
                Some(v) => v < self.base() && self.symbols@[v as int] == b as char
                    && self.symbols@.index_of(b as char) == v,
                None => !self.symbols@.contains(b as char),
            },
    {
        proof {
            vstd::utf8::is_ascii_chars_encode_utf8(self.symbols@);
        }
        let bytes = self.symbols.as_bytes();
        let mut i: usize = 0;
        while i < bytes.len()
            invariant
                is_symbol_set(self.symbols@),
                bytes@ == self.symbols.spec_bytes(),
                bytes@.len() == self.symbols@.len(),
                i <= bytes.len(),
                forall|j: int|
                    0 <= j < bytes@.len() ==> self.symbols@[j] as u8 == #[trigger] bytes@[j],
                forall|j: int| 0 <= j < i ==> self.symbols@[j] != b as char,
            decreases bytes.len() - i,
        {
            if bytes[i] == b {
                return Some(i);
            }
            i += 1;
        }
        None
    }

    /// Whether every byte of `text` is a symbol.
    pub fn spells(&self, text: &[u8]) -> (ok: bool)
        requires
            self.wf(),
        ensures
            ok == forall|i: int|
                0 <= i < text@.len() ==> self.symbols@.contains(#[trigger] text@[i] as char),
    {
        let mut i: usize = 0;
        while i < text.len()
            invariant
                self.wf(),
                i <= text.len(),
                forall|j: int| 0 <= j < i ==> self.symbols@.contains(#[trigger] text@[j] as char),
            decreases text.len() - i,
        {
            if self.value(text[i]).is_none() {
                return false;
            }
            i += 1;
        }
        true
    }

    /// The text as decoding in `mode` reads it, where the mode and the
    /// alphabet fold letters; `None` where `text` is read as it stands.
    pub fn folded(&self, text: &str, mode: DecodeMode) -> (out: Option<String>)
        ensures
            out.is_none() <==> mode == DecodeMode::Strict || self.fold == CaseFold::Exact,
            match out {
                Some(read) => read@ == self.reading(text@, mode),
                None => text@ == self.reading(text@, mode),
            },
    {
        match mode {
            DecodeMode::Strict => None,
            DecodeMode::Permissive => match self.fold {
                CaseFold::Exact => None,
                CaseFold::Lower => Some(to_lower(text)),
                CaseFold::Upper => Some(to_upper(text)),
            },
        }
    }

    /// A text of the alphabet's own symbols and padding reads the same in
    /// both modes.
    pub proof fn lemma_reading_own_text(&self, text: Seq<char>, mode: DecodeMode)
        requires
            self.wf(),
            forall|i: int|
                0 <= i < text.len() ==> self.symbols@.contains(#[trigger] text[i]) || Some(text[i])
                    == self.padding,
        ensures
            self.reading(text, mode) == text,
    {
        assert forall|i: int| 0 <= i < text.len() implies fold_char(self.fold, #[trigger] text[i])
            == text[i] by {
            if self.symbols@.contains(text[i]) {
                let k = self.symbols@.index_of(text[i]);
                assert(fold_char(self.fold, self.symbols@[k]) == self.symbols@[k]);
            }
        }
        assert(fold_text(self.fold, text) =~= text);
    }
}

/// No character lies below the first.
pub proof fn lemma_char_floor(c: char)
    ensures
        '\0' <= c,
{
}

} // verus!
