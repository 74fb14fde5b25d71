//! The base of 256 pictographic symbols: each byte is written as one symbol
//! of its own, and each symbol is one character of text.

use crate::alphabet::spelled_in;
use crate::error::{bytes_result, DecodeMode, Error};
use vstd::prelude::*;

verus! {

// The model.

/// The 256 symbols; the symbol at position `b` writes the byte `b`.
pub open spec fn emoji_symbols() -> Seq<char> {
    "🚀🪐☄🛰🌌🌑🌒🌓🌔🌕🌖🌗🌘🌍🌏🌎🐉☀💻🖥💾💿😂❤😍🤣😊🙏💕😭😘👍😅👏😁🔥🥰💔💖💙😢🤔😆🙄💪😉☺👌🤗💜😔😎😇🌹🤦🎉💞✌✨🤷😱😌🌸🙌😋💗💚😏💛🙂💓🤩😄😀🖤😃💯🙈👇🎶😒🤭❣😜💋👀😪😑💥🙋😞😩😡🤪👊🥳😥🤤👉💃😳✋😚😝😴🌟😬🙃🍀🌷😻😓⭐✅🥺🌈😈🤘💦✔😣🏃💐☹🎊💘😠☝😕🌺🎂🌻😐🖕💝🙊😹🗣💫💀👑🎵🤞😛🔴😤🌼😫⚽🤙☕🏆🤫👈😮🙆🍻🍃🐶💁😲🌿🧡🎁⚡🌞🎈❌✊👋😰🤨😶🤝🚶💰🍓💢🤟🙁🚨💨🤬✈🎀🍺🤓😙💟🌱😖👶🥴▶➡❓💎💸⬇😨🌚🦋😷🕺⚠🙅😟😵👎🤲🤠🤧📌🔵💅🧐🐾🍒😗🤑🌊🤯🐷☎💧😯💆👆🎤🙇🍑❄🌴💣🐸💌📍🥀🤢👅💡💩👐📸👻🤐🤮🎼🥵🚩🍎🍊👼💍📣🥂"@
}

/// The text that writes `bytes`: for each byte its symbol.
pub open spec fn emoji_text(bytes: Seq<u8>) -> Seq<char> {
    Seq::new(bytes.len(), |i: int| emoji_symbols()[bytes[i] as int])
}

/// The bytes that `text` writes: for each symbol its position among the
/// symbols.
pub open spec fn emoji_bytes(text: Seq<char>) -> Seq<u8> {
    Seq::new(text.len(), |i: int| emoji_symbols().index_of(text[i]) as u8)
}

/// What decoding `text` gives: its bytes, or `InvalidSymbol` where one of
/// its characters is none of the 256 symbols.
pub open spec fn emoji_decoded(text: Seq<char>) -> Result<Seq<u8>, Error> {
    if spelled_in(emoji_symbols(), text) {
        Ok(emoji_bytes(text))
    } else {
        Err(Error::InvalidSymbol)
    }
}

// The calls into `base256emoji`.

/// Calls `Base::encode` of `base256emoji` for its alphabet `Emoji`: the
/// result holds, for each byte of the input in turn, the character at the
/// byte's position in the crate's alphabet of 256 characters.
#[verifier::external_body]
fn write_symbols(input: &[u8]) -> (out: String)
    requires
        input@.len() <= usize::MAX / 4,
    ensures
        out@ == emoji_text(input@),
{
    <base256emoji::Emoji as base256emoji::Base>::encode(input)
}

/// Calls `Base::decode` of `base256emoji` for its alphabet `Emoji`: it
/// fails where a character of the text is not in the crate's alphabet;
/// otherwise the result holds, for each character in turn, its position in
/// the alphabet.
#[verifier::external_body]
fn read_symbols(text: &str) -> (out: Option<Vec<u8>>)
    ensures
        match out {
            Some(bytes) => spelled_in(emoji_symbols(), text@) && bytes@ == emoji_bytes(text@),
            None => !spelled_in(emoji_symbols(), text@),
        },
{
    <base256emoji::Emoji as base256emoji::Base>::decode(text).ok()
}

// The codec.

/// Writes each byte of `input` as its symbol.
pub fn encode(input: &[u8]) -> (text: String)
    requires
        input@.len() <= usize::MAX / 4,
    ensures
        text@ == emoji_text(input@),
{
    write_symbols(input)
}

/// Reads the byte of each symbol of `text`, in the same way in either mode.
/// A text holds whole characters only, so no symbol is ever cut short: the
/// one failure is a character that is no symbol.
pub fn decode(text: &str, _mode: DecodeMode) -> (out: Result<Vec<u8>, Error>)
    ensures
        bytes_result(out) == emoji_decoded(text@),
{
    match read_symbols(text) {
        Some(bytes) => Ok(bytes),
        None => Err(Error::InvalidSymbol),
    }
}

// The laws.

/// There are 256 symbols and no two of them are the same, so each byte has
/// exactly one symbol and each symbol writes exactly one byte.
pub proof fn lemma_emoji_symbols()
    ensures
        emoji_symbols().len() == 256,
        emoji_symbols().no_duplicates(),
        forall|b: u8| emoji_symbols().index_of(#[trigger] emoji_symbols()[b as int]) == b,
        forall|c: char|
            emoji_symbols().contains(c) ==> 0 <= #[trigger] emoji_symbols().index_of(c) < 256
                && emoji_symbols()[emoji_symbols().index_of(c)] == c,
{
    reveal_strlit("🚀🪐☄🛰🌌🌑🌒🌓🌔🌕🌖🌗🌘🌍🌏🌎🐉☀💻🖥💾💿😂❤😍🤣😊🙏💕😭😘👍😅👏😁🔥🥰💔💖💙😢🤔😆🙄💪😉☺👌🤗💜😔😎😇🌹🤦🎉💞✌✨🤷😱😌🌸🙌😋💗💚😏💛🙂💓🤩😄😀🖤😃💯🙈👇🎶😒🤭❣😜💋👀😪😑💥🙋😞😩😡🤪👊🥳😥🤤👉💃😳✋😚😝😴🌟😬🙃🍀🌷😻😓⭐✅🥺🌈😈🤘💦✔😣🏃💐☹🎊💘😠☝😕🌺🎂🌻😐🖕💝🙊😹🗣💫💀👑🎵🤞😛🔴😤🌼😫⚽🤙☕🏆🤫👈😮🙆🍻🍃🐶💁😲🌿🧡🎁⚡🌞🎈❌✊👋😰🤨😶🤝🚶💰🍓💢🤟🙁🚨💨🤬✈🎀🍺🤓😙💟🌱😖👶🥴▶➡❓💎💸⬇😨🌚🦋😷🕺⚠🙅😟😵👎🤲🤠🤧📌🔵💅🧐🐾🍒😗🤑🌊🤯🐷☎💧😯💆👆🎤🙇🍑❄🌴💣🐸💌📍🥀🤢👅💡💩👐📸👻🤐🤮🎼🥵🚩🍎🍊👼💍📣🥂");
    let symbols = emoji_symbols();
    assert forall|i: int, j: int| 0 <= i < j < 256 implies symbols[i] != symbols[j] by {}
}

/// Decoding the text that encoding wrote gives the bytes back.
pub proof fn lemma_emoji_round_trip(bytes: Seq<u8>)
    ensures
        emoji_decoded(emoji_text(bytes)) == Ok::<Seq<u8>, Error>(bytes),
{
    lemma_emoji_symbols();
    let text = emoji_text(bytes);
    assert(emoji_bytes(text) =~= bytes);
}

/// Encoding the bytes that decoding read gives the text back.
pub proof fn lemma_emoji_canonical(text: Seq<char>)
    requires
        spelled_in(emoji_symbols(), text),
    ensures
        emoji_text(emoji_bytes(text)) == text,
{
    lemma_emoji_symbols();
}

} // verus!
