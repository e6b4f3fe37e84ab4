//! Seven-bit text: the `ascii` crate's strings, seen from verified code as byte
//! sequences.

use crate::search::{first_index, lemma_first_index};
use crate::wire::{ascii_text, push_bytes, words_view};
use ascii::{AsciiChar, AsciiStr, AsciiString, IntoAsciiString};
use vstd::prelude::*;

verus! {

/// `ascii::AsciiString`: an owned string of seven-bit characters. Verified code sees
/// nothing inside it; what it holds is named by `ascii_string_bytes`.
#[verifier::external_type_specification]
#[verifier::external_body]
pub struct ExAsciiString(ascii::AsciiString);

/// `ascii::AsciiChar`: one seven-bit character. No signature here names it, but
/// `ascii::AsciiStr` is a slice of it, and Verus takes the declaration of the one
/// only with the declaration of the other.
#[verifier::external_type_specification]
#[verifier::external_body]
pub struct ExAsciiChar(ascii::AsciiChar);

/// `ascii::AsciiStr`: a borrowed string of seven-bit characters. What it holds is
/// named by `ascii_str_bytes`.
#[verifier::external_type_specification]
#[verifier::external_body]
pub struct ExAsciiStr(ascii::AsciiStr);

/// The bytes that an owned ASCII string holds, in order.
pub uninterp spec fn ascii_string_bytes(s: AsciiString) -> Seq<u8>;

/// The bytes that a borrowed ASCII string holds, in order.
pub uninterp spec fn ascii_str_bytes(s: &AsciiStr) -> Seq<u8>;

/// The space character, which separates the words of a line of text.
pub const SPACE: u8 = 32;

/// Every byte is in the seven-bit range.
pub open spec fn is_seven_bit(bytes: Seq<u8>) -> bool {
    forall|i: int| 0 <= i < bytes.len() ==> bytes[i] < 128
}

/// Every character is in the seven-bit range.
pub open spec fn is_seven_bit_text(chars: Seq<char>) -> bool {
    forall|i: int| 0 <= i < chars.len() ==> (chars[i] as u32) < 128
}

/// The parts of `text` between the occurrences of `sep`: one part more than there
/// are occurrences, so text without `sep` is one part, and so is empty text.
pub open spec fn split_on(text: Seq<u8>, sep: u8) -> Seq<Seq<u8>>
    decreases text.len(),
{
    let at = first_index(text, sep) as int;
    if at >= text.len() {
        seq![text]
    } else {
        seq![text.take(at)] + split_on(text.skip(at + 1), sep)
    }
}

/// Text that begins with a part free of `sep`, then `sep`, splits into that part and
/// what the rest splits into.
pub proof fn lemma_split_after_part(part: Seq<u8>, rest: Seq<u8>, sep: u8)
    requires
        !part.contains(sep),
    ensures
        split_on(part + seq![sep] + rest, sep) == seq![part] + split_on(rest, sep),
{
    let text = part + seq![sep] + rest;
    lemma_first_index(text, sep);
    let at = first_index(text, sep) as int;
    if at < part.len() {
        assert(part[at] == text[at]);
        assert(part.contains(sep));
    }
    if at > part.len() {
        assert(text[part.len() as int] == sep);
    }
    assert(text.take(at) =~= part);
    assert(text.skip(at + 1) =~= rest);
}

/// Text free of `sep` is a single part.
pub proof fn lemma_split_single(part: Seq<u8>, sep: u8)
    requires
        !part.contains(sep),
    ensures
        split_on(part, sep) == seq![part],
{
    lemma_first_index(part, sep);
    let at = first_index(part, sep) as int;
    if at < part.len() {
        assert(part.contains(sep));
    }
}

/// The words in one line of text, with `sep` between each two of them.
pub open spec fn join_words(words: Seq<Seq<u8>>, sep: u8) -> Seq<u8>
    decreases words.len(),
{
    if words.len() == 0 {
        Seq::empty()
    } else if words.len() == 1 {
        words[0]
    } else {
        words[0] + seq![sep] + join_words(words.skip(1), sep)
    }
}

/// No word holds `sep`.
pub open spec fn words_free_of(words: Seq<Seq<u8>>, sep: u8) -> bool {
    forall|i: int| 0 <= i < words.len() ==> !(#[trigger] words[i]).contains(sep)
}

/// Every word is seven-bit.
pub open spec fn words_seven_bit(words: Seq<Seq<u8>>) -> bool {
    forall|i: int| 0 <= i < words.len() ==> is_seven_bit(#[trigger] words[i])
}

/// Adding a word at the end of a line adds `sep` and the word to the text.
pub proof fn lemma_join_push(words: Seq<Seq<u8>>, word: Seq<u8>, sep: u8)
    requires
        words.len() > 0,
    ensures
        join_words(words.push(word), sep) == join_words(words, sep) + seq![sep] + word,
    decreases words.len(),
{
    reveal_with_fuel(join_words, 2);
    let longer = words.push(word);
    if words.len() == 1 {
        assert(longer.skip(1) =~= seq![word]);
        assert(join_words(longer, sep) =~= join_words(words, sep) + seq![sep] + word);
    } else {
        assert(longer.skip(1) =~= words.skip(1).push(word));
        lemma_join_push(words.skip(1), word, sep);
        assert(join_words(longer, sep) =~= join_words(words, sep) + seq![sep] + word);
    }
}

/// Splitting a line made of words free of `sep` gives the words back.
pub proof fn lemma_split_join(words: Seq<Seq<u8>>, sep: u8)
    requires
        words.len() > 0,
        words_free_of(words, sep),
    ensures
        split_on(join_words(words, sep), sep) == words,
    decreases words.len(),
{
    if words.len() == 1 {
        lemma_split_single(words[0], sep);
        assert(seq![words[0]] =~= words);
    } else {
        let rest = words.skip(1);
        assert(words_free_of(rest, sep)) by {
            assert forall|i: int| 0 <= i < rest.len() implies !(#[trigger] rest[i]).contains(
                sep,
            ) by {
                assert(rest[i] == words[i + 1]);
            }
        }
        lemma_split_join(rest, sep);
        lemma_split_after_part(words[0], join_words(rest, sep), sep);
        assert(seq![words[0]] + rest =~= words);
    }
}

/// Joining the parts that text splits into gives the text back, and no part holds
/// `sep`.
pub proof fn lemma_join_split(text: Seq<u8>, sep: u8)
    ensures
        split_on(text, sep).len() > 0,
        words_free_of(split_on(text, sep), sep),
        join_words(split_on(text, sep), sep) == text,
    decreases text.len(),
{
    lemma_first_index(text, sep);
    let at = first_index(text, sep) as int;
    let parts = split_on(text, sep);
    if at >= text.len() {
        assert(!text.contains(sep));
    } else {
        let rest = split_on(text.skip(at + 1), sep);
        lemma_join_split(text.skip(at + 1), sep);
        assert(parts == seq![text.take(at)] + rest);
        assert(parts.skip(1) =~= rest);
        assert(!text.take(at).contains(sep));
        assert forall|i: int| 0 <= i < parts.len() implies !(#[trigger] parts[i]).contains(
            sep,
        ) by {
            if i > 0 {
                assert(parts[i] == rest[i - 1]);
            }
        }
        assert(text.take(at) + seq![sep] + text.skip(at + 1) =~= text);
    }
}

/// The parts of seven-bit text are seven-bit.
pub proof fn lemma_split_seven_bit(text: Seq<u8>, sep: u8)
    requires
        is_seven_bit(text),
    ensures
        words_seven_bit(split_on(text, sep)),
    decreases text.len(),
{
    lemma_first_index(text, sep);
    let at = first_index(text, sep) as int;
    let parts = split_on(text, sep);
    if at < text.len() {
        let tail = text.skip(at + 1);
        assert(is_seven_bit(tail)) by {
            assert forall|i: int| 0 <= i < tail.len() implies tail[i] < 128 by {
                assert(tail[i] == text[at + 1 + i]);
            }
        }
        lemma_split_seven_bit(tail, sep);
        let rest = split_on(tail, sep);
        assert forall|i: int| 0 <= i < parts.len() implies is_seven_bit(#[trigger] parts[i]) by {
            if i == 0 {
                assert forall|j: int| 0 <= j < parts[0].len() implies parts[0][j] < 128 by {
                    assert(parts[0][j] == text[j]);
                }
            } else {
                assert(parts[i] == rest[i - 1]);
            }
        }
    }
}

/// The words in one line of text, with `sep` between each two of them.
pub fn join(words: &[Vec<u8>], sep: u8) -> (text: Vec<u8>)
    ensures
        text@ == join_words(words_view(words@), sep),
        words_seven_bit(words_view(words@)) && sep < 128 ==> is_seven_bit(text@),
{
    let ghost all = words_view(words@);
    let mut text: Vec<u8> = Vec::new();
    let mut i: usize = 0;
    while i < words.len()
        invariant
            i <= words@.len(),
            all == words_view(words@),
            text@ == join_words(all.take(i as int), sep),
            words_seven_bit(all) && sep < 128 ==> is_seven_bit(text@),
        decreases words@.len() - i,
    {
        proof {
            assert(all.take(i + 1) =~= all.take(i as int).push(all[i as int]));
            if i > 0 {
                lemma_join_push(all.take(i as int), all[i as int], sep);
            }
            if words_seven_bit(all) {
                assert(is_seven_bit(all[i as int]));
            }
        }
        if i > 0 {
            text.push(sep);
        }
        push_bytes(&mut text, words[i].as_slice());
        i = i + 1;
    }
    assert(all.take(i as int) =~= all);
    text
}

/// `AsciiString`'s `Clone`: the copy holds the same bytes.
pub assume_specification[ <AsciiString as Clone>::clone ](s: &AsciiString) -> (copy: AsciiString)
    ensures
        ascii_string_bytes(copy) == ascii_string_bytes(*s),
;

/// `AsciiStr::as_bytes`, copied out: the string's bytes, each of them below 128.
#[verifier::external_body]
pub(crate) fn str_to_bytes(s: &AsciiStr) -> (bytes: Vec<u8>)
    ensures
        bytes@ == ascii_str_bytes(s),
        is_seven_bit(bytes@),
{
    s.as_bytes().to_vec()
}

/// `AsciiString`'s `Deref`: the borrowed string holds the bytes of the owned one.
#[verifier::external_body]
pub(crate) fn borrow_string(s: &AsciiString) -> (borrowed: &AsciiStr)
    ensures
        ascii_str_bytes(borrowed) == ascii_string_bytes(*s),
{
    &**s
}

/// `AsciiString::from_ascii` on bytes: it succeeds exactly on seven-bit input, and
/// the string then holds the same bytes.
#[verifier::external_body]
pub(crate) fn string_from_bytes(bytes: Vec<u8>) -> (s: Option<AsciiString>)
    ensures
        s is Some <==> is_seven_bit(bytes@),
        s matches Some(text) ==> ascii_string_bytes(text) == bytes@,
{
    AsciiString::from_ascii(bytes).ok()
}

/// `IntoAsciiString::into_ascii_string` on a `&str`: it succeeds exactly on seven-bit
/// text, and the string then holds one byte for each character.
#[verifier::external_body]
pub(crate) fn string_from_text(text: &str) -> (s: Option<AsciiString>)
    ensures
        s is Some <==> is_seven_bit_text(text@),
        s matches Some(ascii) ==> ascii_string_bytes(ascii) == ascii_text(text@),
{
    text.into_ascii_string().ok()
}

/// `AsciiStr::split` on the space character, each part copied out as bytes: the
/// parts between the spaces, in order.
#[verifier::external_body]
pub(crate) fn split_at_spaces(s: &AsciiStr) -> (parts: Vec<Vec<u8>>)
    ensures
        words_view(parts@) == split_on(ascii_str_bytes(s), SPACE),
{
    s.split(AsciiChar::Space).map(|part| part.as_bytes().to_vec()).collect()
}

} // verus!
