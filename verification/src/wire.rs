//! Byte-level building blocks of the wire format.

use vstd::arithmetic::div_mod::{lemma_div_denominator, lemma_fundamental_div_mod_converse};
use vstd::prelude::*;
use vstd::string::*;

verus! {

/// The four bytes of `x`, least significant first.
#[verifier::opaque]
pub open spec fn le32(x: u32) -> Seq<u8> {
    seq![
        (x % 256) as u8,
        (x / 256 % 256) as u8,
        (x / 65536 % 256) as u8,
        (x / 16777216) as u8,
    ]
}

/// The number whose little-endian form is the first four bytes of `b`.
#[verifier::opaque]
pub open spec fn le32_value(b: Seq<u8>) -> int
    recommends
        b.len() >= 4,
{
    b[0] + b[1] * 256 + b[2] * 65536 + b[3] * 16777216
}

/// Reading back what `le32` wrote gives the number again.
pub proof fn lemma_le32_value_of_le32(x: u32)
    ensures
        le32(x).len() == 4,
        le32_value(le32(x)) == x,
{
    reveal(le32);
    reveal(le32_value);
    let n = x as int;
    let b0 = n % 256;
    let b1 = n / 256 % 256;
    let b2 = n / 65536 % 256;
    let b3 = n / 16777216;
    assert(n / 65536 == n / 256 / 256 && n / 16777216 == n / 65536 / 256) by {
        lemma_div_denominator(n, 256, 256);
        lemma_div_denominator(n, 65536, 256);
    }
    assert(n == 256 * (n / 256) + b0);
    assert(n / 256 == 256 * (n / 65536) + b1);
    assert(n / 65536 == 256 * b3 + b2);
}

/// Four bytes are the little-endian form of the number they spell.
pub proof fn lemma_le32_of_le32_value(b: Seq<u8>)
    requires
        b.len() == 4,
    ensures
        0 <= le32_value(b) <= u32::MAX,
        le32(le32_value(b) as u32) == b,
{
    reveal(le32);
    reveal(le32_value);
    let b0 = b[0] as int;
    let b1 = b[1] as int;
    let b2 = b[2] as int;
    let b3 = b[3] as int;
    let n = b0 + b1 * 256 + b2 * 65536 + b3 * 16777216;
    lemma_fundamental_div_mod_converse(n, 256, b1 + b2 * 256 + b3 * 65536, b0);
    lemma_fundamental_div_mod_converse(n, 65536, b2 + b3 * 256, b0 + b1 * 256);
    lemma_fundamental_div_mod_converse(n, 16777216, b3, b0 + b1 * 256 + b2 * 65536);
    lemma_fundamental_div_mod_converse(b1 + b2 * 256 + b3 * 65536, 256, b2 + b3 * 256, b1);
    lemma_fundamental_div_mod_converse(b2 + b3 * 256, 256, b3, b2);
    assert(le32(n as u32) =~= b);
}

/// Appends the little-endian form of `x` to `buf`.
pub fn push_le32(buf: &mut Vec<u8>, x: u32)
    ensures
        final(buf)@ == old(buf)@ + le32(x),
{
    proof {
        reveal(le32);
    }
    buf.push((x % 256) as u8);
    buf.push((x / 256 % 256) as u8);
    buf.push((x / 65536 % 256) as u8);
    buf.push((x / 16777216) as u8);
    assert(buf@ =~= old(buf)@ + le32(x));
}

/// Reads the little-endian number that starts at `at`.
pub(crate) fn read_le32(bytes: &[u8], at: usize) -> (x: u32)
    requires
        at + 4 <= bytes@.len(),
    ensures
        x == le32_value(bytes@.subrange(at as int, at + 4)),
{
    proof {
        reveal(le32_value);
    }
    let b0: u32 = bytes[at] as u32;
    let b1: u32 = bytes[at + 1] as u32;
    let b2: u32 = bytes[at + 2] as u32;
    let b3: u32 = bytes[at + 3] as u32;
    b0 + b1 * 256 + b2 * 65536 + b3 * 16777216
}

/// Whether two byte strings hold the same bytes.
pub fn bytes_equal(a: &[u8], b: &[u8]) -> (same: bool)
    ensures
        same == (a@ == b@),
{
    if a.len() != b.len() {
        return false;
    }
    let mut i: usize = 0;
    while i < a.len()
        invariant
            i <= a@.len(),
            a@.len() == b@.len(),
            a@.take(i as int) == b@.take(i as int),
        decreases a@.len() - i,
    {
        if a[i] != b[i] {
            return false;
        }
        i = i + 1;
        assert(a@.take(i as int) =~= a@.take(i - 1).push(a@[i - 1]));
        assert(b@.take(i as int) =~= b@.take(i - 1).push(b@[i - 1]));
    }
    assert(a@ =~= a@.take(i as int));
    assert(b@ =~= b@.take(i as int));
    true
}

/// Whether `needle` occurs among `bytes`.
pub fn contains_byte(bytes: &[u8], needle: u8) -> (found: bool)
    ensures
        found == bytes@.contains(needle),
{
    let mut i: usize = 0;
    while i < bytes.len()
        invariant
            i <= bytes@.len(),
            forall|j: int| 0 <= j < i ==> bytes@[j] != needle,
        decreases bytes@.len() - i,
    {
        if bytes[i] == needle {
            return true;
        }
        i = i + 1;
    }
    false
}

/// Appends a copy of `src` to `buf`.
pub fn push_bytes(buf: &mut Vec<u8>, src: &[u8])
    ensures
        final(buf)@ == old(buf)@ + src@,
{
    let mut i: usize = 0;
    while i < src.len()
        invariant
            i <= src@.len(),
            buf@ == old(buf)@ + src@.take(i as int),
        decreases src@.len() - i,
    {
        buf.push(src[i]);
        i = i + 1;
        assert(src@.take(i as int) =~= src@.take(i - 1).push(src@[i - 1]));
        assert(buf@ =~= old(buf)@ + src@.take(i as int));
    }
    assert(src@.take(i as int) =~= src@);
}

/// A fresh copy of `src`.
pub fn copy_bytes(src: &[u8]) -> (copy: Vec<u8>)
    ensures
        copy@ == src@,
{
    let mut copy: Vec<u8> = Vec::new();
    push_bytes(&mut copy, src);
    assert(copy@ =~= src@);
    copy
}

/// The word list as the sequences of bytes that the words hold.
pub open spec fn words_view(words: Seq<Vec<u8>>) -> Seq<Seq<u8>> {
    Seq::new(words.len(), |i: int| words[i]@)
}

/// Pushing a word onto the list pushes its bytes onto the view.
pub proof fn lemma_words_view_push(words: Seq<Vec<u8>>, word: Vec<u8>)
    ensures
        words_view(words.push(word)) == words_view(words).push(word@),
{
    assert(words_view(words.push(word)) =~= words_view(words).push(word@));
}

/// A fresh copy of a word list.
pub fn copy_words(src: &[Vec<u8>]) -> (copy: Vec<Vec<u8>>)
    ensures
        words_view(copy@) == words_view(src@),
{
    let mut copy: Vec<Vec<u8>> = Vec::new();
    let mut i: usize = 0;
    while i < src.len()
        invariant
            i <= src@.len(),
            words_view(copy@) == words_view(src@.take(i as int)),
        decreases src@.len() - i,
    {
        let word = copy_bytes(src[i].as_slice());
        proof {
            lemma_words_view_push(copy@, word);
            assert(words_view(src@.take(i + 1)) =~= words_view(src@.take(i as int)).push(
                src@[i as int]@,
            ));
        }
        copy.push(word);
        i = i + 1;
    }
    assert(src@.take(i as int) =~= src@);
    copy
}

/// Text as bytes, one byte for each character; meant for seven-bit text.
pub open spec fn ascii_text(chars: Seq<char>) -> Seq<u8> {
    Seq::new(chars.len(), |i: int| chars[i] as u8)
}

/// The bytes of a seven-bit string.
pub(crate) fn text_bytes(s: &str) -> (bytes: Vec<u8>)
    requires
        is_ascii(s),
    ensures
        bytes@ == ascii_text(s@),
{
    broadcast use is_ascii_spec_bytes;

    let bytes = copy_bytes(s.as_bytes());
    assert(bytes@ =~= ascii_text(s@));
    bytes
}

/// Whether `word` spells the seven-bit string `s`.
pub(crate) fn spells(word: &[u8], s: &str) -> (same: bool)
    requires
        is_ascii(s),
    ensures
        same == (word@ == ascii_text(s@)),
{
    broadcast use is_ascii_spec_bytes;

    assert(s.spec_bytes() =~= ascii_text(s@));
    bytes_equal(word, s.as_bytes())
}

} // verus!
