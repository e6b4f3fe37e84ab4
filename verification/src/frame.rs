//! The frame codec: one protocol message to bytes and back.
//!
//! A frame on the wire is a twelve-byte header (sequence field, total size, word
//! count, each a little-endian `u32`) followed by the words. Each word is its length
//! as a little-endian `u32`, its bytes, and one terminator byte.

use crate::wire::{
    contains_byte, copy_bytes, le32, le32_value, lemma_le32_of_le32_value,
    lemma_le32_value_of_le32, lemma_words_view_push, push_bytes, push_le32, read_le32,
    words_view,
};
use vstd::prelude::*;
use vstd::slice::slice_subrange;

verus! {

/// Bytes that the header takes.
pub const HEADER_SIZE: usize = 12;

/// The byte that ends each word on the wire.
pub const TERMINATOR: u8 = 0;

/// Number of distinct sequence numbers; the two bits above them are flags.
pub const SEQUENCE_SPAN: u32 = 0x4000_0000;

/// Weight of the `is_from_server` flag in the sequence field.
pub const FROM_SERVER_BIT: u32 = 0x4000_0000;

/// Weight of the `is_response` flag in the sequence field.
pub const RESPONSE_BIT: u32 = 0x8000_0000;

/// Why bytes are not a frame, or why a frame cannot be built.
#[derive(Debug, Clone, Copy, PartialEq, Eq, Structural)]
pub enum FramingError {
    /// The buffer is shorter than a header.
    HeaderTruncated,
    /// The total size that the header declares is not the size of the buffer.
    SizeMismatch,
    /// The header declares more words than the buffer holds, or fewer.
    WordCountMismatch,
    /// A word does not span what its length prefix declares: it is cut short, holds
    /// the terminator byte, or is not followed by it.
    WordLengthMismatch,
    /// The sequence number does not fit in thirty bits.
    SequenceOutOfRange,
    /// A word holds the terminator byte.
    WordHoldsTerminator,
    /// The encoded frame would be larger than the size field can say.
    TooLarge,
}

/// A frame as a mathematical value.
pub struct FrameView {
    pub sequence: u32,
    pub is_response: bool,
    pub is_from_server: bool,
    pub words: Seq<Seq<u8>>,
}

/// One word on the wire: length prefix, bytes, terminator.
pub open spec fn encoded_word(word: Seq<u8>) -> Seq<u8> {
    le32(word.len() as u32) + word + seq![TERMINATOR]
}

/// The words on the wire, one after the other.
pub open spec fn encoded_words(words: Seq<Seq<u8>>) -> Seq<u8>
    decreases words.len(),
{
    if words.len() == 0 {
        Seq::empty()
    } else {
        encoded_word(words[0]) + encoded_words(words.skip(1))
    }
}

/// No word holds the terminator byte.
pub open spec fn words_clean(words: Seq<Seq<u8>>) -> bool {
    forall|i: int| 0 <= i < words.len() ==> !(#[trigger] words[i]).contains(TERMINATOR)
}

/// The sequence field of a header: the number in the low thirty bits, the flags above.
pub open spec fn sequence_field(sequence: u32, is_response: bool, is_from_server: bool) -> int {
    sequence + (if is_from_server {
        FROM_SERVER_BIT as int
    } else {
        0
    }) + (if is_response {
        RESPONSE_BIT as int
    } else {
        0
    })
}

impl FrameView {
    /// Size of the frame on the wire, in bytes.
    pub open spec fn size(self) -> nat {
        HEADER_SIZE as nat + encoded_words(self.words).len()
    }

    /// What every frame satisfies: a thirty-bit sequence number, words free of the
    /// terminator byte, and a size that the header can declare.
    pub open spec fn wf(self) -> bool {
        &&& self.sequence < SEQUENCE_SPAN
        &&& words_clean(self.words)
        &&& self.size() <= u32::MAX
    }

    /// The frame on the wire.
    pub open spec fn wire(self) -> Seq<u8> {
        le32(sequence_field(self.sequence, self.is_response, self.is_from_server) as u32) + le32(
            self.size() as u32,
        ) + le32(self.words.len() as u32) + encoded_words(self.words)
    }
}

/// A parsed word list in front of what parsing the rest gave.
pub open spec fn after_words(
    done: Seq<Seq<u8>>,
    rest: Result<Seq<Seq<u8>>, FramingError>,
) -> Result<Seq<Seq<u8>>, FramingError> {
    match rest {
        Ok(words) => Ok(done + words),
        Err(e) => Err(e),
    }
}

/// Reads exactly `count` words from `bytes`, which must hold nothing else.
pub open spec fn parse_words(bytes: Seq<u8>, count: nat) -> Result<Seq<Seq<u8>>, FramingError>
    decreases count,
{
    if count == 0 {
        if bytes.len() == 0 {
            Ok(Seq::empty())
        } else {
            Err(FramingError::WordCountMismatch)
        }
    } else if bytes.len() == 0 {
        Err(FramingError::WordCountMismatch)
    } else if bytes.len() < 4 || bytes.len() < 4 + le32_value(bytes.take(4)) + 1 {
        Err(FramingError::WordLengthMismatch)
    } else {
        let len = le32_value(bytes.take(4));
        let word = bytes.subrange(4, 4 + len);
        if word.contains(TERMINATOR) || bytes[4 + len] != TERMINATOR {
            Err(FramingError::WordLengthMismatch)
        } else {
            after_words(seq![word], parse_words(bytes.skip(4 + len + 1), (count - 1) as nat))
        }
    }
}

/// The frame that `bytes` spell, or the reason why they spell none.
pub open spec fn spec_decode(bytes: Seq<u8>) -> Result<FrameView, FramingError> {
    if bytes.len() < HEADER_SIZE {
        Err(FramingError::HeaderTruncated)
    } else if le32_value(bytes.subrange(4, 8)) != bytes.len() {
        Err(FramingError::SizeMismatch)
    } else {
        let field = le32_value(bytes.subrange(0, 4));
        match parse_words(bytes.skip(HEADER_SIZE as int), le32_value(bytes.subrange(8, 12)) as nat) {
            Ok(words) => Ok(
                FrameView {
                    sequence: (field % (SEQUENCE_SPAN as int)) as u32,
                    is_response: field >= RESPONSE_BIT,
                    is_from_server: field % (RESPONSE_BIT as int) >= FROM_SERVER_BIT,
                    words,
                },
            ),
            Err(e) => Err(e),
        }
    }
}

/// The words on the wire grow by one encoded word when a word is added at the end.
pub proof fn lemma_encoded_words_push(words: Seq<Seq<u8>>, word: Seq<u8>)
    ensures
        encoded_words(words.push(word)) == encoded_words(words) + encoded_word(word),
    decreases words.len(),
{
    reveal_with_fuel(encoded_words, 2);
    if words.len() == 0 {
        assert(words.push(word).skip(1) =~= Seq::<Seq<u8>>::empty());
        assert(encoded_words(words.push(word)) =~= encoded_words(words) + encoded_word(word));
    } else {
        assert(words.push(word).skip(1) =~= words.skip(1).push(word));
        lemma_encoded_words_push(words.skip(1), word);
        assert(encoded_words(words.push(word)) =~= encoded_words(words) + encoded_word(word));
    }
}

/// Each word takes its own length and five bytes more on the wire.
pub proof fn lemma_encoded_words_len(words: Seq<Seq<u8>>)
    ensures
        encoded_words(words).len() >= 5 * words.len(),
        forall|i: int|
            0 <= i < words.len() ==> encoded_words(words).len() >= (#[trigger] words[i]).len() + 5,
    decreases words.len(),
{
    if words.len() > 0 {
        lemma_le32_value_of_le32(words[0].len() as u32);
        lemma_encoded_words_len(words.skip(1));
        assert forall|i: int| 0 <= i < words.len() implies encoded_words(words).len() >= (
        #[trigger] words[i]).len() + 5 by {
            if i > 0 {
                assert(words.skip(1)[i - 1] == words[i]);
            }
        }
    }
}

/// Parsing what the encoder wrote gives the words back.
pub proof fn lemma_parse_encoded_words(words: Seq<Seq<u8>>)
    requires
        words_clean(words),
        encoded_words(words).len() <= u32::MAX,
    ensures
        parse_words(encoded_words(words), words.len()) == Ok::<Seq<Seq<u8>>, FramingError>(words),
    decreases words.len(),
{
    if words.len() == 0 {
        assert(words =~= Seq::<Seq<u8>>::empty());
    } else {
        let word = words[0];
        let rest = words.skip(1);
        let bytes = encoded_words(words);
        let len = word.len() as int;
        lemma_encoded_words_len(words);
        lemma_le32_value_of_le32(word.len() as u32);
        assert(bytes == encoded_word(word) + encoded_words(rest));
        assert(bytes.take(4) =~= le32(word.len() as u32));
        assert(le32_value(bytes.take(4)) == len);
        assert(bytes.len() >= 4 + len + 1);
        assert(bytes.subrange(4, 4 + len) =~= word);
        assert(bytes[4 + len] == TERMINATOR);
        assert(bytes.skip(4 + len + 1) =~= encoded_words(rest));
        assert(words_clean(rest)) by {
            assert forall|i: int| 0 <= i < rest.len() implies !(#[trigger] rest[i]).contains(
                TERMINATOR,
            ) by {
                assert(rest[i] == words[i + 1]);
            }
        }
        lemma_parse_encoded_words(rest);
        assert(seq![word] + rest =~= words);
    }
}

/// What parses as a word list is the encoding of that list, and the list is clean.
pub proof fn lemma_encoded_parsed_words(bytes: Seq<u8>, count: nat)
    requires
        parse_words(bytes, count) is Ok,
    ensures
        parse_words(bytes, count)->Ok_0.len() == count,
        words_clean(parse_words(bytes, count)->Ok_0),
        encoded_words(parse_words(bytes, count)->Ok_0) == bytes,
    decreases count,
{
    let words = parse_words(bytes, count)->Ok_0;
    if count == 0 {
        assert(encoded_words(words) =~= bytes);
    } else {
        let len = le32_value(bytes.take(4));
        let word = bytes.subrange(4, 4 + len);
        let tail = bytes.skip(4 + len + 1);
        lemma_le32_of_le32_value(bytes.take(4));
        lemma_encoded_parsed_words(tail, (count - 1) as nat);
        let rest = parse_words(tail, (count - 1) as nat)->Ok_0;
        assert(words == seq![word] + rest);
        assert(words.skip(1) =~= rest);
        assert(words[0] == word);
        assert(word.len() == len);
        assert(encoded_word(word) =~= bytes.subrange(0, 4 + len + 1)) by {
            assert(le32(word.len() as u32) == bytes.take(4));
        }
        assert(encoded_words(words) == encoded_word(word) + encoded_words(rest));
        assert(bytes.subrange(0, 4 + len + 1) + tail =~= bytes);
        assert forall|i: int| 0 <= i < words.len() implies !(#[trigger] words[i]).contains(
            TERMINATOR,
        ) by {
            if i > 0 {
                assert(words[i] == rest[i - 1]);
            }
        }
    }
}

/// Splitting a sequence field gives back the number and the flags that made it.
pub proof fn lemma_sequence_field_parts(sequence: u32, is_response: bool, is_from_server: bool)
    requires
        sequence < SEQUENCE_SPAN,
    ensures
        0 <= sequence_field(sequence, is_response, is_from_server) <= u32::MAX,
        sequence_field(sequence, is_response, is_from_server) % (SEQUENCE_SPAN as int)
            == sequence,
        sequence_field(sequence, is_response, is_from_server) >= RESPONSE_BIT <==> is_response,
        sequence_field(sequence, is_response, is_from_server) % (RESPONSE_BIT as int)
            >= FROM_SERVER_BIT <==> is_from_server,
{
}

/// Decoding the wire form of a well-formed frame gives the frame back.
pub proof fn lemma_decode_wire(frame: FrameView)
    requires
        frame.wf(),
    ensures
        spec_decode(frame.wire()) == Ok::<FrameView, FramingError>(frame),
{
    let field = sequence_field(frame.sequence, frame.is_response, frame.is_from_server);
    let bytes = frame.wire();
    lemma_sequence_field_parts(frame.sequence, frame.is_response, frame.is_from_server);
    lemma_encoded_words_len(frame.words);
    lemma_le32_value_of_le32(field as u32);
    lemma_le32_value_of_le32(frame.size() as u32);
    lemma_le32_value_of_le32(frame.words.len() as u32);
    assert(bytes.subrange(0, 4) =~= le32(field as u32));
    assert(bytes.subrange(4, 8) =~= le32(frame.size() as u32));
    assert(bytes.subrange(8, 12) =~= le32(frame.words.len() as u32));
    assert(bytes.skip(HEADER_SIZE as int) =~= encoded_words(frame.words));
    assert(bytes.len() == frame.size());
    lemma_parse_encoded_words(frame.words);
}

/// What decodes as a frame is the wire form of that frame, and the frame is well
/// formed.
pub proof fn lemma_wire_decoded(bytes: Seq<u8>)
    requires
        spec_decode(bytes) is Ok,
    ensures
        spec_decode(bytes)->Ok_0.wf(),
        spec_decode(bytes)->Ok_0.wire() == bytes,
{
    let frame = spec_decode(bytes)->Ok_0;
    let field = le32_value(bytes.subrange(0, 4));
    let count = le32_value(bytes.subrange(8, 12));
    let body = bytes.skip(HEADER_SIZE as int);
    lemma_le32_of_le32_value(bytes.subrange(0, 4));
    lemma_le32_of_le32_value(bytes.subrange(4, 8));
    lemma_le32_of_le32_value(bytes.subrange(8, 12));
    lemma_encoded_parsed_words(body, count as nat);
    assert(frame.words == parse_words(body, count as nat)->Ok_0);
    assert(encoded_words(frame.words) == body);
    assert(frame.size() == bytes.len());
    assert(sequence_field(frame.sequence, frame.is_response, frame.is_from_server) == field);
    assert(bytes.subrange(0, 4) + bytes.subrange(4, 8) + bytes.subrange(8, 12) + body =~= bytes);
}

/// Two well-formed frames with the same wire form are the same frame.
pub proof fn lemma_wire_injective(a: FrameView, b: FrameView)
    requires
        a.wf(),
        b.wf(),
        a.wire() == b.wire(),
    ensures
        a == b,
{
    lemma_decode_wire(a);
    lemma_decode_wire(b);
}

/// One protocol message: a header and an ordered list of words.
///
/// A frame cannot be changed once it is made, and every frame satisfies
/// `FrameView::wf`.
#[derive(Debug, PartialEq, Eq)]
pub struct Frame {
    sequence: u32,
    is_response: bool,
    is_from_server: bool,
    words: Vec<Vec<u8>>,
}

impl View for Frame {
    type V = FrameView;

    closed spec fn view(&self) -> FrameView {
        FrameView {
            sequence: self.sequence,
            is_response: self.is_response,
            is_from_server: self.is_from_server,
            words: words_view(self.words@),
        }
    }
}

/// Size on the wire of a frame with these words, unless one of them holds the
/// terminator byte or the size is more than a header can declare.
fn measure_words(words: &Vec<Vec<u8>>) -> (r: Result<u32, FramingError>)
    ensures
        match r {
            Ok(size) => words_clean(words_view(words@)) && size == HEADER_SIZE
                + encoded_words(words_view(words@)).len(),
            Err(e) => if words_clean(words_view(words@)) {
                e == FramingError::TooLarge && HEADER_SIZE + encoded_words(
                    words_view(words@),
                ).len() > u32::MAX
            } else {
                e == FramingError::WordHoldsTerminator
            },
        },
{
    let ghost all = words_view(words@);
    let mut i: usize = 0;
    while i < words.len()
        invariant
            i <= words@.len(),
            all == words_view(words@),
            words_clean(all.take(i as int)),
        decreases words@.len() - i,
    {
        if contains_byte(words[i].as_slice(), TERMINATOR) {
            assert(all[i as int].contains(TERMINATOR));
            return Err(FramingError::WordHoldsTerminator);
        }
        i = i + 1;
        assert forall|j: int| 0 <= j < i implies !(#[trigger] all.take(i as int)[j]).contains(
            TERMINATOR,
        ) by {
            if j < i - 1 {
                assert(all.take(i - 1)[j] == all[j]);
            }
        }
    }
    assert(all.take(i as int) =~= all);
    let mut size: u64 = 12;
    let mut k: usize = 0;
    while k < words.len()
        invariant
            k <= words@.len(),
            all == words_view(words@),
            words_clean(all),
            size == HEADER_SIZE + encoded_words(all.take(k as int)).len(),
            size <= u32::MAX,
        decreases words@.len() - k,
    {
        let len: usize = words[k].len();
        proof {
            lemma_encoded_words_push(all.take(k as int), all[k as int]);
            assert(all.take(k + 1) =~= all.take(k as int).push(all[k as int]));
            lemma_encoded_words_len(all);
            lemma_encoded_words_len(all.take(k + 1));
            lemma_encoded_words_prefix(all, k + 1);
            if len <= u32::MAX {
                lemma_le32_value_of_le32(len as u32);
            }
        }
        if len as u64 > 0xffff_ffff || size + 5 + len as u64 > 0xffff_ffff {
            return Err(FramingError::TooLarge);
        }
        size = size + 5 + len as u64;
        k = k + 1;
    }
    assert(all.take(k as int) =~= all);
    Ok(size as u32)
}

impl Frame {
    #[verifier::type_invariant]
    spec fn well_formed(self) -> bool {
        self@.wf()
    }

    /// Builds a frame, unless it could not be put on the wire.
    pub fn new(sequence: u32, is_response: bool, is_from_server: bool, words: Vec<Vec<u8>>) -> (r:
        Result<Frame, FramingError>)
        ensures
            match r {
                Ok(frame) => frame@.wf() && frame@ == (FrameView {
                    sequence,
                    is_response,
                    is_from_server,
                    words: words_view(words@),
                }),
                Err(e) => if sequence >= SEQUENCE_SPAN {
                    e == FramingError::SequenceOutOfRange
                } else if !words_clean(words_view(words@)) {
                    e == FramingError::WordHoldsTerminator
                } else {
                    e == FramingError::TooLarge && HEADER_SIZE + encoded_words(
                        words_view(words@),
                    ).len() > u32::MAX
                },
            },
    {
        if sequence >= SEQUENCE_SPAN {
            return Err(FramingError::SequenceOutOfRange);
        }
        match measure_words(&words) {
            Ok(_) => Ok(Frame { sequence, is_response, is_from_server, words }),
            Err(e) => Err(e),
        }
    }

    /// The sequence number.
    pub fn sequence(&self) -> (sequence: u32)
        ensures
            sequence == self@.sequence,
            self@.wf(),
    {
        proof {
            use_type_invariant(self);
        }
        self.sequence
    }

    /// Whether the frame answers an earlier one.
    pub fn is_response(&self) -> (flag: bool)
        ensures
            flag == self@.is_response,
    {
        self.is_response
    }

    /// Whether the exchange that the frame belongs to was started by the server.
    pub fn is_from_server(&self) -> (flag: bool)
        ensures
            flag == self@.is_from_server,
    {
        self.is_from_server
    }

    /// The words.
    pub fn words(&self) -> (words: &Vec<Vec<u8>>)
        ensures
            words_view(words@) == self@.words,
            self@.wf(),
    {
        proof {
            use_type_invariant(self);
        }
        &self.words
    }

    /// Gives up the frame for its words.
    pub fn into_words(self) -> (words: Vec<Vec<u8>>)
        ensures
            words_view(words@) == self@.words,
            self@.wf(),
    {
        proof {
            use_type_invariant(&self);
        }
        self.words
    }

    /// The frame as the bytes that go on the wire.
    pub fn encode(&self) -> (bytes: Vec<u8>)
        ensures
            bytes@ == self@.wire(),
            self@.wf(),
            spec_decode(bytes@) == Ok::<FrameView, FramingError>(self@),
    {
        proof {
            use_type_invariant(self);
            lemma_decode_wire(self@);
            lemma_encoded_words_len(self@.words);
        }
        let ghost all = self@.words;
        let mut field: u32 = self.sequence;
        if self.is_from_server {
            field = field + FROM_SERVER_BIT;
        }
        if self.is_response {
            field = field + RESPONSE_BIT;
        }
        let size: u32 = match measure_words(&self.words) {
            Ok(size) => size,
            Err(_) => unreached(),
        };
        let mut bytes: Vec<u8> = Vec::new();
        push_le32(&mut bytes, field);
        push_le32(&mut bytes, size);
        push_le32(&mut bytes, self.words.len() as u32);
        let ghost header = bytes@;
        assert(encoded_words(all.take(0)) =~= Seq::<u8>::empty());
        let mut i: usize = 0;
        while i < self.words.len()
            invariant
                i <= self.words@.len(),
                all == words_view(self.words@),
                encoded_words(all).len() <= u32::MAX,
                bytes@ == header + encoded_words(all.take(i as int)),
            decreases self.words@.len() - i,
        {
            let word: &Vec<u8> = &self.words[i];
            proof {
                lemma_encoded_words_len(all);
                lemma_encoded_words_push(all.take(i as int), all[i as int]);
                assert(all.take(i + 1) =~= all.take(i as int).push(all[i as int]));
            }
            let ghost before = bytes@;
            push_le32(&mut bytes, word.len() as u32);
            push_bytes(&mut bytes, word.as_slice());
            bytes.push(TERMINATOR);
            assert(bytes@ =~= before + encoded_word(all[i as int]));
            assert(bytes@ =~= header + encoded_words(all.take(i + 1)));
            i = i + 1;
        }
        assert(all.take(i as int) =~= all);
        assert(bytes@ =~= self@.wire());
        bytes
    }

    /// Reads one frame from a buffer that holds exactly that frame.
    pub fn decode(bytes: &[u8]) -> (r: Result<Frame, FramingError>)
        ensures
            match r {
                Ok(frame) => spec_decode(bytes@) == Ok::<FrameView, FramingError>(frame@)
                    && frame@.wf() && frame@.wire() == bytes@,
                Err(e) => spec_decode(bytes@) == Err::<FrameView, FramingError>(e),
            },
    {
        if bytes.len() < HEADER_SIZE {
            return Err(FramingError::HeaderTruncated);
        }
        let field: u32 = read_le32(bytes, 0);
        let size: u32 = read_le32(bytes, 4);
        let count: u32 = read_le32(bytes, 8);
        if size as u64 != bytes.len() as u64 {
            return Err(FramingError::SizeMismatch);
        }
        let ghost body = bytes@.skip(HEADER_SIZE as int);
        let mut words: Vec<Vec<u8>> = Vec::new();
        let mut at: usize = HEADER_SIZE;
        let mut k: u32 = 0;
        assert(bytes@.skip(at as int) == body);
        assert(words_view(words@) + Seq::<Seq<u8>>::empty() =~= Seq::<Seq<u8>>::empty());
        assert(parse_words(body, count as nat) == after_words(
            words_view(words@),
            parse_words(bytes@.skip(at as int), (count - k) as nat),
        )) by {
            let rest = parse_words(body, count as nat);
            if rest is Ok {
                assert(words_view(words@) + rest->Ok_0 =~= rest->Ok_0);
            }
        }
        while k < count
            invariant
                k <= count,
                HEADER_SIZE <= at <= bytes@.len(),
                le32_value(bytes@.subrange(4, 8)) == bytes@.len(),
                le32_value(bytes@.subrange(8, 12)) == count,
                body == bytes@.skip(HEADER_SIZE as int),
                parse_words(body, count as nat) == after_words(
                    words_view(words@),
                    parse_words(bytes@.skip(at as int), (count - k) as nat),
                ),
            decreases count - k,
        {
            let ghost rest = bytes@.skip(at as int);
            let left: usize = bytes.len() - at;
            if left == 0 {
                return Err(FramingError::WordCountMismatch);
            }
            if left < 4 {
                return Err(FramingError::WordLengthMismatch);
            }
            let len: u32 = read_le32(bytes, at);
            assert(rest.take(4) =~= bytes@.subrange(at as int, at + 4));
            if (left as u64) < 4 + len as u64 + 1 {
                return Err(FramingError::WordLengthMismatch);
            }
            let start: usize = at + 4;
            let end: usize = start + len as usize;
            let span = slice_subrange(bytes, start, end);
            assert(span@ =~= rest.subrange(4, 4 + len));
            if contains_byte(span, TERMINATOR) || bytes[end] != TERMINATOR {
                return Err(FramingError::WordLengthMismatch);
            }
            let word = copy_bytes(span);
            proof {
                lemma_words_view_push(words@, word);
                assert(rest.skip(4 + len + 1) =~= bytes@.skip(end + 1));
                let tail = parse_words(bytes@.skip(end + 1), (count - k - 1) as nat);
                if tail is Ok {
                    assert(words_view(words@).push(word@) + tail->Ok_0 =~= words_view(words@)
                        + (seq![word@] + tail->Ok_0));
                }
            }
            words.push(word);
            at = end + 1;
            k = k + 1;
        }
        if at != bytes.len() {
            return Err(FramingError::WordCountMismatch);
        }
        proof {
            assert(bytes@.skip(at as int).len() == 0);
            assert(words_view(words@) + Seq::<Seq<u8>>::empty() =~= words_view(words@));
            lemma_wire_decoded(bytes@);
        }
        let rest: u32 = field % RESPONSE_BIT;
        Ok(
            Frame {
                sequence: rest % SEQUENCE_SPAN,
                is_response: field >= RESPONSE_BIT,
                is_from_server: rest >= FROM_SERVER_BIT,
                words,
            },
        )
    }

    /// The total size that a header declares, for a reader that has the header and
    /// must know how many bytes belong to the frame. A size that leaves no room for
    /// the header itself is no size.
    pub fn declared_size(header: &[u8]) -> (r: Result<u32, FramingError>)
        ensures
            match r {
                Ok(size) => header@.len() >= HEADER_SIZE && size == le32_value(
                    header@.subrange(4, 8),
                ) && size >= HEADER_SIZE,
                Err(e) => if header@.len() < HEADER_SIZE {
                    e == FramingError::HeaderTruncated
                } else {
                    e == FramingError::SizeMismatch && le32_value(header@.subrange(4, 8))
                        < HEADER_SIZE
                },
            },
    {
        if header.len() < HEADER_SIZE {
            return Err(FramingError::HeaderTruncated);
        }
        let size: u32 = read_le32(header, 4);
        if size < 12 {
            Err(FramingError::SizeMismatch)
        } else {
            Ok(size)
        }
    }
}

/// A buffer that decodes as a frame has the size that its header declares.
pub proof fn lemma_decoded_has_declared_size(bytes: Seq<u8>)
    requires
        spec_decode(bytes) is Ok,
    ensures
        bytes.len() >= HEADER_SIZE,
        le32_value(bytes.subrange(4, 8)) == bytes.len(),
        le32_value(bytes.take(HEADER_SIZE as int).subrange(4, 8)) == bytes.len(),
{
    assert(bytes.take(HEADER_SIZE as int).subrange(4, 8) =~= bytes.subrange(4, 8));
}

/// The encoding of a list begins with the encoding of each of its prefixes.
pub proof fn lemma_encoded_words_prefix(words: Seq<Seq<u8>>, n: int)
    requires
        0 <= n <= words.len(),
    ensures
        encoded_words(words.take(n)).len() <= encoded_words(words).len(),
    decreases words.len() - n,
{
    if n < words.len() {
        lemma_encoded_words_prefix(words, n + 1);
        lemma_encoded_words_push(words.take(n), words[n]);
        assert(words.take(n + 1) =~= words.take(n).push(words[n]));
    } else {
        assert(words.take(n) =~= words);
    }
}

} // verus!
