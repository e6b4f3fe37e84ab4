use battlefield_rcon::frame::{Frame, FramingError};
use battlefield_rcon::sequence::SequenceAllocator;

fn word(text: &str) -> Vec<u8> {
    text.as_bytes().to_vec()
}

fn server_info_bytes() -> Vec<u8> {
    vec![
        1, 0, 0, 0, 27, 0, 0, 0, 1, 0, 0, 0, 10, 0, 0, 0, 115, 101, 114, 118, 101, 114, 73, 110,
        102, 111, 0,
    ]
}

#[test]
fn encode_writes_header_and_words() {
    let frame = Frame::new(1, false, false, vec![word("serverInfo")]).unwrap();
    assert_eq!(frame.encode(), server_info_bytes());
}

#[test]
fn encode_sets_both_flag_bits() {
    let frame = Frame::new(5, true, true, vec![word("OK")]).unwrap();
    assert_eq!(
        frame.encode(),
        vec![5, 0, 0, 192, 19, 0, 0, 0, 1, 0, 0, 0, 2, 0, 0, 0, 79, 75, 0]
    );
}

#[test]
fn encode_keeps_empty_words() {
    let frame = Frame::new(7, true, false, vec![word("OK"), word("a"), word("")]).unwrap();
    assert_eq!(
        frame.encode(),
        vec![
            7, 0, 0, 128, 30, 0, 0, 0, 3, 0, 0, 0, 2, 0, 0, 0, 79, 75, 0, 1, 0, 0, 0, 97, 0, 0, 0,
            0, 0, 0
        ]
    );
}

#[test]
fn encode_of_no_words_is_the_header() {
    let frame = Frame::new(0, false, false, Vec::new()).unwrap();
    assert_eq!(frame.encode(), vec![0, 0, 0, 0, 12, 0, 0, 0, 0, 0, 0, 0]);
}

#[test]
fn decode_reads_header_and_words() {
    let frame = Frame::decode(&server_info_bytes()).unwrap();
    assert_eq!(frame.sequence(), 1);
    assert!(!frame.is_response());
    assert!(!frame.is_from_server());
    assert_eq!(frame.words(), &vec![word("serverInfo")]);
}

#[test]
fn decode_reads_the_flags() {
    let bytes: Vec<u8> = vec![5, 0, 0, 192, 19, 0, 0, 0, 1, 0, 0, 0, 2, 0, 0, 0, 79, 75, 0];
    let frame = Frame::decode(&bytes).unwrap();
    assert_eq!(frame.sequence(), 5);
    assert!(frame.is_response());
    assert!(frame.is_from_server());
    let only_server: Vec<u8> = vec![5, 0, 0, 64, 19, 0, 0, 0, 1, 0, 0, 0, 2, 0, 0, 0, 79, 75, 0];
    let frame = Frame::decode(&only_server).unwrap();
    assert!(!frame.is_response());
    assert!(frame.is_from_server());
    assert_eq!(frame.into_words(), vec![word("OK")]);
}

#[test]
fn decode_of_encode_is_the_frame() {
    let cases: Vec<(u32, bool, bool, Vec<Vec<u8>>)> = vec![
        (0, false, false, vec![]),
        (1, false, false, vec![word("serverInfo")]),
        (0x3fff_ffff, true, true, vec![word("OK"), word(""), word("two words")]),
        (123_456, true, false, vec![vec![1, 2, 255, 128], word("x")]),
        (9, false, true, vec![word("player.onChat"), word("Foo"), word("hi"), word("all")]),
    ];
    for (sequence, is_response, is_from_server, words) in cases {
        let frame = Frame::new(sequence, is_response, is_from_server, words.clone()).unwrap();
        let decoded = Frame::decode(&frame.encode()).unwrap();
        assert_eq!(decoded, frame);
        assert_eq!(decoded.sequence(), sequence);
        assert_eq!(decoded.is_response(), is_response);
        assert_eq!(decoded.is_from_server(), is_from_server);
        assert_eq!(decoded.words(), &words);
    }
}

#[test]
fn encode_of_decode_is_the_buffer() {
    let bytes: Vec<u8> = vec![
        7, 0, 0, 128, 30, 0, 0, 0, 3, 0, 0, 0, 2, 0, 0, 0, 79, 75, 0, 1, 0, 0, 0, 97, 0, 0, 0, 0, 0,
        0,
    ];
    assert_eq!(Frame::decode(&bytes).unwrap().encode(), bytes);
}

#[test]
fn decode_rejects_a_short_header() {
    assert_eq!(Frame::decode(&[]), Err(FramingError::HeaderTruncated));
    assert_eq!(Frame::decode(&[1, 0, 0, 0, 11, 0, 0, 0, 0, 0, 0]), Err(FramingError::HeaderTruncated));
}

#[test]
fn decode_rejects_a_wrong_total_size() {
    let mut bytes = server_info_bytes();
    bytes[4] = 28;
    assert_eq!(Frame::decode(&bytes), Err(FramingError::SizeMismatch));
    let mut longer = server_info_bytes();
    longer.push(0);
    assert_eq!(Frame::decode(&longer), Err(FramingError::SizeMismatch));
    let shorter: Vec<u8> = server_info_bytes()[..26].to_vec();
    assert_eq!(Frame::decode(&shorter), Err(FramingError::SizeMismatch));
}

#[test]
fn decode_rejects_a_wrong_word_count() {
    let mut more = server_info_bytes();
    more[8] = 2;
    assert_eq!(Frame::decode(&more), Err(FramingError::WordCountMismatch));
    let mut fewer = server_info_bytes();
    fewer[8] = 0;
    assert_eq!(Frame::decode(&fewer), Err(FramingError::WordCountMismatch));
}

#[test]
fn decode_rejects_a_wrong_word_length() {
    // The prefix says nine bytes: the terminator is then the letter `o`.
    let mut short_prefix = server_info_bytes();
    short_prefix[12] = 9;
    assert_eq!(Frame::decode(&short_prefix), Err(FramingError::WordLengthMismatch));
    // The prefix says eleven bytes: the word would run past the end.
    let mut long_prefix = server_info_bytes();
    long_prefix[12] = 11;
    assert_eq!(Frame::decode(&long_prefix), Err(FramingError::WordLengthMismatch));
    // The terminator is missing.
    let mut no_terminator = server_info_bytes();
    no_terminator[26] = 1;
    assert_eq!(Frame::decode(&no_terminator), Err(FramingError::WordLengthMismatch));
    // The word holds the terminator byte.
    let mut inner_terminator = server_info_bytes();
    inner_terminator[20] = 0;
    assert_eq!(Frame::decode(&inner_terminator), Err(FramingError::WordLengthMismatch));
    // Three bytes are no length prefix.
    let cut: Vec<u8> = vec![1, 0, 0, 0, 15, 0, 0, 0, 1, 0, 0, 0, 0, 0, 0];
    assert_eq!(Frame::decode(&cut), Err(FramingError::WordLengthMismatch));
}

#[test]
fn new_rejects_what_cannot_be_framed() {
    assert_eq!(
        Frame::new(0x4000_0000, false, false, vec![]),
        Err(FramingError::SequenceOutOfRange)
    );
    assert_eq!(
        Frame::new(u32::MAX, true, true, vec![vec![0]]),
        Err(FramingError::SequenceOutOfRange)
    );
    assert_eq!(
        Frame::new(1, false, false, vec![word("ok"), vec![97, 0, 98]]),
        Err(FramingError::WordHoldsTerminator)
    );
    assert!(Frame::new(0x3fff_ffff, false, false, vec![]).is_ok());
}

#[test]
fn declared_size_reads_the_second_field() {
    assert_eq!(Frame::declared_size(&server_info_bytes()), Ok(27));
    assert_eq!(Frame::declared_size(&server_info_bytes()[..12]), Ok(27));
    assert_eq!(Frame::declared_size(&[0, 0, 0, 0, 1, 2, 3, 4, 9, 9, 9, 9]), Ok(0x0403_0201));
    assert_eq!(Frame::declared_size(&[0, 0, 0, 0, 12, 0, 0, 0, 0, 0, 0, 0]), Ok(12));
    assert_eq!(
        Frame::declared_size(&[0, 0, 0, 0, 11, 0, 0, 0, 0, 0, 0, 0]),
        Err(FramingError::SizeMismatch)
    );
    assert_eq!(
        Frame::declared_size(&server_info_bytes()[..11]),
        Err(FramingError::HeaderTruncated)
    );
}

#[test]
fn sequence_numbers_count_up_from_zero() {
    let mut sequences = SequenceAllocator::new();
    assert_eq!(sequences.peek(), 0);
    assert_eq!(sequences.allocate(), 0);
    assert_eq!(sequences.allocate(), 1);
    assert_eq!(sequences.allocate(), 2);
    assert_eq!(sequences.peek(), 3);
}

#[test]
fn sequence_numbers_wrap_after_thirty_bits() {
    let mut sequences = SequenceAllocator::starting_at(0x3fff_fffe);
    assert_eq!(sequences.allocate(), 0x3fff_fffe);
    assert_eq!(sequences.allocate(), 0x3fff_ffff);
    assert_eq!(sequences.allocate(), 0);
    assert_eq!(sequences.allocate(), 1);
    let mut reduced = SequenceAllocator::starting_at(0x4000_0005);
    assert_eq!(reduced.allocate(), 5);
}
