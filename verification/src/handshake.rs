//! The login handshake, as the decisions between the frames.
//!
//! The client asks for a challenge with `login.hashed`, the server answers with a
//! salt, the client sends `login.hashed` with the hash of salt and password in upper
//! case hexadecimal, and the server accepts or refuses.

use crate::engine::ConnectionState;
use crate::error::{RconError, RconErrorView};
use crate::frame::{encoded_words, words_clean, Frame, FrameView, SEQUENCE_SPAN, TERMINATOR};
use crate::sequence::{next_sequence, SequenceAllocator};
use crate::wire::{
    ascii_text, copy_bytes, lemma_le32_value_of_le32, push_bytes, spells, text_bytes, words_view,
};
use vstd::prelude::*;

verus! {

/// The MD5 digest of `data`.
pub uninterp spec fn md5_digest(data: Seq<u8>) -> Seq<u8>;

/// `md5::compute`: the sixteen bytes of the digest.
#[verifier::external_body]
pub(crate) fn md5_of(data: &[u8]) -> (digest: Vec<u8>)
    ensures
        digest@ == md5_digest(data@),
        digest@.len() == 16,
{
    md5::compute(data).0.to_vec()
}

/// The upper case hexadecimal digit for a value below sixteen.
pub open spec fn hex_digit(value: int) -> u8 {
    if value < 10 {
        (48 + value) as u8
    } else {
        (55 + value) as u8
    }
}

/// Bytes in upper case hexadecimal: two digits for each byte, the high half first.
pub open spec fn hex_upper(bytes: Seq<u8>) -> Seq<u8> {
    Seq::new(
        2 * bytes.len(),
        |i: int|
            if i % 2 == 0 {
                hex_digit(bytes[i / 2] as int / 16)
            } else {
                hex_digit(bytes[i / 2] as int % 16)
            },
    )
}

/// The login token for a digest: the digest in upper case hexadecimal.
pub fn login_token(digest: &[u8]) -> (token: Vec<u8>)
    ensures
        token@ == hex_upper(digest@),
{
    let mut token: Vec<u8> = Vec::new();
    let mut i: usize = 0;
    while i < digest.len()
        invariant
            i <= digest@.len(),
            token@ == hex_upper(digest@.take(i as int)),
        decreases digest@.len() - i,
    {
        let high: u8 = digest[i] / 16;
        let low: u8 = digest[i] % 16;
        token.push(if high < 10 { 48 + high } else { 55 + high });
        token.push(if low < 10 { 48 + low } else { 55 + low });
        i = i + 1;
        assert(token@ =~= hex_upper(digest@.take(i as int)));
    }
    assert(digest@.take(i as int) =~= digest@);
    token
}

/// The login token for a salt and a password: the MD5 digest of the salt followed by
/// the password, in upper case hexadecimal.
pub fn hashed_password(salt: &[u8], password: &[u8]) -> (token: Vec<u8>)
    ensures
        token@ == hex_upper(md5_digest(salt@ + password@)),
        token@.len() == 32,
{
    let mut salted = copy_bytes(salt);
    push_bytes(&mut salted, password);
    let digest = md5_of(salted.as_slice());
    login_token(digest.as_slice())
}

/// Where the handshake stands.
#[derive(Debug, Clone, Copy, PartialEq, Eq, Structural)]
pub enum Stage {
    /// The challenge was asked for; the salt has not come.
    AwaitingSalt,
    /// The token was sent; the server has not said whether it accepts it.
    AwaitingVerdict,
}

/// A handshake in progress.
#[derive(Debug)]
pub struct Handshake {
    password: Vec<u8>,
    stage: Stage,
    awaiting: u32,
    sequences: SequenceAllocator,
}

/// A handshake in progress, as a mathematical value.
pub struct HandshakeView {
    pub password: Seq<u8>,
    pub stage: Stage,
    /// The sequence number of the frame whose response is awaited.
    pub awaiting: u32,
    /// The sequence number that the next frame will take.
    pub upcoming: u32,
}

/// What a response frame means for a handshake in progress.
#[derive(Debug)]
pub enum HandshakeStep {
    /// The handshake goes on: this frame is to be sent.
    Send { handshake: Handshake, frame: Frame },
    /// The server accepted the login. Queries go on with these sequence numbers.
    Authenticated { sequences: SequenceAllocator },
    /// The handshake failed; the connection is to be closed.
    Failed { error: RconError },
}

/// What a response frame means for a handshake in progress, as a mathematical value.
pub enum HandshakeStepView {
    Send { handshake: HandshakeView, frame: FrameView },
    Authenticated { upcoming: u32 },
    Failed { error: RconErrorView },
}

/// The frame that asks for the login challenge.
pub open spec fn challenge_frame(sequence: u32) -> FrameView {
    FrameView {
        sequence,
        is_response: false,
        is_from_server: false,
        words: seq![ascii_text("login.hashed"@)],
    }
}

/// The frame that answers the login challenge.
pub open spec fn login_frame(sequence: u32, salt: Seq<u8>, password: Seq<u8>) -> FrameView {
    FrameView {
        sequence,
        is_response: false,
        is_from_server: false,
        words: seq![ascii_text("login.hashed"@), hex_upper(md5_digest(salt + password))],
    }
}

/// The next step of a handshake on a frame from the server.
///
/// The frame must be the response to the frame that was sent last. To the request
/// for a challenge the server answers `OK` and the salt; to the login it answers
/// `OK`. A status word other than `OK` is the server's refusal, and anything else is
/// malformed.
pub open spec fn handshake_step(handshake: HandshakeView, frame: FrameView) -> HandshakeStepView {
    if !frame.is_response || frame.is_from_server || frame.sequence != handshake.awaiting
        || frame.words.len() == 0 {
        HandshakeStepView::Failed { error: RconErrorView::ProtocolViolation(None) }
    } else if frame.words[0] != ascii_text("OK"@) {
        HandshakeStepView::Failed { error: RconErrorView::Other(frame.words[0]) }
    } else {
        match handshake.stage {
            Stage::AwaitingSalt => if frame.words.len() != 2 {
                HandshakeStepView::Failed { error: RconErrorView::ProtocolViolation(None) }
            } else {
                HandshakeStepView::Send {
                    handshake: HandshakeView {
                        password: handshake.password,
                        stage: Stage::AwaitingVerdict,
                        awaiting: handshake.upcoming,
                        upcoming: next_sequence(handshake.upcoming),
                    },
                    frame: login_frame(handshake.upcoming, frame.words[1], handshake.password),
                }
            },
            Stage::AwaitingVerdict => HandshakeStepView::Authenticated {
                upcoming: handshake.upcoming,
            },
        }
    }
}

impl View for Handshake {
    type V = HandshakeView;

    closed spec fn view(&self) -> HandshakeView {
        HandshakeView {
            password: self.password@,
            stage: self.stage,
            awaiting: self.awaiting,
            upcoming: self.sequences.upcoming(),
        }
    }
}

impl View for HandshakeStep {
    type V = HandshakeStepView;

    open spec fn view(&self) -> HandshakeStepView {
        match *self {
            HandshakeStep::Send { handshake, frame } => HandshakeStepView::Send {
                handshake: handshake@,
                frame: frame@,
            },
            HandshakeStep::Authenticated { sequences } => HandshakeStepView::Authenticated {
                upcoming: sequences.upcoming(),
            },
            HandshakeStep::Failed { error } => HandshakeStepView::Failed { error: error@ },
        }
    }
}

/// A hexadecimal text holds no terminator byte.
proof fn lemma_hex_upper_clean(bytes: Seq<u8>)
    ensures
        hex_upper(bytes).len() == 2 * bytes.len(),
        !hex_upper(bytes).contains(TERMINATOR),
{
    let text = hex_upper(bytes);
    assert forall|i: int| 0 <= i < text.len() implies #[trigger] text[i] >= 48 by {}
}

/// A frame of the handshake: `login.hashed`, and the token if there is one.
fn build_login_frame(sequence: u32, token: Option<Vec<u8>>) -> (frame: Frame)
    requires
        sequence < SEQUENCE_SPAN,
        token matches Some(t) ==> t@.len() <= 1024 && !t@.contains(TERMINATOR),
    ensures
        frame@.sequence == sequence,
        !frame@.is_response,
        !frame@.is_from_server,
        frame@.words == match token {
            Some(t) => seq![ascii_text("login.hashed"@), t@],
            None => seq![ascii_text("login.hashed"@)],
        },
{
    proof {
        reveal_strlit("login.hashed");
    }
    let mut words: Vec<Vec<u8>> = Vec::new();
    words.push(text_bytes("login.hashed"));
    match token {
        Some(t) => {
            words.push(t);
        },
        None => {},
    }
    proof {
        let all = words_view(words@);
        assert(all =~= match token {
            Some(t) => seq![ascii_text("login.hashed"@), t@],
            None => seq![ascii_text("login.hashed"@)],
        });
        assert(words_clean(all)) by {
            assert forall|i: int| 0 <= i < all.len() implies !(#[trigger] all[i]).contains(
                TERMINATOR,
            ) by {
                if i == 0 {
                    let w = all[0];
                    assert forall|j: int| 0 <= j < w.len() implies w[j] != TERMINATOR by {}
                }
            }
        }
        reveal_with_fuel(encoded_words, 3);
        lemma_le32_value_of_le32(all[0].len() as u32);
        if all.len() > 1 {
            lemma_le32_value_of_le32(all[1].len() as u32);
            assert(all.skip(1)[0] == all[1]);
        }
        assert(encoded_words(all).len() <= 2048);
    }
    match Frame::new(sequence, false, false, words) {
        Ok(frame) => frame,
        Err(_) => unreached(),
    }
}

impl Handshake {
    /// Starts a handshake: the frame that asks for the challenge is to be sent.
    pub fn begin(password: Vec<u8>) -> (r: (Handshake, Frame))
        ensures
            r.0@ == (HandshakeView {
                password: password@,
                stage: Stage::AwaitingSalt,
                awaiting: 0,
                upcoming: 1,
            }),
            r.1@ == challenge_frame(0),
    {
        let mut sequences = SequenceAllocator::new();
        let sequence = sequences.allocate();
        let frame = build_login_frame(sequence, None);
        (Handshake { password, stage: Stage::AwaitingSalt, awaiting: sequence, sequences }, frame)
    }

    /// Where the connection stands while the handshake is under way.
    pub fn state(&self) -> (state: ConnectionState)
        ensures
            state == ConnectionState::Connecting,
    {
        ConnectionState::Connecting
    }

    /// The next step on a frame from the server.
    pub fn advance(self, frame: &Frame) -> (step: HandshakeStep)
        ensures
            step@ == handshake_step(self@, frame@),
    {
        proof {
            reveal_strlit("OK");
        }
        let words = frame.words();
        if !frame.is_response() || frame.is_from_server() || frame.sequence() != self.awaiting
            || words.len() == 0 {
            return HandshakeStep::Failed { error: RconError::protocol() };
        }
        if !spells(words[0].as_slice(), "OK") {
            return HandshakeStep::Failed {
                error: RconError::other(copy_bytes(words[0].as_slice())),
            };
        }
        match self.stage {
            Stage::AwaitingSalt => {
                if words.len() != 2 {
                    return HandshakeStep::Failed { error: RconError::protocol() };
                }
                let token = hashed_password(words[1].as_slice(), self.password.as_slice());
                proof {
                    lemma_hex_upper_clean(md5_digest(words[1]@ + self.password@));
                }
                let mut sequences = self.sequences;
                let sequence = sequences.allocate();
                let frame = build_login_frame(sequence, Some(token));
                HandshakeStep::Send {
                    handshake: Handshake {
                        password: self.password,
                        stage: Stage::AwaitingVerdict,
                        awaiting: sequence,
                        sequences,
                    },
                    frame,
                }
            },
            Stage::AwaitingVerdict => HandshakeStep::Authenticated { sequences: self.sequences },
        }
    }
}

} // verus!
