use battlefield_rcon::bf4::event::Event;
use battlefield_rcon::dispatch::Delivery;
use battlefield_rcon::engine::{Completion, ConnectionState, Engine, ReaderAction, Submission};
use battlefield_rcon::error::RconError;
use battlefield_rcon::frame::{Frame, FramingError};
use battlefield_rcon::sequence::SequenceAllocator;

fn word(text: &str) -> Vec<u8> {
    text.as_bytes().to_vec()
}

fn words(texts: &[&str]) -> Vec<Vec<u8>> {
    texts.iter().map(|t| word(t)).collect()
}

fn engine() -> Engine<&'static str> {
    Engine::new(SequenceAllocator::new())
}

fn sent(submission: Submission<&'static str>) -> Frame {
    match submission {
        Submission::Sent { frame, displaced } => {
            assert_eq!(displaced, None);
            frame
        }
        other => panic!("{:?}", other),
    }
}

fn completed(action: ReaderAction<&'static str>) -> Completion<&'static str> {
    match action {
        ReaderAction::Complete(completion) => completion,
        other => panic!("{:?}", other),
    }
}

fn response(sequence: u32, texts: &[&str]) -> Frame {
    Frame::new(sequence, true, false, words(texts)).unwrap()
}

fn notification(sequence: u32, texts: &[&str]) -> Frame {
    Frame::new(sequence, false, true, words(texts)).unwrap()
}

#[test]
fn submit_numbers_the_queries_and_gives_their_frames() {
    let mut engine = engine();
    assert_eq!(engine.state(), ConnectionState::Authenticated);
    let first = sent(engine.submit(words(&["serverInfo"]), "a"));
    let second = sent(engine.submit(words(&["admin.say", "hello", "all"]), "b"));
    assert_eq!(first.sequence(), 0);
    assert_eq!(second.sequence(), 1);
    assert!(!first.is_response() && !first.is_from_server());
    assert_eq!(first.words(), &words(&["serverInfo"]));
    assert_eq!(second.words(), &words(&["admin.say", "hello", "all"]));
    assert_eq!(engine.pending_count(), 2);
}

#[test]
fn each_query_receives_the_response_with_its_sequence_number() {
    let mut engine = engine();
    let _ = sent(engine.submit(words(&["version"]), "first"));
    let _ = sent(engine.submit(words(&["serverInfo"]), "second"));
    let _ = sent(engine.submit(words(&["listPlayers", "all"]), "third"));
    // The responses arrive in another order than the queries were sent.
    let c = completed(engine.on_frame(response(2, &["OK", "players"])));
    assert_eq!(c.slot, "third");
    assert_eq!(c.outcome, Ok(words(&["players"])));
    let c = completed(engine.on_frame(response(0, &["OK", "BF4", "179665"])));
    assert_eq!(c.slot, "first");
    assert_eq!(c.outcome, Ok(words(&["BF4", "179665"])));
    let c = completed(engine.on_frame(response(1, &["OK"])));
    assert_eq!(c.slot, "second");
    assert_eq!(c.outcome, Ok(words(&[])));
    assert_eq!(engine.pending_count(), 0);
}

#[test]
fn error_responses_carry_the_query() {
    let mut engine = engine();
    let _ = sent(engine.submit(words(&["bogus"]), "a"));
    let _ = sent(engine.submit(words(&["admin.kill"]), "b"));
    let _ = sent(engine.submit(words(&["admin.kill", "Nobody"]), "c"));
    let c = completed(engine.on_frame(response(0, &["UnknownCommand"])));
    assert_eq!(c.outcome, Err(RconError::UnknownCommand { our_query: words(&["bogus"]) }));
    let c = completed(engine.on_frame(response(1, &["InvalidArguments"])));
    assert_eq!(c.outcome, Err(RconError::InvalidArguments { our_query: words(&["admin.kill"]) }));
    let c = completed(engine.on_frame(response(2, &["InvalidPlayerName", "x"])));
    assert_eq!(c.outcome, Err(RconError::Other(word("InvalidPlayerName"))));
}

#[test]
fn stray_response_is_discarded() {
    let mut engine = engine();
    let _ = sent(engine.submit(words(&["version"]), "first"));
    assert!(matches!(engine.on_frame(response(7, &["OK"])), ReaderAction::Discard));
    assert_eq!(engine.pending_count(), 1);
    let c = completed(engine.on_frame(response(0, &["OK"])));
    assert_eq!(c.slot, "first");
    // The same response once more finds nothing.
    assert!(matches!(engine.on_frame(response(0, &["OK"])), ReaderAction::Discard));
    assert_eq!(engine.pending_count(), 0);
}

#[test]
fn cancelled_query_turns_its_response_into_a_stray() {
    let mut engine = engine();
    let _ = sent(engine.submit(words(&["version"]), "first"));
    let _ = sent(engine.submit(words(&["serverInfo"]), "second"));
    assert_eq!(engine.cancel(0), Some("first"));
    assert_eq!(engine.cancel(0), None);
    assert!(matches!(engine.on_frame(response(0, &["OK"])), ReaderAction::Discard));
    let c = completed(engine.on_frame(response(1, &["OK"])));
    assert_eq!(c.slot, "second");
}

#[test]
fn notification_is_acknowledged_under_its_sequence_number() {
    let mut engine = engine();
    let _ = sent(engine.submit(words(&["version"]), "first"));
    match engine.on_frame(notification(41, &["player.onKill", "A", "B", "M416", "true"])) {
        ReaderAction::Acknowledge { ack } => {
            assert_eq!(ack.sequence(), 41);
            assert!(ack.is_response());
            assert!(ack.is_from_server());
            assert_eq!(ack.words(), &words(&["OK"]));
            assert_eq!(
                ack.encode(),
                vec![41, 0, 0, 192, 19, 0, 0, 0, 1, 0, 0, 0, 2, 0, 0, 0, 79, 75, 0]
            );
        }
        other => panic!("{:?}", other),
    }
    // A notification with the sequence number of a pending query leaves the query pending.
    assert!(matches!(
        engine.on_frame(notification(0, &["server.onRoundOver", "1"])),
        ReaderAction::Acknowledge { ack: _ }
    ));
    assert_eq!(engine.pending_count(), 1);
}

#[test]
fn unknown_and_malformed_notifications_are_acknowledged_too() {
    let mut engine = engine();
    let id = engine.subscribe(4).unwrap();
    assert!(matches!(
        engine.on_frame(notification(1, &["punkBuster.onMessage", "hello"])),
        ReaderAction::Acknowledge { ack: _ }
    ));
    assert!(matches!(
        engine.on_frame(notification(2, &["player.onKill", "A"])),
        ReaderAction::Acknowledge { ack: _ }
    ));
    assert!(matches!(engine.on_frame(notification(3, &[])), ReaderAction::Acknowledge { ack: _ }));
    match engine.poll(id) {
        Delivery::Notice(Ok(Event::Unknown { words: w })) => {
            assert_eq!(w, words(&["punkBuster.onMessage", "hello"]))
        }
        other => panic!("{:?}", other),
    }
    assert!(matches!(engine.poll(id), Delivery::Notice(Err(RconError::ProtocolViolation(None)))));
    assert!(matches!(engine.poll(id), Delivery::Notice(Err(RconError::ProtocolViolation(None)))));
    assert!(matches!(engine.poll(id), Delivery::Empty));
}

#[test]
fn request_frames_from_the_client_side_are_discarded() {
    let mut engine = engine();
    let id = engine.subscribe(4).unwrap();
    let frame = Frame::new(3, false, false, words(&["player.onKill", "A", "B", "C", "true"])).unwrap();
    assert!(matches!(engine.on_frame(frame), ReaderAction::Discard));
    assert!(matches!(engine.poll(id), Delivery::Empty));
}

#[test]
fn closing_fails_every_pending_request_once() {
    let mut engine = engine();
    let _ = sent(engine.submit(words(&["a"]), "first"));
    let _ = sent(engine.submit(words(&["b"]), "second"));
    let _ = sent(engine.submit(words(&["c"]), "third"));
    let _ = completed(engine.on_frame(response(1, &["OK"])));
    let id = engine.subscribe(2).unwrap();
    let completions = engine.close();
    let slots: Vec<&str> = completions.iter().map(|c| c.slot).collect();
    assert_eq!(slots, vec!["first", "third"]);
    for completion in &completions {
        assert_eq!(completion.outcome, Err(RconError::ConnectionClosed));
    }
    assert_eq!(engine.state(), ConnectionState::Closed);
    assert_eq!(engine.pending_count(), 0);
    // Nothing is left to complete.
    assert!(engine.close().is_empty());
    assert!(matches!(engine.on_frame(response(0, &["OK"])), ReaderAction::Discard));
    assert!(matches!(
        engine.on_frame(notification(5, &["server.onRoundOver", "1"])),
        ReaderAction::Discard
    ));
    assert!(matches!(engine.poll(id), Delivery::Closed));
    assert_eq!(engine.subscribe(2), None);
}

#[test]
fn closing_with_nothing_pending_completes_nothing() {
    let mut engine = engine();
    assert!(engine.close().is_empty());
    assert_eq!(engine.state(), ConnectionState::Closed);
}

#[test]
fn closed_engine_refuses_queries() {
    let mut engine = engine();
    let _ = engine.close();
    match engine.submit(words(&["version"]), "late") {
        Submission::Refused { error, slot } => {
            assert_eq!(error, RconError::ConnectionClosed);
            assert_eq!(slot, "late");
        }
        other => panic!("{:?}", other),
    }
    assert_eq!(engine.pending_count(), 0);
}

#[test]
fn query_with_a_terminator_byte_is_refused_and_takes_no_number() {
    let mut engine = engine();
    match engine.submit(vec![word("say"), vec![104, 0, 105]], "bad") {
        Submission::Refused { error, slot } => {
            assert_eq!(error, RconError::Framing(FramingError::WordHoldsTerminator));
            assert_eq!(slot, "bad");
        }
        other => panic!("{:?}", other),
    }
    assert_eq!(engine.pending_count(), 0);
    assert_eq!(sent(engine.submit(words(&["version"]), "good")).sequence(), 0);
}
