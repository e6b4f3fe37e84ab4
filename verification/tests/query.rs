use battlefield_rcon::admins::{Admins, Config};
use battlefield_rcon::engine::{Engine, Submission};
use battlefield_rcon::error::RconError;
use battlefield_rcon::frame::FramingError;
use battlefield_rcon::query::{interpret_response, resolve, QueryError};
use battlefield_rcon::sequence::SequenceAllocator;
use battlefield_rcon::shell::{query_from_line, query_from_words, show_outcome, ErrorKind, Shown};
use battlefield_rcon::text::join;

fn word(text: &str) -> Vec<u8> {
    text.as_bytes().to_vec()
}

fn words(texts: &[&str]) -> Vec<Vec<u8>> {
    texts.iter().map(|t| word(t)).collect()
}

#[test]
fn first_word_of_a_response_signals_the_outcome() {
    let query = words(&["admin.kill", "Foo"]);
    assert_eq!(interpret_response(words(&["OK"]), query.clone()), Ok(words(&[])));
    assert_eq!(
        interpret_response(words(&["OK", "a", "b c"]), query.clone()),
        Ok(words(&["a", "b c"]))
    );
    assert_eq!(
        interpret_response(words(&["UnknownCommand"]), query.clone()),
        Err(RconError::UnknownCommand { our_query: query.clone() })
    );
    assert_eq!(
        interpret_response(words(&["InvalidArguments", "extra"]), query.clone()),
        Err(RconError::InvalidArguments { our_query: query.clone() })
    );
    assert_eq!(
        interpret_response(words(&["InvalidPlayerName"]), query.clone()),
        Err(RconError::Other(word("InvalidPlayerName")))
    );
    assert_eq!(
        interpret_response(words(&["ok"]), query.clone()),
        Err(RconError::Other(word("ok")))
    );
    assert_eq!(interpret_response(words(&[]), query), Err(RconError::ProtocolViolation(None)));
}

#[test]
fn resolve_applies_exactly_one_mapping() {
    let counted: Result<usize, QueryError<String>> = resolve(
        Ok(words(&["a", "b", "c"])),
        |payload: &Vec<Vec<u8>>| Ok(payload.len()),
        |_reason: &Vec<u8>| panic!("the error mapping must not run"),
    );
    assert!(matches!(counted, Ok(3)));

    let declined_by_success: Result<usize, QueryError<String>> = resolve(
        Ok(words(&[])),
        |_payload: &Vec<Vec<u8>>| Err(String::from("empty")),
        |_reason: &Vec<u8>| None,
    );
    assert!(matches!(declined_by_success, Err(QueryError::Custom(e)) if e == "empty"));

    let mapped: Result<usize, QueryError<String>> = resolve(
        Err(RconError::Other(word("InvalidPlayerName"))),
        |_payload: &Vec<Vec<u8>>| panic!("the success mapping must not run"),
        |reason: &Vec<u8>| Some(String::from_utf8(reason.clone()).unwrap()),
    );
    assert!(matches!(mapped, Err(QueryError::Custom(e)) if e == "InvalidPlayerName"));

    let not_applicable: Result<usize, QueryError<String>> = resolve(
        Err(RconError::Other(word("LogicError"))),
        |_payload: &Vec<Vec<u8>>| panic!("the success mapping must not run"),
        |_reason: &Vec<u8>| None,
    );
    assert!(
        matches!(not_applicable, Err(QueryError::Rcon(RconError::Other(m))) if m == word("LogicError"))
    );
}

#[test]
fn resolve_passes_other_errors_through() {
    let errors: Vec<RconError> = vec![
        RconError::ConnectionClosed,
        RconError::UnknownCommand { our_query: words(&["x"]) },
        RconError::InvalidArguments { our_query: words(&["y"]) },
        RconError::ProtocolViolation(None),
        RconError::NotAscii,
        RconError::Framing(FramingError::SizeMismatch),
    ];
    for error in errors {
        let kept: Result<(), QueryError<String>> = resolve(
            Err(error.clone()),
            |_payload: &Vec<Vec<u8>>| panic!("the success mapping must not run"),
            |_reason: &Vec<u8>| panic!("the error mapping must not run"),
        );
        assert!(matches!(kept, Err(QueryError::Rcon(e)) if e == error));
    }
}

#[test]
fn error_constructors_and_copies() {
    assert_eq!(RconError::other(word("x")), RconError::Other(word("x")));
    assert_eq!(RconError::protocol(), RconError::ProtocolViolation(None));
    assert_eq!(RconError::protocol_msg(word("m")), RconError::ProtocolViolation(Some(word("m"))));
    let error = RconError::UnknownCommand { our_query: words(&["a", "b"]) };
    assert_eq!(error.duplicate(), error);
}

#[test]
fn typed_line_splits_at_each_space() {
    assert_eq!(query_from_line("admin.say hello all"), Ok(words(&["admin.say", "hello", "all"])));
    assert_eq!(query_from_line("serverInfo"), Ok(words(&["serverInfo"])));
    assert_eq!(query_from_line(""), Ok(words(&[""])));
    assert_eq!(query_from_line("a  b "), Ok(words(&["a", "", "b", ""])));
    assert_eq!(query_from_line(" "), Ok(words(&["", ""])));
}

#[test]
fn typed_line_must_be_seven_bit() {
    assert_eq!(query_from_line("admin.say h\u{e9}llo all"), Err(RconError::NotAscii));
    assert_eq!(query_from_line("\u{80}"), Err(RconError::NotAscii));
    assert_eq!(query_from_line("\u{7f}"), Ok(vec![vec![127]]));
}

#[test]
fn given_words_are_taken_one_for_one() {
    let texts: Vec<String> = vec![String::from("admin.say"), String::from("hello all"), String::new()];
    assert_eq!(query_from_words(&texts), Ok(words(&["admin.say", "hello all", ""])));
    assert_eq!(query_from_words(&Vec::new()), Ok(words(&[])));
    let bad: Vec<String> = vec![String::from("ok"), String::from("na\u{ef}ve")];
    assert_eq!(query_from_words(&bad), Err(RconError::NotAscii));
}

#[test]
fn outcomes_are_shown_as_the_console_shows_them() {
    assert_eq!(
        show_outcome(&Ok(words(&["BF4", "179665"]))),
        Shown::Success { text: word(" BF4 179665") }
    );
    assert_eq!(show_outcome(&Ok(words(&[]))), Shown::Success { text: word("") });
    assert_eq!(show_outcome(&Ok(words(&[""]))), Shown::Success { text: word(" ") });
    assert_eq!(
        show_outcome(&Err(RconError::Other(word("LogicError")))),
        Shown::Message { text: word("LogicError") }
    );
    assert_eq!(
        show_outcome(&Err(RconError::ConnectionClosed)),
        Shown::Kind { label: ErrorKind::ConnectionClosed }
    );
    assert_eq!(
        show_outcome(&Err(RconError::InvalidArguments { our_query: words(&["x"]) })),
        Shown::Kind { label: ErrorKind::InvalidArguments }
    );
    assert_eq!(
        show_outcome(&Err(RconError::UnknownCommand { our_query: words(&["x"]) })),
        Shown::Kind { label: ErrorKind::UnknownCommand }
    );
}

#[test]
fn every_kind_of_error_is_shown() {
    assert_eq!(
        show_outcome(&Err(RconError::ProtocolViolation(None))),
        Shown::Kind { label: ErrorKind::ProtocolViolation }
    );
    assert_eq!(
        show_outcome(&Err(RconError::ProtocolViolation(Some(word("Unknown team Id 7"))))),
        Shown::Detail { label: ErrorKind::ProtocolViolation, text: word("Unknown team Id 7") }
    );
    assert_eq!(show_outcome(&Err(RconError::NotAscii)), Shown::Kind { label: ErrorKind::NotAscii });
    let framing: Vec<FramingError> = vec![
        FramingError::HeaderTruncated,
        FramingError::SizeMismatch,
        FramingError::WordCountMismatch,
        FramingError::WordLengthMismatch,
        FramingError::SequenceOutOfRange,
        FramingError::WordHoldsTerminator,
        FramingError::TooLarge,
    ];
    for e in framing {
        assert_eq!(
            show_outcome(&Err(RconError::Framing(e))),
            Shown::Kind { label: ErrorKind::Framing(e) }
        );
    }
}

#[test]
fn a_typed_line_with_a_terminator_byte_is_shown_as_a_framing_error() {
    let mut engine: Engine<u8> = Engine::new(SequenceAllocator::new());
    let typed = query_from_line("admin.say a\u{0}b all").unwrap();
    let outcome: Result<Vec<Vec<u8>>, RconError> = match engine.submit(typed, 1) {
        Submission::Refused { error, slot: _ } => Err(error),
        other => panic!("{:?}", other),
    };
    let shown = show_outcome(&outcome);
    assert_eq!(shown, Shown::Kind { label: ErrorKind::Framing(FramingError::WordHoldsTerminator) });
    match shown {
        Shown::Kind { label } => assert_eq!(label.label(), "Framing Error: word holds terminator"),
        other => panic!("{:?}", other),
    }
}

#[test]
fn a_response_without_words_is_shown_as_a_protocol_violation() {
    let outcome = interpret_response(words(&[]), words(&["version"]));
    assert_eq!(show_outcome(&outcome), Shown::Kind { label: ErrorKind::ProtocolViolation });
}

#[test]
fn kinds_of_error_have_their_labels() {
    assert_eq!(ErrorKind::ConnectionClosed.label(), "Connection Closed");
    assert_eq!(ErrorKind::InvalidArguments.label(), "Invalid Arguments");
    assert_eq!(ErrorKind::UnknownCommand.label(), "Unknown Command");
    assert_eq!(ErrorKind::ProtocolViolation.label(), "Protocol Violation");
    assert_eq!(ErrorKind::NotAscii.label(), "Not ASCII");
    assert_eq!(
        ErrorKind::Framing(FramingError::HeaderTruncated).label(),
        "Framing Error: header truncated"
    );
    assert_eq!(ErrorKind::Framing(FramingError::SizeMismatch).label(), "Framing Error: size mismatch");
    assert_eq!(
        ErrorKind::Framing(FramingError::WordCountMismatch).label(),
        "Framing Error: word count mismatch"
    );
    assert_eq!(
        ErrorKind::Framing(FramingError::WordLengthMismatch).label(),
        "Framing Error: word length mismatch"
    );
    assert_eq!(
        ErrorKind::Framing(FramingError::SequenceOutOfRange).label(),
        "Framing Error: sequence out of range"
    );
    assert_eq!(ErrorKind::Framing(FramingError::TooLarge).label(), "Framing Error: frame too large");
}

#[test]
fn join_puts_the_separator_between_words() {
    assert_eq!(join(&words(&["squad", "1", "3"]), 32), word("squad 1 3"));
    assert_eq!(join(&words(&["all"]), 32), word("all"));
    assert_eq!(join(&words(&[]), 32), word(""));
    assert_eq!(join(&words(&["", ""]), 44), word(","));
}

#[test]
fn admins_are_the_configured_names() {
    let config = Config::new(vec![
        String::from("Alice"),
        String::from("Bob"),
        String::from("Alice"),
        String::new(),
    ]);
    assert_eq!(config.len(), 3);
    let admins = Admins::new(config);
    assert!(admins.is_admin("Alice"));
    assert!(admins.is_admin("Bob"));
    assert!(admins.is_admin(""));
    assert!(!admins.is_admin("alice"));
    assert!(!admins.is_admin("Carol"));
    assert!(!admins.is_admin("Alice "));
    let config = Config::new(vec![String::from("Alice"), String::from("Bob")]);
    let copy = config.clone();
    assert_eq!(copy.len(), 2);
    let copied = Admins::new(copy);
    assert!(copied.is_admin("Alice") && copied.is_admin("Bob") && !copied.is_admin("Carol"));
    assert_eq!(config.len(), 2);
    let nobody = Admins::new(Config::new(Vec::new()));
    assert!(!nobody.is_admin("Alice"));
    assert!(!nobody.is_admin(""));
}
