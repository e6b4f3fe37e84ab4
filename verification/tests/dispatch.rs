use ascii::AsciiString;
use battlefield_rcon::bf4::event::{duplicate_notice, Event};
use battlefield_rcon::bf4::visibility::{Squad, Team, Visibility};
use battlefield_rcon::dispatch::{Delivery, Dispatcher};
use battlefield_rcon::error::RconError;

fn word(text: &str) -> Vec<u8> {
    text.as_bytes().to_vec()
}

fn words(texts: &[&str]) -> Vec<Vec<u8>> {
    texts.iter().map(|t| word(t)).collect()
}

fn round_over(team: Team) -> Result<Event, RconError> {
    Ok(Event::RoundOver { winning_team: team })
}

fn taken(delivery: Delivery) -> Result<Event, RconError> {
    match delivery {
        Delivery::Notice(notice) => notice,
        other => panic!("{:?}", other),
    }
}

#[test]
fn every_subscriber_gets_its_own_copy_in_arrival_order() {
    let mut dispatcher = Dispatcher::new();
    let a = dispatcher.subscribe(8).unwrap();
    let b = dispatcher.subscribe(8).unwrap();
    assert_eq!((a, b), (0, 1));
    assert_eq!(dispatcher.subscriber_count(), 2);
    dispatcher.publish(&round_over(Team::One));
    dispatcher.publish(&Err(RconError::ProtocolViolation(None)));
    dispatcher.publish(&round_over(Team::Two));
    for id in [a, b] {
        assert_eq!(taken(dispatcher.poll(id)), round_over(Team::One));
        assert_eq!(taken(dispatcher.poll(id)), Err(RconError::ProtocolViolation(None)));
        assert_eq!(taken(dispatcher.poll(id)), round_over(Team::Two));
        assert!(matches!(dispatcher.poll(id), Delivery::Empty));
    }
}

#[test]
fn slow_subscriber_loses_its_oldest_notice_and_holds_back_no_one() {
    let mut dispatcher = Dispatcher::new();
    let slow = dispatcher.subscribe(2).unwrap();
    let fast = dispatcher.subscribe(8).unwrap();
    dispatcher.publish(&round_over(Team::Neutral));
    dispatcher.publish(&round_over(Team::One));
    dispatcher.publish(&round_over(Team::Two));
    assert_eq!(taken(dispatcher.poll(slow)), round_over(Team::One));
    assert_eq!(taken(dispatcher.poll(slow)), round_over(Team::Two));
    assert!(matches!(dispatcher.poll(slow), Delivery::Empty));
    assert_eq!(taken(dispatcher.poll(fast)), round_over(Team::Neutral));
    assert_eq!(taken(dispatcher.poll(fast)), round_over(Team::One));
    assert_eq!(taken(dispatcher.poll(fast)), round_over(Team::Two));
}

#[test]
fn queue_of_one_holds_the_newest_notice() {
    let mut dispatcher = Dispatcher::new();
    let id = dispatcher.subscribe(1).unwrap();
    dispatcher.publish(&round_over(Team::One));
    dispatcher.publish(&round_over(Team::Two));
    assert_eq!(taken(dispatcher.poll(id)), round_over(Team::Two));
    assert!(matches!(dispatcher.poll(id), Delivery::Empty));
}

#[test]
fn queue_without_room_stays_empty() {
    let mut dispatcher = Dispatcher::new();
    let id = dispatcher.subscribe(0).unwrap();
    dispatcher.publish(&round_over(Team::One));
    assert!(matches!(dispatcher.poll(id), Delivery::Empty));
}

#[test]
fn late_subscriber_sees_only_later_notices() {
    let mut dispatcher = Dispatcher::new();
    dispatcher.publish(&round_over(Team::One));
    let id = dispatcher.subscribe(4).unwrap();
    assert!(matches!(dispatcher.poll(id), Delivery::Empty));
    dispatcher.publish(&round_over(Team::Two));
    assert_eq!(taken(dispatcher.poll(id)), round_over(Team::Two));
}

#[test]
fn unsubscribed_stream_is_closed() {
    let mut dispatcher = Dispatcher::new();
    let a = dispatcher.subscribe(4).unwrap();
    let b = dispatcher.subscribe(4).unwrap();
    dispatcher.publish(&round_over(Team::One));
    assert!(dispatcher.unsubscribe(a));
    assert!(!dispatcher.unsubscribe(a));
    assert!(!dispatcher.unsubscribe(17));
    assert!(matches!(dispatcher.poll(a), Delivery::Closed));
    assert!(matches!(dispatcher.poll(17), Delivery::Closed));
    assert_eq!(dispatcher.subscriber_count(), 1);
    assert_eq!(taken(dispatcher.poll(b)), round_over(Team::One));
    // Identifiers are not handed out again.
    assert_eq!(dispatcher.subscribe(1), Some(2));
    dispatcher.close();
    assert_eq!(dispatcher.subscriber_count(), 0);
    assert!(matches!(dispatcher.poll(b), Delivery::Closed));
}

#[test]
fn events_are_decoded_from_their_words() {
    assert_eq!(
        Event::from_words(&words(&["player.onKill", "Alice", "Bob", "U_M416", "true"])),
        Ok(Event::Kill {
            killer: word("Alice"),
            victim: word("Bob"),
            weapon: word("U_M416"),
            headshot: true
        })
    );
    assert_eq!(
        Event::from_words(&words(&["player.onKill", "Alice", "Bob", "Death", "false"])),
        Ok(Event::Kill {
            killer: word("Alice"),
            victim: word("Bob"),
            weapon: word("Death"),
            headshot: false
        })
    );
    assert_eq!(
        Event::from_words(&words(&["player.onChat", "Alice", "hello there", "squad", "1", "3"])),
        Ok(Event::Chat {
            player: word("Alice"),
            message: word("hello there"),
            visibility: Visibility::Squad(Team::One, Squad::Charlie)
        })
    );
    assert_eq!(
        Event::from_words(&words(&["player.onChat", "Server", "gg", "player", "Bob"])),
        Ok(Event::Chat {
            player: word("Server"),
            message: word("gg"),
            visibility: Visibility::Player(AsciiString::from_ascii("Bob").unwrap())
        })
    );
    assert_eq!(
        Event::from_words(&words(&["player.onSpawn", "Alice", "2"])),
        Ok(Event::Spawn { player: word("Alice"), team: Team::Two })
    );
    assert_eq!(
        Event::from_words(&words(&["player.onTeamChange", "Alice", "1", "0"])),
        Ok(Event::TeamChange { player: word("Alice"), team: Team::One, squad: Squad::NoSquad })
    );
    assert_eq!(
        Event::from_words(&words(&["player.onSquadChange", "Alice", "1", "12"])),
        Ok(Event::SquadChange { player: word("Alice"), team: Team::One, squad: Squad::Lima })
    );
    assert_eq!(
        Event::from_words(&words(&["server.onRoundOver", "2"])),
        Ok(Event::RoundOver { winning_team: Team::Two })
    );
}

#[test]
fn unknown_event_kinds_keep_their_words() {
    assert_eq!(
        Event::from_words(&words(&["punkBuster.onMessage", "PunkBuster Server: hello"])),
        Ok(Event::Unknown { words: words(&["punkBuster.onMessage", "PunkBuster Server: hello"]) })
    );
    assert_eq!(
        Event::from_words(&words(&["player.onkill", "A", "B", "C", "true"])),
        Ok(Event::Unknown { words: words(&["player.onkill", "A", "B", "C", "true"]) })
    );
    assert_eq!(Event::from_words(&words(&[""])), Ok(Event::Unknown { words: words(&[""]) }));
}

#[test]
fn known_event_kinds_with_wrong_arguments_are_protocol_errors() {
    let shapes: Vec<Vec<Vec<u8>>> = vec![
        words(&[]),
        words(&["player.onKill"]),
        words(&["player.onKill", "A", "B", "C"]),
        words(&["player.onKill", "A", "B", "C", "true", "x"]),
        words(&["player.onKill", "A", "B", "C", "yes"]),
        words(&["player.onKill", "A", "B", "C", "True"]),
        words(&["player.onChat", "A", "hi"]),
        words(&["player.onChat", "A", "hi", "squad", "1"]),
        words(&["player.onChat", "A", "hi", "everyone"]),
        words(&["player.onSpawn", "A"]),
        words(&["player.onTeamChange", "A", "1"]),
        words(&["player.onSquadChange", "A", "1", "2", "3"]),
        words(&["server.onRoundOver"]),
        words(&["server.onRoundOver", "1", "2"]),
    ];
    for shape in shapes {
        assert_eq!(Event::from_words(&shape), Err(RconError::ProtocolViolation(None)), "{:?}", shape);
    }
    assert_eq!(
        Event::from_words(&words(&["server.onRoundOver", "5"])),
        Err(RconError::ProtocolViolation(Some(word("Unknown team Id 5"))))
    );
    assert_eq!(
        Event::from_words(&words(&["player.onSquadChange", "A", "1", "40"])),
        Err(RconError::ProtocolViolation(Some(word("Unknown squad Id 40"))))
    );
    assert_eq!(
        Event::from_words(&words(&["player.onTeamChange", "A", "x", "40"])),
        Err(RconError::ProtocolViolation(Some(word("Unknown team Id x"))))
    );
    assert_eq!(
        Event::from_words(&words(&["player.onChat", "A", "hi", "team", "3"])),
        Err(RconError::ProtocolViolation(Some(word("Unknown team Id 3"))))
    );
}

#[test]
fn duplicates_are_equal() {
    let notices: Vec<Result<Event, RconError>> = vec![
        Event::from_words(&words(&["player.onKill", "Alice", "Bob", "U_M416", "true"])),
        Event::from_words(&words(&["player.onChat", "Alice", "hi", "player", "Bob"])),
        Event::from_words(&words(&["player.onSpawn", "Alice", "2"])),
        Event::from_words(&words(&["player.onTeamChange", "Alice", "1", "0"])),
        Event::from_words(&words(&["player.onSquadChange", "Alice", "1", "12"])),
        Event::from_words(&words(&["server.onRoundOver", "2"])),
        Event::from_words(&words(&["something.else", "x", "y"])),
        Err(RconError::ConnectionClosed),
        Err(RconError::NotAscii),
        Err(RconError::UnknownCommand { our_query: words(&["a", "b"]) }),
        Err(RconError::InvalidArguments { our_query: words(&["c"]) }),
        Err(RconError::ProtocolViolation(Some(word("m")))),
        Err(RconError::Other(word("LogicError"))),
    ];
    for notice in notices {
        assert_eq!(duplicate_notice(&notice), notice);
    }
}
