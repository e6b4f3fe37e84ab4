use ascii::{AsciiStr, AsciiString};
use battlefield_rcon::bf4::visibility::{Squad, Team, Visibility};
use battlefield_rcon::error::RconError;

fn text(s: &str) -> &AsciiStr {
    AsciiStr::from_ascii(s).unwrap()
}

fn word(s: &str) -> Vec<u8> {
    s.as_bytes().to_vec()
}

fn protocol_message(s: &str) -> RconError {
    RconError::ProtocolViolation(Some(word(s)))
}

#[test]
fn team_codes_are_small_numbers() {
    assert_eq!(Team::Neutral.to_rcon_format().as_str(), "0");
    assert_eq!(Team::One.to_rcon_format().as_str(), "1");
    assert_eq!(Team::Two.to_rcon_format().as_str(), "2");
    assert_eq!(Team::Two.to_word(), word("2"));
    assert_eq!(Team::Two.number(), 2);
}

#[test]
fn team_codes_are_read_back() {
    assert_eq!(Team::from_rcon_format(text("0")), Ok(Team::Neutral));
    assert_eq!(Team::from_rcon_format(text("1")), Ok(Team::One));
    assert_eq!(Team::from_rcon_format(text("2")), Ok(Team::Two));
    assert_eq!(Team::from_word(b"1"), Ok(Team::One));
    assert_eq!(Team::from_number(2), Some(Team::Two));
    assert_eq!(Team::from_number(3), None);
}

#[test]
fn unknown_team_code_names_the_text() {
    assert_eq!(Team::from_rcon_format(text("3")), Err(protocol_message("Unknown team Id 3")));
    assert_eq!(Team::from_rcon_format(text("")), Err(protocol_message("Unknown team Id ")));
    assert_eq!(Team::from_rcon_format(text("01")), Err(protocol_message("Unknown team Id 01")));
    assert_eq!(Team::from_rcon_format(text("one")), Err(protocol_message("Unknown team Id one")));
    assert_eq!(Team::from_word(b" 1"), Err(protocol_message("Unknown team Id  1")));
}

#[test]
fn squad_codes_are_small_numbers() {
    let squads: Vec<Squad> = vec![
        Squad::NoSquad,
        Squad::Alpha,
        Squad::Bravo,
        Squad::Charlie,
        Squad::Delta,
        Squad::Echo,
        Squad::Foxtrot,
        Squad::Golf,
        Squad::Hotel,
        Squad::India,
        Squad::Juliet,
        Squad::Kilo,
        Squad::Lima,
    ];
    for (code, squad) in squads.iter().enumerate() {
        let expected = format!("{}", code);
        assert_eq!(squad.to_rcon_format().as_str(), expected);
        assert_eq!(Squad::from_rcon_format(text(&expected)), Ok(*squad));
        assert_eq!(squad.to_word(), word(&expected));
        assert_eq!(Squad::from_word(expected.as_bytes()), Ok(*squad));
    }
    assert_eq!(Squad::Bravo.to_rcon_format().as_str(), "2");
    assert_eq!(Squad::Lima.to_rcon_format().as_str(), "12");
    assert_eq!(Squad::NoSquad.to_rcon_format().as_str(), "0");
}

#[test]
fn unknown_squad_code_names_the_text() {
    assert_eq!(Squad::from_rcon_format(text("13")), Err(protocol_message("Unknown squad Id 13")));
    assert_eq!(Squad::from_rcon_format(text("99")), Err(protocol_message("Unknown squad Id 99")));
    assert_eq!(Squad::from_rcon_format(text("003")), Err(protocol_message("Unknown squad Id 003")));
    assert_eq!(Squad::from_rcon_format(text("-1")), Err(protocol_message("Unknown squad Id -1")));
    assert_eq!(Squad::from_rcon_format(text("")), Err(protocol_message("Unknown squad Id ")));
}

#[test]
fn squads_are_ordered_by_code() {
    assert!(Squad::NoSquad < Squad::Alpha);
    assert!(Squad::India < Squad::Juliet);
    assert!(Squad::Kilo < Squad::Lima);
}

#[test]
fn squad_selector_round_trip() {
    let selector = Visibility::from_rcon_format(text("squad 1 3")).unwrap();
    assert_eq!(selector, Visibility::Squad(Team::One, Squad::Charlie));
    assert_eq!(selector.to_rcon_format().as_str(), "squad 1 3");
}

#[test]
fn player_selector_names_the_player() {
    let selector = Visibility::from_rcon_format(text("player Foo")).unwrap();
    assert_eq!(selector, Visibility::Player(AsciiString::from_ascii("Foo").unwrap()));
    assert_eq!(selector.to_rcon_format().as_str(), "player Foo");
    assert_eq!(selector.to_words(), vec![word("player"), word("Foo")]);
}

#[test]
fn bogus_keyword_fails_to_decode() {
    assert_eq!(Visibility::from_rcon_format(text("bogus 1")), Err(RconError::ProtocolViolation(None)));
    assert_eq!(Visibility::from_rcon_format(text("")), Err(RconError::ProtocolViolation(None)));
    assert_eq!(Visibility::from_rcon_format(text("ALL")), Err(RconError::ProtocolViolation(None)));
    assert_eq!(Visibility::from_rcon_format(text(" all")), Err(RconError::ProtocolViolation(None)));
}

#[test]
fn all_and_team_selectors() {
    assert_eq!(Visibility::from_rcon_format(text("all")), Ok(Visibility::All));
    assert_eq!(Visibility::All.to_rcon_format().as_str(), "all");
    assert_eq!(Visibility::from_rcon_format(text("team 2")), Ok(Visibility::Team(Team::Two)));
    assert_eq!(Visibility::Team(Team::Neutral).to_rcon_format().as_str(), "team 0");
    assert_eq!(
        Visibility::Squad(Team::Two, Squad::Lima).to_rcon_format().as_str(),
        "squad 2 12"
    );
    assert_eq!(
        Visibility::from_rcon_format(text("squad 2 12")),
        Ok(Visibility::Squad(Team::Two, Squad::Lima))
    );
}

#[test]
fn wrong_argument_count_is_a_protocol_error() {
    let shapes: Vec<&str> = vec![
        "squad 1",
        "squad",
        "squad 1 3 4",
        "squad 1 3 ",
        "all 1",
        "all ",
        "team",
        "team 1 2",
        "player",
        "player Foo Bar",
    ];
    for shape in shapes {
        assert_eq!(
            Visibility::from_rcon_format(text(shape)),
            Err(RconError::ProtocolViolation(None)),
            "{}",
            shape
        );
    }
}

#[test]
fn bad_codes_inside_a_selector_are_named() {
    assert_eq!(
        Visibility::from_rcon_format(text("team 7")),
        Err(protocol_message("Unknown team Id 7"))
    );
    assert_eq!(
        Visibility::from_rcon_format(text("squad 1 13")),
        Err(protocol_message("Unknown squad Id 13"))
    );
    assert_eq!(
        Visibility::from_rcon_format(text("squad 9 99")),
        Err(protocol_message("Unknown team Id 9"))
    );
    assert_eq!(
        Visibility::from_rcon_format(text("squad  3")),
        Err(protocol_message("Unknown team Id "))
    );
}

#[test]
fn selectors_from_word_groups() {
    assert_eq!(
        Visibility::from_words(&[word("squad"), word("1"), word("3")]),
        Ok(Visibility::Squad(Team::One, Squad::Charlie))
    );
    assert_eq!(Visibility::from_words(&[]), Err(RconError::ProtocolViolation(None)));
    assert_eq!(
        Visibility::from_words(&[word("player"), word("Foo Bar")]),
        Ok(Visibility::Player(AsciiString::from_ascii("Foo Bar").unwrap()))
    );
    assert_eq!(
        Visibility::from_words(&[word("player"), vec![70, 200]]),
        Err(RconError::NotAscii)
    );
    assert_eq!(
        Visibility::Squad(Team::Two, Squad::Juliet).to_words(),
        vec![word("squad"), word("2"), word("10")]
    );
    assert_eq!(Visibility::All.to_words(), vec![word("all")]);
}

#[test]
fn empty_player_name_round_trips() {
    let selector = Visibility::from_rcon_format(text("player ")).unwrap();
    assert_eq!(selector, Visibility::Player(AsciiString::new()));
    assert_eq!(selector.to_rcon_format().as_str(), "player ");
}

#[test]
fn duplicate_is_an_equal_selector() {
    let selector = Visibility::Player(AsciiString::from_ascii("Foo").unwrap());
    assert_eq!(selector.duplicate(), selector);
    let squad = Visibility::Squad(Team::One, Squad::Echo);
    assert_eq!(squad.duplicate(), squad);
}
