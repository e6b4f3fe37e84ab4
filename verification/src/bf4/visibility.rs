//! Teams, squads, and the selectors that say who sees a message.

use crate::error::{RconError, RconErrorView};
use crate::text::{
    ascii_str_bytes, ascii_string_bytes, borrow_string, is_seven_bit, join, join_words,
    lemma_split_join, lemma_split_seven_bit, split_at_spaces, split_on, str_to_bytes,
    string_from_bytes, words_seven_bit, SPACE,
};
use crate::wire::{ascii_text, copy_bytes, push_bytes, spells, text_bytes, words_view};
use ascii::{AsciiStr, AsciiString};
use vstd::prelude::*;

verus! {

/// The decimal text of a code below one hundred, without leading zeros.
pub open spec fn code_text(code: nat) -> Seq<u8> {
    if code < 10 {
        seq![(48 + code) as u8]
    } else {
        seq![(48 + code / 10) as u8, (48 + code % 10) as u8]
    }
}

/// Different codes have different texts.
pub proof fn lemma_code_text_injective(a: nat, b: nat)
    requires
        a < 100,
        b < 100,
        code_text(a) == code_text(b),
    ensures
        a == b,
{
    let ta = code_text(a);
    let tb = code_text(b);
    assert(ta.len() == tb.len());
    assert(ta[0] == tb[0]);
    if a < 10 {
        assert(ta.len() == 1);
        assert(b < 10);
        assert(ta[0] == (48 + a) as u8);
        assert(tb[0] == (48 + b) as u8);
    } else {
        assert(ta.len() == 2);
        assert(b >= 10);
        assert(ta[1] == tb[1]);
        assert(ta[0] == (48 + a / 10) as u8);
        assert(tb[0] == (48 + b / 10) as u8);
        assert(ta[1] == (48 + a % 10) as u8);
        assert(tb[1] == (48 + b % 10) as u8);
        assert(a / 10 == b / 10);
        assert(a % 10 == b % 10);
        assert(a == 10 * (a / 10) + a % 10);
        assert(b == 10 * (b / 10) + b % 10);
    }
}

/// The decimal text of `code`.
fn code_to_word(code: u8) -> (word: Vec<u8>)
    requires
        code < 100,
    ensures
        word@ == code_text(code as nat),
{
    let mut word: Vec<u8> = Vec::new();
    if code >= 10 {
        word.push(48 + code / 10);
    }
    word.push(48 + code % 10);
    assert(word@ =~= code_text(code as nat));
    word
}

/// The code below one hundred that `word` is the decimal text of, if there is one.
fn word_to_code(word: &[u8]) -> (code: Option<u8>)
    ensures
        match code {
            Some(c) => c < 100 && code_text(c as nat) == word@,
            None => forall|c: nat| c < 100 ==> #[trigger] code_text(c) != word@,
        },
{
    if word.len() == 1 && 48 <= word[0] && word[0] <= 57 {
        let c: u8 = word[0] - 48;
        assert(code_text(c as nat) =~= word@);
        Some(c)
    } else if word.len() == 2 && 49 <= word[0] && word[0] <= 57 && 48 <= word[1] && word[1] <= 57 {
        let c: u8 = (word[0] - 48) * 10 + (word[1] - 48);
        assert(code_text(c as nat) =~= word@);
        Some(c)
    } else {
        assert forall|c: nat| c < 100 implies #[trigger] code_text(c) != word@ by {
            if code_text(c) == word@ {
                assert(code_text(c).len() == word@.len());
                assert(code_text(c)[0] == word@[0]);
                if c >= 10 {
                    assert(code_text(c)[1] == word@[1]);
                }
            }
        }
        None
    }
}

/// A side in a round.
#[derive(Debug, Copy, Clone, PartialEq, Eq, Structural)]
pub enum Team {
    Neutral,
    One,
    Two,
}

/// A squad within a team.
#[derive(Debug, Copy, Clone, PartialOrd, PartialEq, Eq, Structural)]
pub enum Squad {
    NoSquad,
    Alpha,
    Bravo,
    Charlie,
    Delta,
    Echo,
    Foxtrot,
    Golf,
    Hotel,
    India,
    Juliet,
    Kilo,
    Lima,
}

/// The team that `word` is the code of, if it is the code of one.
pub open spec fn team_of_word(word: Seq<u8>) -> Option<Team> {
    if exists|t: Team| t.word() == word {
        Some(choose|t: Team| t.word() == word)
    } else {
        None
    }
}

/// The squad that `word` is the code of, if it is the code of one.
pub open spec fn squad_of_word(word: Seq<u8>) -> Option<Squad> {
    if exists|s: Squad| s.word() == word {
        Some(choose|s: Squad| s.word() == word)
    } else {
        None
    }
}

/// The error for text that is no team's code: it names the text.
pub open spec fn unknown_team(word: Seq<u8>) -> RconErrorView {
    RconErrorView::ProtocolViolation(Some(ascii_text("Unknown team Id "@) + word))
}

/// The error for text that is no squad's code: it names the text.
pub open spec fn unknown_squad(word: Seq<u8>) -> RconErrorView {
    RconErrorView::ProtocolViolation(Some(ascii_text("Unknown squad Id "@) + word))
}

impl Team {
    /// The team's number in the protocol.
    pub open spec fn id(self) -> nat {
        match self {
            Team::Neutral => 0,
            Team::One => 1,
            Team::Two => 2,
        }
    }

    /// The team's code: its number as decimal text.
    pub open spec fn word(self) -> Seq<u8> {
        code_text(self.id())
    }

    /// The team's number in the protocol.
    pub fn number(self) -> (id: u8)
        ensures
            id == self.id(),
            id < 100,
    {
        match self {
            Team::Neutral => 0,
            Team::One => 1,
            Team::Two => 2,
        }
    }

    /// The team with this number.
    pub fn from_number(id: u8) -> (team: Option<Team>)
        ensures
            match team {
                Some(t) => t.id() == id,
                None => forall|t: Team| #[trigger] t.id() != id,
            },
    {
        if id == 0 {
            Some(Team::Neutral)
        } else if id == 1 {
            Some(Team::One)
        } else if id == 2 {
            Some(Team::Two)
        } else {
            None
        }
    }

    /// The team's code as a protocol word.
    pub fn to_word(self) -> (word: Vec<u8>)
        ensures
            word@ == self.word(),
    {
        code_to_word(self.number())
    }

    /// The team that a protocol word is the code of.
    pub fn from_word(word: &[u8]) -> (r: Result<Team, RconError>)
        ensures
            match r {
                Ok(team) => team_of_word(word@) == Some(team) && team.word() == word@,
                Err(e) => team_of_word(word@) is None && e@ == unknown_team(word@),
            },
    {
        match word_to_code(word) {
            Some(code) => match Team::from_number(code) {
                Some(team) => {
                    proof {
                        lemma_team_of_word(team);
                    }
                    return Ok(team);
                },
                None => {
                    assert forall|t: Team| t.word() != word@ by {
                        if t.word() == word@ {
                            lemma_code_text_injective(t.id(), code as nat);
                        }
                    }
                },
            },
            None => {
                assert forall|t: Team| t.word() != word@ by {
                    assert(t.id() < 100);
                }
            },
        }
        proof {
            reveal_strlit("Unknown team Id ");
        }
        let mut message = text_bytes("Unknown team Id ");
        push_bytes(&mut message, word);
        Err(RconError::protocol_msg(message))
    }

    /// The team's code as seven-bit text.
    pub fn to_rcon_format(self) -> (text: AsciiString)
        ensures
            ascii_string_bytes(text) == self.word(),
    {
        let word = self.to_word();
        match string_from_bytes(word) {
            Some(text) => text,
            None => unreached(),
        }
    }

    /// The team that seven-bit text is the code of.
    pub fn from_rcon_format(ascii: &AsciiStr) -> (r: Result<Team, RconError>)
        ensures
            is_seven_bit(ascii_str_bytes(ascii)),
            match r {
                Ok(team) => team_of_word(ascii_str_bytes(ascii)) == Some(team) && team.word()
                    == ascii_str_bytes(ascii),
                Err(e) => team_of_word(ascii_str_bytes(ascii)) is None && e@ == unknown_team(
                    ascii_str_bytes(ascii),
                ),
            },
    {
        let word = str_to_bytes(ascii);
        Team::from_word(word.as_slice())
    }
}

/// A team's code is the code of that team and of no other.
pub proof fn lemma_team_of_word(team: Team)
    ensures
        team_of_word(team.word()) == Some(team),
{
    let other = choose|t: Team| t.word() == team.word();
    lemma_code_text_injective(other.id(), team.id());
}

/// A squad's code is the code of that squad and of no other.
pub proof fn lemma_squad_of_word(squad: Squad)
    ensures
        squad_of_word(squad.word()) == Some(squad),
{
    let other = choose|s: Squad| s.word() == squad.word();
    lemma_code_text_injective(other.id(), squad.id());
}

impl Squad {
    /// The squad's number in the protocol.
    pub open spec fn id(self) -> nat {
        match self {
            Squad::NoSquad => 0,
            Squad::Alpha => 1,
            Squad::Bravo => 2,
            Squad::Charlie => 3,
            Squad::Delta => 4,
            Squad::Echo => 5,
            Squad::Foxtrot => 6,
            Squad::Golf => 7,
            Squad::Hotel => 8,
            Squad::India => 9,
            Squad::Juliet => 10,
            Squad::Kilo => 11,
            Squad::Lima => 12,
        }
    }

    /// The squad's code: its number as decimal text.
    pub open spec fn word(self) -> Seq<u8> {
        code_text(self.id())
    }

    /// The squad's number in the protocol.
    pub fn number(self) -> (id: u8)
        ensures
            id == self.id(),
            id < 100,
    {
        match self {
            Squad::NoSquad => 0,
            Squad::Alpha => 1,
            Squad::Bravo => 2,
            Squad::Charlie => 3,
            Squad::Delta => 4,
            Squad::Echo => 5,
            Squad::Foxtrot => 6,
            Squad::Golf => 7,
            Squad::Hotel => 8,
            Squad::India => 9,
            Squad::Juliet => 10,
            Squad::Kilo => 11,
            Squad::Lima => 12,
        }
    }

    /// The squad with this number.
    pub fn from_number(id: u8) -> (squad: Option<Squad>)
        ensures
            match squad {
                Some(s) => s.id() == id,
                None => forall|s: Squad| #[trigger] s.id() != id,
            },
    {
        match id {
            0 => Some(Squad::NoSquad),
            1 => Some(Squad::Alpha),
            2 => Some(Squad::Bravo),
            3 => Some(Squad::Charlie),
            4 => Some(Squad::Delta),
            5 => Some(Squad::Echo),
            6 => Some(Squad::Foxtrot),
            7 => Some(Squad::Golf),
            8 => Some(Squad::Hotel),
            9 => Some(Squad::India),
            10 => Some(Squad::Juliet),
            11 => Some(Squad::Kilo),
            12 => Some(Squad::Lima),
            _ => None,
        }
    }

    /// The squad's code as a protocol word.
    pub fn to_word(self) -> (word: Vec<u8>)
        ensures
            word@ == self.word(),
    {
        code_to_word(self.number())
    }

    /// The squad that a protocol word is the code of.
    pub fn from_word(word: &[u8]) -> (r: Result<Squad, RconError>)
        ensures
            match r {
                Ok(squad) => squad_of_word(word@) == Some(squad) && squad.word() == word@,
                Err(e) => squad_of_word(word@) is None && e@ == unknown_squad(word@),
            },
    {
        match word_to_code(word) {
            Some(code) => match Squad::from_number(code) {
                Some(squad) => {
                    proof {
                        lemma_squad_of_word(squad);
                    }
                    return Ok(squad);
                },
                None => {
                    assert forall|s: Squad| s.word() != word@ by {
                        if s.word() == word@ {
                            lemma_code_text_injective(s.id(), code as nat);
                        }
                    }
                },
            },
            None => {
                assert forall|s: Squad| s.word() != word@ by {
                    assert(s.id() < 100);
                }
            },
        }
        proof {
            reveal_strlit("Unknown squad Id ");
        }
        let mut message = text_bytes("Unknown squad Id ");
        push_bytes(&mut message, word);
        Err(RconError::protocol_msg(message))
    }

    /// The squad's code as seven-bit text: `2` for Bravo, `0` for no squad.
    pub fn to_rcon_format(self) -> (text: AsciiString)
        ensures
            ascii_string_bytes(text) == self.word(),
    {
        let word = self.to_word();
        match string_from_bytes(word) {
            Some(text) => text,
            None => unreached(),
        }
    }

    /// The squad that seven-bit text is the code of.
    pub fn from_rcon_format(ascii: &AsciiStr) -> (r: Result<Squad, RconError>)
        ensures
            is_seven_bit(ascii_str_bytes(ascii)),
            match r {
                Ok(squad) => squad_of_word(ascii_str_bytes(ascii)) == Some(squad) && squad.word()
                    == ascii_str_bytes(ascii),
                Err(e) => squad_of_word(ascii_str_bytes(ascii)) is None && e@ == unknown_squad(
                    ascii_str_bytes(ascii),
                ),
            },
    {
        let word = str_to_bytes(ascii);
        Squad::from_word(word.as_slice())
    }
}

/// Who sees a message: everyone, a team, a squad of a team, or one player.
#[derive(Debug, Clone, PartialEq, Eq)]
pub enum Visibility {
    All,
    Team(Team),
    Squad(Team, Squad),
    Player(AsciiString),
}

/// A selector as a mathematical value; a player is named by the bytes of the name.
pub enum VisibilityView {
    All,
    Team(Team),
    Squad(Team, Squad),
    Player(Seq<u8>),
}

impl View for Visibility {
    type V = VisibilityView;

    open spec fn view(&self) -> VisibilityView {
        match *self {
            Visibility::All => VisibilityView::All,
            Visibility::Team(team) => VisibilityView::Team(team),
            Visibility::Squad(team, squad) => VisibilityView::Squad(team, squad),
            Visibility::Player(name) => VisibilityView::Player(ascii_string_bytes(name)),
        }
    }
}

impl VisibilityView {
    /// The selector as a group of words: a keyword, then as many arguments as the
    /// keyword takes.
    pub open spec fn words(self) -> Seq<Seq<u8>> {
        match self {
            VisibilityView::All => seq![ascii_text("all"@)],
            VisibilityView::Team(team) => seq![ascii_text("team"@), team.word()],
            VisibilityView::Squad(team, squad) => seq![
                ascii_text("squad"@),
                team.word(),
                squad.word(),
            ],
            VisibilityView::Player(name) => seq![ascii_text("player"@), name],
        }
    }

    /// The selector as one line of text: its words with a space between each two.
    pub open spec fn text(self) -> Seq<u8> {
        join_words(self.words(), SPACE)
    }

    /// A player's name is seven-bit text.
    pub open spec fn wf(self) -> bool {
        self matches VisibilityView::Player(name) ==> is_seven_bit(name)
    }
}

/// The selector that a group of words spells, or the error that says why it spells
/// none. The number of words must be the number that the keyword asks for.
pub open spec fn selector_of_words(words: Seq<Seq<u8>>) -> Result<VisibilityView, RconErrorView> {
    if words.len() == 0 {
        Err(RconErrorView::ProtocolViolation(None))
    } else if words[0] == ascii_text("all"@) {
        if words.len() != 1 {
            Err(RconErrorView::ProtocolViolation(None))
        } else {
            Ok(VisibilityView::All)
        }
    } else if words[0] == ascii_text("team"@) {
        if words.len() != 2 {
            Err(RconErrorView::ProtocolViolation(None))
        } else {
            match team_of_word(words[1]) {
                Some(team) => Ok(VisibilityView::Team(team)),
                None => Err(unknown_team(words[1])),
            }
        }
    } else if words[0] == ascii_text("squad"@) {
        if words.len() != 3 {
            Err(RconErrorView::ProtocolViolation(None))
        } else {
            match (team_of_word(words[1]), squad_of_word(words[2])) {
                (Some(team), Some(squad)) => Ok(VisibilityView::Squad(team, squad)),
                (Some(_), None) => Err(unknown_squad(words[2])),
                (None, _) => Err(unknown_team(words[1])),
            }
        }
    } else if words[0] == ascii_text("player"@) {
        if words.len() != 2 {
            Err(RconErrorView::ProtocolViolation(None))
        } else if !is_seven_bit(words[1]) {
            Err(RconErrorView::NotAscii)
        } else {
            Ok(VisibilityView::Player(words[1]))
        }
    } else {
        Err(RconErrorView::ProtocolViolation(None))
    }
}

/// What the four keywords hold.
proof fn lemma_keywords()
    ensures
        ascii_text("all"@) == seq![97u8, 108u8, 108u8],
        ascii_text("team"@) == seq![116u8, 101u8, 97u8, 109u8],
        ascii_text("squad"@) == seq![115u8, 113u8, 117u8, 97u8, 100u8],
        ascii_text("player"@) == seq![112u8, 108u8, 97u8, 121u8, 101u8, 114u8],
{
    reveal_strlit("all");
    reveal_strlit("team");
    reveal_strlit("squad");
    reveal_strlit("player");
    assert(ascii_text("all"@) =~= seq![97u8, 108u8, 108u8]);
    assert(ascii_text("team"@) =~= seq![116u8, 101u8, 97u8, 109u8]);
    assert(ascii_text("squad"@) =~= seq![115u8, 113u8, 117u8, 97u8, 100u8]);
    assert(ascii_text("player"@) =~= seq![112u8, 108u8, 97u8, 121u8, 101u8, 114u8]);
}

/// The text of a code is digits only.
proof fn lemma_code_text_digits(code: nat)
    requires
        code < 100,
    ensures
        is_seven_bit(code_text(code)),
        !code_text(code).contains(SPACE),
{
    let text = code_text(code);
    assert forall|i: int| 0 <= i < text.len() implies 48 <= #[trigger] text[i] <= 57 by {
        if code >= 10 {
            assert(text[0] == (48 + code / 10) as u8);
            assert(text[1] == (48 + code % 10) as u8);
        }
    }
}

/// The words of a selector spell that selector.
pub proof fn lemma_selector_of_its_words(selector: VisibilityView)
    requires
        selector.wf(),
    ensures
        selector_of_words(selector.words()) == Ok::<VisibilityView, RconErrorView>(selector),
{
    lemma_keywords();
    match selector {
        VisibilityView::All => {},
        VisibilityView::Team(team) => {
            lemma_team_of_word(team);
        },
        VisibilityView::Squad(team, squad) => {
            lemma_team_of_word(team);
            lemma_squad_of_word(squad);
        },
        VisibilityView::Player(name) => {},
    }
}

/// Words that spell a selector are the words of that selector.
pub proof fn lemma_words_of_spelled_selector(words: Seq<Seq<u8>>)
    requires
        selector_of_words(words) is Ok,
    ensures
        selector_of_words(words)->Ok_0.wf(),
        selector_of_words(words)->Ok_0.words() == words,
{
    lemma_keywords();
    let selector = selector_of_words(words)->Ok_0;
    assert(selector.words() =~= words);
}

/// A keyword with the wrong number of arguments spells nothing: the error is a
/// protocol error, whatever the arguments are.
pub proof fn lemma_wrong_argument_count(words: Seq<Seq<u8>>)
    requires
        words.len() > 0,
        words[0] == ascii_text("all"@) && words.len() != 1 || words[0] == ascii_text("team"@)
            && words.len() != 2 || words[0] == ascii_text("squad"@) && words.len() != 3
            || words[0] == ascii_text("player"@) && words.len() != 2,
    ensures
        selector_of_words(words) == Err::<VisibilityView, RconErrorView>(
            RconErrorView::ProtocolViolation(None),
        ),
{
    lemma_keywords();
}

/// The line of text of a selector splits at the spaces into the selector's words,
/// unless a player's name holds a space.
pub proof fn lemma_split_selector_text(selector: VisibilityView)
    requires
        selector matches VisibilityView::Player(name) ==> !name.contains(SPACE),
    ensures
        split_on(selector.text(), SPACE) == selector.words(),
{
    lemma_keywords();
    let words = selector.words();
    assert forall|i: int| 0 <= i < words.len() implies !(#[trigger] words[i]).contains(SPACE) by {
        match selector {
            VisibilityView::All => {},
            VisibilityView::Team(team) => {
                lemma_code_text_digits(team.id());
            },
            VisibilityView::Squad(team, squad) => {
                lemma_code_text_digits(team.id());
                lemma_code_text_digits(squad.id());
            },
            VisibilityView::Player(name) => {},
        }
    }
    lemma_split_join(words, SPACE);
}

/// Writing a selector as a line of text and reading the line gives the selector
/// back, unless a player's name holds a space.
pub proof fn lemma_selector_round_trip(selector: VisibilityView)
    requires
        selector.wf(),
        selector matches VisibilityView::Player(name) ==> !name.contains(SPACE),
    ensures
        selector_of_words(split_on(selector.text(), SPACE)) == Ok::<
            VisibilityView,
            RconErrorView,
        >(selector),
{
    lemma_split_selector_text(selector);
    lemma_selector_of_its_words(selector);
}

impl Visibility {
    /// The selector as a group of protocol words.
    pub fn to_words(&self) -> (words: Vec<Vec<u8>>)
        ensures
            words_view(words@) == self@.words(),
            words_seven_bit(words_view(words@)),
            self@.wf(),
    {
        proof {
            reveal_strlit("all");
            reveal_strlit("team");
            reveal_strlit("squad");
            reveal_strlit("player");
        }
        let mut words: Vec<Vec<u8>> = Vec::new();
        match self {
            Visibility::All => {
                words.push(text_bytes("all"));
            },
            Visibility::Team(team) => {
                proof {
                    lemma_code_text_digits(team.id());
                }
                words.push(text_bytes("team"));
                words.push(team.to_word());
            },
            Visibility::Squad(team, squad) => {
                proof {
                    lemma_code_text_digits(team.id());
                    lemma_code_text_digits(squad.id());
                }
                words.push(text_bytes("squad"));
                words.push(team.to_word());
                words.push(squad.to_word());
            },
            Visibility::Player(name) => {
                words.push(text_bytes("player"));
                words.push(str_to_bytes(borrow_string(name)));
            },
        }
        assert(words_view(words@) =~= self@.words());
        words
    }

    /// The selector that a group of protocol words spells.
    pub fn from_words(words: &[Vec<u8>]) -> (r: Result<Visibility, RconError>)
        ensures
            match r {
                Ok(selector) => selector_of_words(words_view(words@)) == Ok::<
                    VisibilityView,
                    RconErrorView,
                >(selector@),
                Err(e) => selector_of_words(words_view(words@)) == Err::<
                    VisibilityView,
                    RconErrorView,
                >(e@),
            },
    {
        proof {
            reveal_strlit("all");
            reveal_strlit("team");
            reveal_strlit("squad");
            reveal_strlit("player");
        }
        if words.len() == 0 {
            return Err(RconError::protocol());
        }
        let keyword: &[u8] = words[0].as_slice();
        if spells(keyword, "all") {
            if words.len() != 1 {
                Err(RconError::protocol())
            } else {
                Ok(Visibility::All)
            }
        } else if spells(keyword, "team") {
            if words.len() != 2 {
                Err(RconError::protocol())
            } else {
                match Team::from_word(words[1].as_slice()) {
                    Ok(team) => Ok(Visibility::Team(team)),
                    Err(e) => Err(e),
                }
            }
        } else if spells(keyword, "squad") {
            if words.len() != 3 {
                Err(RconError::protocol())
            } else {
                let team = match Team::from_word(words[1].as_slice()) {
                    Ok(team) => team,
                    Err(e) => {
                        return Err(e);
                    },
                };
                match Squad::from_word(words[2].as_slice()) {
                    Ok(squad) => Ok(Visibility::Squad(team, squad)),
                    Err(e) => Err(e),
                }
            }
        } else if spells(keyword, "player") {
            if words.len() != 2 {
                Err(RconError::protocol())
            } else {
                match string_from_bytes(copy_bytes(words[1].as_slice())) {
                    Some(name) => Ok(Visibility::Player(name)),
                    None => Err(RconError::NotAscii),
                }
            }
        } else {
            Err(RconError::protocol())
        }
    }

    /// The selector as one line of seven-bit text, such as `squad 1 3`.
    pub fn to_rcon_format(&self) -> (text: AsciiString)
        ensures
            ascii_string_bytes(text) == self@.text(),
    {
        let words = self.to_words();
        let line = join(words.as_slice(), SPACE);
        match string_from_bytes(line) {
            Some(text) => text,
            None => unreached(),
        }
    }

    /// The selector that a line of seven-bit text spells.
    pub fn from_rcon_format(str: &AsciiStr) -> (r: Result<Visibility, RconError>)
        ensures
            is_seven_bit(ascii_str_bytes(str)),
            r matches Err(e) ==> e@ != RconErrorView::NotAscii,
            match r {
                Ok(selector) => selector_of_words(split_on(ascii_str_bytes(str), SPACE)) == Ok::<
                    VisibilityView,
                    RconErrorView,
                >(selector@),
                Err(e) => selector_of_words(split_on(ascii_str_bytes(str), SPACE)) == Err::<
                    VisibilityView,
                    RconErrorView,
                >(e@),
            },
    {
        let _ = str_to_bytes(str);
        let split = split_at_spaces(str);
        proof {
            lemma_split_seven_bit(ascii_str_bytes(str), SPACE);
        }
        Visibility::from_words(split.as_slice())
    }

    /// A copy of the selector.
    pub fn duplicate(&self) -> (copy: Visibility)
        ensures
            copy@ == self@,
    {
        match self {
            Visibility::All => Visibility::All,
            Visibility::Team(team) => Visibility::Team(*team),
            Visibility::Squad(team, squad) => Visibility::Squad(*team, *squad),
            Visibility::Player(name) => Visibility::Player(name.clone()),
        }
    }
}

} // verus!
