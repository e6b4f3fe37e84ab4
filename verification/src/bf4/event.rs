//! The notifications that the server pushes, as structured values.

use crate::bf4::visibility::{
    selector_of_words, squad_of_word, team_of_word, unknown_squad, unknown_team, Squad, Team,
    Visibility, VisibilityView,
};
use crate::error::{RconError, RconErrorView};
use crate::wire::{ascii_text, copy_bytes, copy_words, spells, words_view};
use vstd::prelude::*;
use vstd::slice::slice_subrange;

verus! {

/// One notification from the server.
#[derive(Debug, Clone, PartialEq, Eq)]
pub enum Event {
    /// `player.onChat`: a player wrote a message to the players that the selector
    /// names.
    Chat { player: Vec<u8>, message: Vec<u8>, visibility: Visibility },
    /// `player.onKill`: a player killed another.
    Kill { killer: Vec<u8>, victim: Vec<u8>, weapon: Vec<u8>, headshot: bool },
    /// `player.onSpawn`: a player entered the field for a team.
    Spawn { player: Vec<u8>, team: Team },
    /// `player.onTeamChange`: a player is now in this team and squad.
    TeamChange { player: Vec<u8>, team: Team, squad: Squad },
    /// `player.onSquadChange`: a player is now in this squad of this team.
    SquadChange { player: Vec<u8>, team: Team, squad: Squad },
    /// `server.onRoundOver`: the round ended and this team won.
    RoundOver { winning_team: Team },
    /// A notification of a kind that this library does not know, with all its words.
    Unknown { words: Vec<Vec<u8>> },
}

/// An event as a mathematical value.
pub enum EventView {
    Chat { player: Seq<u8>, message: Seq<u8>, visibility: VisibilityView },
    Kill { killer: Seq<u8>, victim: Seq<u8>, weapon: Seq<u8>, headshot: bool },
    Spawn { player: Seq<u8>, team: Team },
    TeamChange { player: Seq<u8>, team: Team, squad: Squad },
    SquadChange { player: Seq<u8>, team: Team, squad: Squad },
    RoundOver { winning_team: Team },
    Unknown { words: Seq<Seq<u8>> },
}

impl View for Event {
    type V = EventView;

    open spec fn view(&self) -> EventView {
        match *self {
            Event::Chat { player, message, visibility } => EventView::Chat {
                player: player@,
                message: message@,
                visibility: visibility@,
            },
            Event::Kill { killer, victim, weapon, headshot } => EventView::Kill {
                killer: killer@,
                victim: victim@,
                weapon: weapon@,
                headshot,
            },
            Event::Spawn { player, team } => EventView::Spawn { player: player@, team },
            Event::TeamChange { player, team, squad } => EventView::TeamChange {
                player: player@,
                team,
                squad,
            },
            Event::SquadChange { player, team, squad } => EventView::SquadChange {
                player: player@,
                team,
                squad,
            },
            Event::RoundOver { winning_team } => EventView::RoundOver { winning_team },
            Event::Unknown { words } => EventView::Unknown { words: words_view(words@) },
        }
    }
}

/// The truth value that a word spells: `true` or `false`.
pub open spec fn bool_of_word(word: Seq<u8>) -> Option<bool> {
    if word == ascii_text("true"@) {
        Some(true)
    } else if word == ascii_text("false"@) {
        Some(false)
    } else {
        None
    }
}

/// A player with the team and squad that two words name.
pub open spec fn membership_of_words(player: Seq<u8>, team: Seq<u8>, squad: Seq<u8>) -> Result<
    (Seq<u8>, Team, Squad),
    RconErrorView,
> {
    match (team_of_word(team), squad_of_word(squad)) {
        (Some(t), Some(s)) => Ok((player, t, s)),
        (Some(_), None) => Err(unknown_squad(squad)),
        (None, _) => Err(unknown_team(team)),
    }
}

/// The event that the words of a server-initiated frame spell.
///
/// The first word names the kind, the others are its arguments in order. Words of a
/// kind that is not known are an `Unknown` event, never an error. Words of a known
/// kind whose arguments do not fit are a protocol error.
pub open spec fn event_of_words(words: Seq<Seq<u8>>) -> Result<EventView, RconErrorView> {
    if words.len() == 0 {
        Err(RconErrorView::ProtocolViolation(None))
    } else if words[0] == ascii_text("player.onChat"@) {
        if words.len() < 4 {
            Err(RconErrorView::ProtocolViolation(None))
        } else {
            match selector_of_words(words.skip(3)) {
                Ok(visibility) => Ok(
                    EventView::Chat { player: words[1], message: words[2], visibility },
                ),
                Err(e) => Err(e),
            }
        }
    } else if words[0] == ascii_text("player.onKill"@) {
        if words.len() != 5 {
            Err(RconErrorView::ProtocolViolation(None))
        } else {
            match bool_of_word(words[4]) {
                Some(headshot) => Ok(
                    EventView::Kill {
                        killer: words[1],
                        victim: words[2],
                        weapon: words[3],
                        headshot,
                    },
                ),
                None => Err(RconErrorView::ProtocolViolation(None)),
            }
        }
    } else if words[0] == ascii_text("player.onSpawn"@) {
        if words.len() != 3 {
            Err(RconErrorView::ProtocolViolation(None))
        } else {
            match team_of_word(words[2]) {
                Some(team) => Ok(EventView::Spawn { player: words[1], team }),
                None => Err(unknown_team(words[2])),
            }
        }
    } else if words[0] == ascii_text("player.onTeamChange"@) {
        if words.len() != 4 {
            Err(RconErrorView::ProtocolViolation(None))
        } else {
            match membership_of_words(words[1], words[2], words[3]) {
                Ok((player, team, squad)) => Ok(EventView::TeamChange { player, team, squad }),
                Err(e) => Err(e),
            }
        }
    } else if words[0] == ascii_text("player.onSquadChange"@) {
        if words.len() != 4 {
            Err(RconErrorView::ProtocolViolation(None))
        } else {
            match membership_of_words(words[1], words[2], words[3]) {
                Ok((player, team, squad)) => Ok(EventView::SquadChange { player, team, squad }),
                Err(e) => Err(e),
            }
        }
    } else if words[0] == ascii_text("server.onRoundOver"@) {
        if words.len() != 2 {
            Err(RconErrorView::ProtocolViolation(None))
        } else {
            match team_of_word(words[1]) {
                Some(winning_team) => Ok(EventView::RoundOver { winning_team }),
                None => Err(unknown_team(words[1])),
            }
        }
    } else {
        Ok(EventView::Unknown { words })
    }
}

/// What a subscriber is handed for one notification: the event, or the error of
/// decoding it.
pub open spec fn notice_view(notice: Result<Event, RconError>) -> Result<EventView, RconErrorView> {
    match notice {
        Ok(event) => Ok(event@),
        Err(e) => Err(e@),
    }
}

/// A player with the team and squad that two words name.
fn decode_membership(player: &Vec<u8>, team: &Vec<u8>, squad: &Vec<u8>) -> (r: Result<
    (Vec<u8>, Team, Squad),
    RconError,
>)
    ensures
        match r {
            Ok((p, t, s)) => membership_of_words(player@, team@, squad@) == Ok::<
                (Seq<u8>, Team, Squad),
                RconErrorView,
            >((p@, t, s)),
            Err(e) => membership_of_words(player@, team@, squad@) == Err::<
                (Seq<u8>, Team, Squad),
                RconErrorView,
            >(e@),
        },
{
    let t = match Team::from_word(team.as_slice()) {
        Ok(t) => t,
        Err(e) => {
            return Err(e);
        },
    };
    match Squad::from_word(squad.as_slice()) {
        Ok(s) => Ok((copy_bytes(player.as_slice()), t, s)),
        Err(e) => Err(e),
    }
}

impl Event {
    /// The event that the words of a server-initiated frame spell.
    pub fn from_words(words: &[Vec<u8>]) -> (r: Result<Event, RconError>)
        ensures
            notice_view(r) == event_of_words(words_view(words@)),
    {
        proof {
            reveal_strlit("player.onChat");
            reveal_strlit("player.onKill");
            reveal_strlit("player.onSpawn");
            reveal_strlit("player.onTeamChange");
            reveal_strlit("player.onSquadChange");
            reveal_strlit("server.onRoundOver");
            reveal_strlit("true");
            reveal_strlit("false");
        }
        if words.len() == 0 {
            return Err(RconError::protocol());
        }
        let kind: &[u8] = words[0].as_slice();
        if spells(kind, "player.onChat") {
            if words.len() < 4 {
                return Err(RconError::protocol());
            }
            let group = slice_subrange(words, 3, words.len());
            assert(words_view(group@) =~= words_view(words@).skip(3));
            match Visibility::from_words(group) {
                Ok(visibility) => Ok(
                    Event::Chat {
                        player: copy_bytes(words[1].as_slice()),
                        message: copy_bytes(words[2].as_slice()),
                        visibility,
                    },
                ),
                Err(e) => Err(e),
            }
        } else if spells(kind, "player.onKill") {
            if words.len() != 5 {
                return Err(RconError::protocol());
            }
            let flag: &[u8] = words[4].as_slice();
            let headshot: bool = if spells(flag, "true") {
                true
            } else if spells(flag, "false") {
                false
            } else {
                return Err(RconError::protocol());
            };
            Ok(
                Event::Kill {
                    killer: copy_bytes(words[1].as_slice()),
                    victim: copy_bytes(words[2].as_slice()),
                    weapon: copy_bytes(words[3].as_slice()),
                    headshot,
                },
            )
        } else if spells(kind, "player.onSpawn") {
            if words.len() != 3 {
                return Err(RconError::protocol());
            }
            match Team::from_word(words[2].as_slice()) {
                Ok(team) => Ok(Event::Spawn { player: copy_bytes(words[1].as_slice()), team }),
                Err(e) => Err(e),
            }
        } else if spells(kind, "player.onTeamChange") {
            if words.len() != 4 {
                return Err(RconError::protocol());
            }
            match decode_membership(&words[1], &words[2], &words[3]) {
                Ok((player, team, squad)) => Ok(Event::TeamChange { player, team, squad }),
                Err(e) => Err(e),
            }
        } else if spells(kind, "player.onSquadChange") {
            if words.len() != 4 {
                return Err(RconError::protocol());
            }
            match decode_membership(&words[1], &words[2], &words[3]) {
                Ok((player, team, squad)) => Ok(Event::SquadChange { player, team, squad }),
                Err(e) => Err(e),
            }
        } else if spells(kind, "server.onRoundOver") {
            if words.len() != 2 {
                return Err(RconError::protocol());
            }
            match Team::from_word(words[1].as_slice()) {
                Ok(winning_team) => Ok(Event::RoundOver { winning_team }),
                Err(e) => Err(e),
            }
        } else {
            Ok(Event::Unknown { words: copy_words(words) })
        }
    }

    /// A copy of the event.
    pub fn duplicate(&self) -> (copy: Event)
        ensures
            copy@ == self@,
    {
        match self {
            Event::Chat { player, message, visibility } => Event::Chat {
                player: copy_bytes(player.as_slice()),
                message: copy_bytes(message.as_slice()),
                visibility: visibility.duplicate(),
            },
            Event::Kill { killer, victim, weapon, headshot } => Event::Kill {
                killer: copy_bytes(killer.as_slice()),
                victim: copy_bytes(victim.as_slice()),
                weapon: copy_bytes(weapon.as_slice()),
                headshot: *headshot,
            },
            Event::Spawn { player, team } => Event::Spawn {
                player: copy_bytes(player.as_slice()),
                team: *team,
            },
            Event::TeamChange { player, team, squad } => Event::TeamChange {
                player: copy_bytes(player.as_slice()),
                team: *team,
                squad: *squad,
            },
            Event::SquadChange { player, team, squad } => Event::SquadChange {
                player: copy_bytes(player.as_slice()),
                team: *team,
                squad: *squad,
            },
            Event::RoundOver { winning_team } => Event::RoundOver { winning_team: *winning_team },
            Event::Unknown { words } => Event::Unknown { words: copy_words(words.as_slice()) },
        }
    }
}

/// A copy of what a subscriber is handed.
pub fn duplicate_notice(notice: &Result<Event, RconError>) -> (copy: Result<Event, RconError>)
    ensures
        notice_view(copy) == notice_view(*notice),
{
    match notice {
        Ok(event) => Ok(event.duplicate()),
        Err(e) => Err(e.duplicate()),
    }
}

} // verus!
