//! What is recorded of a player: the kind and the record.

use crate::steamapi::{AccountInfo, Friend, NetworkError};
use crate::text::same_text;
use vstd::prelude::*;
use vstd::string::StringExecFns;

verus! {

/// How far a player is trusted.
#[derive(Clone, Copy, Debug, PartialEq, Eq, Structural)]
pub enum PlayerType {
    Player,
    Bot,
    Cheater,
    Suspicious,
}

impl PlayerType {
    /// The word a kind is written with.
    pub open spec fn name_text(self) -> Seq<char> {
        match self {
            PlayerType::Player => "Player"@,
            PlayerType::Bot => "Bot"@,
            PlayerType::Cheater => "Cheater"@,
            PlayerType::Suspicious => "Suspicious"@,
        }
    }

    /// The kind that the word `name` stands for, if it is one of the four.
    pub open spec fn of_name(name: Seq<char>) -> Option<PlayerType> {
        if name == "Player"@ {
            Some(PlayerType::Player)
        } else if name == "Bot"@ {
            Some(PlayerType::Bot)
        } else if name == "Cheater"@ {
            Some(PlayerType::Cheater)
        } else if name == "Suspicious"@ {
            Some(PlayerType::Suspicious)
        } else {
            None
        }
    }

    /// The word this kind is written with.
    pub fn name(self) -> (r: &'static str)
        ensures
            r@ == self.name_text(),
    {
        match self {
            PlayerType::Player => "Player",
            PlayerType::Bot => "Bot",
            PlayerType::Cheater => "Cheater",
            PlayerType::Suspicious => "Suspicious",
        }
    }

    /// Reads a kind from its word; any other text is no kind.
    pub fn from_name(name: &str) -> (r: Option<PlayerType>)
        ensures
            r == PlayerType::of_name(name@),
    {
        if same_text(name, "Player") {
            Some(PlayerType::Player)
        } else if same_text(name, "Bot") {
            Some(PlayerType::Bot)
        } else if same_text(name, "Cheater") {
            Some(PlayerType::Cheater)
        } else if same_text(name, "Suspicious") {
            Some(PlayerType::Suspicious)
        } else {
            None
        }
    }
}

/// Each kind is read back from its own word.
pub proof fn lemma_kind_name_round_trip(kind: PlayerType)
    ensures
        PlayerType::of_name(kind.name_text()) == Some(kind),
{
    reveal_strlit("Player");
    reveal_strlit("Bot");
    reveal_strlit("Cheater");
    reveal_strlit("Suspicious");
    assert("Player"@.len() == 6);
    assert("Bot"@.len() == 3);
    assert("Cheater"@.len() == 7);
    assert("Suspicious"@.len() == 10);
}

/// What is kept of one identity.
#[derive(Clone, Debug)]
pub struct PlayerRecord {
    pub steamid: String,
    pub player_type: PlayerType,
    pub notes: String,
}

/// A record with its texts as sequences of characters.
pub struct RecordView {
    pub steamid: Seq<char>,
    pub player_type: PlayerType,
    pub notes: Seq<char>,
}

impl View for PlayerRecord {
    type V = RecordView;

    open spec fn view(&self) -> RecordView {
        RecordView { steamid: self.steamid@, player_type: self.player_type, notes: self.notes@ }
    }
}

impl RecordView {
    /// A record of kind `Player` without notes says nothing of its identity.
    pub open spec fn carries_nothing(self) -> bool {
        self.player_type == PlayerType::Player && self.notes.len() == 0
    }
}

impl PlayerRecord {
    /// A record of the given identity, kind and notes.
    pub fn new(steamid: &str, player_type: PlayerType, notes: &str) -> (r: PlayerRecord)
        ensures
            r@ == (RecordView { steamid: steamid@, player_type, notes: notes@ }),
    {
        PlayerRecord {
            steamid: String::from_str(steamid),
            player_type,
            notes: String::from_str(notes),
        }
    }

    /// Whether the record is of kind `Player` and has no notes.
    pub fn carries_nothing(&self) -> (r: bool)
        ensures
            r == self@.carries_nothing(),
    {
        self.player_type == PlayerType::Player && self.notes.as_str().unicode_len() == 0
    }

    /// A second record that holds the same as this one.
    pub fn duplicate(&self) -> (r: PlayerRecord)
        ensures
            r == *self,
    {
        PlayerRecord {
            steamid: self.steamid.clone(),
            player_type: self.player_type,
            notes: self.notes.clone(),
        }
    }
}

/// The side a player is on.
#[derive(Clone, Copy, Debug, PartialEq, Eq, Structural)]
pub enum Team {
    Defenders,
    Invaders,
    /// On neither side.
    Unassigned,
}

/// A player who is in the match.
#[derive(Debug)]
pub struct Player {
    /// The identity, in the short form.
    pub steamid32: String,
    /// The display name.
    pub name: String,
    pub team: Team,
    pub player_type: PlayerType,
    pub notes: String,
    /// What a lookup delivered for the player; `None` before one did.
    pub account_info: Option<Result<AccountInfo, NetworkError>>,
    /// The bytes of the avatar, where a lookup brought them.
    pub profile_image: Option<Vec<u8>>,
}

/// The identities on a friends list, in the long form.
pub open spec fn friend_ids(list: Seq<Friend>) -> Seq<Seq<char>> {
    list.map_values(|friend: Friend| friend.steamid@)
}

impl Player {
    /// The friends of the player, where a lookup brought the list.
    pub open spec fn friends(self) -> Option<Seq<Friend>> {
        match self.account_info {
            Some(Ok(info)) => match info.friends {
                Some(Ok(list)) => Some(list@),
                _ => None,
            },
            _ => None,
        }
    }

    /// A player of whom only identity and name are known: on no side, of
    /// kind `Player`, without notes.
    pub fn new(steamid32: &str, name: &str) -> (player: Player)
        ensures
            player.steamid32@ == steamid32@,
            player.name@ == name@,
            player.team == Team::Unassigned,
            player.player_type == PlayerType::Player,
            player.notes@.len() == 0,
            player.account_info is None,
            player.profile_image is None,
    {
        Player {
            steamid32: String::from_str(steamid32),
            name: String::from_str(name),
            team: Team::Unassigned,
            player_type: PlayerType::Player,
            notes: String::new(),
            account_info: None,
            profile_image: None,
        }
    }

    /// The record that says of the player's identity what the player is
    /// marked as.
    pub fn get_record(&self) -> (record: PlayerRecord)
        ensures
            record@ == (RecordView {
                steamid: self.steamid32@,
                player_type: self.player_type,
                notes: self.notes@,
            }),
    {
        PlayerRecord {
            steamid: self.steamid32.clone(),
            player_type: self.player_type,
            notes: self.notes.clone(),
        }
    }

    /// The friends list of the player, where a lookup brought it.
    pub fn friends_list(&self) -> (list: Option<&Vec<Friend>>)
        ensures
            match list {
                Some(friends) => self.friends() == Some(friends@),
                None => self.friends() is None,
            },
    {
        match &self.account_info {
            Some(Ok(info)) => match &info.friends {
                Some(Ok(list)) => Some(list),
                _ => None,
            },
            _ => None,
        }
    }
}

} // verus!
