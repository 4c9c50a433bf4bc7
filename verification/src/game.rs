//! What a replay tells of a match before its first frame: the stage and the
//! players.

use vstd::prelude::*;

verus! {

/// The identity of a player in online play.
#[derive(Clone, Debug, PartialEq, Eq)]
pub struct Netplay {
    /// The name that the player shows.
    pub name: String,
    /// The connect code of the player.
    pub code: String,
}

/// One player of a match.
#[derive(Clone, Debug, PartialEq, Eq)]
pub struct Player {
    /// The port that the player is plugged into, counted from 0.
    pub port: u8,
    /// The number of the character that the player chose.
    pub character: u8,
    /// The online identity, where the replay holds one.
    pub netplay: Option<Netplay>,
}

/// A match: its stage and its players in the order of the replay.
#[derive(Clone, Debug, PartialEq, Eq)]
pub struct Game {
    /// The number of the stage.
    pub stage: u16,
    /// The players, by rising port.
    pub players: Vec<Player>,
}

} // verus!
