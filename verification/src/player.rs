//! Player records and the running round counter.

use vstd::prelude::*;

verus! {

/// One player of the match.  `rounds_played` is the highest round number
/// through which this player has been confirmed present; a record is only
/// ever created in response to a participation event, so it starts at 1.
pub struct PaintballPlayer {
    pub player_name: String,
    pub rounds_played: u32,
}

impl PaintballPlayer {
    pub fn new(name: &String) -> (p: PaintballPlayer)
        ensures
            p.player_name@ == name@,
            p.rounds_played == 1,
    {
        PaintballPlayer { player_name: name.clone(), rounds_played: 1 }
    }

    pub fn get_name(&self) -> (r: &str)
        ensures
            r@ == self.player_name@,
    {
        self.player_name.as_str()
    }

    pub fn get_rounds_played(&self) -> (r: u32)
        ensures
            r == self.rounds_played,
    {
        self.rounds_played
    }

    /// Credits the player with one more round.
    pub fn add_player_rounds_played(&mut self)
        requires
            old(self).rounds_played < u32::MAX,
        ensures
            final(self).player_name == old(self).player_name,
            final(self).rounds_played == old(self).rounds_played + 1,
    {
        self.rounds_played = self.rounds_played + 1;
    }
}

impl Clone for PaintballPlayer {
    fn clone(&self) -> (p: Self)
        ensures
            p == *self,
    {
        PaintballPlayer { player_name: self.player_name.clone(), rounds_played: self.rounds_played }
    }
}

impl PartialEq for PaintballPlayer {
    fn eq(&self, other: &Self) -> (r: bool) {
        self.player_name == other.player_name && self.rounds_played == other.rounds_played
    }
}

impl vstd::std_specs::cmp::PartialEqSpecImpl for PaintballPlayer {
    open spec fn obeys_eq_spec() -> bool {
        true
    }

    open spec fn eq_spec(&self, other: &Self) -> bool {
        self.player_name@ == other.player_name@ && self.rounds_played == other.rounds_played
    }
}

/// The running count of rounds that have started so far.
pub struct PaintballGame {
    pub round_counter: u32,
}

impl PaintballGame {
    pub fn new() -> (g: PaintballGame)
        ensures
            g.round_counter == 0,
    {
        PaintballGame { round_counter: 0 }
    }

    /// Records that one more round has started.  Duplicate round-start
    /// markers are not deduplicated: each call counts one round.
    pub fn add_round(&mut self)
        requires
            old(self).round_counter < u32::MAX,
        ensures
            final(self).round_counter == old(self).round_counter + 1,
    {
        self.round_counter = self.round_counter + 1;
    }

    pub fn get_rounds(&self) -> (r: u32)
        ensures
            r == self.round_counter,
    {
        self.round_counter
    }
}

} // verus!
