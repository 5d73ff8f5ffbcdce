//! Verified core of a paintball match-log aggregator.
//!
//! A match log is a sequence of text lines.  Two kinds of line matter:
//! a round-start marker, which advances the round counter, and a player
//! participation line, from which a player name is extracted at a fixed
//! character offset.  The library keeps, for every player ever seen, the
//! highest round through which their presence has been confirmed, and
//! produces a per-round roster: for each round, the players whose counter
//! equals that round exactly.

pub mod aggregate;
pub mod classify;
pub mod player;
pub mod roster;
pub mod run;
