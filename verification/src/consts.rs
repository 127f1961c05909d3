//! Game-wide constants and the shapes of the observation encodings.
use vstd::prelude::*;

verus! {

/// The observation encoding version; only version 4 exists.
pub const VERSION: u32 = 4;

/// Starting score of each player; the game is zero-sum, so four of these make the total.
pub const INITIAL_SCORE: i32 = 60000;

/// Total points in the game: four times the starting score.
pub const TOTAL_SCORE: i32 = 4 * INITIAL_SCORE;

/// Number of actions: a discard per tile kind, pon, kan, agari, pass and three ding que suits.
pub const ACTION_SPACE: usize = 27 + 1 + 1 + 1 + 1 + 3;

/// Shape (channels, width) of the observation of encoding `version` (only 4 exists).
pub fn obs_shape(version: u32) -> (r: (usize, usize))
    requires
        version == 4,
    ensures
        r == (423usize, 27usize),
{
    (423, 27)
}

/// Shape (channels, width) of the oracle observation of encoding `version` (only 4 exists).
pub fn oracle_obs_shape(version: u32) -> (r: (usize, usize))
    requires
        version == 4,
    ensures
        r == (121usize, 27usize),
{
    (121, 27)
}

} // verus!
