//! Read access to a seat's state.
use crate::state::action::{ActionCandidate, no_action};
use crate::state::player_state::{PlayerState, PlayerView};
use crate::tile::Tile;
use vstd::prelude::*;

verus! {

impl PlayerState {
    pub fn player_id(&self) -> (r: u8)
        ensures
            r == self.player_id,
    {
        self.player_id
    }

    /// The hand number, from 0.
    pub fn kyoku(&self) -> (r: u8)
        ensures
            r == self.kyoku,
    {
        self.kyoku
    }

    /// This seat deals the hand.
    pub fn is_oya(&self) -> (r: bool)
        ensures
            r == (self.oya == 0),
    {
        self.oya == 0
    }

    /// Counts of the concealed tiles by kind.
    pub fn tehai(&self) -> (r: [u8; 27])
        ensures
            r == self.tehai,
    {
        self.tehai
    }

    /// The tile kinds of this seat's pons.
    pub fn pons(&self) -> (r: &[u8])
        ensures
            r@ == self.pons@,
    {
        self.pons.as_slice()
    }

    /// The tile kinds of this seat's open kans.
    pub fn minkans(&self) -> (r: &[u8])
        ensures
            r@ == self.minkans@,
    {
        self.minkans.as_slice()
    }

    /// The tile kinds of this seat's concealed kans.
    pub fn ankans(&self) -> (r: &[u8])
        ensures
            r@ == self.ankans@,
    {
        self.ankans.as_slice()
    }

    /// This seat's draws in the hand.
    pub fn at_turn(&self) -> (r: u8)
        ensures
            r == self.at_turn,
    {
        self.at_turn
    }

    /// The shanten number as last computed (never below 0).
    pub fn shanten(&self) -> (r: i8)
        ensures
            r == self.shanten,
    {
        self.shanten
    }

    /// Tile kinds that would complete the hand now.
    pub fn waits(&self) -> (r: [bool; 27])
        ensures
            r == self.waits,
    {
        self.waits
    }

    /// The actions allowed after the last event.
    pub fn last_cans(&self) -> (r: ActionCandidate)
        ensures
            r == self.last_cans,
    {
        self.last_cans
    }

    /// Clears every allowed action and kan candidate (once all wins on a tile are settled).
    pub fn clear_action_candidates(&mut self)
        ensures
            final(self)@ == (PlayerView {
                last_cans: no_action(),
                ankan_candidates: Seq::empty(),
                kakan_candidates: Seq::empty(),
                ..old(self)@
            }),
    {
        self.last_cans = ActionCandidate::default();
        self.ankan_candidates.clear();
        self.kakan_candidates.clear();
    }

    /// The tile this seat drew last, if its last action was a draw.
    pub fn last_self_tsumo(&self) -> (r: Option<Tile>)
        ensures
            r == self.last_self_tsumo,
    {
        self.last_self_tsumo
    }

    /// The last tile discarded (or added to a kan) at the table.
    pub fn last_kawa_tile(&self) -> (r: Option<Tile>)
        ensures
            r == self.last_kawa_tile,
    {
        self.last_kawa_tile
    }

    /// The tiles this seat may form a concealed kan with now.
    pub fn ankan_candidates(&self) -> (r: &[Tile])
        ensures
            r@ == self.ankan_candidates@,
    {
        self.ankan_candidates.as_slice()
    }

    /// The tiles this seat may add to a pon now.
    pub fn kakan_candidates(&self) -> (r: &[Tile])
        ensures
            r@ == self.kakan_candidates@,
    {
        self.kakan_candidates.as_slice()
    }
}

} // verus!
