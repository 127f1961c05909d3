//! Entries of a discard pile.
use crate::tile::Tile;
use vstd::prelude::*;

verus! {

/// A discarded tile and whether it was the tile just drawn.
#[derive(Debug, Clone, Copy)]
pub struct Sutehai {
    pub tile: Tile,
    pub is_tsumogiri: bool,
}

/// A discard, with the kan declared just before it (if any).
#[derive(Debug, Clone)]
pub struct KawaItem {
    pub kan: Vec<Tile>,
    pub sutehai: Sutehai,
}

} // verus!
