//! The outcome of one hand (kyoku).
use vstd::prelude::*;

verus! {

/// Scores after a hand and the order in which players won it.
#[derive(Debug, Clone)]
pub struct KyokuResult {
    pub kyoku: u8,
    pub scores: [i32; 4],
    /// Winners in the order they won, first winner first; it breaks ties in the ranking.
    pub agari_order: Vec<u8>,
}

} // verus!
