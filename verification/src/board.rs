//! The table before a hand: the deal drawn from a seeded shuffle of the full set.
use crate::env_core::{full_deck, generate_deck};
use crate::tile::Tile;
use sha3::Digest;
use vstd::prelude::*;

verus! {

/// What `Sha3_256` gives for the little-endian bytes of `nonce`, `key` and `kyoku`, in turn.
pub uninterp spec fn sha3_kyoku_seed(nonce: u64, key: u64, kyoku: u8) -> Seq<u8>;

/// What shuffling `deck` with a `ChaCha12Rng` seeded with `seed` leaves.
pub uninterp spec fn chacha12_shuffled(seed: Seq<u8>, deck: Seq<u8>) -> Seq<u8>;

/// The hash that seeds the shuffle of a hand: `sha3::Sha3_256` fed the little-endian bytes of
/// `nonce`, then `key`, then `kyoku`, and finalized. Claimed: the 32 bytes are
/// `sha3_kyoku_seed(nonce, key, kyoku)`, a function of the three values alone.
#[verifier::external_body]
fn kyoku_seed(nonce: u64, key: u64, kyoku: u8) -> (r: [u8; 32])
    ensures
        r@ == sha3_kyoku_seed(nonce, key, kyoku),
{
    <sha3::Sha3_256 as sha3::Digest>::new()
        .chain_update(nonce.to_le_bytes())
        .chain_update(key.to_le_bytes())
        .chain_update(kyoku.to_le_bytes())
        .finalize()
        .into()
}

/// Shuffles `deck` with `rand::seq::SliceRandom::shuffle` driven by
/// `rand_chacha::ChaCha12Rng::from_seed(seed)`. Claimed: the result is
/// `chacha12_shuffled(seed, deck)`, a function of the two alone (the generator is seeded,
/// nothing else), and, since the shuffle only swaps elements, it holds the same tiles.
#[verifier::external_body]
fn chacha12_shuffle(seed: [u8; 32], deck: &mut Vec<u8>)
    ensures
        final(deck)@ == chacha12_shuffled(seed@, old(deck)@),
        final(deck)@.len() == old(deck)@.len(),
        final(deck)@.to_multiset() == old(deck)@.to_multiset(),
{
    let mut rng = <rand_chacha::ChaCha12Rng as rand::SeedableRng>::from_seed(seed);
    rand::seq::SliceRandom::shuffle(deck.as_mut_slice(), &mut rng);
}

/// The full set shuffled for hand `kyoku` of the game seeded with `(nonce, key)`.
pub open spec fn seeded_deck(nonce: u64, key: u64, kyoku: u8) -> Seq<u8> {
    chacha12_shuffled(sha3_kyoku_seed(nonce, key, kyoku), full_deck())
}

/// A table before a hand: the hand number, the scores, the 13 tiles dealt to each seat and
/// the wall.
#[derive(Debug)]
pub struct Board {
    pub kyoku: u8,
    pub scores: [i32; 4],
    pub haipai: [[Tile; 13]; 4],
    pub yama: Vec<Tile>,
}

impl Default for Board {
    fn default() -> (r: Self)
        ensures
            r.kyoku == 0,
            forall|i: int| 0 <= i < 4 ==> #[trigger] r.scores[i] == 0,
            forall|i: int, j: int| 0 <= i < 4 && 0 <= j < 13 ==> #[trigger] r.haipai[i][j]@ == crate::tile::UNKNOWN_ID,
            r.yama@.len() == 0,
    {
        let t = Tile::default();
        Board { kyoku: 0, scores: [0i32; 4], haipai: [[t; 13]; 4], yama: Vec::new() }
    }
}

impl Board {
    /// Deals hand `kyoku` of the game seeded with `game_seed = (nonce, key)`: the full set is
    /// shuffled by a generator seeded with the hash of the nonce, the key and the hand number;
    /// seat `i` gets tiles `13 * i .. 13 * i + 13` of it and the last 56 are the wall.
    pub fn init_from_seed(&mut self, game_seed: (u64, u64))
        ensures
            final(self).kyoku == old(self).kyoku,
            final(self).scores == old(self).scores,
            forall|i: int, j: int|
                0 <= i < 4 && 0 <= j < 13 ==> #[trigger] final(self).haipai[i][j]@ == seeded_deck(
                    game_seed.0,
                    game_seed.1,
                    old(self).kyoku,
                )[13 * i + j],
            final(self).yama@.len() == 56,
            forall|k: int|
                0 <= k < 56 ==> #[trigger] final(self).yama@[k]@ == seeded_deck(game_seed.0, game_seed.1, old(self).kyoku)[52
                    + k],
            seeded_deck(game_seed.0, game_seed.1, old(self).kyoku).len() == 108,
            seeded_deck(game_seed.0, game_seed.1, old(self).kyoku).to_multiset() == full_deck().to_multiset(),
    {
        let (nonce, key) = game_seed;
        let seed = kyoku_seed(nonce, key, self.kyoku);
        let mut seq = generate_deck();
        chacha12_shuffle(seed, &mut seq);
        let ghost s = seq@;
        assert(s == seeded_deck(nonce, key, self.kyoku));
        self.deal_sequence(&seq);
    }

    /// Deals `seq` (108 tiles): seat `i` gets tiles `13 * i .. 13 * i + 13`, the last 56 are
    /// the wall; the hand number and scores stay.
    pub fn deal_sequence(&mut self, seq: &Vec<u8>)
        requires
            seq@.len() == 108,
        ensures
            final(self).kyoku == old(self).kyoku,
            final(self).scores == old(self).scores,
            forall|i: int, j: int| 0 <= i < 4 && 0 <= j < 13 ==> #[trigger] final(self).haipai[i][j]@ == seq@[13 * i + j],
            final(self).yama@.len() == 56,
            forall|k: int| 0 <= k < 56 ==> #[trigger] final(self).yama@[k]@ == seq@[52 + k],
    {
        let ghost s = seq@;
        let t0 = Tile::default();
        let mut haipai: [[Tile; 13]; 4] = [[t0; 13]; 4];
        let mut i: usize = 0;
        while i < 4
            invariant
                i <= 4,
                seq@ == s,
                s.len() == 108,
                forall|a: int, b: int| 0 <= a < i && 0 <= b < 13 ==> #[trigger] haipai[a][b]@ == s[13 * a + b],
            decreases 4 - i,
        {
            let mut row: [Tile; 13] = [t0; 13];
            let mut j: usize = 0;
            while j < 13
                invariant
                    j <= 13,
                    i < 4,
                    seq@ == s,
                    s.len() == 108,
                    forall|b: int| 0 <= b < j ==> #[trigger] row[b]@ == s[13 * i + b],
                decreases 13 - j,
            {
                row[j] = Tile::new_unchecked(seq[13 * i + j]);
                j += 1;
            }
            haipai[i] = row;
            i += 1;
        }
        let mut yama: Vec<Tile> = Vec::new();
        let mut k: usize = 52;
        while k < 108
            invariant
                52 <= k <= 108,
                seq@ == s,
                s.len() == 108,
                yama@.len() == k - 52,
                forall|m: int| 0 <= m < k - 52 ==> #[trigger] yama@[m]@ == s[52 + m],
            decreases 108 - k,
        {
            yama.push(Tile::new_unchecked(seq[k]));
            k += 1;
        }
        self.haipai = haipai;
        self.yama = yama;
    }
}

} // verus!
