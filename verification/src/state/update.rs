//! Applying the events of a hand to a seat's state (see `rules` for what each event does).
use crate::agari::AgariCalculator;
use crate::ding_que::{ding_que_forced_range, is_ding_que_tile, spec_is_ding_que_tile};
use crate::mjai::{Event, Suit};
use crate::state::action::ActionCandidate;
use crate::state::rules;
use crate::grp::range_sum;
use crate::shanten::calc_with_ding_que;
use crate::state::invariants::lemma_update_keeps_wf;
use crate::state::item::{KawaItem, Sutehai};
use crate::state::player_state::{
    PlayerState, PlayerView, lemma_kawa_view, lemma_kawa_view_push, lemma_melds_view,
    lemma_melds_view_push, lemma_melds_view_set, lemma_seats_view, lemma_seats_view_push,
    kawa_item_view,
};
use crate::state::rules::{
    cleared_for, deal, dealt, prologue, spec_update, update_ok, zeros27, on_event,
    chankan_offer, begin_own_kakan, pon_to_kan, add_ankan, begin_own_kan, finish_kan, kakan_meld,
    tsumo_yaku, ron_fan, tehai_plus, can_add, called_set, first_meld_of, kan_declared, without,
    calculator, completes, current_shanten, deltas_fit, index_of, slice_of, unkan_meld, kakan_tiles, known, pad_kawa, quad_tiles, rel,
    shanten_after_discard, skipped, take_out, take_out_all, tehai_sum, with_deltas,
    with_ding_que_forbidden, with_kan_candidates, with_shanten, with_shanten_discards, with_waits,
    witness, witness_all, pad_room, wf, StateError,
};
use crate::tile::{Tile, spec_tile, lemma_spec_tile};
use vstd::prelude::*;

verus! {

broadcast use vstd::array::group_array_axioms;

impl PlayerState {
    /// The seat of `actor` relative to this seat.
    pub fn rel(&self, actor: u8) -> (r: usize)
        requires
            actor < 4,
            self.player_id < 4,
        ensures
            r == rel(self@, actor),
            r < 4,
    {
        ((actor + 4 - self.player_id) % 4) as usize
    }

    /// Sees `tile` (see `witness`).
    fn witness_tile(&mut self, tile: Tile) -> (r: Result<(), StateError>)
        ensures
            (final(self)@, r) == witness(old(self)@, tile),
            final(self).kawa == old(self).kawa,
            final(self).kawa_overview == old(self).kawa_overview,
            final(self).tehai == old(self).tehai,
            final(self).pons@ == old(self).pons@,
            final(self).minkans@ == old(self).minkans@,
            final(self).ankans@ == old(self).ankans@,
    {
        if tile.is_unknown() {
            return Err(StateError::UnknownTile);
        }
        let tile_id = tile.as_usize();
        if self.tiles_seen[tile_id] >= 4 {
            return Err(StateError::FifthTile(tile));
        }
        self.tiles_seen[tile_id] = self.tiles_seen[tile_id] + 1;
        Ok(())
    }

    /// Sees `tiles` in order (see `witness_all`).
    fn witness_tiles(&mut self, tiles: &[Tile]) -> (r: Result<(), StateError>)
        ensures
            (final(self)@, r) == witness_all(old(self)@, tiles@),
    {
        let ghost v0 = self@;
        let mut i: usize = 0;
        while i < tiles.len()
            invariant
                i <= tiles@.len(),
                v0 == old(self)@,
                (self@, Ok::<(), StateError>(())) == witness_all(v0, tiles@.subrange(0, i as int)),
            decreases tiles.len() - i,
        {
            proof {
                assert(tiles@.subrange(0, i + 1).drop_last() =~= tiles@.subrange(0, i as int));
                assert(tiles@.subrange(0, i + 1).last() == tiles@[i as int]);
            }
            let r = self.witness_tile(tiles[i]);
            proof {
                assert(witness_all(v0, tiles@.subrange(0, i + 1)) == (self@, r));
            }
            if r.is_err() {
                proof {
                    lemma_witness_all_stops(v0, tiles@, i as int + 1);
                }
                return r;
            }
            i += 1;
        }
        assert(tiles@.subrange(0, tiles@.len() as int) =~= tiles@);
        Ok(())
    }

    /// Takes `tile` out of the concealed hand (see `take_out`).
    fn move_tile_out(&mut self, tile: Tile, discard: bool) -> (r: Result<(), StateError>)
        requires
            tile@ < 27,
        ensures
            (final(self)@, r) == take_out(old(self)@, tile, discard),
            final(self).kawa == old(self).kawa,
            final(self).kawa_overview == old(self).kawa_overview,
            final(self).tiles_seen == old(self).tiles_seen,
            final(self).pons@ == old(self).pons@,
            final(self).minkans@ == old(self).minkans@,
            final(self).ankans@ == old(self).ankans@,
    {
        let tile_id = tile.as_usize();
        if self.tehai[tile_id] == 0 {
            return Err(
                if discard {
                    StateError::DiscardNotInHand(tile)
                } else {
                    StateError::ConsumeNotInHand(tile)
                },
            );
        }
        self.tehai[tile_id] = self.tehai[tile_id] - 1;
        Ok(())
    }

    /// Takes `tiles` out of the concealed hand for a meld (see `take_out_all`).
    fn move_tiles_out(&mut self, tiles: &[Tile]) -> (r: Result<(), StateError>)
        requires
            known(tiles@),
        ensures
            (final(self)@, r) == take_out_all(old(self)@, tiles@),
    {
        let ghost v0 = self@;
        let mut i: usize = 0;
        while i < tiles.len()
            invariant
                i <= tiles@.len(),
                known(tiles@),
                v0 == old(self)@,
                (self@, Ok::<(), StateError>(())) == take_out_all(v0, tiles@.subrange(0, i as int)),
            decreases tiles.len() - i,
        {
            proof {
                assert(tiles@.subrange(0, i + 1).drop_last() =~= tiles@.subrange(0, i as int));
                assert(tiles@.subrange(0, i + 1).last() == tiles@[i as int]);
            }
            let r = self.move_tile_out(tiles[i], false);
            proof {
                assert(take_out_all(v0, tiles@.subrange(0, i + 1)) == (self@, r));
            }
            if r.is_err() {
                proof {
                    lemma_take_out_all_stops(v0, tiles@, i as int + 1);
                }
                return r;
            }
            i += 1;
        }
        assert(tiles@.subrange(0, tiles@.len() as int) =~= tiles@);
        Ok(())
    }

    /// Adds the payment `deltas` (by absolute seat) to the scores (see `with_deltas`).
    fn apply_score_deltas(&mut self, deltas: Option<[i32; 4]>)
        requires
            old(self).player_id < 4,
            deltas_fit(old(self)@, deltas),
        ensures
            final(self)@ == with_deltas(old(self)@, deltas),
    {
        if let Some(d) = deltas {
            let p = self.player_id as usize;
            let s0 = self.scores[0] + d[p % 4];
            let s1 = self.scores[1] + d[(p + 1) % 4];
            let s2 = self.scores[2] + d[(p + 2) % 4];
            let s3 = self.scores[3] + d[(p + 3) % 4];
            self.scores = [s0, s1, s2, s3];
        }
    }
}

/// Counts of at most four and at most fourteen tiles.
pub open spec fn hand_ok(v: PlayerView) -> bool {
    &&& forall|t: int| 0 <= t < 27 ==> #[trigger] v.tehai[t] <= 4
    &&& tehai_sum(v) <= 14
}

pub(crate) proof fn lemma_range_nonneg(h: Seq<u8>, n: int)
    ensures
        0 <= range_sum(h, 0, n),
    decreases n,
{
    if n > 0 {
        lemma_range_nonneg(h, n - 1);
    }
}

/// Changing one count changes the sum by the difference.
pub(crate) proof fn lemma_range_update(h: Seq<u8>, t: int, x: u8, n: int)
    requires
        0 <= t < h.len(),
        n <= h.len(),
    ensures
        range_sum(h.update(t, x), 0, n) == range_sum(h, 0, n) + if 0 <= t < n {
            x - h[t]
        } else {
            0
        },
    decreases n,
{
    if n > 0 {
        lemma_range_update(h, t, x, n - 1);
    }
}

/// Each count is at most the sum.
pub(crate) proof fn lemma_range_each(h: Seq<u8>, t: int, n: int)
    requires
        0 <= t < n,
    ensures
        h[t] <= range_sum(h, 0, n),
    decreases n,
{
    lemma_range_nonneg(h, n - 1);
    if t < n - 1 {
        lemma_range_each(h, t, n - 1);
    }
}

/// Sums the counts of a hand of at most fourteen tiles.
pub(crate) fn hand_sum(tehai: &[u8; 27]) -> (r: u8)
    requires
        range_sum(tehai@, 0, 27) <= 14,
    ensures
        r == range_sum(tehai@, 0, 27),
{
    let mut sum: u8 = 0;
    let mut i: usize = 0;
    while i < 27
        invariant
            i <= 27,
            range_sum(tehai@, 0, 27) <= 14,
            sum == range_sum(tehai@, 0, i as int),
        decreases 27 - i,
    {
        proof {
            lemma_range_mono27(tehai@, i + 1);
        }
        sum = sum + tehai[i];
        i += 1;
    }
    sum
}

pub(crate) proof fn lemma_range_mono27(h: Seq<u8>, n: int)
    requires
        0 <= n <= 27,
    ensures
        range_sum(h, 0, n) <= range_sum(h, 0, 27),
    decreases 27 - n,
{
    if n < 27 {
        lemma_range_mono27(h, n + 1);
    }
}

/// Four tiles per quad: the quads of a hand of at most fourteen tiles are at most three.
proof fn lemma_quads_bound(v: PlayerView, n: int)
    requires
        0 <= n <= 27,
    ensures
        4 * quad_tiles(v, n).len() <= range_sum(v.tehai@, 0, n),
    decreases n,
{
    if n > 0 {
        lemma_quads_bound(v, n - 1);
    }
}

/// Entries of `s` below `n`.
spec fn count_lt(s: Seq<u8>, n: int) -> int
    decreases s.len(),
{
    if s.len() == 0 {
        0
    } else {
        count_lt(s.drop_last(), n) + if s.last() < n {
            1int
        } else {
            0int
        }
    }
}

proof fn lemma_count_lt(s: Seq<u8>, n: int)
    ensures
        0 <= count_lt(s, n) <= s.len(),
        count_lt(s, n) <= count_lt(s, n + 1),
        s.contains(n as u8) && 0 <= n < 256 ==> count_lt(s, n) + 1 <= count_lt(s, n + 1),
    decreases s.len(),
{
    if s.len() > 0 {
        lemma_count_lt(s.drop_last(), n);
        if s.contains(n as u8) && 0 <= n < 256 && s.last() != n as u8 {
            let j = choose|j: int| 0 <= j < s.len() && s[j] == n as u8;
            assert(s.drop_last()[j] == n as u8);
        }
    }
}

/// Each added-kan candidate has a pon of its own kind: at most as many as pons.
proof fn lemma_kakans_bound(v: PlayerView, n: int)
    requires
        0 <= n <= 27,
    ensures
        kakan_tiles(v, n).len() <= count_lt(v.pons, n),
    decreases n,
{
    lemma_count_lt(v.pons, n);
    if n > 0 {
        lemma_kakans_bound(v, n - 1);
        lemma_count_lt(v.pons, n - 1);
        if v.tehai[n - 1] > 0 && v.tehai[n - 1] != 4 && !spec_is_ding_que_tile(n - 1, v.ding_que)
            && v.pons.contains((n - 1) as u8) {
            assert(kakan_tiles(v, n).len() == kakan_tiles(v, n - 1).len() + 1);
        } else {
            assert(kakan_tiles(v, n).len() == kakan_tiles(v, n - 1).len());
        }
    }
}

fn u8_in(s: &[u8], x: u8) -> (r: bool)
    ensures
        r == s@.contains(x),
{
    let mut i: usize = 0;
    while i < s.len()
        invariant
            i <= s@.len(),
            forall|j: int| 0 <= j < i ==> s@[j] != x,
        decreases s.len() - i,
    {
        if s[i] == x {
            return true;
        }
        i += 1;
    }
    false
}

impl PlayerState {
    /// Brings the shanten number up to date (see `with_shanten`).
    fn update_shanten(&mut self)
        requires
            hand_ok(old(self)@),
        ensures
            final(self)@ == with_shanten(old(self)@),
            final(self)@ == (PlayerView { shanten: final(self)@.shanten, ..old(self)@ }),
    {
        proof {
            reveal(with_shanten);
        }
        let sum = hand_sum(&self.tehai);
        let s = calc_with_ding_que(&self.tehai, sum / 3, self.ding_que);
        self.shanten = if s < 0 {
            0
        } else {
            s
        };
    }

    /// Works out the discards that lower or keep the shanten number (see
    /// `with_shanten_discards`).
    fn update_shanten_discards(&mut self)
        requires
            hand_ok(old(self)@),
        ensures
            final(self)@ == with_shanten_discards(old(self)@),
            final(self)@ == (PlayerView {
                next_shanten_discards: final(self)@.next_shanten_discards,
                keep_shanten_discards: final(self)@.keep_shanten_discards,
                has_next_shanten_discard: final(self)@.has_next_shanten_discard,
                ..old(self)@
            }),
    {
        let ghost v0 = self@;
        let sum = hand_sum(&self.tehai);
        let m: u8 = if sum >= 1 {
            (sum - 1) / 3
        } else {
            0
        };
        let mut next: [bool; 27] = [false; 27];
        let mut keep: [bool; 27] = [false; 27];
        let mut has_next = false;
        let mut tid: usize = 0;
        while tid < 27
            invariant
                tid <= 27,
                v0 == self@,
                hand_ok(v0),
                m == (if tehai_sum(v0) >= 1 {
                    (tehai_sum(v0) - 1) / 3
                } else {
                    0
                }),
                forall|j: int|
                    0 <= j < tid ==> #[trigger] next@[j] == (v0.tehai[j] > 0 && shanten_after_discard(
                        v0,
                        j,
                    ) < v0.shanten),
                forall|j: int|
                    0 <= j < tid ==> #[trigger] keep@[j] == (v0.tehai[j] > 0 && shanten_after_discard(
                        v0,
                        j,
                    ) == v0.shanten),
                forall|j: int| tid <= j < 27 ==> !#[trigger] next@[j],
                forall|j: int| tid <= j < 27 ==> !#[trigger] keep@[j],
                has_next == exists|j: int| 0 <= j < tid && #[trigger] next@[j],
            decreases 27 - tid,
        {
            if self.tehai[tid] > 0 {
                let mut tehai = self.tehai;
                tehai[tid] = tehai[tid] - 1;
                proof {
                    lemma_range_update(v0.tehai@, tid as int, tehai[tid as int], 27);
                    assert(tehai@ =~= v0.tehai@.update(tid as int, (v0.tehai[tid as int] - 1) as u8));
                }
                let after = calc_with_ding_que(&tehai, m, self.ding_que);
                if after < self.shanten {
                    next[tid] = true;
                    has_next = true;
                    assert(next@[tid as int]);
                } else if after == self.shanten {
                    keep[tid] = true;
                }
            }
            assert(has_next == exists|j: int| 0 <= j < tid + 1 && #[trigger] next@[j]) by {
                if !next@[tid as int] {
                    assert forall|j: int| 0 <= j < tid + 1 && #[trigger] next@[j] implies j < tid by {}
                }
            }
            tid += 1;
        }
        self.next_shanten_discards = next;
        self.keep_shanten_discards = keep;
        self.has_next_shanten_discard = has_next;
        proof {
            lemma_discards_result(v0, next@, keep@, has_next);
        }
    }

    /// Works out the waits (see `with_waits`).
    fn update_waits(&mut self)
        requires
            forall|t: int| 0 <= t < 27 ==> #[trigger] old(self).tehai[t] <= 4,
            tehai_sum(old(self)@) <= 13,
        ensures
            final(self)@ == with_waits(old(self)@),
            final(self)@ == (PlayerView { waits: final(self)@.waits, ..old(self)@ }),
    {
        let ghost v0 = self@;
        let mut waits: [bool; 27] = [false; 27];
        if self.shanten <= 0 {
            let sum = hand_sum(&self.tehai);
            let m = (sum + 1) / 3;
            let mut t: usize = 0;
            while t < 27
                invariant
                    t <= 27,
                    v0 == self@,
                    v0.shanten <= 0,
                    forall|k: int| 0 <= k < 27 ==> #[trigger] v0.tehai[k] <= 4,
                    tehai_sum(v0) <= 13,
                    m == (tehai_sum(v0) + 1) / 3,
                    forall|j: int|
                        0 <= j < t ==> #[trigger] waits[j] == (v0.tehai[j] != 4 && completes(v0, j)
                            && v0.tiles_seen[j] < 4),
                    forall|j: int| t <= j < 27 ==> !#[trigger] waits[j],
                decreases 27 - t,
            {
                if self.tehai[t] != 4 {
                    let mut after = self.tehai;
                    after[t] = after[t] + 1;
                    proof {
                        lemma_range_update(v0.tehai@, t as int, after[t as int], 27);
                        assert(after@ =~= v0.tehai@.update(t as int, (v0.tehai[t as int] + 1) as u8));
                    }
                    if calc_with_ding_que(&after, m, self.ding_que) == -1 {
                        waits[t] = self.tiles_seen[t] < 4;
                    }
                }
                t += 1;
            }
        }
        self.waits = waits;
        proof {
            reveal(with_waits);
            assert(self@.waits =~= with_waits(v0).waits);
        }
    }

    /// Forbids every tile outside the void suit while the hand holds the void suit (see
    /// `with_ding_que_forbidden`).
    fn update_ding_que_forbidden_tiles(&mut self)
        ensures
            final(self)@ == with_ding_que_forbidden(old(self)@),
            final(self)@ == (PlayerView { forbidden_tiles: final(self)@.forbidden_tiles, ..old(self)@ }),
    {
        let ghost v0 = self@;
        if let Some((start, end)) = ding_que_forced_range(&self.tehai, self.ding_que) {
            let mut i: usize = 0;
            while i < 27
                invariant
                    i <= 27,
                    v0.tehai == self.tehai,
                    self@ == (PlayerView { forbidden_tiles: self@.forbidden_tiles, ..v0 }),
                    forall|j: int|
                        0 <= j < 27 ==> #[trigger] self.forbidden_tiles[j] == if j < i && (j < start
                            || j >= end) {
                            true
                        } else {
                            v0.forbidden_tiles[j]
                        },
                decreases 27 - i,
            {
                if i < start || i >= end {
                    self.forbidden_tiles[i] = true;
                }
                i += 1;
            }
            proof {
                reveal(with_ding_que_forbidden);
                assert(self@.forbidden_tiles =~= with_ding_que_forbidden(v0).forbidden_tiles);
            }
        } else {
            proof {
                reveal(with_ding_que_forbidden);
            }
        }
    }

    /// Works out the kans the seat may declare (see `with_kan_candidates`).
    fn update_kan_candidates(&mut self)
        requires
            tehai_sum(old(self)@) <= 14,
            old(self).pons@.len() <= 4,
        ensures
            final(self)@ == with_kan_candidates(old(self)@),
            final(self)@ == (PlayerView {
                ankan_candidates: final(self)@.ankan_candidates,
                kakan_candidates: final(self)@.kakan_candidates,
                last_cans: final(self)@.last_cans,
                ..old(self)@
            }),
            final(self).last_cans == (ActionCandidate {
                can_ankan: final(self).last_cans.can_ankan,
                can_kakan: final(self).last_cans.can_kakan,
                ..old(self).last_cans
            }),
    {
        let ghost v0 = self@;
        let mut ankans: Vec<Tile> = Vec::new();
        let mut kakans: Vec<Tile> = Vec::new();
        let mut can_ankan = self.last_cans.can_ankan;
        let mut can_kakan = self.last_cans.can_kakan;
        proof {
            lemma_quads_bound(v0, 27);
            lemma_kakans_bound(v0, 27);
            lemma_count_lt(v0.pons, 27);
        }
        let mut tid: usize = 0;
        while tid < 27
            invariant
                tid <= 27,
                v0 == self@,
                ankans@ == quad_tiles(v0, tid as int),
                kakans@ == kakan_tiles(v0, tid as int),
                quad_tiles(v0, 27).len() <= 3,
                kakan_tiles(v0, 27).len() <= 4,
                can_ankan == (v0.last_cans.can_ankan || ankans@.len() > 0),
                can_kakan == (v0.last_cans.can_kakan || kakans@.len() > 0),
            decreases 27 - tid,
        {
            proof {
                lemma_quads_prefix(v0, tid as int);
                lemma_kakans_prefix(v0, tid as int);
            }
            let count = self.tehai[tid];
            if count > 0 && !is_ding_que_tile(tid, self.ding_que) {
                let tile = Tile::new_unchecked(tid as u8);
                if count == 4 {
                    can_ankan = true;
                    ankans.push(tile);
                } else if u8_in(self.pons.as_slice(), tid as u8) {
                    can_kakan = true;
                    kakans.push(tile);
                }
            }
            tid += 1;
        }
        self.ankan_candidates = ankans;
        self.kakan_candidates = kakans;
        self.last_cans.can_ankan = can_ankan;
        self.last_cans.can_kakan = can_kakan;
        proof {
            reveal(with_kan_candidates);
        }
    }

    /// Marks a skipped turn in the pile of each seat a call from `target` skips (see
    /// `pad_kawa`).
    fn pad_kawa_for_pon_or_daiminkan(&mut self, target: u8)
        requires
            target < 4,
            old(self).player_id < 4,
            pad_room(old(self)@, target),
        ensures
            final(self)@ == pad_kawa(old(self)@, target),
            final(self)@ == (PlayerView { kawa: final(self)@.kawa, ..old(self)@ }),
    {
        let ghost v0 = self@;
        let t = self.rel(target);
        let mut k: usize = 1;
        while k < 4
            invariant
                1 <= k <= 4,
                t == rel(v0, target),
                v0.player_id == self.player_id,
                pad_room(v0, target),
                forall|j: int|
                    0 <= j < 4 ==> #[trigger] self.kawa[j]@ == if skipped(v0, target, j) && j < k {
                        old(self).kawa[j]@.push(None)
                    } else {
                        old(self).kawa[j]@
                    },
                self@ == (PlayerView { kawa: self@.kawa, ..v0 }),
                pad_room(v0, target),
                v0 == old(self)@,
            decreases 4 - k,
        {
            if t < k {
                self.kawa[k].push(None);
            }
            k += 1;
        }
        proof {
            reveal(pad_kawa);
            let w = pad_kawa(v0, target);
            lemma_kawa_view(self.kawa);
            lemma_kawa_view(old(self).kawa);
            assert forall|j: int| 0 <= j < 4 implies #[trigger] self@.kawa[j] =~= w.kawa[j] by {}
            assert(self@.kawa =~= w.kawa);
        }
    }
}

/// The slice holding a slice's tiles is that slice.
pub(crate) proof fn lemma_slice_of(x: &[u8])
    ensures
        slice_of(x@) == x,
{
    broadcast use vstd::slice::group_slice_axioms;

    let y = slice_of(x@);
    assert(y@ == x@);
    assert(y =~= x);
}

/// The first index of `x` in `s`.
fn position(s: &Vec<u8>, x: u8) -> (r: Option<usize>)
    ensures
        match r {
            Some(p) => index_of(s@, x) == Some(p as int) && p < s@.len() && s@[p as int] == x,
            None => index_of(s@, x) is None,
        },
{
    let mut i: usize = 0;
    while i < s.len()
        invariant
            i <= s@.len(),
            forall|j: int| 0 <= j < i ==> s@[j] != x,
        decreases s.len() - i,
    {
        if s[i] == x {
            proof {
                let j = choose|j: int|
                    0 <= j < s@.len() && s@[j] == x && forall|k: int| 0 <= k < j ==> s@[k] != x;
                assert(s@.contains(x));
                if j < i {
                } else if j > i {
                    assert(s@[i as int] == x);
                }
            }
            return Some(i);
        }
        i += 1;
    }
    proof {
        if s@.contains(x) {
            let j = choose|j: int| 0 <= j < s@.len() && s@[j] == x;
        }
    }
    None
}

/// The first meld of `melds` with four tiles, the first of kind `t`.
fn first_unkan(melds: &Vec<Vec<Tile>>, t: u8) -> (r: Option<usize>)
    ensures
        match r {
            Some(j) => {
                &&& j < melds@.len()
                &&& melds@[j as int]@.len() == 4
                &&& melds@[j as int]@[0]@ == t
                &&& forall|i: int|
                    0 <= i < j ==> !(melds@[i]@.len() > 0 && melds@[i]@[0]@ == t && melds@[i]@.len()
                        == 4)
            },
            None => forall|i: int|
                0 <= i < melds@.len() ==> !(melds@[i]@.len() > 0 && melds@[i]@[0]@ == t
                    && melds@[i]@.len() == 4),
        },
{
    let mut j: usize = 0;
    while j < melds.len()
        invariant
            j <= melds@.len(),
            forall|i: int|
                0 <= i < j ==> !(melds@[i]@.len() > 0 && melds@[i]@[0]@ == t && melds@[i]@.len()
                    == 4),
        decreases melds.len() - j,
    {
        if melds[j].len() == 4 && melds[j][0].as_u8() == t {
            return Some(j);
        }
        j += 1;
    }
    None
}

proof fn lemma_discards_result(v0: PlayerView, next: Seq<bool>, keep: Seq<bool>, has: bool)
    requires
        next.len() == 27,
        keep.len() == 27,
        forall|j: int|
            0 <= j < 27 ==> #[trigger] next[j] == (v0.tehai[j] > 0 && shanten_after_discard(v0, j)
                < v0.shanten),
        forall|j: int|
            0 <= j < 27 ==> #[trigger] keep[j] == (v0.tehai[j] > 0 && shanten_after_discard(v0, j)
                == v0.shanten),
        has == exists|j: int| 0 <= j < 27 && #[trigger] next[j],
    ensures
        (PlayerView {
            next_shanten_discards: next,
            keep_shanten_discards: keep,
            has_next_shanten_discard: has,
            ..v0
        }) == with_shanten_discards(v0),
{
    reveal(with_shanten_discards);
    let w = with_shanten_discards(v0);
    assert(next =~= w.next_shanten_discards);
    assert(keep =~= w.keep_shanten_discards);
    if has {
        let j = choose|j: int| 0 <= j < 27 && #[trigger] next[j];
        assert(w.next_shanten_discards[j]);
    }
    if w.has_next_shanten_discard {
        let j = choose|j: int| 0 <= j < 27 && #[trigger] w.next_shanten_discards[j];
        assert(next[j]);
    }
}

proof fn lemma_ron_offer(v2: PlayerView, pai: Tile, fan: Option<u8>, allowed: bool)
    requires
        fan == (if can_add(v2, pai@ as int) {
            ron_fan(v2, pai, v2.last_discard_was_after_kan, false)
        } else {
            None
        }),
        allowed == match fan {
            Some(f) => rules::ron_allowed(v2, f),
            None => false,
        },
    ensures
        rules::ron_offer(v2, pai) == (PlayerView {
            current_ron_fan: if fan is Some {
                fan
            } else {
                v2.current_ron_fan
            },
            last_cans: ActionCandidate { can_ron_agari: allowed, ..v2.last_cans },
            ..v2
        }),
{
    reveal(rules::ron_offer);
}

/// Whether `take_out_all` succeeds, and the hand it leaves, depend on the hand alone.
proof fn lemma_take_out_all_tehai(a: PlayerView, b: PlayerView, tiles: Seq<Tile>)
    requires
        a.tehai == b.tehai,
    ensures
        take_out_all(a, tiles).1 == take_out_all(b, tiles).1,
        take_out_all(a, tiles).0.tehai == take_out_all(b, tiles).0.tehai,
    decreases tiles.len(),
{
    if tiles.len() > 0 {
        lemma_take_out_all_tehai(a, b, tiles.drop_last());
    }
}

/// `take_out_all` only lowers counts, by one per tile taken, and changes nothing else.
proof fn lemma_take_out_all_hand(a: PlayerView, tiles: Seq<Tile>)
    requires
        known(tiles),
    ensures
        take_out_all(a, tiles).0 == (PlayerView { tehai: take_out_all(a, tiles).0.tehai, ..a }),
        forall|t: int| 0 <= t < 27 ==> #[trigger] take_out_all(a, tiles).0.tehai[t] <= a.tehai[t],
        take_out_all(a, tiles).1 is Ok ==> range_sum(take_out_all(a, tiles).0.tehai@, 0, 27)
            == range_sum(a.tehai@, 0, 27) - tiles.len(),
    decreases tiles.len(),
{
    if tiles.len() > 0 {
        let p = tiles.drop_last();
        assert(known(p)) by {
            assert forall|i: int| 0 <= i < p.len() implies #[trigger] p[i]@ < 27 by {
                assert(p[i] == tiles[i]);
            }
        }
        lemma_take_out_all_hand(a, p);
        let (v1, r1) = take_out_all(a, p);
        if r1 is Ok {
            let t = tiles.last();
            assert(t@ < 27) by {
                assert(tiles[tiles.len() - 1]@ < 27);
            }
            if v1.tehai[t@ as int] > 0 {
                lemma_range_update(v1.tehai@, t@ as int, (v1.tehai[t@ as int] - 1) as u8, 27);
                assert(tehai_plus(v1, t@ as int, -1)@ == v1.tehai@.update(t@ as int, (v1.tehai[t@ as int] - 1) as u8));
            }
        }
    }
}

proof fn lemma_chankan_offer(v3: PlayerView, actor: u8, pai: Tile, fan: Option<u8>, allowed: bool)
    requires
        fan == (if can_add(v3, pai@ as int) {
            ron_fan(v3, pai, false, true)
        } else {
            None
        }),
        allowed == match fan {
            Some(f) => rules::ron_allowed(v3, f),
            None => false,
        },
    ensures
        chankan_offer(v3, actor, pai) == match fan {
            Some(f) => PlayerView {
                current_ron_fan: Some(f),
                last_cans: ActionCandidate { can_ron_agari: allowed, ..v3.last_cans },
                chankan_chance: true,
                chankan_kakan_actor: Some(actor),
                chankan_kakan_tile: Some(pai@),
                ..v3
            },
            None => v3,
        },
{
    reveal(chankan_offer);
}

proof fn lemma_zeros27(a: [u8; 27])
    requires
        a@ == Seq::new(27, |i: int| 0u8),
    ensures
        zeros27() == a,
{
    let z = zeros27();
    assert(z@ == Seq::new(27, |i: int| 0u8));
    assert(z =~= a);
}

pub(crate) proof fn lemma_range_zero(h: Seq<u8>, n: int)
    requires
        n <= h.len(),
        forall|t: int| 0 <= t < n ==> h[t] == 0,
    ensures
        range_sum(h, 0, n) == 0,
    decreases n,
{
    if n > 0 {
        lemma_range_zero(h, n - 1);
    }
}

/// Once a step of `deal` fails, every longer prefix fails the same way.
proof fn lemma_deal_stops(v: PlayerView, tiles: Seq<Tile>, n: int)
    requires
        0 <= n <= tiles.len(),
        deal(v, tiles.subrange(0, n)).1 is Err,
    ensures
        deal(v, tiles) == deal(v, tiles.subrange(0, n)),
    decreases tiles.len() - n,
{
    if n < tiles.len() {
        assert(tiles.subrange(0, n + 1).drop_last() =~= tiles.subrange(0, n));
        lemma_deal_stops(v, tiles, n + 1);
    } else {
        assert(tiles.subrange(0, n) =~= tiles);
    }
}

/// The prologue keeps the invariant.
proof fn lemma_prologue_wf(v: PlayerView, ev: Event)
    requires
        wf(v),
    ensures
        wf(prologue(v, ev)),
{
    reveal(prologue);
}

/// A state that keeps its invariant holds a hand the shanten functions take.
proof fn lemma_wf_hand(v: PlayerView)
    requires
        wf(v),
    ensures
        hand_ok(v),
{
    assert forall|t: int| 0 <= t < 27 implies #[trigger] v.tehai[t] <= 4 by {
        assert(v.tiles_seen[t] <= 4);
    }
}

impl PlayerState {
    /// The win check of `tehai` with this seat's melds, void suit and rules (see `calculator`).
    pub(crate) fn calc<'a>(
        &'a self,
        tehai: &'a [u8; 27],
        winning_tile: u8,
        is_ron: bool,
        is_after_kan: bool,
        is_kan_discard: bool,
        is_chankan: bool,
        is_haidi: bool,
    ) -> (c: AgariCalculator<'a>)
        ensures
            c == calculator(
                self@,
                tehai,
                winning_tile,
                is_ron,
                is_after_kan,
                is_kan_discard,
                is_chankan,
                is_haidi,
            ),
    {
        let c = AgariCalculator {
            tehai,
            pons: self.pons.as_slice(),
            minkans: self.minkans.as_slice(),
            ankans: self.ankans.as_slice(),
            winning_tile,
            is_ron,
            ding_que: self.ding_que,
            is_after_kan,
            is_kan_discard,
            is_chankan,
            exclude_gen_tile: None,
            is_haidi,
            is_tianhu: false,
            is_dihu: false,
            fan_config: self.fan_config,
        };
        proof {
            lemma_slice_of(c.pons);
            lemma_slice_of(c.minkans);
            lemma_slice_of(c.ankans);
        }
        c
    }

    /// Turns the first four-tile meld of relative seat `r` starting with kind `t` back into
    /// three tiles (see `unkan_meld`).
    fn unkan_meld(&mut self, r: usize, t: u8)
        requires
            r < 4,
        ensures
            final(self)@ == unkan_meld(old(self)@, r as int, t as int),
            final(self)@ == (PlayerView { fuuro_overview: final(self)@.fuuro_overview, ..old(self)@ }),
    {
        let ghost v0 = self@;
        let ghost melds = v0.fuuro_overview[r as int];
        proof {
            reveal(unkan_meld);
            lemma_melds_view(self.fuuro_overview);
        }
        match first_unkan(&self.fuuro_overview[r], t) {
            Some(j) => {
                let ghost k1 = self.fuuro_overview;
                let mut m = self.fuuro_overview[r][j].clone();
                proof {
                    assert(m@ =~= k1[r as int]@[j as int]@);
                }
                m.pop();
                self.fuuro_overview[r].set(j, m);
                proof {
                    lemma_melds_view_set(k1, self.fuuro_overview, r as int, j as int, m);
                    assert(melds.len() == k1[r as int]@.len());
                    assert(melds[j as int] == k1[r as int]@[j as int]@);
                    assert(exists|k: int|
                        0 <= k < melds.len() && melds[k].len() > 0 && melds[k][0]@ == t
                            && melds[k].len() == 4);
                    let k = choose|k: int|
                        0 <= k < melds.len() && melds[k].len() > 0 && melds[k][0]@ == t
                            && melds[k].len() == 4 && forall|i: int|
                            0 <= i < k ==> !(melds[i].len() > 0 && melds[i][0]@ == t
                                && melds[i].len() == 4);
                    assert(melds[k] == k1[r as int]@[k]@);
                    if k < j {
                    } else if k > j {
                        assert(!(melds[j as int].len() > 0 && melds[j as int][0]@ == t && melds[j as int].len() == 4));
                    }
                    assert(k == j);
                    assert(m@ =~= melds[j as int].drop_last());
                }
            },
            None => {
                proof {
                    assert forall|k: int| 0 <= k < melds.len() implies !(melds[k].len() > 0 && melds[k][0]@ == t
                        && melds[k].len() == 4) by {
                        assert(melds[k] == self.fuuro_overview[r as int]@[k]@);
                    }
                }
            },
        }
    }

    /// Whether a self-drawn win on `w` has a yaku (see `tsumo_yaku`).
    fn tsumo_win(&self, w: Tile, is_after_kan: bool, is_haidi: bool) -> (r: bool)
        ensures
            r == tsumo_yaku(self@, w, is_after_kan, is_haidi),
    {
        proof {
            reveal(tsumo_yaku);
        }
        self.calc(&self.tehai, w.as_u8(), false, is_after_kan, false, false, is_haidi).has_yaku()
    }

    /// The seat is to discard (see `start_discard_turn`).
    fn start_discard_turn(&mut self)
        requires
            hand_ok(old(self)@),
        ensures
            final(self)@ == rules::start_discard_turn(old(self)@),
            final(self).tehai == old(self).tehai,
            final(self).pons@ == old(self).pons@,
            final(self).player_id == old(self).player_id,
    {
        proof {
            reveal(rules::start_discard_turn);
        }
        self.last_cans.target_actor = self.player_id;
        self.last_cans.can_discard = true;
        self.update_ding_que_forbidden_tiles();
        self.update_shanten();
        self.update_shanten_discards();
    }

    /// Allows a self-drawn win on the drawn tile if it has a yaku (see `with_drawn_win`).
    fn check_drawn_win(&mut self, is_after_kan: bool, is_haidi: bool)
        ensures
            final(self)@ == rules::with_drawn_win(old(self)@, is_after_kan, is_haidi),
            final(self).tehai == old(self).tehai,
            final(self).pons@ == old(self).pons@,
            final(self).player_id == old(self).player_id,
    {
        proof {
            reveal(rules::with_drawn_win);
        }
        if let Some(winning_tile) = self.last_self_tsumo {
            let y = self.tsumo_win(winning_tile, is_after_kan, is_haidi);
            self.last_cans.can_tsumo_agari = y;
        }
    }

    /// Works out the kans unless the wall is empty (see `with_kans_unless_last`).
    fn kans_unless_last(&mut self)
        requires
            tehai_sum(old(self)@) <= 14,
            old(self).pons@.len() <= 4,
        ensures
            final(self)@ == rules::with_kans_unless_last(old(self)@),
    {
        proof {
            reveal(rules::with_kans_unless_last);
        }
        if self.tiles_left > 0 {
            self.update_kan_candidates();
        }
    }

    /// The dealer is to discard once every void suit is named (see `dealer_ready`).
    fn dealer_ready(&mut self)
        requires
            hand_ok(old(self)@),
            old(self).pons@.len() <= 4,
        ensures
            final(self)@ == rules::dealer_ready(old(self)@),
    {
        self.start_discard_turn();
        self.check_drawn_win(false, false);
        self.kans_unless_last();
    }

    /// Seat `actor` names `suit` (see `named`).
    fn name_void_suit(&mut self, actor: u8, suit: Suit)
        requires
            old(self).player_id < 4,
            actor < 4,
        ensures
            final(self)@ == rules::named(old(self)@, actor, suit),
            final(self).tehai == old(self).tehai,
            final(self).pons@ == old(self).pons@,
            final(self).player_id == old(self).player_id,
    {
        proof {
            reveal(rules::named);
        }
        if actor == self.player_id {
            self.ding_que = Some(suit);
            self.last_cans.can_ding_que = false;
        } else {
            let actor_rel = self.rel(actor);
            if actor_rel > 0 {
                self.other_ding_que[actor_rel - 1] = Some(suit);
            }
        }
    }

    /// A seat names its void suit (see `rules::ding_que`).
    fn ding_que(&mut self, actor: u8, suit: Suit)
        requires
            hand_ok(old(self)@),
            old(self).pons@.len() <= 4,
            old(self).player_id < 4,
            actor < 4,
        ensures
            final(self)@ == rules::ding_que(old(self)@, actor, suit),
    {
        self.name_void_suit(actor, suit);
        let all_selected = self.ding_que.is_some() && self.other_ding_que[0].is_some()
            && self.other_ding_que[1].is_some() && self.other_ding_que[2].is_some();
        if all_selected && self.oya == 0 {
            let tehai_sum = hand_sum(&self.tehai);
            if tehai_sum % 3 == 2 {
                self.dealer_ready();
            }
        }
    }

    /// This seat's added kan of kind `tile` was robbed (see `revert_kan`).
    fn revert_robbed_kan(&mut self, tile: u8)
        requires
            hand_ok(old(self)@),
            index_of(old(self)@.minkans, tile) is Some ==> old(self)@.pons.len() < 4,
            !old(self).last_cans.can_discard ==> tehai_sum(old(self)@) <= 13,
        ensures
            final(self)@ == rules::revert_kan(old(self)@, tile),
            final(self).player_id == old(self).player_id,
            final(self).scores == old(self).scores,
    {
        proof {
            reveal(rules::revert_kan);
        }
        if let Some(pos) = position(&self.minkans, tile) {
            self.minkans.remove(pos);
            self.pons.push(tile);
        }
        self.pending_kakan_tile = None;
        self.at_rinshan = false;
        self.intermediate_kan.clear();
        self.kans_on_board = if self.kans_on_board > 0 {
            self.kans_on_board - 1
        } else {
            0
        };
        self.unkan_meld(0, tile);
        self.update_shanten();
        if self.last_cans.can_discard {
            self.update_shanten_discards();
        } else {
            self.update_waits();
        }
    }

    /// Another seat's added kan was robbed by a third (see `undo_chankan`).
    fn undo_chankan(&mut self, target: u8)
        requires
            old(self).player_id < 4,
            target < 4,
            old(self).intermediate_kan@.len() > 0,
        ensures
            final(self)@ == rules::undo_chankan(old(self)@, target),
            final(self).player_id == old(self).player_id,
            final(self).scores == old(self).scores,
    {
        proof {
            reveal(rules::undo_chankan);
        }
        let chankan_tile = self.intermediate_kan[0];
        self.intermediate_kan.clear();
        self.kans_on_board = if self.kans_on_board > 0 {
            self.kans_on_board - 1
        } else {
            0
        };
        let victim = self.rel(target);
        self.unkan_meld(victim, chankan_tile.as_u8());
    }

    /// This seat draws `pai` (see `begin_draw`).
    fn begin_draw(&mut self, pai: Tile)
        requires
            old(self).at_turn < 255,
        ensures
            final(self)@ == rules::begin_draw(old(self)@, pai),
            final(self).tehai == old(self).tehai,
            final(self).tiles_seen == old(self).tiles_seen,
            final(self).pons@ == old(self).pons@,
            final(self).player_id == old(self).player_id,
    {
        proof {
            reveal(rules::begin_draw);
        }
        self.forbidden_tiles = [false; 27];
        self.temporary_furiten = false;
        self.furiten_passed_ron_fan = None;
        self.at_turn = self.at_turn + 1;
        self.last_self_tsumo = Some(pai);
        self.pending_kakan_tile = None;
        proof {
            assert(self@.forbidden_tiles =~= Seq::new(27, |i: int| false));
        }
    }

    /// The seat is to discard: shanten number and discards (see `own_turn_shanten`).
    fn own_turn_shanten(&mut self)
        requires
            hand_ok(old(self)@),
        ensures
            final(self)@ == rules::own_turn_shanten(old(self)@),
            final(self).tehai == old(self).tehai,
            final(self).pons@ == old(self).pons@,
    {
        proof {
            reveal(rules::own_turn_shanten);
        }
        self.last_cans.can_discard = true;
        self.update_shanten();
        self.update_shanten_discards();
    }

    /// Kans and the void-suit restriction unless the wall is empty (see
    /// `kans_and_void_unless_last`).
    fn kans_and_void_unless_last(&mut self)
        requires
            tehai_sum(old(self)@) <= 14,
            old(self).pons@.len() <= 4,
        ensures
            final(self)@ == rules::kans_and_void_unless_last(old(self)@),
    {
        proof {
            reveal(rules::kans_and_void_unless_last);
        }
        if self.tiles_left > 0 {
            self.update_kan_candidates();
            self.update_ding_que_forbidden_tiles();
        }
    }

    /// The seat is to discard after a draw (see `draw_discard_turn`).
    #[verifier::spinoff_prover]
    fn draw_discard_turn(&mut self)
        requires
            hand_ok(old(self)@),
            old(self).pons@.len() <= 4,
        ensures
            final(self)@ == rules::draw_discard_turn(old(self)@),
    {
        self.own_turn_shanten();
        let haidi = self.tiles_left == 0;
        let after_kan = self.at_rinshan;
        self.check_drawn_win(after_kan, haidi);
        self.kans_and_void_unless_last();
    }

    /// The drawn tile goes into the hand (see `take_in`).
    fn take_in(&mut self, pai: Tile)
        requires
            pai@ < 27,
            forall|t: int| 0 <= t < 27 ==> #[trigger] old(self).tehai[t] <= 4,
            old(self).tehai[pai@ as int] < 4,
            tehai_sum(old(self)@) <= 13,
        ensures
            final(self)@ == rules::take_in(old(self)@, pai),
            hand_ok(final(self)@),
            final(self).pons@ == old(self).pons@,
    {
        proof {
            reveal(rules::take_in);
        }
        let ghost v2 = self@;
        let tid = pai.as_usize();
        self.tehai[tid] = self.tehai[tid] + 1;
        proof {
            lemma_range_update(v2.tehai@, tid as int, self.tehai[tid as int], 27);
            assert(self.tehai@ =~= v2.tehai@.update(tid as int, self.tehai[tid as int]));
            assert(self.tehai == tehai_plus(v2, pai@ as int, 1));
        }
    }

    /// Only the void suit is to be named (see `await_void_choice`).
    fn await_void_choice(&mut self)
        requires
            hand_ok(old(self)@),
        ensures
            final(self)@ == rules::await_void_choice(old(self)@),
    {
        proof {
            reveal(rules::await_void_choice);
        }
        self.last_cans.can_ding_que = true;
        self.last_cans.can_discard = false;
        self.update_shanten();
    }

    /// The drawn tile goes into the hand (see `after_draw`).
    fn after_draw(&mut self, pai: Tile)
        requires
            pai@ < 27,
            forall|t: int| 0 <= t < 27 ==> #[trigger] old(self).tehai[t] <= 4,
            old(self).tehai[pai@ as int] < 4,
            tehai_sum(old(self)@) <= 13,
            old(self).pons@.len() <= 4,
        ensures
            final(self)@ == rules::after_draw(old(self)@, pai),
    {
        self.take_in(pai);
        if self.ding_que.is_none() {
            self.await_void_choice();
        } else {
            self.draw_discard_turn();
        }
    }

    /// A draw (see `rules::tsumo`).
    #[verifier::spinoff_prover]
    fn tsumo(&mut self, actor: u8, pai: Tile) -> (r: Result<(), StateError>)
        requires
            wf(old(self)@),
            actor == old(self).player_id && !old(self).has_agari ==> old(self).at_turn < 255
                && tehai_sum(old(self)@) <= 13,
        ensures
            (final(self)@, r) == rules::tsumo(old(self)@, actor, pai),
    {
        proof {
            lemma_wf_hand(self@);
        }
        let ghost v = self@;
        if self.tiles_left > 0 {
            self.tiles_left = self.tiles_left - 1;
        }
        if actor != self.player_id || self.has_agari {
            return Ok(());
        }
        self.begin_draw(pai);
        let ghost v1 = self@;
        let r = self.witness_tile(pai);
        if r.is_err() {
            return r;
        }
        proof {
            assert(v.tiles_seen[pai@ as int] < 4);
            assert(v.tehai[pai@ as int] <= v.tiles_seen[pai@ as int]);
        }
        self.after_draw(pai);
        Ok(())
    }

    /// Whether a ron on `t` wins, and its fan (see `ron_fan`).
    fn ron_check(&self, t: Tile, is_kan_discard: bool, is_chankan: bool) -> (r: Option<u8>)
        requires
            t@ < 27,
            self.tehai[t@ as int] < 4,
        ensures
            r == ron_fan(self@, t, is_kan_discard, is_chankan),
    {
        proof {
            reveal(ron_fan);
        }
        let tid = t.as_usize();
        let mut tehai = self.tehai;
        tehai[tid] = tehai[tid] + 1;
        let haidi = self.tiles_left == 0;
        let res = self.calc(&tehai, t.as_u8(), true, false, is_kan_discard, is_chankan, haidi).agari();
        match res {
            Some(crate::agari::Agari::Fan(f)) => Some(f),
            None => None,
        }
    }

    /// The discard goes to the pile of relative seat `r` (see `to_kawa`).
    fn to_kawa(&mut self, r: usize, pai: Tile, tsumogiri: bool)
        requires
            r < 4,
            old(self).kawa[r as int]@.len() < 55,
            old(self).kawa_overview[r as int]@.len() < 55,
        ensures
            final(self)@ == rules::to_kawa(old(self)@, r as int, pai, tsumogiri),
            final(self).tehai == old(self).tehai,
            final(self).tiles_seen == old(self).tiles_seen,
            final(self).pons@ == old(self).pons@,
            final(self).minkans@ == old(self).minkans@,
            final(self).ankans@ == old(self).ankans@,
            final(self).player_id == old(self).player_id,
            final(self).has_agari == old(self).has_agari,
            final(self).shanten == old(self).shanten,
            final(self).last_cans == old(self).last_cans,
    {
        proof {
            reveal(rules::to_kawa);
        }
        let ghost v1 = self@;
        let ghost k1 = self.kawa;
        let ghost o1 = self.kawa_overview;
        let was_kan = self.intermediate_kan.len() > 0;
        self.last_discard_was_after_kan = was_kan;
        let mut kan: Vec<Tile> = Vec::new();
        std::mem::swap(&mut kan, &mut self.intermediate_kan);
        let item = KawaItem { kan, sutehai: Sutehai { tile: pai, is_tsumogiri: tsumogiri } };
        proof {
            assert(kawa_item_view(Some(item)) == Some((v1.intermediate_kan, Sutehai { tile: pai, is_tsumogiri: tsumogiri })));
        }
        self.kawa[r].push(Some(item));
        self.kawa_overview[r].push(pai);
        self.last_kawa_tile = Some(pai);
        proof {
            lemma_kawa_view_push(k1, self.kawa, r as int, Some(item));
            lemma_seats_view_push(o1, self.kawa_overview, r as int, pai);
            assert(self@.intermediate_kan =~= Seq::<Tile>::empty());
        }
    }

    /// After this seat's own discard: nothing forbidden, no replacement draw (see `discarded`).
    fn discarded(&mut self)
        ensures
            final(self)@ == rules::discarded(old(self)@),
            final(self)@ == (PlayerView {
                forbidden_tiles: final(self)@.forbidden_tiles,
                at_rinshan: false,
                ..old(self)@
            }),
    {
        proof {
            reveal(rules::discarded);
        }
        self.forbidden_tiles = [false; 27];
        self.at_rinshan = false;
        proof {
            assert(self@.forbidden_tiles =~= Seq::new(27, |i: int| false));
        }
    }

    /// The shanten number after a tile of kind `pai` left the hand (see
    /// `shanten_after_leaving`).
    fn shanten_after_leaving(&mut self, pai: Tile, void_tile: bool)
        requires
            pai@ < 27,
            hand_ok(old(self)@),
            old(self).shanten > i8::MIN,
        ensures
            final(self)@ == rules::shanten_after_leaving(old(self)@, pai@ as int, void_tile),
            final(self)@ == (PlayerView { shanten: final(self)@.shanten, ..old(self)@ }),
    {
        proof {
            reveal(rules::shanten_after_leaving);
        }
        let tid = pai.as_usize();
        if self.next_shanten_discards[tid] {
            if void_tile || ding_que_forced_range(&self.tehai, self.ding_que).is_some() {
                self.update_shanten();
            } else {
                self.shanten = self.shanten - 1;
            }
        } else if !self.keep_shanten_discards[tid] {
            self.update_shanten();
        }
    }

    /// After this seat's own discard (see `after_own_discard`).
    fn after_own_discard(&mut self, pai: Tile)
        requires
            pai@ < 27,
            forall|t: int| 0 <= t < 27 ==> #[trigger] old(self).tehai[t] <= 4,
            tehai_sum(old(self)@) <= 13,
            old(self).shanten > i8::MIN,
        ensures
            final(self)@ == rules::after_own_discard(old(self)@, pai),
    {
        self.discarded();
        let void_tile = is_ding_que_tile(pai.as_usize(), self.ding_que);
        self.shanten_after_leaving(pai, void_tile);
        self.update_waits();
    }

    /// The fan of a ron on `t` when the hand has room for it (see `can_add`, `ron_fan`).
    fn ron_if_room(&self, t: Tile, is_kan_discard: bool, is_chankan: bool) -> (r: Option<u8>)
        requires
            t@ < 27,
            forall|k: int| 0 <= k < 27 ==> #[trigger] self.tehai[k] <= 4,
            tehai_sum(self@) <= 14,
            self.pons@.len() <= 4,
            self.minkans@.len() <= 4,
            self.ankans@.len() <= 4,
        ensures
            r == if can_add(self@, t@ as int) {
                ron_fan(self@, t, is_kan_discard, is_chankan)
            } else {
                None
            },
    {
        proof {
            reveal(can_add);
        }
        let tid = t.as_usize();
        let sum = hand_sum(&self.tehai);
        let hand_total = sum as usize + 3 * self.pons.len() + 3 * self.minkans.len() + 3
            * self.ankans.len();
        if hand_total == 13 && self.tehai[tid] < 4 {
            self.ron_check(t, is_kan_discard, is_chankan)
        } else {
            None
        }
    }

    /// A ron of fan `f` is allowed (see `ron_allowed`).
    fn furiten_allows(&self, f: u8) -> (r: bool)
        ensures
            r == rules::ron_allowed(self@, f),
    {
        proof {
            reveal(rules::ron_allowed);
        }
        !self.temporary_furiten || match self.furiten_passed_ron_fan {
            Some(p) => f > p,
            None => false,
        }
    }

    /// The fan of a ron on another seat's discard `pai`, and whether it is allowed.
    fn ron_values(&self, pai: Tile) -> (r: (Option<u8>, bool))
        requires
            pai@ < 27,
            forall|t: int| 0 <= t < 27 ==> #[trigger] self.tehai[t] <= 4,
            tehai_sum(self@) <= 14,
            self.pons@.len() <= 4,
            self.minkans@.len() <= 4,
            self.ankans@.len() <= 4,
        ensures
            r.0 == (if can_add(self@, pai@ as int) {
                ron_fan(self@, pai, self@.last_discard_was_after_kan, false)
            } else {
                None
            }),
            r.1 == match r.0 {
                Some(f) => rules::ron_allowed(self@, f),
                None => false,
            },
    {
        let fan = self.ron_if_room(pai, self.last_discard_was_after_kan, false);
        let allowed = match fan {
            Some(f) => self.furiten_allows(f),
            None => false,
        };
        (fan, allowed)
    }

    /// A ron on another seat's discard (see `ron_offer`).
    fn ron_offer(&mut self, pai: Tile)
        requires
            pai@ < 27,
            forall|t: int| 0 <= t < 27 ==> #[trigger] old(self).tehai[t] <= 4,
            tehai_sum(old(self)@) <= 14,
            old(self).pons@.len() <= 4,
            old(self).minkans@.len() <= 4,
            old(self).ankans@.len() <= 4,
        ensures
            final(self)@ == rules::ron_offer(old(self)@, pai),
    {
        let ghost v2 = self@;
        let (fan, allowed) = self.ron_values(pai);
        self.set_ron_offer(fan, allowed);
        proof {
            lemma_ron_offer(v2, pai, fan, allowed);
        }
    }

    fn set_ron_offer(&mut self, fan: Option<u8>, allowed: bool)
        ensures
            final(self)@ == (PlayerView {
                current_ron_fan: if fan is Some {
                    fan
                } else {
                    old(self)@.current_ron_fan
                },
                last_cans: ActionCandidate { can_ron_agari: allowed, ..old(self)@.last_cans },
                ..old(self)@
            }),
    {
        if fan.is_some() {
            self.current_ron_fan = fan;
        }
        self.last_cans.can_ron_agari = allowed;
    }

    /// A pon or open kan of another seat's discard (see `call_options`).
    fn call_options(&mut self, pai: Tile)
        requires
            pai@ < 27,
        ensures
            final(self)@ == rules::call_options(old(self)@, pai),
    {
        proof {
            reveal(rules::call_options);
        }
        if self.tiles_left > 0 {
            let tid = pai.as_usize();
            let void = is_ding_que_tile(tid, self.ding_que);
            self.last_cans.can_pon = !void && self.tehai[tid] >= 2;
            self.last_cans.can_daiminkan = !void && self.tehai[tid] == 3;
        }
    }

    /// A discard (see `rules::dahai`).
    #[verifier::spinoff_prover]
    fn dahai(&mut self, actor: u8, pai: Tile, tsumogiri: bool) -> (r: Result<(), StateError>)
        requires
            wf(old(self)@),
            actor < 4,
            rel(old(self)@, actor) == 0 ==> pai@ < 27,
            (if rel(old(self)@, actor) == 0 {
                take_out(old(self)@, pai, true).1
            } else {
                witness(old(self)@, pai).1
            }) is Ok ==> old(self)@.kawa[rel(old(self)@, actor)].len() < 55
                && old(self)@.kawa_overview[rel(old(self)@, actor)].len() < 55,
        ensures
            (final(self)@, r) == rules::dahai(old(self)@, actor, pai, tsumogiri),
    {
        proof {
            lemma_wf_hand(self@);
            lemma_kawa_view(self.kawa);
            crate::state::player_state::lemma_seats_view(self.kawa_overview);
        }
        let r = self.rel(actor);
        if r == 0 {
            let res = self.move_tile_out(pai, true);
            if res.is_err() {
                return res;
            }
        } else {
            let res = self.witness_tile(pai);
            if res.is_err() {
                return res;
            }
        }
        self.to_kawa(r, pai, tsumogiri);
        if r == 0 {
            proof {
                lemma_range_update(old(self).tehai@, pai@ as int, self.tehai[pai@ as int], 27);
                lemma_range_each(old(self).tehai@, pai@ as int, 27);
                assert(self.tehai@ =~= old(self).tehai@.update(pai@ as int, self.tehai[pai@ as int]));
            }
            self.after_own_discard(pai);
            return Ok(());
        }
        if self.has_agari {
            return Ok(());
        }
        proof {
            assert(self.tehai[pai@ as int] <= self.tiles_seen[pai@ as int]) by {
                assert(old(self).tehai[pai@ as int] <= old(self).tiles_seen[pai@ as int]);
            }
        }
        self.ron_offer(pai);
        self.call_options(pai);
        Ok(())
    }

    /// A meld added to the melds of relative seat `r` (see `add_meld`).
    fn add_meld(&mut self, r: usize, meld: Vec<Tile>)
        requires
            r < 4,
        ensures
            final(self)@ == rules::add_meld(old(self)@, r as int, meld@),
            final(self)@ == (PlayerView { fuuro_overview: final(self)@.fuuro_overview, ..old(self)@ }),
    {
        proof {
            reveal(rules::add_meld);
        }
        let ghost k1 = self.fuuro_overview;
        self.fuuro_overview[r].push(meld);
        proof {
            lemma_melds_view_push(k1, self.fuuro_overview, r as int, meld);
        }
    }

    /// This seat calls a pon (see `begin_own_pon`).
    #[verifier::spinoff_prover]
    fn begin_own_pon(&mut self)
        ensures
            final(self)@ == rules::begin_own_pon(old(self)@),
            final(self)@.tehai == old(self)@.tehai,
            final(self)@.tiles_seen == old(self)@.tiles_seen,
            final(self)@.pons == old(self)@.pons,
            final(self)@.shanten == old(self)@.shanten,
    {
        proof {
            reveal(rules::begin_own_pon);
        }
        self.forbidden_tiles = [false; 27];
        self.temporary_furiten = false;
        self.furiten_passed_ron_fan = None;
        self.last_cans.can_discard = true;
        self.tehai_len_div3 = if self.tehai_len_div3 > 0 {
            self.tehai_len_div3 - 1
        } else {
            0
        };
        self.last_self_tsumo = None;
        proof {
            assert(self@.forbidden_tiles =~= Seq::new(27, |i: int| false));
        }
    }

    /// The pon is recorded (see `record_pon`).
    fn record_pon(&mut self, pai: Tile)
        requires
            pai@ < 27,
        ensures
            final(self)@ == rules::record_pon(old(self)@, pai),
            final(self)@.tehai == old(self)@.tehai,
            final(self)@.pons == old(self)@.pons.push(pai@),
    {
        proof {
            reveal(rules::record_pon);
        }
        self.pons.push(pai.as_u8());
        let tid = pai.as_usize();
        if self.tehai[tid] > 0 {
            self.forbidden_tiles[tid] = true;
        }
    }

    /// The void-suit restriction, shanten number and discards (see `void_shanten_discards`).
    fn void_shanten_discards(&mut self)
        requires
            hand_ok(old(self)@),
        ensures
            final(self)@ == rules::void_shanten_discards(old(self)@),
    {
        proof {
            reveal(rules::void_shanten_discards);
        }
        self.update_ding_que_forbidden_tiles();
        self.update_shanten();
        self.update_shanten_discards();
    }

    /// The called tiles as a vector, the called tile last.
    fn called<const N: usize>(consumed: &[Tile; N], pai: Tile) -> (r: Vec<Tile>)
        ensures
            r@ == called_set(*consumed, pai),
    {
        let mut v: Vec<Tile> = Vec::new();
        let mut i: usize = 0;
        while i < N
            invariant
                i <= N,
                v@ == consumed@.subrange(0, i as int),
            decreases N - i,
        {
            v.push(consumed[i]);
            proof {
                assert(v@ =~= consumed@.subrange(0, i + 1));
            }
            i += 1;
        }
        v.push(pai);
        proof {
            assert(consumed@.subrange(0, N as int) =~= consumed@);
        }
        v
    }

    /// A pon (see `rules::pon`).
    #[verifier::spinoff_prover]
    fn pon(&mut self, actor: u8, target: u8, pai: Tile, consumed: [Tile; 2]) -> (r: Result<(), StateError>)
        requires
            wf(old(self)@),
            actor < 4,
            target < 4,
            old(self)@.fuuro_overview[rel(old(self)@, actor)].len() < 4,
            rel(old(self)@, actor) == 0 ==> pad_room(old(self)@, target) && known(consumed@),
            rel(old(self)@, actor) == 0 && take_out_all(old(self)@, consumed@).1 is Ok
                ==> old(self)@.pons.len() < 4 && pai@ < 27,
        ensures
            (final(self)@, r) == rules::pon(old(self)@, actor, target, pai, consumed),
    {
        proof {
            lemma_wf_hand(self@);
        }
        let ghost v0 = self@;
        let r = self.rel(actor);
        let meld = Self::called(&consumed, pai);
        self.add_meld(r, meld);
        if r != 0 {
            return self.witness_tiles(&consumed);
        }
        self.pad_kawa_for_pon_or_daiminkan(target);
        self.begin_own_pon();
        let ghost v3 = self@;
        let res = self.move_tiles_out(&consumed);
        proof {
            lemma_take_out_all_tehai(v0, v3, consumed@);
        }
        if res.is_err() {
            return res;
        }
        proof {
            lemma_take_out_all_hand(v3, consumed@);
            assert(consumed@[0]@ < 27);
        }
        self.record_pon(pai);
        self.void_shanten_discards();
        Ok(())
    }

    /// A kan was declared (see `kan_declared`).
    fn declare_kan(&mut self, t: Tile)
        requires
            old(self).kans_on_board < 255,
        ensures
            final(self)@ == kan_declared(old(self)@, t),
    {
        self.intermediate_kan = Vec::new();
        self.intermediate_kan.push(t);
        self.kans_on_board = self.kans_on_board + 1;
        proof {
            assert(self@.intermediate_kan =~= seq![t]);
        }
    }

    /// This seat declares an open or concealed kan (see `begin_own_kan`).
    fn begin_own_kan(&mut self)
        ensures
            final(self)@ == begin_own_kan(old(self)@),
            final(self)@.tehai == old(self)@.tehai,
            final(self)@.tiles_seen == old(self)@.tiles_seen,
            final(self)@.minkans == old(self)@.minkans,
            final(self)@.ankans == old(self)@.ankans,
            final(self)@.shanten == old(self)@.shanten,
    {
        proof {
            reveal(begin_own_kan);
        }
        self.at_rinshan = true;
        self.temporary_furiten = false;
        self.furiten_passed_ron_fan = None;
        self.tehai_len_div3 = if self.tehai_len_div3 > 0 {
            self.tehai_len_div3 - 1
        } else {
            0
        };
    }

    /// The kan recorded, then shanten number and waits (see `finish_kan`).
    fn finish_kan(&mut self, t: u8, open: bool)
        requires
            forall|k: int| 0 <= k < 27 ==> #[trigger] old(self).tehai[k] <= 4,
            tehai_sum(old(self)@) <= 13,
            open ==> old(self).minkans@.len() < 4,
            !open ==> old(self).ankans@.len() < 4,
        ensures
            final(self)@ == finish_kan(old(self)@, t, open),
    {
        proof {
            reveal(finish_kan);
        }
        if open {
            self.minkans.push(t);
        } else {
            self.ankans.push(t);
        }
        self.update_shanten();
        self.update_waits();
    }

    /// An open kan (see `rules::daiminkan`).
    #[verifier::spinoff_prover]
    fn daiminkan(
        &mut self,
        actor: u8,
        target: u8,
        pai: Tile,
        consumed: [Tile; 3],
        deltas: Option<[i32; 4]>,
    ) -> (r: Result<(), StateError>)
        requires
            wf(old(self)@),
            actor < 4,
            target < 4,
            deltas_fit(old(self)@, deltas),
            old(self)@.fuuro_overview[rel(old(self)@, actor)].len() < 4,
            old(self).kans_on_board < 255,
            rel(old(self)@, actor) == 0 ==> pad_room(old(self)@, target) && known(consumed@),
            rel(old(self)@, actor) == 0 && take_out_all(old(self)@, consumed@).1 is Ok
                ==> old(self)@.minkans.len() < 4,
        ensures
            (final(self)@, r) == rules::daiminkan(old(self)@, actor, target, pai, consumed, deltas),
    {
        proof {
            lemma_wf_hand(self@);
        }
        let ghost v0 = self@;
        self.apply_score_deltas(deltas);
        let r = self.rel(actor);
        let meld = Self::called(&consumed, pai);
        self.add_meld(r, meld);
        if r != 0 {
            self.declare_kan(pai);
            return self.witness_tiles(&consumed);
        }
        self.pad_kawa_for_pon_or_daiminkan(target);
        self.declare_kan(pai);
        self.begin_own_kan();
        let ghost v5 = self@;
        let res = self.move_tiles_out(&consumed);
        proof {
            lemma_take_out_all_tehai(v0, v5, consumed@);
        }
        if res.is_err() {
            return res;
        }
        proof {
            lemma_take_out_all_hand(v5, consumed@);
        }
        self.finish_kan(pai.as_u8(), true);
        Ok(())
    }

    /// The first meld of `melds` that starts with `t`, all melds non-empty.
    fn first_meld(melds: &Vec<Vec<Tile>>, t: Tile) -> (r: Option<usize>)
        requires
            forall|j: int| 0 <= j < melds@.len() ==> #[trigger] melds@[j]@.len() >= 1,
        ensures
            match r {
                Some(j) => j < melds@.len() && melds@[j as int]@[0] == t && forall|i: int|
                    0 <= i < j ==> melds@[i]@[0] != t,
                None => forall|i: int| 0 <= i < melds@.len() ==> melds@[i]@[0] != t,
            },
    {
        let mut j: usize = 0;
        while j < melds.len()
            invariant
                j <= melds@.len(),
                forall|i: int| 0 <= i < melds@.len() ==> #[trigger] melds@[i]@.len() >= 1,
                forall|i: int| 0 <= i < j ==> melds@[i]@[0] != t,
            decreases melds.len() - j,
        {
            if melds[j][0] == t {
                return Some(j);
            }
            j += 1;
        }
        None
    }

    /// `t` added to the first meld of relative seat `r` starting with `t` (see `kakan_meld`).
    fn kakan_meld(&mut self, r: usize, t: Tile)
        requires
            r < 4,
            forall|j: int|
                0 <= j < old(self)@.fuuro_overview[r as int].len() ==> #[trigger] old(self)@.fuuro_overview[r as int][j].len()
                    >= 1,
            match first_meld_of(old(self)@.fuuro_overview[r as int], t) {
                Some(j) => old(self)@.fuuro_overview[r as int][j].len() < 4,
                None => true,
            },
        ensures
            final(self)@ == kakan_meld(old(self)@, r as int, t),
            final(self)@ == (PlayerView { fuuro_overview: final(self)@.fuuro_overview, ..old(self)@ }),
    {
        proof {
            reveal(kakan_meld);
            lemma_melds_view(self.fuuro_overview);
        }
        let ghost v0 = self@;
        let ghost melds = v0.fuuro_overview[r as int];
        proof {
            assert forall|j: int| 0 <= j < self.fuuro_overview[r as int]@.len() implies #[trigger] self.fuuro_overview[r as int]@[j]@.len() >= 1 by {
                assert(melds[j] == self.fuuro_overview[r as int]@[j]@);
            }
        }
        match Self::first_meld(&self.fuuro_overview[r], t) {
            Some(j) => {
                let ghost k1 = self.fuuro_overview;
                proof {
                    assert(melds[j as int] == k1[r as int]@[j as int]@);
                    assert(exists|k: int| 0 <= k < melds.len() && melds[k][0] == t);
                    let k = choose|k: int|
                        0 <= k < melds.len() && melds[k][0] == t && forall|i: int|
                            0 <= i < k ==> melds[i][0] != t;
                    assert(melds[k] == k1[r as int]@[k]@);
                    if k < j {
                    } else if k > j {
                        assert(melds[j as int][0] == t);
                    }
                    assert(first_meld_of(melds, t) == Some(j as int));
                }
                let mut m = self.fuuro_overview[r][j].clone();
                proof {
                    assert(m@ =~= k1[r as int]@[j as int]@);
                }
                m.push(t);
                self.fuuro_overview[r].set(j, m);
                proof {
                    lemma_melds_view_set(k1, self.fuuro_overview, r as int, j as int, m);
                }
            },
            None => {
                proof {
                    assert forall|k: int| 0 <= k < melds.len() implies melds[k][0] != t by {
                        assert(melds[k] == self.fuuro_overview[r as int]@[k]@);
                    }
                }
            },
        }
    }

    /// The fan of a robbing win on `pai` and whether it is allowed.
    fn chankan_values(&self, pai: Tile) -> (r: (Option<u8>, bool))
        requires
            pai@ < 27,
            forall|t: int| 0 <= t < 27 ==> #[trigger] self.tehai[t] <= 4,
            tehai_sum(self@) <= 14,
            self.pons@.len() <= 4,
            self.minkans@.len() <= 4,
            self.ankans@.len() <= 4,
        ensures
            r.0 == (if can_add(self@, pai@ as int) {
                ron_fan(self@, pai, false, true)
            } else {
                None
            }),
            r.1 == match r.0 {
                Some(f) => rules::ron_allowed(self@, f),
                None => false,
            },
    {
        let fan = self.ron_if_room(pai, false, true);
        let allowed = match fan {
            Some(f) => self.furiten_allows(f),
            None => false,
        };
        (fan, allowed)
    }

    fn set_chankan(&mut self, actor: u8, pai: Tile, fan: Option<u8>, allowed: bool)
        ensures
            final(self)@ == match fan {
                Some(f) => PlayerView {
                    current_ron_fan: Some(f),
                    last_cans: ActionCandidate { can_ron_agari: allowed, ..old(self)@.last_cans },
                    chankan_chance: true,
                    chankan_kakan_actor: Some(actor),
                    chankan_kakan_tile: Some(pai@),
                    ..old(self)@
                },
                None => old(self)@,
            },
    {
        if let Some(f) = fan {
            self.current_ron_fan = Some(f);
            self.last_cans.can_ron_agari = allowed;
            self.chankan_chance = Some(());
            self.chankan_kakan_actor = Some(actor);
            self.chankan_kakan_tile = Some(pai.as_u8());
        }
    }

    /// Another seat adds `pai` to a pon (see `chankan_check`).
    fn chankan_check(&mut self, actor: u8, pai: Tile)
        requires
            pai@ < 27,
            forall|t: int| 0 <= t < 27 ==> #[trigger] old(self).tehai[t] <= 4,
            tehai_sum(old(self)@) <= 14,
            old(self).pons@.len() <= 4,
            old(self).minkans@.len() <= 4,
            old(self).ankans@.len() <= 4,
        ensures
            final(self)@ == rules::chankan_check(old(self)@, actor, pai),
    {
        proof {
            reveal(rules::chankan_check);
        }
        self.last_kawa_tile = Some(pai);
        let ghost v3 = self@;
        let (fan, allowed) = self.chankan_values(pai);
        self.set_chankan(actor, pai, fan, allowed);
        proof {
            lemma_chankan_offer(v3, actor, pai, fan, allowed);
        }
    }

    /// This seat adds `pai` to its pon (see `begin_own_kakan`).
    fn begin_own_kakan(&mut self, pai: Tile)
        ensures
            final(self)@ == begin_own_kakan(old(self)@, pai),
            final(self)@.tehai == old(self)@.tehai,
            final(self)@.tiles_seen == old(self)@.tiles_seen,
            final(self)@.pons == old(self)@.pons,
            final(self)@.minkans == old(self)@.minkans,
            final(self)@.shanten == old(self)@.shanten,
    {
        proof {
            reveal(begin_own_kakan);
        }
        self.at_rinshan = true;
        self.temporary_furiten = false;
        self.furiten_passed_ron_fan = None;
        self.pending_kakan_tile = Some(pai.as_u8());
    }

    /// This seat's pon of `pai` becomes an open kan (see `pon_to_kan`).
    fn pon_to_kan(&mut self, pai: Tile)
        requires
            old(self).minkans@.len() < 4,
        ensures
            final(self)@ == pon_to_kan(old(self)@, pai),
            final(self)@.tehai == old(self)@.tehai,
            final(self)@.shanten == old(self)@.shanten,
    {
        proof {
            reveal(pon_to_kan);
        }
        let ghost p0 = self.pons@;
        let mut kept: Vec<u8> = Vec::new();
        let mut i: usize = 0;
        while i < self.pons.len()
            invariant
                i <= self.pons@.len(),
                self.pons@ == p0,
                kept@ == without(p0.subrange(0, i as int), pai@),
            decreases self.pons.len() - i,
        {
            proof {
                assert(p0.subrange(0, i + 1).drop_last() =~= p0.subrange(0, i as int));
            }
            if self.pons[i] != pai.as_u8() {
                kept.push(self.pons[i]);
            }
            i += 1;
        }
        proof {
            assert(p0.subrange(0, p0.len() as int) =~= p0);
        }
        self.pons = kept;
        self.minkans.push(pai.as_u8());
    }

    /// An added kan (see `rules::kakan`).
    #[verifier::spinoff_prover]
    fn kakan(&mut self, actor: u8, pai: Tile, deltas: Option<[i32; 4]>) -> (r: Result<(), StateError>)
        requires
            wf(old(self)@),
            actor < 4,
            deltas_fit(old(self)@, deltas),
            match first_meld_of(old(self)@.fuuro_overview[rel(old(self)@, actor)], pai) {
                Some(j) => old(self)@.fuuro_overview[rel(old(self)@, actor)][j].len() < 4,
                None => true,
            },
            old(self).kans_on_board < 255,
            rel(old(self)@, actor) == 0 ==> pai@ < 27,
            rel(old(self)@, actor) == 0 && take_out(old(self)@, pai, false).1 is Ok
                ==> old(self)@.minkans.len() < 4,
        ensures
            (final(self)@, r) == rules::kakan(old(self)@, actor, pai, deltas),
    {
        proof {
            lemma_wf_hand(self@);
        }
        let ghost v0 = self@;
        self.apply_score_deltas(deltas);
        let r = self.rel(actor);
        self.kakan_meld(r, pai);
        self.declare_kan(pai);
        if r != 0 {
            if self.has_agari {
                return Ok(());
            }
            let res = self.witness_tile(pai);
            if res.is_err() {
                return res;
            }
            proof {
                assert(self.tehai[pai@ as int] <= self.tiles_seen[pai@ as int]) by {
                    assert(v0.tehai[pai@ as int] <= v0.tiles_seen[pai@ as int]);
                }
            }
            self.chankan_check(actor, pai);
            return Ok(());
        }
        self.begin_own_kakan(pai);
        let res = self.move_tile_out(pai, false);
        if res.is_err() {
            return res;
        }
        proof {
            lemma_range_update(v0.tehai@, pai@ as int, self.tehai[pai@ as int], 27);
            lemma_range_each(v0.tehai@, pai@ as int, 27);
            assert(self.tehai@ =~= v0.tehai@.update(pai@ as int, self.tehai[pai@ as int]));
        }
        self.pon_to_kan(pai);
        self.shanten_after_leaving(pai, false);
        self.update_waits();
        Ok(())
    }

    /// A concealed kan of relative seat `r` on record (see `add_ankan`).
    fn add_ankan(&mut self, r: usize, t: Tile)
        requires
            r < 4,
        ensures
            final(self)@ == add_ankan(old(self)@, r as int, t),
            final(self)@ == (PlayerView { ankan_overview: final(self)@.ankan_overview, ..old(self)@ }),
    {
        proof {
            reveal(add_ankan);
        }
        let ghost k1 = self.ankan_overview;
        self.ankan_overview[r].push(t);
        proof {
            lemma_seats_view_push(k1, self.ankan_overview, r as int, t);
        }
    }

    /// A concealed kan (see `rules::ankan`).
    #[verifier::spinoff_prover]
    fn ankan(&mut self, actor: u8, consumed: [Tile; 4], deltas: Option<[i32; 4]>) -> (r: Result<(), StateError>)
        requires
            wf(old(self)@),
            actor < 4,
            deltas_fit(old(self)@, deltas),
            old(self)@.ankan_overview[rel(old(self)@, actor)].len() < 4,
            old(self).kans_on_board < 255,
            rel(old(self)@, actor) == 0 ==> known(consumed@),
            rel(old(self)@, actor) == 0 && take_out_all(old(self)@, consumed@).1 is Ok
                ==> old(self)@.ankans.len() < 4,
        ensures
            (final(self)@, r) == rules::ankan(old(self)@, actor, consumed, deltas),
    {
        proof {
            lemma_wf_hand(self@);
        }
        let ghost v0 = self@;
        self.apply_score_deltas(deltas);
        let r = self.rel(actor);
        let t = consumed[0];
        self.add_ankan(r, t);
        self.declare_kan(t);
        if r != 0 {
            return self.witness_tiles(&consumed);
        }
        self.begin_own_kan();
        let ghost v2 = self@;
        let res = self.move_tiles_out(&consumed);
        proof {
            lemma_take_out_all_tehai(v0, v2, consumed@);
        }
        if res.is_err() {
            return res;
        }
        proof {
            lemma_take_out_all_hand(v2, consumed@);
        }
        self.finish_kan(t.as_u8(), false);
        Ok(())
    }

    /// Clears the state for a new hand (see `cleared_for`).
    fn cleared_for(&mut self, kyoku: u8, oya: u8, scores: [i32; 4])
        requires
            old(self).player_id < 4,
            kyoku >= 1,
            oya < 4,
        ensures
            final(self)@ == cleared_for(old(self)@, kyoku, oya, scores),
            forall|t: int| 0 <= t < 27 ==> #[trigger] final(self).tehai[t] == 0,
            forall|t: int| 0 <= t < 27 ==> #[trigger] final(self).tiles_seen[t] == 0,
    {
        proof {
            reveal(cleared_for);
        }
        let p = self.player_id as usize;
        self.tehai = [0u8; 27];
        self.waits = [false; 27];
        self.temporary_furiten = false;
        self.furiten_passed_ron_fan = None;
        self.current_ron_fan = None;
        self.tiles_seen = [0u8; 27];
        self.keep_shanten_discards = [false; 27];
        self.next_shanten_discards = [false; 27];
        self.forbidden_tiles = [false; 27];
        self.players_agari = [false; 4];
        self.oya = self.rel(oya) as u8;
        self.kyoku = kyoku - 1;
        self.scores = [scores[p % 4], scores[(p + 1) % 4], scores[(p + 2) % 4], scores[(p + 3) % 4]];
        self.ding_que = None;
        self.other_ding_que = [None; 3];
        self.has_agari = false;
        self.last_self_tsumo = None;
        self.last_kawa_tile = None;
        self.ankan_candidates.clear();
        self.kakan_candidates.clear();
        self.chankan_chance = None;
        self.chankan_kakan_actor = None;
        self.chankan_kakan_tile = None;
        self.pending_kakan_tile = None;
        self.last_discard_was_after_kan = false;
        self.intermediate_kan.clear();
        self.pons.clear();
        self.minkans.clear();
        self.ankans.clear();
        self.kans_on_board = 0;
        self.at_rinshan = false;
        self.kawa = [Vec::new(), Vec::new(), Vec::new(), Vec::new()];
        self.kawa_overview = [Vec::new(), Vec::new(), Vec::new(), Vec::new()];
        self.fuuro_overview = [Vec::new(), Vec::new(), Vec::new(), Vec::new()];
        self.ankan_overview = [Vec::new(), Vec::new(), Vec::new(), Vec::new()];
        self.tiles_left = 56;
        self.at_turn = 0;
        proof {
            assert(self.tehai@ =~= Seq::new(27, |i: int| 0u8));
            assert(self.tiles_seen@ =~= Seq::new(27, |i: int| 0u8));
            lemma_zeros27(self.tehai);
            lemma_zeros27(self.tiles_seen);
            lemma_kawa_view(self.kawa);
            lemma_seats_view(self.kawa_overview);
            lemma_seats_view(self.ankan_overview);
            lemma_melds_view(self.fuuro_overview);
            let w = cleared_for(old(self)@, kyoku, oya, scores);
            assert(self@.waits =~= w.waits);
            assert(self@.keep_shanten_discards =~= w.keep_shanten_discards);
            assert(self@.next_shanten_discards =~= w.next_shanten_discards);
            assert(self@.forbidden_tiles =~= w.forbidden_tiles);
            assert forall|k: int| 0 <= k < 4 implies #[trigger] self@.kawa[k] =~= w.kawa[k] by {}
            assert(self@.kawa =~= w.kawa);
            assert(self@.kawa_overview =~= w.kawa_overview);
            assert forall|k: int| 0 <= k < 4 implies #[trigger] self@.fuuro_overview[k] =~= w.fuuro_overview[k] by {}
            assert(self@.fuuro_overview =~= w.fuuro_overview);
            assert(self@.ankan_overview =~= w.ankan_overview);
            assert(self@.intermediate_kan =~= w.intermediate_kan);
            assert(self@.ankan_candidates =~= w.ankan_candidates);
            assert(self@.kakan_candidates =~= w.kakan_candidates);
            assert(self@.pons =~= w.pons);
            assert(self@.minkans =~= w.minkans);
            assert(self@.ankans =~= w.ankans);
            assert(self@.other_ding_que =~= w.other_ding_que);
            assert(self@.players_agari =~= w.players_agari);
            assert(self@.scores =~= w.scores);
            assert(self@.tehai == w.tehai);
            assert(self@.tiles_seen == w.tiles_seen);
        }
    }

    /// One starting tile goes into the hand and is seen.
    fn deal_one(&mut self, t: Tile) -> (r: Result<(), StateError>)
        requires
            t@ < 27,
            forall|k: int| 0 <= k < 27 ==> #[trigger] old(self).tehai[k] == old(self).tiles_seen[k],
            forall|k: int| 0 <= k < 27 ==> #[trigger] old(self).tiles_seen[k] <= 4,
            tehai_sum(old(self)@) < 13,
        ensures
            (final(self)@, r) == witness(
                PlayerView { tehai: tehai_plus(old(self)@, t@ as int, 1), ..old(self)@ },
                t,
            ),
            r is Ok ==> {
                &&& forall|k: int| 0 <= k < 27 ==> #[trigger] final(self).tehai[k] == final(self).tiles_seen[k]
                &&& forall|k: int| 0 <= k < 27 ==> #[trigger] final(self).tiles_seen[k] <= 4
                &&& tehai_sum(final(self)@) == tehai_sum(old(self)@) + 1
            },
    {
        let ghost v1 = self@;
        let tid = t.as_usize();
        self.tehai[tid] = self.tehai[tid] + 1;
        proof {
            assert(self.tehai@ =~= tehai_plus(v1, t@ as int, 1)@);
            lemma_range_update(v1.tehai@, tid as int, self.tehai[tid as int], 27);
            assert(self.tehai@ =~= v1.tehai@.update(tid as int, self.tehai[tid as int]));
        }
        self.witness_tile(t)
    }

    /// Deals the seat's own starting tiles (see `deal`).
    fn deal(&mut self, tiles: &[Tile; 13]) -> (r: Result<(), StateError>)
        requires
            known(tiles@),
            forall|t: int| 0 <= t < 27 ==> #[trigger] old(self).tehai[t] == 0,
            forall|t: int| 0 <= t < 27 ==> #[trigger] old(self).tiles_seen[t] == 0,
        ensures
            (final(self)@, r) == deal(old(self)@, tiles@),
            r is Ok ==> hand_ok(final(self)@) && tehai_sum(final(self)@) == 13 && forall|t: int|
                0 <= t < 27 ==> #[trigger] final(self).tehai[t] == final(self).tiles_seen[t],
    {
        let ghost v0 = self@;
        proof {
            lemma_range_zero(v0.tehai@, 27);
        }
        let mut i: usize = 0;
        while i < 13
            invariant
                i <= 13,
                known(tiles@),
                v0 == old(self)@,
                (self@, Ok::<(), StateError>(())) == deal(v0, tiles@.subrange(0, i as int)),
                forall|t: int| 0 <= t < 27 ==> #[trigger] self.tehai[t] == self.tiles_seen[t],
                forall|t: int| 0 <= t < 27 ==> #[trigger] self.tiles_seen[t] <= 4,
                tehai_sum(self@) == i,
            decreases 13 - i,
        {
            let t = tiles[i];
            proof {
                assert(tiles@.subrange(0, i + 1).drop_last() =~= tiles@.subrange(0, i as int));
                assert(tiles@.subrange(0, i + 1).last() == t);
                assert(t@ < 27) by {
                    assert(tiles@[i as int]@ < 27);
                }
            }
            let res = self.deal_one(t);
            if res.is_err() {
                proof {
                    lemma_deal_stops(v0, tiles@, i as int + 1);
                }
                return res;
            }
            i += 1;
        }
        proof {
            assert(tiles@.subrange(0, 13) =~= tiles@);
            assert forall|t: int| 0 <= t < 27 implies #[trigger] self.tehai[t] <= 4 by {
                assert(self.tiles_seen[t] <= 4);
            }
        }
        Ok(())
    }

    /// After the deal (see `dealt`).
    fn dealt(&mut self)
        requires
            hand_ok(old(self)@),
        ensures
            final(self)@ == dealt(old(self)@),
    {
        proof {
            reveal(dealt);
        }
        let sum = hand_sum(&self.tehai);
        self.tehai_len_div3 = sum / 3;
        self.update_shanten();
        self.last_cans.can_ding_que = true;
    }

    /// A hand starts (see `rules::start_kyoku`).
    fn start_kyoku(
        &mut self,
        kyoku: u8,
        oya: u8,
        scores: [i32; 4],
        tehais: &[[Tile; 13]; 4],
    ) -> (r: Result<(), StateError>)
        requires
            old(self).player_id < 4,
            kyoku >= 1,
            oya < 4,
            known(tehais[old(self).player_id as int]@),
        ensures
            (final(self)@, r) == rules::start_kyoku(old(self)@, kyoku, oya, scores, *tehais),
            r is Ok ==> hand_ok(final(self)@) && tehai_sum(final(self)@) == 13 && forall|t: int|
                0 <= t < 27 ==> #[trigger] final(self).tehai[t] == final(self).tiles_seen[t],
    {
        let p = self.player_id as usize;
        self.cleared_for(kyoku, oya, scores);
        let res = self.deal(&tehais[p]);
        if res.is_err() {
            return res;
        }
        let ghost v1 = self@;
        self.dealt();
        proof {
            reveal(dealt);
            reveal(rules::with_shanten);
        }
        Ok(())
    }

    /// The part of every event that comes first (see `prologue`).
    fn prologue(&mut self, ev: &Event)
        ensures
            final(self)@ == prologue(old(self)@, *ev),
    {
        proof {
            reveal(prologue);
        }
        if self.last_cans.can_ron_agari {
            let passed = match ev {
                Event::Hora { actor, .. } => *actor != self.player_id,
                _ => true,
            };
            if passed {
                self.temporary_furiten = true;
                self.furiten_passed_ron_fan = match (self.furiten_passed_ron_fan, self.current_ron_fan) {
                    (Some(p), Some(c)) => Some(
                        if p >= c {
                            p
                        } else {
                            c
                        },
                    ),
                    (Some(p), None) => Some(p),
                    (None, c) => c,
                };
            }
        }
        if !ev.is_in_game_announce() {
            let target = match ev.actor() {
                Some(a) => a,
                None => self.player_id,
            };
            let mut cans = ActionCandidate::default();
            cans.target_actor = target;
            cans.can_ding_que = self.ding_que.is_none();
            self.last_cans = cans;
            self.ankan_candidates.clear();
            self.kakan_candidates.clear();
            self.current_ron_fan = None;
            self.chankan_chance = None;
            self.chankan_kakan_actor = None;
            self.chankan_kakan_tile = None;
            proof {
                assert(self@.ankan_candidates =~= Seq::<Tile>::empty());
                assert(self@.kakan_candidates =~= Seq::<Tile>::empty());
            }
        }
    }

    /// Applies an event to this seat's state and returns the actions it may take next, or why
    /// the event could not be applied (see `spec_update`; on an error the state keeps what was
    /// applied before it).
    #[verifier::spinoff_prover]
    pub fn update(&mut self, event: &Event) -> (r: Result<ActionCandidate, StateError>)
        requires
            wf(old(self)@),
            update_ok(old(self)@, *event),
        ensures
            (final(self)@, r) == spec_update(old(self)@, *event),
            !(*event is StartKyoku && r is Err) ==> wf(final(self)@),
    {
        let ghost v0 = self@;
        self.prologue(event);
        proof {
            lemma_prologue_wf(v0, *event);
            lemma_wf_hand(self@);
        }
        let res = match event {
            Event::StartKyoku { kyoku, oya, scores, tehais } => self.start_kyoku(
                *kyoku,
                *oya,
                *scores,
                tehais,
            ),
            Event::DingQue { actor, suit } => {
                self.ding_que(*actor, *suit);
                Ok(())
            },
            Event::Tsumo { actor, pai } => self.tsumo(*actor, *pai),
            Event::Dahai { actor, pai, tsumogiri } => self.dahai(*actor, *pai, *tsumogiri),
            Event::Pon { actor, target, pai, consumed } => self.pon(*actor, *target, *pai, *consumed),
            Event::Daiminkan { actor, target, pai, consumed, deltas } => self.daiminkan(
                *actor,
                *target,
                *pai,
                *consumed,
                *deltas,
            ),
            Event::Kakan { actor, pai, deltas, .. } => self.kakan(*actor, *pai, *deltas),
            Event::Ankan { actor, consumed, deltas } => self.ankan(*actor, *consumed, *deltas),
            Event::Hora { actor, target, deltas } => {
                self.hora(*actor, *target, *deltas);
                Ok(())
            },
            Event::Ryukyoku { deltas } => {
                self.apply_score_deltas(*deltas);
                Ok(())
            },
            _ => Ok(()),
        };
        let r = match res {
            Ok(()) => Ok(self.last_cans),
            Err(e) => Err(e),
        };
        proof {
            if !(*event is StartKyoku && r is Err) {
                lemma_update_keeps_wf(v0, *event);
            }
        }
        r
    }

    /// A win (see `rules::hora`).
    #[verifier::spinoff_prover]
    fn hora(&mut self, actor: u8, target: u8, deltas: Option<[i32; 4]>)
        requires
            wf(old(self)@),
            actor < 4,
            target < 4,
            deltas_fit(old(self)@, deltas),
            target == old(self).player_id && actor != old(self).player_id
                && old(self).pending_kakan_tile is Some ==> {
                let tile = old(self).pending_kakan_tile->0;
                &&& index_of(old(self)@.minkans, tile) is Some ==> !old(self)@.pons.contains(tile)
                    && old(self)@.pons.len() < 4
                &&& !old(self).last_cans.can_discard ==> tehai_sum(old(self)@) <= 13
            },
        ensures
            final(self)@ == rules::hora(old(self)@, actor, target, deltas),
    {
        proof {
            lemma_wf_hand(self@);
        }
        let r = self.rel(actor);
        self.players_agari[r] = true;
        if r == 0 {
            self.has_agari = true;
        }
        if target == self.player_id && actor != self.player_id {
            if let Some(tile) = self.pending_kakan_tile {
                self.revert_robbed_kan(tile);
            }
        }
        if target != self.player_id && actor != target && self.intermediate_kan.len() > 0 {
            self.undo_chankan(target);
        }
        if actor == target && self.intermediate_kan.len() > 0 {
            self.intermediate_kan.clear();
        }
        self.apply_score_deltas(deltas);
    }
}

proof fn lemma_quads_prefix(v: PlayerView, n: int)
    requires
        0 <= n < 27,
    ensures
        quad_tiles(v, n + 1).len() >= quad_tiles(v, n).len(),
        quad_tiles(v, 27).len() >= quad_tiles(v, n + 1).len(),
    decreases 27 - n,
{
    if n + 1 < 27 {
        lemma_quads_prefix(v, n + 1);
    }
}

proof fn lemma_kakans_prefix(v: PlayerView, n: int)
    requires
        0 <= n < 27,
    ensures
        kakan_tiles(v, n + 1).len() >= kakan_tiles(v, n).len(),
        kakan_tiles(v, 27).len() >= kakan_tiles(v, n + 1).len(),
    decreases 27 - n,
{
    if n + 1 < 27 {
        lemma_kakans_prefix(v, n + 1);
    }
}

/// Once a step of `witness_all` fails, every longer prefix fails the same way.
proof fn lemma_witness_all_stops(v: PlayerView, tiles: Seq<Tile>, n: int)
    requires
        0 <= n <= tiles.len(),
        witness_all(v, tiles.subrange(0, n)).1 is Err,
    ensures
        witness_all(v, tiles) == witness_all(v, tiles.subrange(0, n)),
    decreases tiles.len() - n,
{
    if n < tiles.len() {
        assert(tiles.subrange(0, n + 1).drop_last() =~= tiles.subrange(0, n));
        lemma_witness_all_stops(v, tiles, n + 1);
    } else {
        assert(tiles.subrange(0, n) =~= tiles);
    }
}

/// Once a step of `take_out_all` fails, every longer prefix fails the same way.
proof fn lemma_take_out_all_stops(v: PlayerView, tiles: Seq<Tile>, n: int)
    requires
        0 <= n <= tiles.len(),
        take_out_all(v, tiles.subrange(0, n)).1 is Err,
    ensures
        take_out_all(v, tiles) == take_out_all(v, tiles.subrange(0, n)),
    decreases tiles.len() - n,
{
    if n < tiles.len() {
        assert(tiles.subrange(0, n + 1).drop_last() =~= tiles.subrange(0, n));
        lemma_take_out_all_stops(v, tiles, n + 1);
    } else {
        assert(tiles.subrange(0, n) =~= tiles);
    }
}

} // verus!
