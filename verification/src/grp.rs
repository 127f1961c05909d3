//! Integer features of a hand used when scoring a ding que choice in game logs.
use crate::ding_que::{spec_suit_id, suit_range};
use crate::mjai::Suit;
use crate::shanten::{calc_all, spec_calc_all};
use crate::tile::Tile;
use vstd::prelude::*;

verus! {

broadcast use vstd::array::group_array_axioms;

/// The smallest of three integers.
pub open spec fn min3(a: int, b: int, c: int) -> int {
    if a <= b && a <= c {
        a
    } else if b <= c {
        b
    } else {
        c
    }
}

/// Runs (123, 234, ...) taken greedily from rank `i` upward in the 9 counts `c`: at each rank
/// as many as it and the next two ranks allow, the rest passed on.
pub open spec fn greedy_runs(c: Seq<int>, i: int) -> int
    decreases 7 - i,
{
    if i >= 7 || i < 0 {
        0
    } else {
        let t = min3(c[i], c[i + 1], c[i + 2]);
        t + greedy_runs(
            c.update(i, c[i] - t).update(i + 1, c[i + 1] - t).update(i + 2, c[i + 2] - t),
            i + 1,
        )
    }
}

/// The counts of a suit as integers.
pub open spec fn as_ints(counts: Seq<u8>) -> Seq<int> {
    Seq::new(counts.len(), |i: int| counts[i] as int)
}

/// Sum of `c[i..9]`.
pub open spec fn tail_sum(c: Seq<int>, i: int) -> int
    decreases 9 - i,
{
    if i >= 9 || i < 0 {
        0
    } else {
        c[i] + tail_sum(c, i + 1)
    }
}

proof fn lemma_tail_sum_update(c: Seq<int>, i: int, k: int, v: int)
    requires
        0 <= i <= 9,
        0 <= k < i,
        c.len() == 9,
    ensures
        tail_sum(c.update(k, v), i) == tail_sum(c, i),
    decreases 9 - i,
{
    if i < 9 {
        lemma_tail_sum_update(c, i + 1, k, v);
    }
}

proof fn lemma_greedy_runs_bound(c: Seq<int>, i: int)
    requires
        0 <= i <= 7,
        c.len() == 9,
        forall|j: int| 0 <= j < 9 ==> #[trigger] c[j] >= 0,
    ensures
        0 <= 3 * greedy_runs(c, i) <= tail_sum(c, i),
    decreases 7 - i,
{
    if i < 7 {
        let t = min3(c[i], c[i + 1], c[i + 2]);
        let c2 = c.update(i, c[i] - t).update(i + 1, c[i + 1] - t).update(i + 2, c[i + 2] - t);
        lemma_greedy_runs_bound(c2, i + 1);
        assert(tail_sum(c, i) == c[i] + c[i + 1] + c[i + 2] + tail_sum(c, i + 3)) by {
            reveal_with_fuel(tail_sum, 4);
        }
        assert(tail_sum(c2, i + 1) == c2[i + 1] + c2[i + 2] + tail_sum(c2, i + 3)) by {
            reveal_with_fuel(tail_sum, 3);
        }
        assert(tail_sum(c2, i + 3) == tail_sum(c, i + 3)) by {
            lemma_tail_sum_update(c.update(i, c[i] - t).update(i + 1, c[i + 1] - t), i + 3, i + 2, c[i + 2] - t);
            lemma_tail_sum_update(c.update(i, c[i] - t), i + 3, i + 1, c[i + 1] - t);
            lemma_tail_sum_update(c, i + 3, i, c[i] - t);
        }
    } else {
        reveal_with_fuel(tail_sum, 3);
    }
}

/// Counts the complete runs (123, 234, ...) in the 9 counts of one suit, taking them greedily
/// from the lowest rank up.
pub fn count_sequences_in_suit(counts: &[u8; 9]) -> (r: u8)
    requires
        range_sum(counts@, 0, 9) <= 765,
    ensures
        r == greedy_runs(as_ints(counts@), 0),
{
    proof {
        lemma_range_tail(counts@, 0);
    }
    let mut c: [u8; 9] = *counts;
    let mut num: u16 = 0;
    let mut i: usize = 0;
    proof {
        lemma_greedy_runs_bound(as_ints(counts@), 0);
    }
    while i < 7
        invariant
            i <= 7,
            num + greedy_runs(as_ints(c@), i as int) == greedy_runs(as_ints(counts@), 0),
            3 * greedy_runs(as_ints(counts@), 0) <= 765,
            num >= 0,
        decreases 7 - i,
    {
        let ghost ci = as_ints(c@);
        let a = c[i];
        let b = c[i + 1];
        let d = c[i + 2];
        let t: u8 = if a <= b && a <= d {
            a
        } else if b <= d {
            b
        } else {
            d
        };
        c[i] = a - t;
        c[i + 1] = b - t;
        c[i + 2] = d - t;
        proof {
            assert(as_ints(c@) =~= ci.update(i as int, ci[i as int] - t).update(
                i + 1,
                ci[i + 1] - t,
            ).update(i + 2, ci[i + 2] - t));
            let c3 = as_ints(c@);
            lemma_greedy_runs_bound(c3, (i + 1) as int);
            assert(greedy_runs(ci, i as int) == t + greedy_runs(c3, (i + 1) as int));
        }
        num = num + t as u16;
        i += 1;
    }
    num as u8
}


/// Tiles of kinds `lo..lo + n`.
pub open spec fn range_sum(h: Seq<u8>, lo: int, n: int) -> int
    decreases n,
{
    if n <= 0 {
        0
    } else {
        range_sum(h, lo, n - 1) + h[lo + n - 1]
    }
}

/// Kinds among `lo..lo + n` held at least `v` times.
pub open spec fn count_at_least(h: Seq<u8>, lo: int, n: int, v: int) -> int
    decreases n,
{
    if n <= 0 {
        0
    } else {
        count_at_least(h, lo, n - 1, v) + if h[lo + n - 1] >= v {
            1int
        } else {
            0int
        }
    }
}

/// Kinds among `lo..lo + n` held exactly `v` times.
pub open spec fn count_exactly(h: Seq<u8>, lo: int, n: int, v: int) -> int
    decreases n,
{
    if n <= 0 {
        0
    } else {
        count_exactly(h, lo, n - 1, v) + if h[lo + n - 1] == v {
            1int
        } else {
            0int
        }
    }
}

/// Ranks `i < n` of the 9 counts `c` where ranks `i` and `i + gap` are both held.
pub open spec fn partner_pairs(c: Seq<u8>, gap: int, n: int) -> int
    decreases n,
{
    if n <= 0 {
        0
    } else {
        partner_pairs(c, gap, n - 1) + if c[n - 1] >= 1 && c[n - 1 + gap] >= 1 {
            1int
        } else {
            0int
        }
    }
}

/// Kinds below `n`, outside `lo..hi` and held fewer than four times, whose addition lowers
/// the shanten number of `h` (aiming at `len_div3` melds) below `shanten`.
pub open spec fn improvement_kinds(h: Seq<u8>, len_div3: int, shanten: int, lo: int, hi: int, n: int) -> int
    decreases n,
{
    if n <= 0 {
        0
    } else {
        let t = n - 1;
        improvement_kinds(h, len_div3, shanten, lo, hi, n - 1) + if !(lo <= t < hi) && h[t] < 4
            && spec_calc_all(h.update(t, (h[t] + 1) as u8), len_div3) < shanten {
            1int
        } else {
            0int
        }
    }
}

/// Counts the tile kinds, outside the voided suit `lo..hi`, whose addition lowers the shanten
/// number of `tehai_without` (of `remaining_count` tiles) below `shanten`.
pub fn count_improvement_kinds(
    tehai_without: &[u8; 27],
    remaining_count: u8,
    shanten: i8,
    voided_suit: (usize, usize),
) -> (r: u8)
    requires
        remaining_count / 3 <= 4,
    ensures
        r == improvement_kinds(
            tehai_without@,
            (remaining_count / 3) as int,
            shanten as int,
            voided_suit.0 as int,
            voided_suit.1 as int,
            27,
        ),
{
    let new_len_div3 = remaining_count / 3;
    let mut count: u8 = 0;
    let mut tid: usize = 0;
    while tid < 27
        invariant
            tid <= 27,
            new_len_div3 == remaining_count / 3,
            new_len_div3 <= 4,
            count <= tid,
            count == improvement_kinds(
                tehai_without@,
                new_len_div3 as int,
                shanten as int,
                voided_suit.0 as int,
                voided_suit.1 as int,
                tid as int,
            ),
        decreases 27 - tid,
    {
        if !(tid >= voided_suit.0 && tid < voided_suit.1) && tehai_without[tid] < 4 {
            let mut t: [u8; 27] = *tehai_without;
            t[tid] = t[tid] + 1;
            assert(t@ =~= tehai_without@.update(tid as int, (tehai_without@[tid as int] + 1) as u8));
            if calc_all(&t, new_len_div3) < shanten {
                count += 1;
            }
        }
        tid += 1;
    }
    count
}

/// The counts of the 27 kinds among the thirteen tiles (tiles past the last kind are skipped).
pub open spec fn tile_count(tiles: Seq<Tile>, k: int, n: int) -> int
    decreases n,
{
    if n <= 0 {
        0
    } else {
        tile_count(tiles, k, n - 1) + if tiles[n - 1]@ as int == k {
            1int
        } else {
            0int
        }
    }
}

/// The 27-count hand of thirteen tiles.
pub fn tiles_to_tehai(tiles: &[Tile; 13]) -> (r: [u8; 27])
    ensures
        forall|k: int| 0 <= k < 27 ==> #[trigger] r@[k] == tile_count(tiles@, k, 13),
{
    let mut tehai: [u8; 27] = [0u8; 27];
    let mut i: usize = 0;
    while i < 13
        invariant
            i <= 13,
            forall|k: int| 0 <= k < 27 ==> #[trigger] tehai@[k] == tile_count(tiles@, k, i as int),
            forall|k: int| 0 <= k < 27 ==> #[trigger] tile_count(tiles@, k, i as int) <= i,
        decreases 13 - i,
    {
        let idx = tiles[i].as_usize();
        if idx < 27 {
            tehai[idx] = tehai[idx] + 1;
        }
        proof {
            assert forall|k: int| 0 <= k < 27 implies #[trigger] tile_count(tiles@, k, i + 1)
                == tile_count(tiles@, k, i as int) + if tiles@[i as int]@ as int == k {
                1int
            } else {
                0int
            } by {}
        }
        i += 1;
    }
    tehai
}

/// The integer features of naming `suit` void with hand `tehai`, as the ding que cost uses
/// them.
#[derive(Debug, Clone, Copy, PartialEq, Eq, Structural)]
pub struct DingQueFactors {
    /// Tiles of the suit that must leave the hand.
    pub removed_count: u8,
    /// Kinds of the suit held three or more times.
    pub removed_triplets: u8,
    /// Kinds of the suit held exactly twice.
    pub removed_pairs: u8,
    /// Runs of the suit, taken greedily (see `count_sequences_in_suit`).
    pub removed_sequences: u8,
    /// Neighbouring and one-gap rank pairs of the suit, less three per run.
    pub taatsu_count: u8,
    /// Shanten number of the hand without the suit.
    pub shanten: i8,
    /// Kinds of the rest held three or more times.
    pub remaining_triplets: u8,
    /// Kinds of the rest held two or more times.
    pub remaining_pairs_or_more: u8,
    /// Kinds whose draw would lower that shanten number (see `count_improvement_kinds`).
    pub improvement_kinds: u8,
}

/// The hand with every tile of suit `s` taken out.
pub open spec fn without_suit(h: Seq<u8>, s: int) -> Seq<u8> {
    Seq::new(27, |k: int| if 9 * s <= k < 9 * s + 9 { 0u8 } else { h[k] })
}

/// The features of naming `suit` void, or `None` when the hand holds no tile of it (the
/// cheapest choice of all).
pub open spec fn spec_ding_que_factors(tehai: Seq<u8>, suit: Suit) -> Option<DingQueFactors> {
    let s = spec_suit_id(suit);
    let lo = 9 * s;
    let removed = range_sum(tehai, lo, 9);
    if removed == 0 {
        None
    } else {
        let suit_counts = tehai.subrange(lo, lo + 9);
        let seqs = greedy_runs(as_ints(suit_counts), 0);
        let taatsu = partner_pairs(suit_counts, 1, 8) + partner_pairs(suit_counts, 2, 7);
        let rest = without_suit(tehai, s);
        let remaining = range_sum(rest, 0, 27);
        let shanten = spec_calc_all(rest, remaining / 3);
        Some(
            DingQueFactors {
                removed_count: removed as u8,
                removed_triplets: count_at_least(tehai, lo, 9, 3) as u8,
                removed_pairs: count_exactly(tehai, lo, 9, 2) as u8,
                removed_sequences: seqs as u8,
                taatsu_count: (if taatsu > 3 * seqs {
                    taatsu - 3 * seqs
                } else {
                    0
                }) as u8,
                shanten: shanten as i8,
                remaining_triplets: count_at_least(rest, 0, 27, 3) as u8,
                remaining_pairs_or_more: count_at_least(rest, 0, 27, 2) as u8,
                improvement_kinds: improvement_kinds(rest, remaining / 3, shanten, lo, lo + 9, 27)
                    as u8,
            },
        )
    }
}


proof fn lemma_range_tail(c: Seq<u8>, i: int)
    requires
        0 <= i <= 9,
        c.len() == 9,
    ensures
        tail_sum(as_ints(c), i) + range_sum(c, 0, i) == range_sum(c, 0, 9),
    decreases 9 - i,
{
    if i < 9 {
        lemma_range_tail(c, i + 1);
    }
}

proof fn lemma_range_shift(h: Seq<u8>, lo: int, n: int)
    requires
        0 <= lo,
        0 <= n <= 9,
        lo + 9 <= h.len(),
    ensures
        range_sum(h.subrange(lo, lo + 9), 0, n) == range_sum(h, lo, n),
    decreases n,
{
    if n > 0 {
        lemma_range_shift(h, lo, n - 1);
    }
}

proof fn lemma_range_mono(h: Seq<u8>, lo: int, n: int, m: int)
    requires
        0 <= n <= m,
    ensures
        0 <= range_sum(h, lo, n) <= range_sum(h, lo, m),
    decreases m - n,
{
    if n < m {
        lemma_range_mono(h, lo, n, m - 1);
    } else {
        lemma_range_nonneg(h, lo, n);
    }
}

pub(crate) proof fn lemma_range_nonneg(h: Seq<u8>, lo: int, n: int)
    ensures
        0 <= range_sum(h, lo, n),
    decreases n,
{
    if n > 0 {
        lemma_range_nonneg(h, lo, n - 1);
    }
}

/// The integer features of naming `suit` void (see `DingQueFactors`), or `None` when the hand
/// holds no tile of the suit.
pub fn ding_que_factors(tehai: &[u8; 27], suit: Suit) -> (r: Option<DingQueFactors>)
    requires
        range_sum(tehai@, 9 * spec_suit_id(suit), 9) <= 255,
        range_sum(tehai@, 9 * spec_suit_id(suit), 9) == 0 || range_sum(
            without_suit(tehai@, spec_suit_id(suit)),
            0,
            27,
        ) <= 14,
    ensures
        r == spec_ding_que_factors(tehai@, suit),
{
    let (start, end) = suit_range(suit);
    let ghost lo = start as int;
    let mut removed_count: u8 = 0;
    let mut removed_triplets: u8 = 0;
    let mut removed_pairs: u8 = 0;
    let mut suit_counts: [u8; 9] = [0u8; 9];
    let mut j: usize = 0;
    proof {
        lemma_range_mono(tehai@, lo, 0, 9);
    }
    while j < 9
        invariant
            j <= 9,
            start as int == lo,
            end as int == lo + 9,
            lo == 9 * spec_suit_id(suit),
            range_sum(tehai@, lo, 9) <= 255,
            removed_count == range_sum(tehai@, lo, j as int),
            removed_triplets == count_at_least(tehai@, lo, j as int, 3),
            removed_pairs == count_exactly(tehai@, lo, j as int, 2),
            removed_triplets <= j,
            removed_pairs <= j,
            forall|i: int| 0 <= i < j ==> #[trigger] suit_counts@[i] == tehai@[lo + i],
        decreases 9 - j,
    {
        let count = tehai[start + j];
        proof {
            lemma_range_mono(tehai@, lo, j + 1, 9);
        }
        removed_count = removed_count + count;
        suit_counts[j] = count;
        if count >= 3 {
            removed_triplets += 1;
        } else if count == 2 {
            removed_pairs += 1;
        }
        j += 1;
    }
    if removed_count == 0 {
        return None;
    }
    let ghost sc = tehai@.subrange(lo, lo + 9);
    assert(suit_counts@ =~= sc);
    proof {
        lemma_range_shift(tehai@, lo, 9);
        lemma_greedy_runs_bound(as_ints(sc), 0);
        lemma_range_tail(sc, 0);
    }
    let removed_sequences = count_sequences_in_suit(&suit_counts);
    let mut taatsu_count: u8 = 0;
    let mut i: usize = 0;
    while i < 8
        invariant
            i <= 8,
            suit_counts@ == sc,
            taatsu_count == partner_pairs(sc, 1, i as int),
            taatsu_count <= i,
        decreases 8 - i,
    {
        if suit_counts[i] >= 1 && suit_counts[i + 1] >= 1 {
            taatsu_count += 1;
        }
        i += 1;
    }
    let mut i: usize = 0;
    while i < 7
        invariant
            i <= 7,
            suit_counts@ == sc,
            taatsu_count == partner_pairs(sc, 1, 8) + partner_pairs(sc, 2, i as int),
            taatsu_count <= 8 + i,
        decreases 7 - i,
    {
        if suit_counts[i] >= 1 && suit_counts[i + 2] >= 1 {
            taatsu_count += 1;
        }
        i += 1;
    }
    taatsu_count = taatsu_count.saturating_sub(removed_sequences * 3);
    let mut tehai_without: [u8; 27] = *tehai;
    let mut k: usize = start;
    while k < end
        invariant
            start <= k <= end,
            start as int == lo,
            end as int == lo + 9,
            lo + 9 <= 27,
            forall|t: int|
                0 <= t < 27 ==> #[trigger] tehai_without@[t] == if lo <= t < k {
                    0u8
                } else {
                    tehai@[t]
                },
        decreases end - k,
    {
        tehai_without[k] = 0;
        k += 1;
    }
    let ghost rest = without_suit(tehai@, spec_suit_id(suit));
    assert(tehai_without@ =~= rest);
    let mut remaining: u16 = 0;
    let mut t: usize = 0;
    proof {
        lemma_range_mono(rest, 0, 0, 27);
    }
    while t < 27
        invariant
            t <= 27,
            tehai_without@ == rest,
            range_sum(rest, 0, 27) <= 14,
            remaining == range_sum(rest, 0, t as int),
        decreases 27 - t,
    {
        proof {
            lemma_range_mono(rest, 0, t + 1, 27);
        }
        remaining = remaining + tehai_without[t] as u16;
        t += 1;
    }
    let remaining_count = remaining as u8;
    let shanten = calc_all(&tehai_without, remaining_count / 3);
    let mut remaining_triplets: u8 = 0;
    let mut remaining_pairs_or_more: u8 = 0;
    let mut t: usize = 0;
    while t < 27
        invariant
            t <= 27,
            tehai_without@ == rest,
            remaining_triplets == count_at_least(rest, 0, t as int, 3),
            remaining_pairs_or_more == count_at_least(rest, 0, t as int, 2),
            remaining_triplets <= t,
            remaining_pairs_or_more <= t,
        decreases 27 - t,
    {
        let count = tehai_without[t];
        if count >= 3 {
            remaining_triplets += 1;
            remaining_pairs_or_more += 1;
        } else if count == 2 {
            remaining_pairs_or_more += 1;
        }
        t += 1;
    }
    let improvement_kinds = count_improvement_kinds(
        &tehai_without,
        remaining_count,
        shanten,
        (start, end),
    );
    Some(
        DingQueFactors {
            removed_count,
            removed_triplets,
            removed_pairs,
            removed_sequences,
            taatsu_count,
            shanten,
            remaining_triplets,
            remaining_pairs_or_more,
            improvement_kinds,
        },
    )
}

} // verus!
