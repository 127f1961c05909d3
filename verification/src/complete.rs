//! A hand of 3n+2 tiles, four of a kind at most, is complete (divides into melds and a pair)
//! exactly when its shanten number is -1.
use crate::division::{gcount, has_division, is_division, pairs_upto, pos_ok};
use crate::grp::range_sum;
use crate::shanten::{
    Choice, def_from, distance, is_completion,
    is_min_distance, is_suit_target, lemma_min_distance_unique, lemma_normal_shanten_bound,
    lemma_range_split, melds_from, normal_shanten, pairs_from, shun_at, suit_count, suit_hand,
    target_from,
};
use vstd::array::{spec_array_fill_for_copy_type, spec_array_update};
use vstd::prelude::*;

verus! {

broadcast use vstd::array::group_array_axioms;

/// Tiles a suit part holds at positions `n..9`.
pub open spec fn count_from(t: Seq<Choice>, n: int) -> int
    decreases 9 - n,
{
    if n < 0 || n >= 9 {
        0
    } else {
        suit_count(t, n) + count_from(t, n + 1)
    }
}

/// Tiles a suit of nine counts holds at positions `n..9`.
pub open spec fn hand_from(hs: Seq<u8>, n: int) -> int
    decreases 9 - n,
{
    if n < 0 || n >= 9 {
        0
    } else {
        hs[n] + hand_from(hs, n + 1)
    }
}

/// A suit part holds two tiles per pair and three per meld, runs counted from where they
/// start.
proof fn lemma_count_from(t: Seq<Choice>, n: int)
    requires
        t.len() == 9,
        0 <= n <= 9,
        t[7].shuntsu == 0,
        t[8].shuntsu == 0,
    ensures
        count_from(t, n) == 2 * pairs_from(t, n) + 3 * melds_from(t, n) + 2 * shun_at(t, n - 1)
            + shun_at(t, n - 2),
    decreases 9 - n,
{
    if n < 9 {
        lemma_count_from(t, n + 1);
    }
}

/// The nine counts of a suit add up to its part of the hand.
proof fn lemma_hand_from(h: Seq<u8>, lo: int, n: int)
    requires
        0 <= lo,
        lo + 9 <= h.len(),
        0 <= n <= 9,
    ensures
        range_sum(h, lo, n) + hand_from(h.subrange(lo, lo + 9), n) == hand_from(
            h.subrange(lo, lo + 9),
            0,
        ),
    decreases n,
{
    if n > 0 {
        lemma_hand_from(h, lo, n - 1);
    }
}

proof fn lemma_def_nonneg(t: Seq<Choice>, hs: Seq<u8>, n: int)
    ensures
        def_from(t, hs, n) >= 0,
    decreases 9 - n,
{
    if 0 <= n < 9 {
        lemma_def_nonneg(t, hs, n + 1);
    }
}

/// No tile lacking: the part holds no more than the suit at each position.
proof fn lemma_def_zero(t: Seq<Choice>, hs: Seq<u8>, n: int)
    requires
        def_from(t, hs, n) == 0,
        0 <= n,
    ensures
        forall|j: int| n <= j < 9 ==> #[trigger] suit_count(t, j) <= hs[j],
    decreases 9 - n,
{
    if n < 9 {
        lemma_def_nonneg(t, hs, n + 1);
        lemma_def_zero(t, hs, n + 1);
    }
}

/// Holding exactly the suit, the part lacks nothing.
proof fn lemma_def_of_equal(t: Seq<Choice>, hs: Seq<u8>, n: int)
    requires
        forall|j: int| 0 <= j < 9 ==> #[trigger] suit_count(t, j) == hs[j],
        0 <= n,
    ensures
        def_from(t, hs, n) == 0,
        count_from(t, n) == hand_from(hs, n),
    decreases 9 - n,
{
    if n < 9 {
        lemma_def_of_equal(t, hs, n + 1);
    }
}

proof fn lemma_count_le(t: Seq<Choice>, hs: Seq<u8>, n: int)
    requires
        forall|j: int| 0 <= j < 9 ==> #[trigger] suit_count(t, j) <= hs[j],
        0 <= n,
    ensures
        count_from(t, n) <= hand_from(hs, n),
    decreases 9 - n,
{
    if n < 9 {
        lemma_count_le(t, hs, n + 1);
    }
}

/// Holding no more at each position, and as much in all, the part holds exactly the suit.
proof fn lemma_count_eq(t: Seq<Choice>, hs: Seq<u8>, j: int, n: int)
    requires
        forall|i: int| 0 <= i < 9 ==> #[trigger] suit_count(t, i) <= hs[i],
        0 <= n <= j < 9,
        suit_count(t, j) < hs[j],
    ensures
        count_from(t, n) < hand_from(hs, n),
    decreases j - n,
{
    lemma_count_le(t, hs, n + 1);
    if n < j {
        lemma_count_eq(t, hs, j, n + 1);
    }
}


/// Suit `s` of a division.
pub open spec fn part(d: Seq<Choice>, s: int) -> Seq<Choice> {
    d.subrange(9 * s, 9 * s + 9)
}

/// A division holds at each kind what its suit part holds at that rank.
proof fn lemma_gcount_part(d: Seq<Choice>, s: int, n: int)
    requires
        d.len() == 27,
        0 <= s < 3,
        0 <= n < 9,
    ensures
        gcount(d, 9 * s + n) == suit_count(part(d, s), n),
        part(d, s)[n] == d[9 * s + n],
        (9 * s + n) % 9 == n,
        (9 * s + n) / 9 == s,
{
    let k = 9 * s + n;
    assert(k % 9 == n && k / 9 == s) by {
        if s == 0 {
        } else if s == 1 {
        } else {
        }
    }
}

/// The pairs of a division, suit by suit.
proof fn lemma_pairs_part(d: Seq<Choice>, s: int, n: int)
    requires
        d.len() == 27,
        0 <= s < 3,
        0 <= n <= 9,
    ensures
        pairs_upto(d, 9 * s + n) + pairs_from(part(d, s), n) == pairs_upto(d, 9 * s) + pairs_from(
            part(d, s),
            0,
        ),
    decreases n,
{
    if n > 0 {
        lemma_pairs_part(d, s, n - 1);
        assert(part(d, s)[n - 1] == d[9 * s + n - 1]);
    }
}

proof fn lemma_pairs_parts(d: Seq<Choice>)
    requires
        d.len() == 27,
    ensures
        pairs_upto(d, 27) == pairs_from(part(d, 0), 0) + pairs_from(part(d, 1), 0) + pairs_from(
            part(d, 2),
            0,
        ),
{
    lemma_pairs_part(d, 0, 9);
    lemma_pairs_part(d, 1, 9);
    lemma_pairs_part(d, 2, 9);
}

/// The hand's tiles, suit by suit.
proof fn lemma_hand_parts(h: Seq<u8>)
    requires
        h.len() == 27,
    ensures
        range_sum(h, 0, 27) == hand_from(suit_hand(h, 0), 0) + hand_from(suit_hand(h, 1), 0)
            + hand_from(suit_hand(h, 2), 0),
{
    lemma_hand_from(h, 0, 9);
    lemma_hand_from(h, 9, 9);
    lemma_hand_from(h, 18, 9);
    lemma_range_split(h, 0, 9);
    lemma_range_split(h, 9, 9);
    lemma_range_split(h, 18, 9);
}

/// Some 27-kind array holds `s`, filled in up to `n`.
pub open spec fn filled(s: Seq<Choice>, n: int) -> [Choice; 27]
    decreases n,
{
    if n <= 0 {
        spec_array_fill_for_copy_type::<Choice, 27>(s[0])
    } else {
        spec_array_update(filled(s, n - 1), n - 1, s[n - 1])
    }
}

proof fn lemma_filled(s: Seq<Choice>, n: int)
    requires
        s.len() == 27,
        0 <= n <= 27,
    ensures
        forall|j: int| 0 <= j < n ==> #[trigger] filled(s, n)@[j] == s[j],
        filled(s, n)@.len() == 27,
    decreases n,
{
    if n > 0 {
        lemma_filled(s, n - 1);
    }
}


/// A division of the hand is a complete hand that the hand holds exactly.
proof fn lemma_division_completes(h: Seq<u8>, m: int, d: Seq<Choice>)
    requires
        h.len() == 27,
        0 <= m <= 4,
        range_sum(h, 0, 27) == 3 * m + 2,
        forall|k: int| 0 <= k < 27 ==> #[trigger] h[k] <= 4,
        is_division(d, h),
    ensures
        is_min_distance(h, m, 0),
{
    let ts = seq![part(d, 0), part(d, 1), part(d, 2)];
    assert forall|s: int| 0 <= s < 3 implies {
        &&& is_suit_target(#[trigger] ts[s])
        &&& def_from(ts[s], suit_hand(h, s), 0) == 0
        &&& count_from(ts[s], 0) == hand_from(suit_hand(h, s), 0)
        &&& count_from(ts[s], 0) == 2 * pairs_from(ts[s], 0) + 3 * melds_from(ts[s], 0)
    } by {
        let t = part(d, s);
        assert(t == ts[s]);
        assert forall|n: int| 0 <= n < 9 implies #[trigger] suit_count(t, n) == suit_hand(h, s)[n]
            && (n >= 7 ==> t[n].shuntsu == 0) by {
            lemma_gcount_part(d, s, n);
            assert(pos_ok(d, h, 9 * s + n));
        }
        assert(target_from(t, 0));
        lemma_def_of_equal(t, suit_hand(h, s), 0);
        assert(suit_count(t, 7) == suit_hand(h, s)[7] && suit_count(t, 8) == suit_hand(h, s)[8]);
        lemma_count_from(t, 0);
    }
    lemma_pairs_parts(d);
    lemma_hand_parts(h);
    assert(is_completion(ts, m));
    assert(distance(ts, h) == 0);
    assert forall|ts2: Seq<Seq<Choice>>| is_completion(ts2, m) implies distance(ts2, h) >= 0 by {
        lemma_def_nonneg(ts2[0], suit_hand(h, 0), 0);
        lemma_def_nonneg(ts2[1], suit_hand(h, 1), 0);
        lemma_def_nonneg(ts2[2], suit_hand(h, 2), 0);
    }
}

/// A complete hand that the hand holds with nothing lacking is a division of the hand.
proof fn lemma_completes_division(h: Seq<u8>, m: int)
    requires
        h.len() == 27,
        0 <= m <= 4,
        range_sum(h, 0, 27) == 3 * m + 2,
        is_min_distance(h, m, 0),
    ensures
        has_division(h),
{
    let ts = choose|ts: Seq<Seq<Choice>>| is_completion(ts, m) && distance(ts, h) == 0;
    lemma_def_nonneg(ts[0], suit_hand(h, 0), 0);
    lemma_def_nonneg(ts[1], suit_hand(h, 1), 0);
    lemma_def_nonneg(ts[2], suit_hand(h, 2), 0);
    lemma_hand_parts(h);
    assert forall|s: int| 0 <= s < 3 implies {
        &&& forall|j: int| 0 <= j < 9 ==> #[trigger] suit_count(ts[s], j) <= suit_hand(h, s)[j]
        &&& count_from(#[trigger] ts[s], 0) <= hand_from(suit_hand(h, s), 0)
        &&& count_from(ts[s], 0) == 2 * pairs_from(ts[s], 0) + 3 * melds_from(ts[s], 0)
    } by {
        assert(is_suit_target(ts[s]));
        lemma_def_zero(ts[s], suit_hand(h, s), 0);
        lemma_count_le(ts[s], suit_hand(h, s), 0);
        assert(target_from(ts[s], 0));
        assert(suit_count(ts[s], 7) <= 4 && suit_count(ts[s], 8) <= 4);
        lemma_count_from(ts[s], 0);
    }
    assert forall|s: int, j: int| 0 <= s < 3 && 0 <= j < 9 implies #[trigger] suit_count(ts[s], j)
        == suit_hand(h, s)[j] by {
        if suit_count(ts[s], j) < suit_hand(h, s)[j] {
            lemma_count_eq(ts[s], suit_hand(h, s), j, 0);
        }
    }
    let d = ts[0] + ts[1] + ts[2];
    assert(part(d, 0) =~= ts[0]);
    assert(part(d, 1) =~= ts[1]);
    assert(part(d, 2) =~= ts[2]);
    assert forall|k: int| 0 <= k < 27 implies #[trigger] pos_ok(d, h, k) by {
        let s = k / 9;
        let n = k % 9;
        assert(k == 9 * s + n);
        lemma_gcount_part(d, s, n);
        assert(is_suit_target(ts[s]));
        assert(suit_count(ts[s], n) == suit_hand(h, s)[n]);
    }
    lemma_pairs_parts(d);
    assert(is_division(d, h));
    lemma_filled(d, 27);
    let a = filled(d, 27);
    assert(a@ =~= d);
    assert(is_division(a@, h));
}

/// A hand of 3m+2 tiles (at most four melds), four of a kind at most, divides into `m` melds
/// and a pair exactly when its normal shanten number is -1.
pub proof fn lemma_shanten_complete(h: Seq<u8>, m: int)
    requires
        h.len() == 27,
        0 <= m <= 4,
        range_sum(h, 0, 27) == 3 * m + 2,
        forall|k: int| 0 <= k < 27 ==> #[trigger] h[k] <= 4,
    ensures
        normal_shanten(h, m) == -1 <==> has_division(h),
{
    lemma_normal_shanten_bound(h, m);
    if normal_shanten(h, m) == -1 {
        lemma_completes_division(h, m);
    }
    if has_division(h) {
        let a = choose|a: [Choice; 27]| is_division(a@, h);
        lemma_division_completes(h, m, a@);
        lemma_min_distance_unique(h, m, 0, normal_shanten(h, m) + 1);
    }
}

} // verus!
