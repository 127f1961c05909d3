//! Final rankings: by score, ties broken by win order, then by seat.
use vstd::prelude::*;

verus! {

broadcast use vstd::array::group_array_axioms;

/// `player_by_rank[r]` is the player at rank `r`; `rank_by_player` is its inverse.
#[derive(Debug, Clone, Copy)]
pub struct Rankings {
    pub player_by_rank: [u8; 4],
    pub rank_by_player: [u8; 4],
}

/// The first index at or after `i` where `o` holds `p`, or `usize::MAX` if none.
pub open spec fn first_index_from(o: Seq<u8>, p: u8, i: int) -> int
    decreases o.len() - i,
{
    if i < 0 || i >= o.len() {
        usize::MAX as int
    } else if o[i] == p {
        i
    } else {
        first_index_from(o, p, i + 1)
    }
}

/// The position of player `p` in the win order, or `usize::MAX` if it did not win.
pub open spec fn agari_pos(order: Option<Seq<u8>>, p: u8) -> int {
    match order {
        Some(o) => first_index_from(o, p, 0),
        None => usize::MAX as int,
    }
}

/// Player `a` ranks before player `b`: higher score, else earlier win, else lower seat.
pub open spec fn ranks_before(scores: [i32; 4], order: Option<Seq<u8>>, a: u8, b: u8) -> bool {
    scores[a as int] > scores[b as int] || (scores[a as int] == scores[b as int] && (agari_pos(
        order,
        a,
    ) < agari_pos(order, b) || (agari_pos(order, a) == agari_pos(order, b) && a < b)))
}

/// The rankings order all four players by `ranks_before`, and the two arrays are inverse.
pub open spec fn valid_rankings(rk: Rankings, scores: [i32; 4], order: Option<Seq<u8>>) -> bool {
    &&& forall|r: int| 0 <= r < 4 ==> #[trigger] rk.player_by_rank[r] < 4
    &&& forall|r: int| 0 <= r < 4 ==> rk.rank_by_player[rk.player_by_rank[r] as int] == r
    &&& forall|p: int| 0 <= p < 4 ==> rk.player_by_rank[rk.rank_by_player[p] as int] == p
    &&& forall|r: int| 0 <= r < 4 ==> #[trigger] rk.rank_by_player[r] < 4
    &&& forall|r: int, s: int|
        0 <= r < s < 4 ==> ranks_before(
            scores,
            order,
            #[trigger] rk.player_by_rank[r],
            #[trigger] rk.player_by_rank[s],
        )
}

/// The contents of an optional slice.
pub open spec fn opt_seq(order: Option<&[u8]>) -> Option<Seq<u8>> {
    match order {
        Some(o) => Some(o@),
        None => None,
    }
}

/// The first position of `p` in `order`, or `usize::MAX`.
fn position_in(order: Option<&[u8]>, p: u8) -> (r: usize)
    ensures
        r == agari_pos(opt_seq(order), p),
{
    match order {
        Some(o) => {
            let mut i: usize = 0;
            while i < o.len()
                invariant
                    i <= o@.len(),
                    order == Some(o),
                    first_index_from(o@, p, 0) == first_index_from(o@, p, i as int),
                decreases o.len() - i,
            {
                if o[i] == p {
                    return i;
                }
                i += 1;
            }
            usize::MAX
        },
        None => usize::MAX,
    }
}

proof fn lemma_ranks_before_total(scores: [i32; 4], order: Option<Seq<u8>>, a: u8, b: u8)
    requires
        a != b,
    ensures
        ranks_before(scores, order, a, b) != ranks_before(scores, order, b, a),
{
}

proof fn lemma_ranks_before_trans(scores: [i32; 4], order: Option<Seq<u8>>, a: u8, b: u8, c: u8)
    requires
        ranks_before(scores, order, a, b),
        ranks_before(scores, order, b, c),
    ensures
        ranks_before(scores, order, a, c),
{
}

impl Rankings {
    /// Ranks the players by score; ties go to the earlier winner in `agari_order`
    /// (players not in it come after those in it), then to the lower seat.
    pub fn new_with_agari_order(scores: [i32; 4], agari_order: Option<&[u8]>) -> (r: Self)
        ensures
            valid_rankings(r, scores, opt_seq(agari_order)),
    {
        let ghost order = opt_seq(agari_order);
        let mut keys: [usize; 4] = [0; 4];
        let mut p: usize = 0;
        while p < 4
            invariant
                p <= 4,
                order == opt_seq(agari_order),
                forall|q: int| 0 <= q < p ==> keys[q] == agari_pos(order, q as u8),
            decreases 4 - p,
        {
            keys[p] = position_in(agari_order, p as u8);
            p += 1;
        }
        let mut player_by_rank: [u8; 4] = [0, 1, 2, 3];
        // insertion sort by `ranks_before`
        let mut i: usize = 1;
        while i < 4
            invariant
                1 <= i <= 4,
                forall|q: int| 0 <= q < 4 ==> keys[q] == agari_pos(order, q as u8),
                forall|r: int| 0 <= r < 4 ==> #[trigger] player_by_rank[r] < 4,
                forall|r: int, s: int|
                    0 <= r < s < 4 ==> player_by_rank[r] != player_by_rank[s],
                forall|r: int, s: int|
                    0 <= r < s < i ==> ranks_before(
                        scores,
                        order,
                        #[trigger] player_by_rank[r],
                        #[trigger] player_by_rank[s],
                    ),
            decreases 4 - i,
        {
            let mut j: usize = i;
            while j > 0
                invariant
                    0 <= j <= i < 4,
                    forall|q: int| 0 <= q < 4 ==> keys[q] == agari_pos(order, q as u8),
                    forall|r: int| 0 <= r < 4 ==> #[trigger] player_by_rank[r] < 4,
                    forall|r: int, s: int|
                        0 <= r < s < 4 ==> player_by_rank[r] != player_by_rank[s],
                    forall|r: int, s: int|
                        0 <= r < s <= i && s != j && r != j ==> ranks_before(
                            scores,
                            order,
                            #[trigger] player_by_rank[r],
                            #[trigger] player_by_rank[s],
                        ),
                    forall|s: int|
                        j < s <= i ==> ranks_before(
                            scores,
                            order,
                            player_by_rank[j as int],
                            #[trigger] player_by_rank[s],
                        ),
                ensures
                    forall|q: int| 0 <= q < 4 ==> keys[q] == agari_pos(order, q as u8),
                    forall|r: int| 0 <= r < 4 ==> #[trigger] player_by_rank[r] < 4,
                    forall|r: int, s: int|
                        0 <= r < s < 4 ==> player_by_rank[r] != player_by_rank[s],
                    forall|r: int, s: int|
                        0 <= r < s <= i ==> ranks_before(
                            scores,
                            order,
                            #[trigger] player_by_rank[r],
                            #[trigger] player_by_rank[s],
                        ),
                decreases j,
            {
                let a = player_by_rank[j - 1];
                let b = player_by_rank[j];
                let sa = scores[a as usize];
                let sb = scores[b as usize];
                let ka = keys[a as usize];
                let kb = keys[b as usize];
                let b_first = sb > sa || (sb == sa && (kb < ka || (kb == ka && b < a)));
                if !b_first {
                    proof {
                        lemma_ranks_before_total(scores, order, a, b);
                        assert forall|r: int, s: int|
                            0 <= r < s <= i implies ranks_before(
                            scores,
                            order,
                            #[trigger] player_by_rank[r],
                            #[trigger] player_by_rank[s],
                        ) by {
                            if s == j && r < j - 1 {
                                lemma_ranks_before_trans(
                                    scores,
                                    order,
                                    player_by_rank[r],
                                    player_by_rank[j - 1],
                                    player_by_rank[s],
                                );
                            } else if r == j && s > j {
                            } else if r == j - 1 && s > j {
                                lemma_ranks_before_trans(
                                    scores,
                                    order,
                                    player_by_rank[r],
                                    player_by_rank[j as int],
                                    player_by_rank[s],
                                );
                            }
                        }
                    }
                    break;
                }
                let ghost old_pbr = player_by_rank;
                player_by_rank[j - 1] = b;
                player_by_rank[j] = a;
                proof {
                    assert forall|s: int|
                        j - 1 < s <= i implies ranks_before(
                        scores,
                        order,
                        player_by_rank[j - 1],
                        #[trigger] player_by_rank[s],
                    ) by {
                        if s > j {
                            lemma_ranks_before_trans(
                                scores,
                                order,
                                player_by_rank[j - 1],
                                player_by_rank[j as int],
                                player_by_rank[s],
                            );
                        }
                    }
                }
                j -= 1;
            }
            i += 1;
        }
        let mut rank_by_player: [u8; 4] = [0; 4];
        let mut r: usize = 0;
        while r < 4
            invariant
                r <= 4,
                forall|q: int| 0 <= q < 4 ==> #[trigger] player_by_rank[q] < 4,
                forall|q: int, s: int|
                    0 <= q < s < 4 ==> player_by_rank[q] != player_by_rank[s],
                forall|q: int| 0 <= q < r ==> rank_by_player[player_by_rank[q] as int] == q,
            decreases 4 - r,
        {
            rank_by_player[player_by_rank[r] as usize] = r as u8;
            r += 1;
        }
        proof {
            assert forall|p: int| 0 <= p < 4 implies player_by_rank[rank_by_player[p] as int] == p
                && rank_by_player[p] < 4 by {
                // the four ranks hold four distinct players below 4, so each player is reached
                lemma_perm4_onto(player_by_rank, p);
            }
        }
        Self { player_by_rank, rank_by_player }
    }

    /// Ranks the players by score; ties go to the lower seat.
    pub fn new(scores: [i32; 4]) -> (r: Self)
        ensures
            valid_rankings(r, scores, None),
    {
        Self::new_with_agari_order(scores, None)
    }
}

/// Four distinct values below 4 take every value below 4.
proof fn lemma_perm4_onto(a: [u8; 4], p: int)
    requires
        forall|q: int| 0 <= q < 4 ==> #[trigger] a[q] < 4,
        forall|q: int, s: int| 0 <= q < s < 4 ==> a[q] != a[s],
        0 <= p < 4,
    ensures
        exists|q: int| 0 <= q < 4 && a[q] == p,
{
    if !(exists|q: int| 0 <= q < 4 && a[q] == p) {
        assert(a[0] != p && a[1] != p && a[2] != p && a[3] != p);
        assert(a[0] < 4 && a[1] < 4 && a[2] < 4 && a[3] < 4);
    }
}


proof fn lemma_rank_agrees(scores: [i32; 4], order: Option<Seq<u8>>, r1: Rankings, r2: Rankings, r: int)
    requires
        valid_rankings(r1, scores, order),
        valid_rankings(r2, scores, order),
        0 <= r < 4,
        forall|q: int| 0 <= q < r ==> r1.player_by_rank[q] == r2.player_by_rank[q],
    ensures
        r1.player_by_rank[r] == r2.player_by_rank[r],
{
    let a = r1.player_by_rank[r];
    let b = r2.player_by_rank[r];
    if a != b {
        let s = r2.rank_by_player[a as int] as int;
        let t = r1.rank_by_player[b as int] as int;
        assert(r2.player_by_rank[s] == a);
        assert(r1.player_by_rank[t] == b);
        if s < r {
            assert(r1.player_by_rank[s] == a);
            assert(r1.rank_by_player[a as int] == s);
            assert(r1.rank_by_player[a as int] == r);
        }
        if t < r {
            assert(r2.player_by_rank[t] == b);
            assert(r2.rank_by_player[b as int] == t);
            assert(r2.rank_by_player[b as int] == r);
        }
        assert(ranks_before(scores, order, b, a));
        assert(ranks_before(scores, order, a, b));
        lemma_ranks_before_total(scores, order, a, b);
    }
}

/// The ranking is determined by the scores and the win order: any two rankings that both
/// order the players by `ranks_before` (and whose arrays are inverse) are the same.
pub proof fn lemma_rankings_unique(scores: [i32; 4], order: Option<Seq<u8>>, r1: Rankings, r2: Rankings)
    requires
        valid_rankings(r1, scores, order),
        valid_rankings(r2, scores, order),
    ensures
        r1.player_by_rank == r2.player_by_rank,
        r1.rank_by_player == r2.rank_by_player,
{
    lemma_rank_agrees(scores, order, r1, r2, 0);
    lemma_rank_agrees(scores, order, r1, r2, 1);
    lemma_rank_agrees(scores, order, r1, r2, 2);
    lemma_rank_agrees(scores, order, r1, r2, 3);
    assert(r1.player_by_rank@ =~= r2.player_by_rank@);
    assert forall|p: int| 0 <= p < 4 implies r1.rank_by_player[p] == r2.rank_by_player[p] by {
        let x = r1.rank_by_player[p] as int;
        assert(r1.player_by_rank[x] == p);
        assert(r2.player_by_rank[x] == p);
        assert(r2.rank_by_player[r2.player_by_rank[x] as int] == x);
    }
    assert(r1.rank_by_player@ =~= r2.rank_by_player@);
}

} // verus!
