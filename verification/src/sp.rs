//! The hand-and-wall state of the single-player expectation calculator.
use crate::grp::range_sum;
use crate::tile::Tile;
use vstd::prelude::*;

verus! {

broadcast use {vstd::array::group_array_axioms, vstd::seq_lib::group_to_multiset_ensures};

/// What the calculator starts from: the hand, the tiles seen on the table, and the number of
/// tiles left in the wall.
#[derive(Clone)]
pub struct InitState {
    pub tehai: [u8; 27],
    pub tiles_seen: [u8; 27],
    /// The true number of tiles in the wall; the unseen counts are corrected to it.
    pub tiles_left: u8,
}

/// The hand and the tiles still to be drawn, per kind.
#[derive(Clone)]
pub struct State {
    pub tehai: [u8; 27],
    pub tiles_in_wall: [u8; 27],
    pub n_extra_tsumo: u8,
}

/// Per kind, the tiles not seen: 4 less the seen count, at least 0.
pub open spec fn unseen_counts(seen: Seq<u8>) -> Seq<u8> {
    Seq::new(27, |j: int| (4 - (if seen[j] > 4 {
        4
    } else {
        seen[j] as int
    })) as u8)
}

/// Tiles of a 27-count array.
pub open spec fn total(a: Seq<u8>) -> int {
    range_sum(a, 0, 27)
}

proof fn lemma_range_sum_update(a: Seq<u8>, k: int, v: u8, n: int)
    requires
        0 <= k < 27,
        a.len() == 27,
        0 <= n <= 27,
    ensures
        range_sum(a.update(k, v), 0, n) == range_sum(a, 0, n) + if k < n {
            v - a[k]
        } else {
            0
        },
    decreases n,
{
    if n > 0 {
        lemma_range_sum_update(a, k, v, n - 1);
    }
}

proof fn lemma_range_sum_bounds(a: Seq<u8>, n: int, b: int)
    requires
        0 <= n <= a.len(),
        0 <= b,
        forall|k: int| 0 <= k < n ==> #[trigger] a[k] <= b,
    ensures
        0 <= range_sum(a, 0, n) <= b * n,
    decreases n,
{
    if n > 0 {
        lemma_range_sum_bounds(a, n - 1, b);
        assert(b * (n - 1) + b == b * n) by (nonlinear_arith);
    }
}

/// `k` is among the entries of `idx`.
pub open spec fn listed(idx: [usize; 27], k: int) -> bool {
    exists|j: int| 0 <= j < 27 && #[trigger] idx[j] == k
}

/// Kind `x` comes before kind `y` in the count order: more tiles, or as many and a lower index.
pub open spec fn before(wall: [u8; 27], x: int, y: int) -> bool {
    wall[x] > wall[y] || (wall[x] == wall[y] && x < y)
}

/// `idx` lists the kinds 0..27 once each, in the count order.
pub open spec fn count_order(wall: [u8; 27], idx: [usize; 27]) -> bool {
    &&& forall|j: int| 0 <= j < 27 ==> #[trigger] idx[j] < 27
    &&& forall|k: int| 0 <= k < 27 ==> #[trigger] listed(idx, k)
    &&& forall|a: int, b: int| 0 <= a < b < 27 ==> #[trigger] before(wall, idx[a] as int, idx[b] as int)
}

/// The indices 0..27 ordered by count, largest first, lower index first on ties.
fn order_by_count(wall: &[u8; 27]) -> (idx: [usize; 27])
    ensures
        count_order(*wall, idx),
        forall|a: int, b: int| 0 <= a < b < 27 ==> #[trigger] idx[a] != #[trigger] idx[b],
{
    let mut idx: [usize; 27] = [0usize; 27];
    let mut i: usize = 0;
    while i < 27
        invariant
            i <= 27,
            forall|j: int| 0 <= j < i ==> #[trigger] idx[j] == j,
        decreases 27 - i,
    {
        idx[i] = i;
        i += 1;
    }
    let ghost start = idx@;
    assert(start =~= Seq::new(27, |j: int| j as usize));
    let mut i: usize = 1;
    while i < 27
        invariant
            1 <= i <= 27,
            idx@.to_multiset() == start.to_multiset(),
            start == Seq::new(27, |j: int| j as usize),
            forall|q: int| 0 <= q < 27 ==> #[trigger] idx[q] < 27,
            forall|a: int, b: int| 0 <= a < b < 27 ==> #[trigger] idx[a] != #[trigger] idx[b],
            forall|a: int, b: int| 0 <= a < b < i ==> #[trigger] before(*wall, idx[a] as int, idx[b] as int),
        decreases 27 - i,
    {
        let mut j: usize = i;
        while j > 0
            invariant
                j <= i < 27,
                idx@.to_multiset() == start.to_multiset(),
                forall|q: int| 0 <= q < 27 ==> #[trigger] idx[q] < 27,
                forall|a: int, b: int| 0 <= a < b < 27 ==> #[trigger] idx[a] != #[trigger] idx[b],
                forall|a: int, b: int|
                    0 <= a < b <= i && a != j && b != j ==> #[trigger] before(
                        *wall,
                        idx[a] as int,
                        idx[b] as int,
                    ),
                forall|b: int| j < b <= i ==> #[trigger] before(*wall, idx[j as int] as int, idx[b] as int),
            ensures
                idx@.to_multiset() == start.to_multiset(),
                forall|q: int| 0 <= q < 27 ==> #[trigger] idx[q] < 27,
                forall|a: int, b: int| 0 <= a < b < 27 ==> #[trigger] idx[a] != #[trigger] idx[b],
                forall|a: int, b: int| 0 <= a < b <= i ==> #[trigger] before(*wall, idx[a] as int, idx[b] as int),
            decreases j,
        {
            let a = idx[j - 1];
            let b = idx[j];
            let later = wall[b] > wall[a] || (wall[b] == wall[a] && b < a);
            if !later {
                proof {
                    assert(before(*wall, a as int, b as int));
                    assert forall|x: int, y: int| 0 <= x < y <= i implies #[trigger] before(
                        *wall,
                        idx[x] as int,
                        idx[y] as int,
                    ) by {
                        if y == j && x < j - 1 {
                            assert(before(*wall, idx[x] as int, a as int));
                        } else if x == j && y > j {
                        } else if x == j - 1 && y > j {
                            assert(before(*wall, b as int, idx[y] as int));
                        } else if y == j && x == j - 1 {
                        }
                    }
                }
                break;
            }
            let ghost before_idx = idx@;
            idx[j - 1] = b;
            idx[j] = a;
            proof {
                assert(idx@ =~= before_idx.update(j - 1, b).update(j as int, a));
                before_idx.update(j - 1, b).to_multiset_ensures();
                assert(before_idx.update(j - 1, b).to_multiset() =~= before_idx.to_multiset().remove(a).insert(b));
                assert(idx@.to_multiset() =~= before_idx.update(j - 1, b).to_multiset().remove(b).insert(a));
                assert(idx@.to_multiset() =~= before_idx.to_multiset());
                assert forall|x: int, y: int| 0 <= x < y < 27 implies #[trigger] idx[x] != #[trigger] idx[y] by {
                    assert(before_idx[x] != before_idx[y]);
                }
            }
            j -= 1;
        }
        i += 1;
    }
    proof {
        assert forall|j: int| 0 <= j < 27 implies #[trigger] idx[j] < 27 by {
        }
        assert forall|k: int| 0 <= k < 27 implies #[trigger] listed(idx, k) by {
            assert(start[k] == k as usize);
            assert(start.contains(k as usize));
            assert(start.to_multiset().count(k as usize) > 0);
            assert(idx@.to_multiset().count(k as usize) > 0);
            assert(idx@.contains(k as usize));
            let j = choose|j: int| 0 <= j < 27 && idx@[j] == k as usize;
            assert(idx[j] == k);
        }
    }
    idx
}

/// Kind `k` after `p` rounds that each take one tile from every kind holding one, and a last
/// round stopped before position `c` of the order `idx`.
pub open spec fn taken(w0: [u8; 27], idx: [usize; 27], p: int, c: int, k: int) -> int {
    if w0[k] - p <= 0 {
        0
    } else if exists|j: int| 0 <= j < c && idx[j] == k {
        w0[k] - p - 1
    } else {
        w0[k] - p
    }
}

/// Kind `k` after `p` rounds that each add one tile to every kind holding fewer than four, and
/// a last round over the last `c` positions of the order `idx`, taken from its end.
pub open spec fn given(w0: [u8; 27], idx: [usize; 27], p: int, c: int, k: int) -> int {
    if w0[k] + p >= 4 {
        4
    } else if exists|j: int| 27 - c <= j < 27 && idx[j] == k {
        w0[k] + p + 1
    } else {
        w0[k] + p
    }
}

/// `w1` is `w0` brought to `target` tiles in rounds over the count order `idx`: taking while
/// `w0` holds too many, adding while it holds too few.
pub open spec fn adjusted_by(w0: [u8; 27], idx: [usize; 27], p: int, c: int, target: int, w1: [u8; 27]) -> bool {
    &&& count_order(w0, idx)
    &&& 0 <= p
    &&& 0 <= c <= 27
    &&& forall|k: int|
        0 <= k < 27 ==> #[trigger] w1[k] == if total(w0@) >= target {
            taken(w0, idx, p, c, k)
        } else {
            given(w0, idx, p, c, k)
        }
}

/// Brings the wall counts to `target` tiles, one tile per kind per round: taking from the
/// kinds with the most tiles first (lower index first on ties) while there are too many, and
/// adding to those with the fewest first (higher index first on ties) while there are too
/// few, never below 0 or above 4.
fn adjust_wall_sum(wall: &mut [u8; 27], target: u8)
    requires
        forall|k: int| 0 <= k < 27 ==> #[trigger] old(wall)[k] <= 4,
        target <= 108,
    ensures
        forall|k: int| 0 <= k < 27 ==> #[trigger] final(wall)[k] <= 4,
        total(final(wall)@) == target,
        total(old(wall)@) >= target ==> forall|k: int| 0 <= k < 27 ==> #[trigger] final(wall)[k] <= old(wall)[k],
        total(old(wall)@) <= target ==> forall|k: int| 0 <= k < 27 ==> #[trigger] final(wall)[k] >= old(wall)[k],
        exists|idx: [usize; 27], p: int, c: int| #[trigger] adjusted_by(*old(wall), idx, p, c, target as int, *final(wall)),
{
    let ghost w0 = wall@;
    let ghost wa = *wall;
    proof {
        lemma_range_sum_bounds(w0, 27, 4);
    }
    let mut current: u16 = 0;
    let mut k: usize = 0;
    while k < 27
        invariant
            k <= 27,
            wall@ == w0,
            forall|j: int| 0 <= j < 27 ==> #[trigger] wall[j] <= 4,
            current == range_sum(w0, 0, k as int),
            current <= 4 * k,
        decreases 27 - k,
    {
        current = current + wall[k] as u16;
        k += 1;
    }
    let target16 = target as u16;
    let idx = order_by_count(wall);
    if current == target16 {
        proof {
            assert forall|k: int| 0 <= k < 27 implies #[trigger] wall[k] == taken(wa, idx, 0, 0, k) by {}
            assert(adjusted_by(wa, idx, 0, 0, target as int, *wall));
        }
        return;
    }
    if current > target16 {
        let mut excess: u16 = current - target16;
        let ghost mut p: int = 0;
        let ghost mut c: int = 0;
        while excess > 0
            invariant
                forall|j: int| 0 <= j < 27 ==> #[trigger] idx[j] < 27,
                forall|q: int| 0 <= q < 27 ==> #[trigger] listed(idx, q),
                forall|j: int| 0 <= j < 27 ==> #[trigger] wall[j] <= w0[j],
                w0.len() == 27,
                w0 == wa@,
                total(wall@) == target + excess,
                total(w0) > target,
                count_order(wa, idx),
                forall|a: int, b: int| 0 <= a < b < 27 ==> #[trigger] idx[a] != #[trigger] idx[b],
                0 <= p,
                0 <= c <= 27,
                excess > 0 ==> c == 0,
                forall|k: int| 0 <= k < 27 ==> #[trigger] wall[k] == taken(wa, idx, p, c, k),
            decreases excess,
        {
            let ghost pass_start = excess;
            let mut changed = false;
            let mut r: usize = 0;
            while r < 27 && excess > 0
                invariant
                    r <= 27,
                    w0.len() == 27,
                    w0 == wa@,
                    0 <= p,
                    forall|a: int, b: int| 0 <= a < b < 27 ==> #[trigger] idx[a] != #[trigger] idx[b],
                    forall|k: int| 0 <= k < 27 ==> #[trigger] wall[k] == taken(wa, idx, p, r as int, k),
                    forall|j: int| 0 <= j < 27 ==> #[trigger] idx[j] < 27,
                    forall|j: int| 0 <= j < 27 ==> #[trigger] wall[j] <= w0[j],
                    total(wall@) == target + excess,
                    excess <= pass_start,
                    changed ==> excess < pass_start,
                    !changed ==> excess == pass_start && forall|q: int| 0 <= q < r ==> #[trigger] wall[idx[q] as int] == 0,
                decreases 27 - r,
            {
                let i = idx[r];
                let ghost wb = *wall;
                if wall[i] > 0 {
                    let ghost before = wall@;
                    wall[i] = wall[i] - 1;
                    proof {
                        lemma_range_sum_update(before, i as int, (before[i as int] - 1) as u8, 27);
                    }
                    excess = excess - 1;
                    changed = true;
                }
                proof {
                    assert forall|k: int| 0 <= k < 27 implies #[trigger] wall[k] == taken(wa, idx, p, r + 1, k) by {
                        if k == i as int {
                            assert(!(exists|j: int| 0 <= j < r && idx[j] == k));
                            assert(idx[r as int] == k);
                        } else {
                            assert((exists|j: int| 0 <= j < r + 1 && idx[j] == k) == (exists|j: int| 0 <= j < r && idx[j] == k));
                        }
                    }
                }
                r += 1;
            }
            proof {
                if excess > 0 {
                    assert(r == 27);
                    assert forall|k: int| 0 <= k < 27 implies #[trigger] wall[k] == taken(wa, idx, p + 1, 0, k) by {
                        assert(listed(idx, k));
                        let j = choose|j: int| 0 <= j < 27 && #[trigger] idx[j] == k;
                        assert(exists|j: int| 0 <= j < 27 && idx[j] == k);
                    }
                    p = p + 1;
                    c = 0;
                } else {
                    c = r as int;
                }
            }
            proof {
                if !changed {
                    assert forall|q: int| 0 <= q < 27 implies #[trigger] wall@[q] == 0 by {
                        assert(listed(idx, q));
                        let j = choose|j: int| 0 <= j < 27 && #[trigger] idx[j] == q;
                        assert(wall[idx[j] as int] == 0);
                    }
                    lemma_range_sum_bounds(wall@, 27, 0);
                }
            }
        }
        proof {
            assert(adjusted_by(wa, idx, p, c, target as int, *wall));
        }
    } else {
        let mut deficit: u16 = target16 - current;
        let ghost mut p: int = 0;
        let ghost mut c: int = 0;
        while deficit > 0
            invariant
                forall|j: int| 0 <= j < 27 ==> #[trigger] idx[j] < 27,
                forall|q: int| 0 <= q < 27 ==> #[trigger] listed(idx, q),
                forall|j: int| 0 <= j < 27 ==> w0[j] <= #[trigger] wall[j] <= 4,
                w0.len() == 27,
                w0 == wa@,
                total(wall@) + deficit == target,
                target <= 108,
                total(w0) < target,
                count_order(wa, idx),
                forall|a: int, b: int| 0 <= a < b < 27 ==> #[trigger] idx[a] != #[trigger] idx[b],
                0 <= p,
                0 <= c <= 27,
                deficit > 0 ==> c == 0,
                forall|k: int| 0 <= k < 27 ==> #[trigger] wall[k] == given(wa, idx, p, c, k),
            decreases deficit,
        {
            let ghost pass_start = deficit;
            let mut changed = false;
            let mut r: usize = 27;
            while r > 0 && deficit > 0
                invariant
                    r <= 27,
                    w0.len() == 27,
                    w0 == wa@,
                    0 <= p,
                    forall|a: int, b: int| 0 <= a < b < 27 ==> #[trigger] idx[a] != #[trigger] idx[b],
                    forall|k: int| 0 <= k < 27 ==> #[trigger] wall[k] == given(wa, idx, p, 27 - r, k),
                    forall|j: int| 0 <= j < 27 ==> #[trigger] idx[j] < 27,
                    forall|j: int| 0 <= j < 27 ==> w0[j] <= #[trigger] wall[j] <= 4,
                    total(wall@) + deficit == target,
                    deficit <= pass_start,
                    changed ==> deficit < pass_start,
                    !changed ==> deficit == pass_start && forall|q: int| r <= q < 27 ==> #[trigger] wall[idx[q] as int] == 4,
                decreases r,
            {
                let i = idx[r - 1];
                if wall[i] < 4 {
                    let ghost before = wall@;
                    wall[i] = wall[i] + 1;
                    proof {
                        lemma_range_sum_update(before, i as int, (before[i as int] + 1) as u8, 27);
                    }
                    deficit = deficit - 1;
                    changed = true;
                }
                proof {
                    assert forall|k: int| 0 <= k < 27 implies #[trigger] wall[k] == given(wa, idx, p, 27 - (r - 1), k) by {
                        if k == i as int {
                            assert(!(exists|j: int| 27 - (27 - r) <= j < 27 && idx[j] == k));
                            assert(idx[r - 1] == k);
                        } else {
                            assert((exists|j: int| 27 - (27 - (r - 1)) <= j < 27 && idx[j] == k) == (exists|j: int| 27 - (27 - r) <= j < 27 && idx[j] == k));
                        }
                    }
                }
                r -= 1;
            }
            proof {
                if deficit > 0 {
                    assert(r == 0);
                    assert forall|k: int| 0 <= k < 27 implies #[trigger] wall[k] == given(wa, idx, p + 1, 0, k) by {
                        assert(listed(idx, k));
                        let j = choose|j: int| 0 <= j < 27 && #[trigger] idx[j] == k;
                        assert(exists|j: int| 0 <= j < 27 && idx[j] == k);
                    }
                    p = p + 1;
                    c = 0;
                } else {
                    c = 27 - r;
                }
            }
            proof {
                if !changed {
                    assert forall|q: int| 0 <= q < 27 implies #[trigger] wall@[q] == 4 by {
                        assert(listed(idx, q));
                        let j = choose|j: int| 0 <= j < 27 && #[trigger] idx[j] == q;
                        assert(wall[idx[j] as int] == 4);
                    }
                    lemma_range_sum_bounds(wall@, 27, 4);
                    lemma_range_sum_lower(wall@, 27);
                }
            }
        }
        proof {
            assert(adjusted_by(wa, idx, p, c, target as int, *wall));
        }
    }
}

proof fn lemma_range_sum_lower(a: Seq<u8>, n: int)
    requires
        0 <= n <= a.len(),
        forall|k: int| 0 <= k < n ==> #[trigger] a[k] == 4,
    ensures
        range_sum(a, 0, n) == 4 * n,
    decreases n,
{
    if n > 0 {
        lemma_range_sum_lower(a, n - 1);
    }
}

impl State {
    /// The calculator state of `init`: the hand, and per kind the tiles not seen (4 less the
    /// seen count, at least 0), corrected so that the wall holds exactly `tiles_left` tiles.
    pub fn from_init(init: InitState) -> (r: Self)
        requires
            init.tiles_left <= 108,
        ensures
            r.tehai == init.tehai,
            r.n_extra_tsumo == 0,
            forall|k: int| 0 <= k < 27 ==> #[trigger] r.tiles_in_wall[k] <= 4,
            total(r.tiles_in_wall@) == init.tiles_left,
            total(unseen_counts(init.tiles_seen@)) >= init.tiles_left ==> forall|k: int|
                0 <= k < 27 ==> #[trigger] r.tiles_in_wall[k] <= unseen_counts(init.tiles_seen@)[k],
            total(unseen_counts(init.tiles_seen@)) <= init.tiles_left ==> forall|k: int|
                0 <= k < 27 ==> #[trigger] r.tiles_in_wall[k] >= unseen_counts(init.tiles_seen@)[k],
            exists|w0: [u8; 27], idx: [usize; 27], p: int, c: int|
                w0@ == unseen_counts(init.tiles_seen@) && #[trigger] adjusted_by(
                    w0,
                    idx,
                    p,
                    c,
                    init.tiles_left as int,
                    r.tiles_in_wall,
                ),
    {
        let mut tiles_in_wall: [u8; 27] = [0u8; 27];
        let mut i: usize = 0;
        while i < 27
            invariant
                i <= 27,
                forall|j: int|
                    0 <= j < i ==> #[trigger] tiles_in_wall[j] == 4 - (if init.tiles_seen[j] > 4 {
                        4
                    } else {
                        init.tiles_seen[j] as int
                    }),
                forall|j: int| 0 <= j < 27 ==> #[trigger] tiles_in_wall[j] <= 4,
            decreases 27 - i,
        {
            let seen = if init.tiles_seen[i] > 4 {
                4
            } else {
                init.tiles_seen[i]
            };
            tiles_in_wall[i] = 4 - seen;
            i += 1;
        }
        assert(tiles_in_wall@ =~= unseen_counts(init.tiles_seen@));
        let ghost w0 = tiles_in_wall;
        adjust_wall_sum(&mut tiles_in_wall, init.tiles_left);
        proof {
            let (idx, p, c) = choose|idx: [usize; 27], p: int, c: int| #[trigger] adjusted_by(w0, idx, p, c, init.tiles_left as int, tiles_in_wall);
            assert(adjusted_by(w0, idx, p, c, init.tiles_left as int, tiles_in_wall));
        }
        State { tehai: init.tehai, tiles_in_wall, n_extra_tsumo: 0 }
    }

    /// Takes one `tile` out of the hand.
    pub fn discard(&mut self, tile: Tile)
        requires
            tile@ < 27,
            old(self).tehai[tile@ as int] > 0,
        ensures
            final(self).tehai@ == old(self).tehai@.update(tile@ as int, (old(self).tehai[tile@ as int] - 1) as u8),
            final(self).tiles_in_wall == old(self).tiles_in_wall,
            final(self).n_extra_tsumo == old(self).n_extra_tsumo,
    {
        let t = tile.as_usize();
        self.tehai[t] = self.tehai[t] - 1;
    }

    /// Puts one `tile` back into the hand.
    pub fn undo_discard(&mut self, tile: Tile)
        requires
            tile@ < 27,
            old(self).tehai[tile@ as int] < 255,
        ensures
            final(self).tehai@ == old(self).tehai@.update(tile@ as int, (old(self).tehai[tile@ as int] + 1) as u8),
            final(self).tiles_in_wall == old(self).tiles_in_wall,
            final(self).n_extra_tsumo == old(self).n_extra_tsumo,
    {
        let t = tile.as_usize();
        self.tehai[t] = self.tehai[t] + 1;
    }

    /// Draws one `tile` from the wall into the hand.
    pub fn deal(&mut self, tile: Tile)
        requires
            tile@ < 27,
            old(self).tiles_in_wall[tile@ as int] > 0,
            old(self).tehai[tile@ as int] < 255,
        ensures
            final(self).tiles_in_wall@ == old(self).tiles_in_wall@.update(tile@ as int, (old(self).tiles_in_wall[tile@ as int] - 1) as u8),
            final(self).tehai@ == old(self).tehai@.update(tile@ as int, (old(self).tehai[tile@ as int] + 1) as u8),
            final(self).n_extra_tsumo == old(self).n_extra_tsumo,
    {
        let t = tile.as_usize();
        self.tiles_in_wall[t] = self.tiles_in_wall[t] - 1;
        self.undo_discard(tile);
    }

    /// Puts a drawn `tile` back from the hand into the wall.
    pub fn undo_deal(&mut self, tile: Tile)
        requires
            tile@ < 27,
            old(self).tehai[tile@ as int] > 0,
            old(self).tiles_in_wall[tile@ as int] < 255,
        ensures
            final(self).tehai@ == old(self).tehai@.update(tile@ as int, (old(self).tehai[tile@ as int] - 1) as u8),
            final(self).tiles_in_wall@ == old(self).tiles_in_wall@.update(tile@ as int, (old(self).tiles_in_wall[tile@ as int] + 1) as u8),
            final(self).n_extra_tsumo == old(self).n_extra_tsumo,
    {
        self.discard(tile);
        let t = tile.as_usize();
        self.tiles_in_wall[t] = self.tiles_in_wall[t] + 1;
    }

    /// The tiles left in the wall (at most the 56 of a fresh deal).
    pub fn sum_left_tiles(&self) -> (r: u8)
        requires
            total(self.tiles_in_wall@) <= 56,
        ensures
            r == total(self.tiles_in_wall@),
    {
        let mut sum: u8 = 0;
        let mut k: usize = 0;
        while k < 27
            invariant
                k <= 27,
                total(self.tiles_in_wall@) <= 56,
                sum == range_sum(self.tiles_in_wall@, 0, k as int),
            decreases 27 - k,
        {
            proof {
                lemma_range_sum_prefix(self.tiles_in_wall@, k + 1, 27);
            }
            sum = sum + self.tiles_in_wall[k];
            k += 1;
        }
        sum
    }
}

proof fn lemma_range_sum_prefix(a: Seq<u8>, n: int, m: int)
    requires
        0 <= n <= m,
    ensures
        range_sum(a, 0, n) <= range_sum(a, 0, m),
    decreases m - n,
{
    if n < m {
        lemma_range_sum_prefix(a, n, m - 1);
    }
}

} // verus!
