//! Shanten numbers: how many tiles a hand lacks before it is complete, less one.
//!
//! A complete hand is a set of melds (triplets and runs within one suit) and one pair.
//! The normal shanten number of a hand is the least number of tiles it must gain to contain
//! such a hand, minus one. Melds never cross suits, so a complete hand is a triple of
//! per-suit parts, each described position by position as a sequence of nine `Choice`s.
//!
//! With a void suit named, its tiles cannot be part of a complete hand: they are set aside and
//! each counts as one more tile to get rid of.
use crate::ding_que::{spec_suit_id, suit_range};
use crate::grp::{range_sum, without_suit};
use crate::mjai::Suit;
use vstd::prelude::*;

verus! {

/// What a complete hand holds at one position of a suit: a pair of this rank, a triplet
/// of this rank, and `shuntsu` runs starting at this rank.
#[derive(Clone, Copy, Debug, PartialEq, Eq, Structural)]
pub struct Choice {
    pub pair: bool,
    pub kotsu: bool,
    pub shuntsu: u8,
}

/// The value that stands for "no such hand" in per-suit distances.
pub const INF: u8 = 64;

/// Runs starting at position `i` of a suit part (0 outside the part).
pub open spec fn shun_at(t: Seq<Choice>, i: int) -> int {
    if 0 <= i < t.len() {
        t[i].shuntsu as int
    } else {
        0
    }
}

/// How many tiles of the rank at position `n` the suit part `t` holds.
pub open spec fn suit_count(t: Seq<Choice>, n: int) -> int {
    (if t[n].pair {
        2int
    } else {
        0int
    }) + (if t[n].kotsu {
        3int
    } else {
        0int
    }) + shun_at(t, n) + shun_at(t, n - 1) + shun_at(t, n - 2)
}

/// The number of tiles a hand holding `have` of a rank lacks to hold `cnt` of it.
pub open spec fn deficit(cnt: int, have: int) -> int {
    if cnt > have {
        cnt - have
    } else {
        0
    }
}

pub open spec fn choice_melds(c: Choice) -> int {
    (if c.kotsu {
        1int
    } else {
        0int
    }) + c.shuntsu as int
}

pub open spec fn choice_pairs(c: Choice) -> int {
    if c.pair {
        1
    } else {
        0
    }
}

/// Melds at positions `n..9` of a suit part.
pub open spec fn melds_from(t: Seq<Choice>, n: int) -> int
    decreases 9 - n,
{
    if n < 0 || n >= 9 {
        0
    } else {
        choice_melds(t[n]) + melds_from(t, n + 1)
    }
}

/// Pairs at positions `n..9` of a suit part.
pub open spec fn pairs_from(t: Seq<Choice>, n: int) -> int
    decreases 9 - n,
{
    if n < 0 || n >= 9 {
        0
    } else {
        choice_pairs(t[n]) + pairs_from(t, n + 1)
    }
}

/// Tiles that a suit holding `h` lacks at positions `n..9` to hold the suit part `t`.
pub open spec fn def_from(t: Seq<Choice>, h: Seq<u8>, n: int) -> int
    decreases 9 - n,
{
    if n < 0 || n >= 9 {
        0
    } else {
        deficit(suit_count(t, n), h[n] as int) + def_from(t, h, n + 1)
    }
}

/// At positions `n..9`, `t` holds at most four tiles of a rank and no run past rank 7.
pub open spec fn target_from(t: Seq<Choice>, n: int) -> bool {
    forall|k: int|
        n <= k < 9 ==> #[trigger] suit_count(t, k) <= 4 && (k >= 7 ==> t[k].shuntsu == 0)
}

/// A suit part of a complete hand that four copies of each tile can make.
pub open spec fn is_suit_target(t: Seq<Choice>) -> bool {
    t.len() == 9 && target_from(t, 0)
}

/// The nine counts of suit `s` in a hand of 27 counts.
pub open spec fn suit_hand(h: Seq<u8>, s: int) -> Seq<u8> {
    h.subrange(9 * s, 9 * s + 9)
}

/// `ts` is a complete hand of `m` melds and one pair: three suit parts.
pub open spec fn is_completion(ts: Seq<Seq<Choice>>, m: int) -> bool {
    &&& ts.len() == 3
    &&& forall|s: int| 0 <= s < 3 ==> is_suit_target(#[trigger] ts[s])
    &&& melds_from(ts[0], 0) + melds_from(ts[1], 0) + melds_from(ts[2], 0) == m
    &&& pairs_from(ts[0], 0) + pairs_from(ts[1], 0) + pairs_from(ts[2], 0) == 1
}

/// The number of tiles the hand `h` lacks to hold the complete hand `ts`.
pub open spec fn distance(ts: Seq<Seq<Choice>>, h: Seq<u8>) -> int {
    def_from(ts[0], suit_hand(h, 0), 0) + def_from(ts[1], suit_hand(h, 1), 0) + def_from(
        ts[2],
        suit_hand(h, 2),
        0,
    )
}

/// `d` is the least number of tiles that `h` lacks to hold a complete hand of `m` melds.
pub open spec fn is_min_distance(h: Seq<u8>, m: int, d: int) -> bool {
    &&& exists|ts: Seq<Seq<Choice>>| is_completion(ts, m) && distance(ts, h) == d
    &&& forall|ts: Seq<Seq<Choice>>| is_completion(ts, m) ==> distance(ts, h) >= d
}

/// The normal shanten number: the least distance to a complete hand of `m` melds, minus one.
pub open spec fn normal_shanten(h: Seq<u8>, m: int) -> int {
    (choose|d: int| is_min_distance(h, m, d)) - 1
}

/// Tile kinds among `0..k` that the hand holds at least two of.
pub open spec fn pair_kinds(h: Seq<u8>, k: int) -> int
    decreases k,
{
    if k <= 0 {
        0
    } else {
        pair_kinds(h, k - 1) + if h[k - 1] >= 2 {
            1int
        } else {
            0int
        }
    }
}

/// Tile kinds among `0..k` that the hand holds.
pub open spec fn held_kinds(h: Seq<u8>, k: int) -> int
    decreases k,
{
    if k <= 0 {
        0
    } else {
        held_kinds(h, k - 1) + if h[k - 1] > 0 {
            1int
        } else {
            0int
        }
    }
}

/// Seven pairs shanten: 6 - pairs, plus one for each kind short of seven distinct kinds.
pub open spec fn chitoi_shanten(h: Seq<u8>) -> int {
    let pairs = pair_kinds(h, 27);
    let kinds = held_kinds(h, 27);
    7 - pairs + (if kinds < 7 {
        7 - kinds
    } else {
        0
    }) - 1
}

/// The shanten number over all hand shapes: normal, and seven pairs for a full hand.
pub open spec fn spec_calc_all(h: Seq<u8>, m: int) -> int {
    let s = normal_shanten(h, m);
    if s <= 0 || m < 4 {
        s
    } else if chitoi_shanten(h) < s {
        chitoi_shanten(h)
    } else {
        s
    }
}

// ---------------------------------------------------------------------------------------------
// The least per-suit distance, by position: `suit_best(h, n, c1, c2, m, p)` is the least number
// of tiles a suit holding `h` lacks at positions `n..9` for `m` more melds and `p` more pairs,
// given `c1` runs started at `n - 1` and `c2` at `n - 2`.
/// The count at position `n` for a choice of `pp` pairs, `kk` triplets, `ss` runs.
pub open spec fn option_count(c1: int, c2: int, pp: int, kk: int, ss: int) -> int {
    2 * pp + 3 * kk + ss + c1 + c2
}

/// The choice is possible at position `n` with `m` melds and `p` pairs left.
pub open spec fn option_ok(n: int, c1: int, c2: int, m: int, p: int, pp: int, kk: int, ss: int) -> bool {
    &&& 0 <= pp <= p
    &&& 0 <= kk <= 1
    &&& kk <= m
    &&& 0 <= ss <= m - kk
    &&& (n >= 7 ==> ss == 0)
    &&& option_count(c1, c2, pp, kk, ss) <= 4
}

pub open spec fn option_value(
    h: Seq<u8>,
    n: int,
    c1: int,
    c2: int,
    m: int,
    p: int,
    pp: int,
    kk: int,
    ss: int,
) -> int
    decreases 9 - n, 0int, 0int,
{
    if n < 0 || n >= 9 || !option_ok(n, c1, c2, m, p, pp, kk, ss) {
        INF as int
    } else {
        let v = deficit(option_count(c1, c2, pp, kk, ss), h[n] as int) + suit_best(
            h,
            n + 1,
            ss,
            c1,
            m - kk - ss,
            p - pp,
        );
        if v > INF {
            INF as int
        } else {
            v
        }
    }
}

/// The least `option_value` over `ss < k`.
pub open spec fn best_below(
    h: Seq<u8>,
    n: int,
    c1: int,
    c2: int,
    m: int,
    p: int,
    pp: int,
    kk: int,
    k: int,
) -> int
    decreases 9 - n, 1int, k,
{
    if n < 0 || n >= 9 || k <= 0 {
        INF as int
    } else {
        let a = best_below(h, n, c1, c2, m, p, pp, kk, k - 1);
        let b = option_value(h, n, c1, c2, m, p, pp, kk, k - 1);
        if b < a {
            b
        } else {
            a
        }
    }
}

pub open spec fn min4(a: int, b: int, c: int, d: int) -> int {
    let x = if a < b {
        a
    } else {
        b
    };
    let y = if c < d {
        c
    } else {
        d
    };
    if x < y {
        x
    } else {
        y
    }
}

pub open spec fn suit_best(h: Seq<u8>, n: int, c1: int, c2: int, m: int, p: int) -> int
    decreases 9 - n, 2int, 0int,
{
    if n >= 9 {
        if m == 0 && p == 0 {
            0
        } else {
            INF as int
        }
    } else if n < 0 {
        INF as int
    } else {
        min4(
            best_below(h, n, c1, c2, m, p, 0, 0, 5),
            best_below(h, n, c1, c2, m, p, 0, 1, 5),
            best_below(h, n, c1, c2, m, p, 1, 0, 5),
            best_below(h, n, c1, c2, m, p, 1, 1, 5),
        )
    }
}

/// Index of a state `(c1, c2, m, p)` in a layer of the table.
pub open spec fn layer_index(c1: int, c2: int, m: int, p: int) -> int {
    ((c1 * 5 + c2) * 5 + m) * 2 + p
}

/// `layer` holds `suit_best` at position `n` for every state with values below 5 and `p < 2`.
pub open spec fn layer_ok(layer: Seq<u8>, h: Seq<u8>, n: int) -> bool {
    &&& layer.len() == 250
    &&& forall|c1: int, c2: int, m: int, p: int|
        0 <= c1 < 5 && 0 <= c2 < 5 && 0 <= m < 5 && 0 <= p < 2 ==> #[trigger] layer[layer_index(
            c1,
            c2,
            m,
            p,
        )] == suit_best(h, n, c1, c2, m, p)
}

proof fn lemma_layer_index(c1: int, c2: int, m: int, p: int)
    requires
        0 <= c1 < 5,
        0 <= c2 < 5,
        0 <= m < 5,
        0 <= p < 2,
    ensures
        0 <= layer_index(c1, c2, m, p) < 250,
{
}

proof fn lemma_value_bounds(h: Seq<u8>, n: int, c1: int, c2: int, m: int, p: int)
    ensures
        0 <= suit_best(h, n, c1, c2, m, p) <= INF,
    decreases 9 - n, 6int,
{
    if n < 9 && n >= 0 {
        lemma_best_below_bounds(h, n, c1, c2, m, p, 0, 0, 5);
        lemma_best_below_bounds(h, n, c1, c2, m, p, 0, 1, 5);
        lemma_best_below_bounds(h, n, c1, c2, m, p, 1, 0, 5);
        lemma_best_below_bounds(h, n, c1, c2, m, p, 1, 1, 5);
    }
}

proof fn lemma_best_below_bounds(
    h: Seq<u8>,
    n: int,
    c1: int,
    c2: int,
    m: int,
    p: int,
    pp: int,
    kk: int,
    k: int,
)
    requires
        0 <= n < 9,
        k <= 5,
    ensures
        0 <= best_below(h, n, c1, c2, m, p, pp, kk, k) <= INF,
    decreases 9 - n, k,
{
    if k > 0 {
        lemma_best_below_bounds(h, n, c1, c2, m, p, pp, kk, k - 1);
        if option_ok(n, c1, c2, m, p, pp, kk, k - 1) {
            lemma_value_bounds(h, n + 1, k - 1, c1, m - kk - (k - 1), p - pp);
        }
        let b = option_value(h, n, c1, c2, m, p, pp, kk, k - 1);
        assert(0 <= b <= INF);
    }
}

/// The value of one choice at position `n`, read from the next layer.
fn option_value_exec(
    h: &[u8; 9],
    n: usize,
    c1: u8,
    c2: u8,
    m: u8,
    p: u8,
    pp: u8,
    kk: u8,
    ss: u8,
    next: &Vec<u8>,
) -> (r: u8)
    requires
        n < 9,
        c1 < 5,
        c2 < 5,
        m < 5,
        p < 2,
        pp < 2,
        kk < 2,
        ss < 5,
        layer_ok(next@, h@, n + 1),
    ensures
        r == option_value(h@, n as int, c1 as int, c2 as int, m as int, p as int, pp as int, kk as int, ss as int),
{
    if pp > p || kk > m || ss > m - kk || (n >= 7 && ss > 0) || 2 * pp + 3 * kk + ss + c1 + c2 > 4 {
        return INF;
    }
    let cnt = 2 * pp + 3 * kk + ss + c1 + c2;
    let have = h[n];
    let d: u8 = if cnt > have {
        cnt - have
    } else {
        0
    };
    let rest_m = m - kk - ss;
    let rest_p = p - pp;
    proof {
        lemma_layer_index(ss as int, c1 as int, rest_m as int, rest_p as int);
        lemma_value_bounds(h@, n + 1, ss as int, c1 as int, rest_m as int, rest_p as int);
    }
    let idx = ((ss as usize * 5 + c1 as usize) * 5 + rest_m as usize) * 2 + rest_p as usize;
    let sub = next[idx];
    let v = d + sub;
    if v > INF {
        INF
    } else {
        v
    }
}

/// `best_below(.., pp, kk, 5)`: the best choice with `pp` pairs and `kk` triplets here.
fn block_value(
    h: &[u8; 9],
    n: usize,
    c1: u8,
    c2: u8,
    m: u8,
    p: u8,
    pp: u8,
    kk: u8,
    next: &Vec<u8>,
) -> (r: u8)
    requires
        n < 9,
        c1 < 5,
        c2 < 5,
        m < 5,
        p < 2,
        pp < 2,
        kk < 2,
        layer_ok(next@, h@, n + 1),
    ensures
        r == best_below(h@, n as int, c1 as int, c2 as int, m as int, p as int, pp as int, kk as int, 5),
{
    let mut ss: u8 = 0;
    let mut acc: u8 = INF;
    while ss < 5
        invariant
            pp < 2,
            kk < 2,
            ss <= 5,
            n < 9,
            c1 < 5,
            c2 < 5,
            m < 5,
            p < 2,
            layer_ok(next@, h@, n + 1),
            acc as int == best_below(h@, n as int, c1 as int, c2 as int, m as int, p as int, pp as int, kk as int, ss as int),
        decreases 5 - ss,
    {
        let v = option_value_exec(h, n, c1, c2, m, p, pp, kk, ss, next);
        if v < acc {
            acc = v;
        }
        ss += 1;
    }
    acc
}

/// `suit_best` at position `n`, read from the next layer.
fn state_value(h: &[u8; 9], n: usize, c1: u8, c2: u8, m: u8, p: u8, next: &Vec<u8>) -> (r: u8)
    requires
        n < 9,
        c1 < 5,
        c2 < 5,
        m < 5,
        p < 2,
        layer_ok(next@, h@, n + 1),
    ensures
        r == suit_best(h@, n as int, c1 as int, c2 as int, m as int, p as int),
{
    let a = block_value(h, n, c1, c2, m, p, 0, 0, next);
    let b = block_value(h, n, c1, c2, m, p, 0, 1, next);
    let c = block_value(h, n, c1, c2, m, p, 1, 0, next);
    let d = block_value(h, n, c1, c2, m, p, 1, 1, next);
    let x = if a < b {
        a
    } else {
        b
    };
    let y = if c < d {
        c
    } else {
        d
    };
    if x < y {
        x
    } else {
        y
    }
}

/// The table of `suit_best` at position 0, for every state.
fn suit_table(h: &[u8; 9]) -> (r: Vec<u8>)
    ensures
        layer_ok(r@, h@, 0),
{
    // position 9: only the empty remainder is possible
    let mut next: Vec<u8> = Vec::new();
    let mut i: usize = 0;
    while i < 250
        invariant
            i <= 250,
            next@.len() == i,
            forall|j: int| 0 <= j < i ==> #[trigger] next@[j] == if j % 10 == 0 {
                0u8
            } else {
                INF
            },
        decreases 250 - i,
    {
        next.push(if i % 10 == 0 {
            0
        } else {
            INF
        });
        i += 1;
    }
    assert(layer_ok(next@, h@, 9)) by {
        assert forall|c1: int, c2: int, m: int, p: int|
            0 <= c1 < 5 && 0 <= c2 < 5 && 0 <= m < 5 && 0 <= p < 2 implies #[trigger] next@[layer_index(
            c1,
            c2,
            m,
            p,
        )] == suit_best(h@, 9, c1, c2, m, p) by {
            lemma_layer_index(c1, c2, m, p);
            assert(layer_index(c1, c2, m, p) % 10 == m * 2 + p);
        }
    }
    let mut n: usize = 9;
    while n > 0
        invariant
            n <= 9,
            layer_ok(next@, h@, n as int),
        decreases n,
    {
        let pos = n - 1;
        let mut cur: Vec<u8> = Vec::new();
        let mut idx: usize = 0;
        while idx < 250
            invariant
                pos < 9,
                pos + 1 == n,
                idx <= 250,
                cur@.len() == idx,
                layer_ok(next@, h@, n as int),
                forall|c1: int, c2: int, m: int, p: int|
                    0 <= c1 < 5 && 0 <= c2 < 5 && 0 <= m < 5 && 0 <= p < 2 && layer_index(
                        c1,
                        c2,
                        m,
                        p,
                    ) < idx ==> #[trigger] cur@[layer_index(c1, c2, m, p)] == suit_best(
                        h@,
                        pos as int,
                        c1,
                        c2,
                        m,
                        p,
                    ),
            decreases 250 - idx,
        {
            let p = (idx % 2) as u8;
            let m = ((idx / 2) % 5) as u8;
            let c2 = ((idx / 10) % 5) as u8;
            let c1 = (idx / 50) as u8;
            assert(layer_index(c1 as int, c2 as int, m as int, p as int) == idx);
            let v = state_value(h, pos, c1, c2, m, p, &next);
            cur.push(v);
            proof {
                assert forall|a: int, b: int, c: int, d: int|
                    0 <= a < 5 && 0 <= b < 5 && 0 <= c < 5 && 0 <= d < 2 && layer_index(a, b, c, d)
                        < idx + 1 implies #[trigger] cur@[layer_index(a, b, c, d)] == suit_best(
                    h@,
                    pos as int,
                    a,
                    b,
                    c,
                    d,
                ) by {
                    if layer_index(a, b, c, d) == idx {
                        assert(a == c1 && b == c2 && c == m && d == p);
                    }
                }
            }
            idx += 1;
        }
        next = cur;
        n -= 1;
    }
    next
}

// ---------------------------------------------------------------------------------------------
// `suit_best` is the least distance over suit parts.

proof fn lemma_best_below_le(
    h: Seq<u8>,
    n: int,
    c1: int,
    c2: int,
    m: int,
    p: int,
    pp: int,
    kk: int,
    k: int,
    j: int,
)
    requires
        0 <= n < 9,
        0 <= j < k,
    ensures
        best_below(h, n, c1, c2, m, p, pp, kk, k) <= option_value(h, n, c1, c2, m, p, pp, kk, j),
    decreases k,
{
    if j < k - 1 {
        lemma_best_below_le(h, n, c1, c2, m, p, pp, kk, k - 1, j);
    }
}

proof fn lemma_best_below_arg(
    h: Seq<u8>,
    n: int,
    c1: int,
    c2: int,
    m: int,
    p: int,
    pp: int,
    kk: int,
    k: int,
) -> (j: int)
    requires
        0 <= n < 9,
        best_below(h, n, c1, c2, m, p, pp, kk, k) < INF,
    ensures
        0 <= j < k,
        option_value(h, n, c1, c2, m, p, pp, kk, j) == best_below(h, n, c1, c2, m, p, pp, kk, k),
    decreases k,
{
    let a = best_below(h, n, c1, c2, m, p, pp, kk, k - 1);
    let b = option_value(h, n, c1, c2, m, p, pp, kk, k - 1);
    if b < a {
        k - 1
    } else {
        lemma_best_below_arg(h, n, c1, c2, m, p, pp, kk, k - 1)
    }
}

proof fn lemma_counts_nonneg(t: Seq<Choice>, n: int)
    ensures
        melds_from(t, n) >= 0,
        pairs_from(t, n) >= 0,
    decreases 9 - n,
{
    if 0 <= n < 9 {
        lemma_counts_nonneg(t, n + 1);
    }
}

/// Every suit part needs at least `suit_best` tiles.
proof fn lemma_suit_lower(t: Seq<Choice>, h: Seq<u8>, n: int)
    requires
        t.len() == 9,
        0 <= n <= 9,
        target_from(t, n),
        melds_from(t, n) <= 4,
        pairs_from(t, n) <= 1,
    ensures
        def_from(t, h, n) >= suit_best(
            h,
            n,
            shun_at(t, n - 1),
            shun_at(t, n - 2),
            melds_from(t, n),
            pairs_from(t, n),
        ),
    decreases 9 - n,
{
    if n < 9 {
        lemma_counts_nonneg(t, n + 1);
        assert(target_from(t, n + 1));
        lemma_suit_lower(t, h, n + 1);
        let x = t[n];
        let c1 = shun_at(t, n - 1);
        let c2 = shun_at(t, n - 2);
        let m = melds_from(t, n);
        let p = pairs_from(t, n);
        let pp: int = if x.pair {
            1
        } else {
            0
        };
        let kk: int = if x.kotsu {
            1
        } else {
            0
        };
        let ss = x.shuntsu as int;
        assert(suit_count(t, n) <= 4);
        assert(option_ok(n, c1, c2, m, p, pp, kk, ss));
        lemma_value_bounds(h, n + 1, ss, c1, m - kk - ss, p - pp);
        lemma_best_below_le(h, n, c1, c2, m, p, pp, kk, 5, ss);
    }
}

/// Some suit part needs exactly `suit_best` tiles, when that is finite.
proof fn lemma_suit_witness(h: Seq<u8>, n: int, pre: Seq<Choice>, c1: int, c2: int, m: int, p: int) -> (t:
    Seq<Choice>)
    requires
        0 <= n <= 9,
        pre.len() == n,
        c1 == shun_at(pre, n - 1),
        c2 == shun_at(pre, n - 2),
        suit_best(h, n, c1, c2, m, p) < INF,
    ensures
        t.len() == 9,
        t.subrange(0, n) == pre,
        target_from(t, n),
        melds_from(t, n) == m,
        pairs_from(t, n) == p,
        def_from(t, h, n) == suit_best(h, n, c1, c2, m, p),
    decreases 9 - n,
{
    if n == 9 {
        assert(pre.subrange(0, 9) =~= pre);
        pre
    } else {
        let b00 = best_below(h, n, c1, c2, m, p, 0, 0, 5);
        let b01 = best_below(h, n, c1, c2, m, p, 0, 1, 5);
        let b10 = best_below(h, n, c1, c2, m, p, 1, 0, 5);
        let b11 = best_below(h, n, c1, c2, m, p, 1, 1, 5);
        let best = suit_best(h, n, c1, c2, m, p);
        let (pp, kk): (int, int) = if b00 == best {
            (0, 0)
        } else if b01 == best {
            (0, 1)
        } else if b10 == best {
            (1, 0)
        } else {
            (1, 1)
        };
        let ss = lemma_best_below_arg(h, n, c1, c2, m, p, pp, kk, 5);
        lemma_value_bounds(h, n + 1, ss, c1, m - kk - ss, p - pp);
        let choice = Choice { pair: pp == 1, kotsu: kk == 1, shuntsu: ss as u8 };
        let pre2 = pre.push(choice);
        assert(shun_at(pre2, n) == ss);
        assert(shun_at(pre2, n - 1) == c1);
        let t = lemma_suit_witness(h, n + 1, pre2, ss, c1, m - kk - ss, p - pp);
        assert(t.subrange(0, n) =~= pre) by {
            assert(t.subrange(0, n) =~= t.subrange(0, n + 1).subrange(0, n));
            assert(pre2.subrange(0, n) =~= pre);
        }
        assert(t[n] == choice) by {
            assert(t.subrange(0, n + 1)[n] == pre2[n]);
        }
        assert(shun_at(t, n - 1) == c1 && shun_at(t, n - 2) == c2) by {
            if n >= 1 {
                assert(t.subrange(0, n + 1)[n - 1] == pre2[n - 1]);
            }
            if n >= 2 {
                assert(t.subrange(0, n + 1)[n - 2] == pre2[n - 2]);
            }
        }
        assert(suit_count(t, n) == option_count(c1, c2, pp, kk, ss));
        assert forall|k: int| n <= k < 9 implies #[trigger] suit_count(t, k) <= 4 && (k >= 7
            ==> t[k].shuntsu == 0) by {
            if k > n {
                assert(target_from(t, n + 1));
            }
        }
        t
    }
}

/// A suit part needs at most four tiles per position.
proof fn lemma_def_bound(t: Seq<Choice>, h: Seq<u8>, n: int)
    requires
        0 <= n <= 9,
        target_from(t, n),
    ensures
        def_from(t, h, n) <= 4 * (9 - n),
    decreases 9 - n,
{
    if n < 9 {
        assert(target_from(t, n + 1));
        assert(suit_count(t, n) <= 4);
        lemma_def_bound(t, h, n + 1);
    }
}

/// The suit part of `j` runs 123 and, if `p == 1`, a pair of fives.
pub open spec fn simple_part(j: int, p: int) -> Seq<Choice> {
    Seq::new(
        9,
        |i: int|
            Choice {
                pair: i == 4 && p == 1,
                kotsu: false,
                shuntsu: if i == 0 {
                    j as u8
                } else {
                    0
                },
            },
    )
}

proof fn lemma_simple_part(h: Seq<u8>, j: int, p: int)
    requires
        0 <= j <= 4,
        0 <= p <= 1,
    ensures
        suit_best(h, 0, 0, 0, j, p) <= 36,
        j == 0 && p == 0 ==> suit_best(h, 0, 0, 0, j, p) == 0,
{
    let t = simple_part(j, p);
    assert(target_from(t, 0)) by {
        assert forall|k: int| 0 <= k < 9 implies #[trigger] suit_count(t, k) <= 4 && (k >= 7
            ==> t[k].shuntsu == 0) by {}
    }
    assert(melds_from(t, 0) == j) by {
        assert(melds_from(t, 9) == 0);
        assert(melds_from(t, 1) == 0) by {
            reveal_with_fuel(melds_from, 9);
        }
    }
    assert(pairs_from(t, 0) == p) by {
        reveal_with_fuel(pairs_from, 10);
    }
    lemma_suit_lower(t, h, 0);
    lemma_def_bound(t, h, 0);
    if j == 0 && p == 0 {
        assert forall|k: int| 0 <= k < 9 implies #[trigger] suit_count(t, k) == 0 by {}
        assert(def_from(t, h, 0) == 0) by {
            reveal_with_fuel(def_from, 10);
        }
        lemma_value_bounds(h, 0, 0, 0, 0, 0);
    }
}

/// The sum of the three per-suit distances for a split of the melds and the pair.
pub open spec fn split_value(
    h: Seq<u8>,
    m: int,
    j0: int,
    j1: int,
    ps: int,
) -> int {
    suit_best(suit_hand(h, 0), 0, 0, 0, j0, if ps == 0 {
        1int
    } else {
        0int
    }) + suit_best(suit_hand(h, 1), 0, 0, 0, j1, if ps == 1 {
        1int
    } else {
        0int
    }) + suit_best(suit_hand(h, 2), 0, 0, 0, m - j0 - j1, if ps == 2 {
        1int
    } else {
        0int
    })
}

pub(crate) proof fn lemma_min_distance_unique(h: Seq<u8>, m: int, d1: int, d2: int)
    requires
        is_min_distance(h, m, d1),
        is_min_distance(h, m, d2),
    ensures
        d1 == d2,
{
    let ts1 = choose|ts: Seq<Seq<Choice>>| is_completion(ts, m) && distance(ts, h) == d1;
    let ts2 = choose|ts: Seq<Seq<Choice>>| is_completion(ts, m) && distance(ts, h) == d2;
    assert(distance(ts1, h) >= d2);
    assert(distance(ts2, h) >= d1);
}

/// The counts of suit `s` of a hand.
fn suit_counts(tiles: &[u8; 27], s: usize) -> (r: [u8; 9])
    requires
        s < 3,
    ensures
        r@ == suit_hand(tiles@, s as int),
{
    let mut r: [u8; 9] = [0; 9];
    let mut i: usize = 0;
    while i < 9
        invariant
            s < 3,
            i <= 9,
            forall|k: int| 0 <= k < i ==> r[k] == tiles[9 * s + k],
        decreases 9 - i,
    {
        r[i] = tiles[9 * s + i];
        i += 1;
    }
    assert(r@ =~= suit_hand(tiles@, s as int));
    r
}

fn table_at(table: &Vec<u8>, j: u8, p: u8) -> (r: u8)
    requires
        table@.len() == 250,
        j < 5,
        p < 2,
    ensures
        r == table@[layer_index(0, 0, j as int, p as int)],
{
    table[(j as usize) * 2 + p as usize]
}

/// The normal shanten number of a hand aiming at `len_div3` melds and a pair:
/// the least number of tiles it lacks for such a hand, minus one. Tiles are only ever added,
/// so a hand holding fewer than `3 * len_div3 + 2` tiles lacks at least the difference
/// (`lemma_normal_shanten_lower`).
pub fn calc_normal(tiles: &[u8; 27], len_div3: u8) -> (r: i8)
    requires
        len_div3 <= 4,
    ensures
        is_min_distance(tiles@, len_div3 as int, r + 1),
        r == normal_shanten(tiles@, len_div3 as int),
        r < INF,
{
    let ghost h = tiles@;
    let m = len_div3;
    let h0 = suit_counts(tiles, 0);
    let h1 = suit_counts(tiles, 1);
    let h2 = suit_counts(tiles, 2);
    let t0 = suit_table(&h0);
    let t1 = suit_table(&h1);
    let t2 = suit_table(&h2);
    proof {
        lemma_simple_part(suit_hand(h, 0), m as int, 1);
        lemma_simple_part(suit_hand(h, 1), 0, 0);
        lemma_simple_part(suit_hand(h, 2), 0, 0);
        lemma_value_bounds(suit_hand(h, 1), 0, 0, 0, 0, 0);
        lemma_value_bounds(suit_hand(h, 2), 0, 0, 0, 0, 0);
        lemma_layer_index(0, 0, m as int, 1);
        lemma_layer_index(0, 0, 0, 0);
    }
    let mut best: u8 = INF;
    let ghost mut arg: (int, int, int) = (0, 0, 0);
    let mut j0: u8 = 0;
    while j0 <= m
        invariant
            m <= 4,
            j0 <= m + 1,
            h0@ == suit_hand(h, 0),
            h1@ == suit_hand(h, 1),
            h2@ == suit_hand(h, 2),
            layer_ok(t0@, h0@, 0),
            layer_ok(t1@, h1@, 0),
            layer_ok(t2@, h2@, 0),
            best <= INF,
            best < INF ==> 0 <= arg.0 <= m && 0 <= arg.1 <= m - arg.0 && 0 <= arg.2 < 3
                && split_value(h, m as int, arg.0, arg.1, arg.2) == best,
            forall|a: int, b: int, c: int|
                0 <= a < j0 && 0 <= b <= m - a && 0 <= c < 3 ==> best <= #[trigger] split_value(
                    h,
                    m as int,
                    a,
                    b,
                    c,
                ),
        decreases m + 1 - j0,
    {
        let mut j1: u8 = 0;
        while j1 <= m - j0
            invariant
                m <= 4,
                j0 <= m,
                j1 <= m - j0 + 1,
                h0@ == suit_hand(h, 0),
                h1@ == suit_hand(h, 1),
                h2@ == suit_hand(h, 2),
                layer_ok(t0@, h0@, 0),
                layer_ok(t1@, h1@, 0),
                layer_ok(t2@, h2@, 0),
                best <= INF,
                best < INF ==> 0 <= arg.0 <= m && 0 <= arg.1 <= m - arg.0 && 0 <= arg.2 < 3
                    && split_value(h, m as int, arg.0, arg.1, arg.2) == best,
                forall|a: int, b: int, c: int|
                    ((0 <= a < j0 && 0 <= b <= m - a) || (a == j0 && 0 <= b < j1)) && 0 <= c < 3
                        ==> best <= #[trigger] split_value(h, m as int, a, b, c),
            decreases m - j0 + 1 - j1,
        {
            let j2 = m - j0 - j1;
            let mut ps: u8 = 0;
            while ps < 3
                invariant
                    m <= 4,
                    j0 <= m,
                    j1 <= m - j0,
                    j2 == m - j0 - j1,
                    ps <= 3,
                    h0@ == suit_hand(h, 0),
                    h1@ == suit_hand(h, 1),
                    h2@ == suit_hand(h, 2),
                    layer_ok(t0@, h0@, 0),
                    layer_ok(t1@, h1@, 0),
                    layer_ok(t2@, h2@, 0),
                    best <= INF,
                    best < INF ==> 0 <= arg.0 <= m && 0 <= arg.1 <= m - arg.0 && 0 <= arg.2 < 3
                        && split_value(h, m as int, arg.0, arg.1, arg.2) == best,
                    forall|a: int, b: int, c: int|
                        ((0 <= a < j0 && 0 <= b <= m - a) || (a == j0 && 0 <= b < j1) || (a == j0
                            && b == j1 && 0 <= c < ps)) && 0 <= c < 3 ==> best
                            <= #[trigger] split_value(h, m as int, a, b, c),
                decreases 3 - ps,
            {
                let p0: u8 = if ps == 0 {
                    1
                } else {
                    0
                };
                let p1: u8 = if ps == 1 {
                    1
                } else {
                    0
                };
                let p2: u8 = if ps == 2 {
                    1
                } else {
                    0
                };
                proof {
                    lemma_layer_index(0, 0, j0 as int, p0 as int);
                    lemma_layer_index(0, 0, j1 as int, p1 as int);
                    lemma_layer_index(0, 0, j2 as int, p2 as int);
                    lemma_value_bounds(h0@, 0, 0, 0, j0 as int, p0 as int);
                    lemma_value_bounds(h1@, 0, 0, 0, j1 as int, p1 as int);
                    lemma_value_bounds(h2@, 0, 0, 0, j2 as int, p2 as int);
                }
                let v0 = table_at(&t0, j0, p0);
                let v1 = table_at(&t1, j1, p1);
                let v2 = table_at(&t2, j2, p2);
                let v: u8 = v0 + v1 + v2;
                assert(v == split_value(h, m as int, j0 as int, j1 as int, ps as int));
                if v < best {
                    best = v;
                    proof {
                        arg = (j0 as int, j1 as int, ps as int);
                    }
                }
                ps += 1;
            }
            j1 += 1;
        }
        j0 += 1;
    }
    proof {
        // the split with every meld in the first suit is finite
        assert(best <= split_value(h, m as int, m as int, 0, 0));
        assert(best < INF);
        let (a0, a1, a2) = arg;
        let pa0: int = if a2 == 0 {
            1
        } else {
            0
        };
        let pa1: int = if a2 == 1 {
            1
        } else {
            0
        };
        let pa2: int = if a2 == 2 {
            1
        } else {
            0
        };
        lemma_value_bounds(suit_hand(h, 0), 0, 0, 0, a0, pa0);
        lemma_value_bounds(suit_hand(h, 1), 0, 0, 0, a1, pa1);
        lemma_value_bounds(suit_hand(h, 2), 0, 0, 0, m - a0 - a1, pa2);
        let w0 = lemma_suit_witness(suit_hand(h, 0), 0, Seq::empty(), 0, 0, a0, pa0);
        let w1 = lemma_suit_witness(suit_hand(h, 1), 0, Seq::empty(), 0, 0, a1, pa1);
        let w2 = lemma_suit_witness(suit_hand(h, 2), 0, Seq::empty(), 0, 0, m - a0 - a1, pa2);
        let ts = seq![w0, w1, w2];
        assert(is_completion(ts, m as int));
        assert(distance(ts, h) == best);
        assert forall|ts2: Seq<Seq<Choice>>| is_completion(ts2, m as int) implies distance(ts2, h)
            >= best by {
            let x0 = melds_from(ts2[0], 0);
            let x1 = melds_from(ts2[1], 0);
            let x2 = melds_from(ts2[2], 0);
            lemma_counts_nonneg(ts2[0], 0);
            lemma_counts_nonneg(ts2[1], 0);
            lemma_counts_nonneg(ts2[2], 0);
            assert(is_suit_target(ts2[0]) && is_suit_target(ts2[1]) && is_suit_target(ts2[2]));
            lemma_suit_lower(ts2[0], suit_hand(h, 0), 0);
            lemma_suit_lower(ts2[1], suit_hand(h, 1), 0);
            lemma_suit_lower(ts2[2], suit_hand(h, 2), 0);
            let c: int = if pairs_from(ts2[0], 0) == 1 {
                0
            } else if pairs_from(ts2[1], 0) == 1 {
                1
            } else {
                2
            };
            assert(best <= split_value(h, m as int, x0, x1, c));
        }
        assert(is_min_distance(h, m as int, best as int));
        let d = choose|d: int| is_min_distance(h, m as int, d);
        lemma_min_distance_unique(h, m as int, d, best as int);
    }
    (best as i8) - 1
}

/// The split numbered `k`: melds in the first suit, melds in the second, the suit of the pair.
pub open spec fn split_of(k: int) -> (int, int, int) {
    (k / 15, (k / 3) % 5, k % 3)
}

/// Split `k` is one of a hand of `m` melds.
pub open spec fn split_valid(m: int, k: int) -> bool {
    0 <= k < 75 && split_of(k).0 <= m && split_of(k).1 <= m - split_of(k).0
}

/// The least `split_value` over the valid splits numbered below `k` (`INF` if none).
pub open spec fn min_split(h: Seq<u8>, m: int, k: int) -> int
    decreases k,
{
    if k <= 0 {
        INF as int
    } else {
        let prev = min_split(h, m, k - 1);
        let x = split_of(k - 1);
        if split_valid(m, k - 1) && split_value(h, m, x.0, x.1, x.2) < prev {
            split_value(h, m, x.0, x.1, x.2)
        } else {
            prev
        }
    }
}

proof fn lemma_min_split(h: Seq<u8>, m: int, k: int)
    requires
        0 <= k <= 75,
    ensures
        forall|i: int|
            0 <= i < k && split_valid(m, i) ==> min_split(h, m, k) <= #[trigger] split_value(
                h,
                m,
                split_of(i).0,
                split_of(i).1,
                split_of(i).2,
            ),
        min_split(h, m, k) == INF || exists|i: int|
            0 <= i < k && split_valid(m, i) && min_split(h, m, k) == #[trigger] split_value(
                h,
                m,
                split_of(i).0,
                split_of(i).1,
                split_of(i).2,
            ),
        min_split(h, m, k) <= INF,
    decreases k,
{
    if k > 0 {
        lemma_min_split(h, m, k - 1);
    }
}

/// Every split of `m` melds has a number.
proof fn lemma_split_number(m: int, a: int, b: int, c: int)
    requires
        0 <= m <= 4,
        0 <= a <= m,
        0 <= b <= m - a,
        0 <= c < 3,
    ensures
        split_valid(m, a * 15 + b * 3 + c),
        split_of(a * 15 + b * 3 + c) == (a, b, c),
{
    let k = a * 15 + b * 3 + c;
    assert(k / 15 == a && k % 15 == b * 3 + c) by (nonlinear_arith)
        requires
            k == a * 15 + b * 3 + c,
            0 <= b * 3 + c < 15,
            0 <= a,
    ;
    assert(k / 3 == a * 5 + b && k % 3 == c) by (nonlinear_arith)
        requires
            k == a * 15 + b * 3 + c,
            0 <= c < 3,
            0 <= a,
            0 <= b,
    ;
    assert((a * 5 + b) % 5 == b) by (nonlinear_arith)
        requires
            0 <= b < 5,
            0 <= a,
    ;
}

/// Every hand of at most four melds has a least distance to a complete hand, below `INF`: the
/// normal shanten number is below `INF - 1`.
pub proof fn lemma_normal_shanten_bound(h: Seq<u8>, m: int)
    requires
        h.len() == 27,
        0 <= m <= 4,
    ensures
        is_min_distance(h, m, normal_shanten(h, m) + 1),
        -1 <= normal_shanten(h, m) < INF - 1,
{
    lemma_min_split(h, m, 75);
    let best = min_split(h, m, 75);
    lemma_simple_part(suit_hand(h, 0), m, 1);
    lemma_simple_part(suit_hand(h, 1), 0, 0);
    lemma_simple_part(suit_hand(h, 2), 0, 0);
    lemma_split_number(m, m, 0, 0);
    let k0 = m * 15 + 0 * 3 + 0;
    assert(best <= split_value(h, m, split_of(k0).0, split_of(k0).1, split_of(k0).2));
    assert(best <= split_value(h, m, m, 0, 0));
    assert(best < INF);
    let i = choose|i: int|
        0 <= i < 75 && split_valid(m, i) && best == #[trigger] split_value(
            h,
            m,
            split_of(i).0,
            split_of(i).1,
            split_of(i).2,
        );
    let (a0, a1, a2) = split_of(i);
    assert(0 <= a0 && 0 <= a1 && 0 <= a2 < 3);
    let pa0: int = if a2 == 0 {
        1
    } else {
        0
    };
    let pa1: int = if a2 == 1 {
        1
    } else {
        0
    };
    let pa2: int = if a2 == 2 {
        1
    } else {
        0
    };
    lemma_value_bounds(suit_hand(h, 0), 0, 0, 0, a0, pa0);
    lemma_value_bounds(suit_hand(h, 1), 0, 0, 0, a1, pa1);
    lemma_value_bounds(suit_hand(h, 2), 0, 0, 0, m - a0 - a1, pa2);
    let w0 = lemma_suit_witness(suit_hand(h, 0), 0, Seq::empty(), 0, 0, a0, pa0);
    let w1 = lemma_suit_witness(suit_hand(h, 1), 0, Seq::empty(), 0, 0, a1, pa1);
    let w2 = lemma_suit_witness(suit_hand(h, 2), 0, Seq::empty(), 0, 0, m - a0 - a1, pa2);
    let ts = seq![w0, w1, w2];
    assert(is_completion(ts, m));
    assert(distance(ts, h) == best);
    assert forall|ts2: Seq<Seq<Choice>>| is_completion(ts2, m) implies distance(ts2, h) >= best by {
        let x0 = melds_from(ts2[0], 0);
        let x1 = melds_from(ts2[1], 0);
        let x2 = melds_from(ts2[2], 0);
        lemma_counts_nonneg(ts2[0], 0);
        lemma_counts_nonneg(ts2[1], 0);
        lemma_counts_nonneg(ts2[2], 0);
        assert(is_suit_target(ts2[0]) && is_suit_target(ts2[1]) && is_suit_target(ts2[2]));
        lemma_suit_lower(ts2[0], suit_hand(h, 0), 0);
        lemma_suit_lower(ts2[1], suit_hand(h, 1), 0);
        lemma_suit_lower(ts2[2], suit_hand(h, 2), 0);
        let c: int = if pairs_from(ts2[0], 0) == 1 {
            0
        } else if pairs_from(ts2[1], 0) == 1 {
            1
        } else {
            2
        };
        lemma_split_number(m, x0, x1, c);
        let k = x0 * 15 + x1 * 3 + c;
        assert(best <= split_value(h, m, split_of(k).0, split_of(k).1, split_of(k).2));
        assert(best <= split_value(h, m, x0, x1, c));
    }
    assert(is_min_distance(h, m, best));
    let d = choose|d: int| is_min_distance(h, m, d);
    lemma_min_distance_unique(h, m, d, best);
}

/// The shanten number over all hand shapes is below `INF - 1`.
pub proof fn lemma_calc_all_bound(h: Seq<u8>, m: int)
    requires
        h.len() == 27,
        0 <= m <= 4,
    ensures
        spec_calc_all(h, m) < INF - 1,
{
    lemma_normal_shanten_bound(h, m);
}

/// With a void suit, the shanten number of a hand of at most fourteen tiles is below
/// `INF + 13`.
pub proof fn lemma_calc_with_ding_que_bound(h: Seq<u8>, m: int, dq: Option<Suit>)
    requires
        h.len() == 27,
        0 <= m <= 4,
        range_sum(h, 0, 27) <= 14,
    ensures
        spec_calc_with_ding_que(h, m, dq) < INF + 13,
{
    lemma_calc_all_bound(h, m);
    if let Some(s) = dq {
        let lo = 9 * spec_suit_id(s);
        let clean = without_suit(h, spec_suit_id(s));
        lemma_range_part(h, lo, 9);
        lemma_range_le(clean, h, 0, 27);
        lemma_range_nonneg(clean, 0, 27);
        lemma_calc_all_bound(clean, range_sum(clean, 0, 27) / 3);
    }
}

/// The seven pairs shanten number: 6 - pairs, plus the kinds missing to seven distinct kinds.
pub fn calc_chitoi(tiles: &[u8; 27]) -> (r: i8)
    ensures
        r == chitoi_shanten(tiles@),
{
    let mut pairs: u8 = 0;
    let mut kinds: u8 = 0;
    let mut i: usize = 0;
    while i < 27
        invariant
            i <= 27,
            pairs as int == pair_kinds(tiles@, i as int),
            kinds as int == held_kinds(tiles@, i as int),
            pairs <= i,
            kinds <= i,
        decreases 27 - i,
    {
        if tiles[i] > 0 {
            kinds += 1;
            if tiles[i] >= 2 {
                pairs += 1;
            }
        }
        i += 1;
    }
    let redunct: i8 = if kinds < 7 {
        (7 - kinds) as i8
    } else {
        0
    };
    7 - (pairs as i8) + redunct - 1
}

/// Thirteen orphans needs honors, which this game does not have: never reachable.
pub fn calc_kokushi(_tiles: &[u8; 27]) -> (r: i8)
    ensures
        r == i8::MAX,
{
    i8::MAX
}

/// The shanten number: the normal one, or seven pairs when that is lower for a full hand.
pub fn calc_all(tiles: &[u8; 27], len_div3: u8) -> (r: i8)
    requires
        len_div3 <= 4,
    ensures
        r == spec_calc_all(tiles@, len_div3 as int),
        r < INF,
{
    let shanten = calc_normal(tiles, len_div3);
    if shanten <= 0 || len_div3 < 4 {
        return shanten;
    }
    let c = calc_chitoi(tiles);
    if c < shanten {
        c
    } else {
        shanten
    }
}

/// Nothing to load: the shanten numbers are computed directly from the hand.
/// The shanten number with void suit `dq`: without one, or with none of its tiles held, it is
/// `spec_calc_all`; else the void tiles are set aside, the rest is measured as a hand of its
/// own size (a third of its tiles, rounded down, in melds), and each void tile adds one.
pub open spec fn spec_calc_with_ding_que(h: Seq<u8>, m: int, dq: Option<Suit>) -> int {
    match dq {
        None => spec_calc_all(h, m),
        Some(s) => {
            let void = range_sum(h, 9 * spec_suit_id(s), 9);
            if void == 0 {
                spec_calc_all(h, m)
            } else {
                let clean = without_suit(h, spec_suit_id(s));
                spec_calc_all(clean, range_sum(clean, 0, 27) / 3) + void
            }
        },
    }
}

proof fn lemma_range_le(a: Seq<u8>, b: Seq<u8>, lo: int, n: int)
    requires
        forall|i: int| lo <= i < lo + n ==> a[i] <= b[i],
    ensures
        range_sum(a, lo, n) <= range_sum(b, lo, n),
    decreases n,
{
    if n > 0 {
        lemma_range_le(a, b, lo, n - 1);
    }
}

proof fn lemma_range_nonneg(a: Seq<u8>, lo: int, n: int)
    ensures
        0 <= range_sum(a, lo, n),
    decreases n,
{
    if n > 0 {
        lemma_range_nonneg(a, lo, n - 1);
    }
}

/// A part of a sum is at most the sum: `lo..lo + n` inside `0..27`.
proof fn lemma_range_part(a: Seq<u8>, lo: int, n: int)
    requires
        0 <= lo,
        0 <= n,
        lo + n <= 27,
    ensures
        range_sum(a, lo, n) <= range_sum(a, 0, 27),
    decreases 27 - lo - n,
{
    if lo + n < 27 {
        lemma_range_part(a, lo, n + 1);
        lemma_range_nonneg(a, 0, 0);
        assert(a[lo + n] >= 0);
    } else if lo > 0 {
        lemma_range_split(a, lo, n);
    }
}

pub(crate) proof fn lemma_range_split(a: Seq<u8>, lo: int, n: int)
    requires
        0 <= lo,
        0 <= n,
    ensures
        range_sum(a, 0, lo + n) == range_sum(a, 0, lo) + range_sum(a, lo, n),
        range_sum(a, 0, lo) >= 0,
    decreases n,
{
    lemma_range_nonneg(a, 0, lo);
    if n > 0 {
        lemma_range_split(a, lo, n - 1);
    }
}

/// The shanten number with a void suit (see `spec_calc_with_ding_que`), for a hand of at
/// most fourteen tiles, four of a kind at most.
pub fn calc_with_ding_que(tiles: &[u8; 27], len_div3: u8, ding_que: Option<Suit>) -> (r: i8)
    requires
        len_div3 <= 4,
        forall|t: int| 0 <= t < 27 ==> tiles[t] <= 4,
        range_sum(tiles@, 0, 27) <= 14,
    ensures
        r == spec_calc_with_ding_que(tiles@, len_div3 as int, ding_que),
{
    match ding_que {
        None => calc_all(tiles, len_div3),
        Some(s) => {
            let (start, end) = suit_range(s);
            let mut void: u8 = 0;
            let mut clean: [u8; 27] = *tiles;
            let mut i: usize = 0;
            while i < 9
                invariant
                    i <= 9,
                    end == start + 9,
                    start == 9 * spec_suit_id(s),
                    forall|t: int| 0 <= t < 27 ==> tiles[t] <= 4,
                    void == range_sum(tiles@, start as int, i as int),
                    void <= 4 * i,
                    forall|t: int|
                        0 <= t < 27 ==> #[trigger] clean[t] == if start <= t < start + i {
                            0u8
                        } else {
                            tiles[t]
                        },
                decreases 9 - i,
            {
                void = void + tiles[start + i];
                clean[start + i] = 0;
                i += 1;
            }
            if void == 0 {
                return calc_all(tiles, len_div3);
            }
            let ghost cl = without_suit(tiles@, spec_suit_id(s));
            assert(clean@ =~= cl);
            let mut sum: u8 = 0;
            let mut j: usize = 0;
            proof {
                lemma_range_le(cl, tiles@, 0, 27);
            }
            while j < 27
                invariant
                    j <= 27,
                    clean@ == cl,
                    forall|t: int| 0 <= t < 27 ==> clean[t] <= tiles[t],
                    range_sum(cl, 0, 27) <= 14,
                    sum == range_sum(cl, 0, j as int),
                decreases 27 - j,
            {
                proof {
                    lemma_range_split(cl, 0, j + 1);
                    lemma_range_part(cl, 0, j + 1);
                }
                sum = sum + clean[j];
                j += 1;
            }
            proof {
                lemma_range_part(tiles@, start as int, 9);
            }
            let base = calc_all(&clean, sum / 3);
            base + void as i8
        },
    }
}

pub fn ensure_init() {
}


/// Tiles that the suit part `t` holds at positions `n..9`.
pub open spec fn count_from(t: Seq<Choice>, n: int) -> int
    decreases 9 - n,
{
    if n < 0 || n >= 9 {
        0
    } else {
        suit_count(t, n) + count_from(t, n + 1)
    }
}

/// Tiles of a nine-count suit at positions `n..9`.
pub open spec fn tail_sum(a: Seq<u8>, n: int) -> int
    decreases 9 - n,
{
    if n < 0 || n >= 9 {
        0
    } else {
        a[n] + tail_sum(a, n + 1)
    }
}

proof fn lemma_count_from(t: Seq<Choice>, n: int)
    requires
        t.len() == 9,
        0 <= n <= 9,
        t[7].shuntsu == 0,
        t[8].shuntsu == 0,
    ensures
        count_from(t, n) == 3 * melds_from(t, n) + 2 * pairs_from(t, n) + 2 * shun_at(t, n - 1) + shun_at(
            t,
            n - 2,
        ),
    decreases 9 - n,
{
    if n < 9 {
        lemma_count_from(t, n + 1);
    }
}

proof fn lemma_def_from_lower(t: Seq<Choice>, a: Seq<u8>, n: int)
    requires
        0 <= n <= 9,
    ensures
        def_from(t, a, n) >= count_from(t, n) - tail_sum(a, n),
    decreases 9 - n,
{
    if n < 9 {
        lemma_def_from_lower(t, a, n + 1);
    }
}

proof fn lemma_tail_sum(a: Seq<u8>, n: int)
    requires
        a.len() == 9,
        0 <= n <= 9,
    ensures
        tail_sum(a, n) + range_sum(a, 0, n) == range_sum(a, 0, 9),
    decreases 9 - n,
{
    if n < 9 {
        lemma_tail_sum(a, n + 1);
    }
}

proof fn lemma_suit_sum(h: Seq<u8>, s: int, n: int)
    requires
        h.len() == 27,
        0 <= s < 3,
        0 <= n <= 9,
    ensures
        range_sum(suit_hand(h, s), 0, n) == range_sum(h, 9 * s, n),
    decreases n,
{
    if n > 0 {
        lemma_suit_sum(h, s, n - 1);
    }
}

proof fn lemma_suit_part_lower(t: Seq<Choice>, h: Seq<u8>, s: int)
    requires
        h.len() == 27,
        0 <= s < 3,
        is_suit_target(t),
    ensures
        def_from(t, suit_hand(h, s), 0) >= 3 * melds_from(t, 0) + 2 * pairs_from(t, 0) - range_sum(h, 9 * s, 9),
{
    assert(suit_count(t, 7) <= 4 && (7 >= 7 ==> t[7].shuntsu == 0));
    assert(suit_count(t, 8) <= 4 && (8 >= 7 ==> t[8].shuntsu == 0));
    lemma_count_from(t, 0);
    lemma_def_from_lower(t, suit_hand(h, s), 0);
    lemma_tail_sum(suit_hand(h, s), 0);
    lemma_suit_sum(h, s, 9);
}

/// A hand lacks at least as many tiles of a complete hand of `m` melds as it holds fewer than
/// its `3 * m + 2` tiles: the normal shanten number is at least `3 * m + 1` less the tiles held.
pub proof fn lemma_normal_shanten_lower(h: Seq<u8>, m: int)
    requires
        h.len() == 27,
        0 <= m <= 4,
    ensures
        normal_shanten(h, m) >= 3 * m + 1 - range_sum(h, 0, 27),
{
    lemma_normal_shanten_bound(h, m);
    let d = normal_shanten(h, m) + 1;
    let ts = choose|ts: Seq<Seq<Choice>>| is_completion(ts, m) && distance(ts, h) == d;
    lemma_suit_part_lower(ts[0], h, 0);
    lemma_suit_part_lower(ts[1], h, 1);
    lemma_suit_part_lower(ts[2], h, 2);
    lemma_range_split(h, 9, 9);
    lemma_range_split(h, 18, 9);
}


proof fn lemma_kinds_le_tiles(h: Seq<u8>, k: int)
    requires
        0 <= k <= h.len(),
    ensures
        pair_kinds(h, k) + held_kinds(h, k) <= range_sum(h, 0, k),
        0 <= pair_kinds(h, k) <= held_kinds(h, k),
    decreases k,
{
    if k > 0 {
        lemma_kinds_le_tiles(h, k - 1);
    }
}

/// The same bound over all hand shapes: `calc_all` is at least `3 * m + 1` less the tiles held.
pub proof fn lemma_calc_all_lower(h: Seq<u8>, m: int)
    requires
        h.len() == 27,
        0 <= m <= 4,
    ensures
        spec_calc_all(h, m) >= 3 * m + 1 - range_sum(h, 0, 27),
{
    lemma_normal_shanten_lower(h, m);
    lemma_kinds_le_tiles(h, 27);
}

} // verus!
