//! Score settlement of a hand: kan payments, wins (with the kan-transfer and refund rules)
//! and the settlement at an exhaustive draw (查花猪, 查大叫, 退税).
use crate::agari::{spec_agari, Agari, AgariCalculator, FanConfig};
use crate::mjai::{Event, Suit};
use crate::point::{spec_base_points, Point};
use crate::shanten::{calc_all, spec_calc_all};
use crate::state::player_state::PlayerState;
use crate::ding_que::spec_has_ding_que_tiles_in_hand;
use vstd::prelude::*;

verus! {

broadcast use vstd::array::group_array_axioms;

/// A kan payment as it happened, kept so that it can be refunded.
#[derive(Debug, Clone, Copy)]
pub struct GangRecord {
    pub actor: u8,
    /// The points each player received (negative: paid).
    pub deltas: [i32; 4],
    /// Whether the payment still stands (a kan robbed by chankan is void).
    pub valid: bool,
}

/// Penalty a 花猪 pays to each other player at an exhaustive draw.
pub const HUAZHU_PENALTY: i32 = 16000;

/// Players marked in `b`.
pub open spec fn count4(b: [bool; 4]) -> int {
    (if b[0] {
        1int
    } else {
        0int
    }) + (if b[1] {
        1int
    } else {
        0int
    }) + (if b[2] {
        1int
    } else {
        0int
    }) + (if b[3] {
        1int
    } else {
        0int
    })
}

/// Player `i` is waiting at the draw: not won, not 花猪, and with a tenpai value.
pub open spec fn is_tenpai_at_draw(
    agari: [bool; 4],
    huazhu: [bool; 4],
    tenpai_points: [Option<i32>; 4],
    i: int,
) -> bool {
    !agari[i] && !huazhu[i] && tenpai_points[i] is Some
}

/// Player `i` is not waiting at the draw (未听): not won, not 花猪, and no tenpai value.
pub open spec fn is_noten_at_draw(
    agari: [bool; 4],
    huazhu: [bool; 4],
    tenpai_points: [Option<i32>; 4],
    i: int,
) -> bool {
    !agari[i] && !huazhu[i] && tenpai_points[i] is None
}

/// The tenpai value of player `i` if waiting at the draw, else 0.
pub open spec fn tenpai_value(
    agari: [bool; 4],
    huazhu: [bool; 4],
    tenpai_points: [Option<i32>; 4],
    i: int,
) -> int {
    if is_tenpai_at_draw(agari, huazhu, tenpai_points, i) {
        tenpai_points[i]->0 as int
    } else {
        0
    }
}

/// 查花猪: each 花猪 pays the penalty to every other player, when there is at least one
/// 花猪 and one other player.
pub open spec fn huazhu_part(huazhu: [bool; 4], i: int) -> int {
    let h = count4(huazhu);
    if h == 0 || h == 4 {
        0
    } else if huazhu[i] {
        -(HUAZHU_PENALTY as int) * (4 - h)
    } else {
        (HUAZHU_PENALTY as int) * h
    }
}

/// 查大叫: each player not waiting pays each waiting player its tenpai value.
pub open spec fn chadajiao_part(
    agari: [bool; 4],
    huazhu: [bool; 4],
    tenpai_points: [Option<i32>; 4],
    i: int,
) -> int {
    let total = tenpai_value(agari, huazhu, tenpai_points, 0) + tenpai_value(
        agari,
        huazhu,
        tenpai_points,
        1,
    ) + tenpai_value(agari, huazhu, tenpai_points, 2) + tenpai_value(
        agari,
        huazhu,
        tenpai_points,
        3,
    );
    let noten = (if is_noten_at_draw(agari, huazhu, tenpai_points, 0) {
        1int
    } else {
        0int
    }) + (if is_noten_at_draw(agari, huazhu, tenpai_points, 1) {
        1int
    } else {
        0int
    }) + (if is_noten_at_draw(agari, huazhu, tenpai_points, 2) {
        1int
    } else {
        0int
    }) + (if is_noten_at_draw(agari, huazhu, tenpai_points, 3) {
        1int
    } else {
        0int
    });
    if is_noten_at_draw(agari, huazhu, tenpai_points, i) {
        -total
    } else {
        tenpai_value(agari, huazhu, tenpai_points, i) * noten
    }
}

/// Player `a` refunds its kan income (退税): not won, and 花猪 or not waiting.
pub open spec fn refunds(agari: [bool; 4], huazhu: [bool; 4], tenpai_points: [Option<i32>; 4], a: int) -> bool {
    0 <= a < 4 && !agari[a] && (huazhu[a] || is_noten_at_draw(agari, huazhu, tenpai_points, a))
}

/// What player `i` gets back from the first `n` kan records: each valid record of a refunding
/// player is reversed.
pub open spec fn refund_part(
    agari: [bool; 4],
    huazhu: [bool; 4],
    tenpai_points: [Option<i32>; 4],
    history: Seq<GangRecord>,
    n: int,
    i: int,
) -> int
    decreases n,
{
    if n <= 0 {
        0
    } else {
        let r = history[n - 1];
        refund_part(agari, huazhu, tenpai_points, history, n - 1, i) - if r.valid && refunds(
            agari,
            huazhu,
            tenpai_points,
            r.actor as int,
        ) {
            r.deltas[i] as int
        } else {
            0int
        }
    }
}

/// The settlement of player `i` at an exhaustive draw.
pub open spec fn spec_ryukyoku_delta(
    agari: [bool; 4],
    huazhu: [bool; 4],
    tenpai_points: [Option<i32>; 4],
    history: Seq<GangRecord>,
    i: int,
) -> int {
    huazhu_part(huazhu, i) + chadajiao_part(agari, huazhu, tenpai_points, i) + refund_part(
        agari,
        huazhu,
        tenpai_points,
        history,
        history.len() as int,
        i,
    )
}

/// A tenpai value is a win's points: between 0 and the cap.
pub open spec fn points_ok(tenpai_points: [Option<i32>; 4]) -> bool {
    forall|i: int| 0 <= i < 4 ==> (#[trigger] tenpai_points[i] matches Some(p) ==> 0 <= p <= 16000)
}

proof fn lemma_refund_bound(
    agari: [bool; 4],
    huazhu: [bool; 4],
    tenpai_points: [Option<i32>; 4],
    history: Seq<GangRecord>,
    n: int,
    i: int,
)
    requires
        0 <= n <= history.len(),
    ensures
        -n * 0x8000_0000 <= refund_part(agari, huazhu, tenpai_points, history, n, i) <= n * 0x8000_0000,
    decreases n,
{
    if n > 0 {
        lemma_refund_bound(agari, huazhu, tenpai_points, history, n - 1, i);
    }
}

/// The settlement at an exhaustive draw (see `spec_ryukyoku_delta`), given who has won, who
/// is a 花猪 (a void suit named but tiles of it left), the tenpai value of each waiting player
/// and the kan records.
pub fn ryukyoku_deltas(
    players_agari: [bool; 4],
    huazhu: [bool; 4],
    tenpai_points: [Option<i32>; 4],
    gang_history: &[GangRecord],
) -> (r: [i32; 4])
    requires
        points_ok(tenpai_points),
        forall|i: int|
            0 <= i < 4 ==> i32::MIN <= #[trigger] spec_ryukyoku_delta(
                players_agari,
                huazhu,
                tenpai_points,
                gang_history@,
                i,
            ) <= i32::MAX,
    ensures
        forall|i: int|
            0 <= i < 4 ==> #[trigger] r[i] == spec_ryukyoku_delta(
                players_agari,
                huazhu,
                tenpai_points,
                gang_history@,
                i,
            ),
{
    // 查花猪
    let mut h: i32 = 0;
    let mut i: usize = 0;
    while i < 4
        invariant
            i <= 4,
            h == (if i > 0 && huazhu[0] {
                1int
            } else {
                0int
            }) + (if i > 1 && huazhu[1] {
                1int
            } else {
                0int
            }) + (if i > 2 && huazhu[2] {
                1int
            } else {
                0int
            }) + (if i > 3 && huazhu[3] {
                1int
            } else {
                0int
            }),
        decreases 4 - i,
    {
        if huazhu[i] {
            h += 1;
        }
        i += 1;
    }
    let mut acc: [i128; 4] = [0i128; 4];
    if h > 0 && h < 4 {
        let mut i: usize = 0;
        while i < 4
            invariant
                i <= 4,
                h == count4(huazhu),
                0 < h < 4,
                forall|j: int| 0 <= j < i ==> #[trigger] acc[j] == huazhu_part(huazhu, j),
                forall|j: int| i <= j < 4 ==> #[trigger] acc[j] == 0,
            decreases 4 - i,
        {
            let others: i128 = (4 - h) as i128;
            let marked: i128 = h as i128;
            if huazhu[i] {
                acc[i] = -16000i128 * others;
            } else {
                acc[i] = 16000i128 * marked;
            }
            i += 1;
        }
    }
    assert(forall|j: int| 0 <= j < 4 ==> #[trigger] acc[j] == huazhu_part(huazhu, j));
    // 查大叫
    let mut total: i128 = 0;
    let mut noten: i128 = 0;
    let mut i: usize = 0;
    while i < 4
        invariant
            i <= 4,
            points_ok(tenpai_points),
            total == (if i > 0 {
                tenpai_value(players_agari, huazhu, tenpai_points, 0)
            } else {
                0
            }) + (if i > 1 {
                tenpai_value(players_agari, huazhu, tenpai_points, 1)
            } else {
                0
            }) + (if i > 2 {
                tenpai_value(players_agari, huazhu, tenpai_points, 2)
            } else {
                0
            }) + (if i > 3 {
                tenpai_value(players_agari, huazhu, tenpai_points, 3)
            } else {
                0
            }),
            noten == (if i > 0 && is_noten_at_draw(players_agari, huazhu, tenpai_points, 0) {
                1int
            } else {
                0int
            }) + (if i > 1 && is_noten_at_draw(players_agari, huazhu, tenpai_points, 1) {
                1int
            } else {
                0int
            }) + (if i > 2 && is_noten_at_draw(players_agari, huazhu, tenpai_points, 2) {
                1int
            } else {
                0int
            }) + (if i > 3 && is_noten_at_draw(players_agari, huazhu, tenpai_points, 3) {
                1int
            } else {
                0int
            }),
            0 <= total <= 16000 * i,
            0 <= noten <= i,
        decreases 4 - i,
    {
        if !players_agari[i] && !huazhu[i] {
            match tenpai_points[i] {
                Some(p) => {
                    assert(tenpai_points[i as int] matches Some(q) ==> 0 <= q <= 16000);
                    total += p as i128;
                },
                None => {
                    noten += 1;
                },
            }
        }
        i += 1;
    }
    let mut i: usize = 0;
    while i < 4
        invariant
            i <= 4,
            points_ok(tenpai_points),
            0 <= total <= 64000,
            0 <= noten <= 4,
            forall|j: int|
                0 <= j < i ==> #[trigger] acc[j] == huazhu_part(huazhu, j) + chadajiao_part(
                    players_agari,
                    huazhu,
                    tenpai_points,
                    j,
                ),
            forall|j: int| i <= j < 4 ==> #[trigger] acc[j] == huazhu_part(huazhu, j),
            total == tenpai_value(players_agari, huazhu, tenpai_points, 0) + tenpai_value(
                players_agari,
                huazhu,
                tenpai_points,
                1,
            ) + tenpai_value(players_agari, huazhu, tenpai_points, 2) + tenpai_value(
                players_agari,
                huazhu,
                tenpai_points,
                3,
            ),
            noten == (if is_noten_at_draw(players_agari, huazhu, tenpai_points, 0) {
                1int
            } else {
                0int
            }) + (if is_noten_at_draw(players_agari, huazhu, tenpai_points, 1) {
                1int
            } else {
                0int
            }) + (if is_noten_at_draw(players_agari, huazhu, tenpai_points, 2) {
                1int
            } else {
                0int
            }) + (if is_noten_at_draw(players_agari, huazhu, tenpai_points, 3) {
                1int
            } else {
                0int
            }),
            -200000 <= huazhu_part(huazhu, 0) <= 200000,
            -200000 <= huazhu_part(huazhu, 1) <= 200000,
            -200000 <= huazhu_part(huazhu, 2) <= 200000,
            -200000 <= huazhu_part(huazhu, 3) <= 200000,
        decreases 4 - i,
    {
        if !players_agari[i] && !huazhu[i] {
            match tenpai_points[i] {
                Some(p) => {
                    assert(tenpai_points[i as int] matches Some(q) ==> 0 <= q <= 16000);
                    assert(0 <= (p as i128) * noten <= 64000) by (nonlinear_arith)
                        requires
                            0 <= p <= 16000,
                            0 <= noten <= 4,
                    ;
                    acc[i] = acc[i] + (p as i128) * noten;
                },
                None => {
                    acc[i] = acc[i] - total;
                },
            }
        }
        i += 1;
    }
    // 退税
    let ghost hist = gang_history@;
    let mut k: usize = 0;
    while k < gang_history.len()
        invariant
            k <= hist.len(),
            hist == gang_history@,
            forall|j: int|
                0 <= j < 4 ==> #[trigger] acc[j] == huazhu_part(huazhu, j) + chadajiao_part(
                    players_agari,
                    huazhu,
                    tenpai_points,
                    j,
                ) + refund_part(players_agari, huazhu, tenpai_points, hist, k as int, j),
            forall|j: int|
                0 <= j < 4 ==> -1_000_000 <= #[trigger] (huazhu_part(huazhu, j) + chadajiao_part(
                    players_agari,
                    huazhu,
                    tenpai_points,
                    j,
                )) <= 1_000_000,
        decreases gang_history.len() - k,
    {
        let rec = gang_history[k];
        let a = rec.actor as usize;
        let refund = a < 4 && !players_agari[a] && (huazhu[a] || (!huazhu[a]
            && tenpai_points[a].is_none()));
        proof {
            lemma_refund_bound(players_agari, huazhu, tenpai_points, hist, k as int, 0);
            lemma_refund_bound(players_agari, huazhu, tenpai_points, hist, k as int, 1);
            lemma_refund_bound(players_agari, huazhu, tenpai_points, hist, k as int, 2);
            lemma_refund_bound(players_agari, huazhu, tenpai_points, hist, k as int, 3);
            lemma_refund_bound(players_agari, huazhu, tenpai_points, hist, k + 1, 0);
            lemma_refund_bound(players_agari, huazhu, tenpai_points, hist, k + 1, 1);
            lemma_refund_bound(players_agari, huazhu, tenpai_points, hist, k + 1, 2);
            lemma_refund_bound(players_agari, huazhu, tenpai_points, hist, k + 1, 3);
            assert(k < usize::MAX);
        }
        if rec.valid && refund {
            let mut j: usize = 0;
            while j < 4
                invariant
                    j <= 4,
                    k < hist.len(),
                    hist[k as int] == rec,
                    rec.valid,
                    refunds(players_agari, huazhu, tenpai_points, rec.actor as int),
                    forall|q: int|
                        0 <= q < j ==> #[trigger] acc[q] == huazhu_part(huazhu, q) + chadajiao_part(
                            players_agari,
                            huazhu,
                            tenpai_points,
                            q,
                        ) + refund_part(players_agari, huazhu, tenpai_points, hist, k + 1, q),
                    forall|q: int|
                        j <= q < 4 ==> #[trigger] acc[q] == huazhu_part(huazhu, q) + chadajiao_part(
                            players_agari,
                            huazhu,
                            tenpai_points,
                            q,
                        ) + refund_part(players_agari, huazhu, tenpai_points, hist, k as int, q),
                    forall|q: int|
                        0 <= q < 4 ==> -1_000_000 <= #[trigger] (huazhu_part(huazhu, q) + chadajiao_part(
                            players_agari,
                            huazhu,
                            tenpai_points,
                            q,
                        )) <= 1_000_000,
                    forall|q: int|
                        0 <= q < 4 ==> -(k + 1) * 0x8000_0000 <= #[trigger] refund_part(
                            players_agari,
                            huazhu,
                            tenpai_points,
                            hist,
                            k + 1,
                            q,
                        ) <= (k + 1) * 0x8000_0000,
                    forall|q: int|
                        0 <= q < 4 ==> -k * 0x8000_0000 <= #[trigger] refund_part(
                            players_agari,
                            huazhu,
                            tenpai_points,
                            hist,
                            k as int,
                            q,
                        ) <= k * 0x8000_0000,
                    k < usize::MAX,
                decreases 4 - j,
            {
                acc[j] = acc[j] - rec.deltas[j] as i128;
                j += 1;
            }
        }
        k += 1;
    }
    let mut out: [i32; 4] = [0i32; 4];
    let mut i: usize = 0;
    while i < 4
        invariant
            i <= 4,
            forall|j: int|
                0 <= j < 4 ==> #[trigger] acc[j] == spec_ryukyoku_delta(
                    players_agari,
                    huazhu,
                    tenpai_points,
                    gang_history@,
                    j,
                ),
            forall|j: int|
                0 <= j < 4 ==> i32::MIN <= #[trigger] spec_ryukyoku_delta(
                    players_agari,
                    huazhu,
                    tenpai_points,
                    gang_history@,
                    j,
                ) <= i32::MAX,
            forall|j: int| 0 <= j < i ==> #[trigger] out[j] == acc[j],
        decreases 4 - i,
    {
        out[i] = acc[i] as i32;
        i += 1;
    }
    out
}


/// The calculator `c` with one more tile of kind `t`, won on by ron.
pub open spec fn ron_on(c: AgariCalculator, t: int) -> AgariCalculator {
    AgariCalculator {
        tehai: &vstd::array::spec_array_update(*c.tehai, t, (c.tehai[t] + 1) as u8),
        winning_tile: t as u8,
        is_ron: true,
        ..c
    }
}

/// The ron points of a calculator's hand, 0 when it does not win.
pub open spec fn win_points(c: AgariCalculator) -> int {
    match spec_agari(c) {
        Some(Agari::Fan(f)) => spec_base_points(f),
        None => 0,
    }
}

/// The best ron points over the winning tiles below kind `n`: tiles held fewer than four
/// times whose addition completes the hand (shanten -1 aiming at `len_div3` melds).
pub open spec fn best_ron_points(c: AgariCalculator, len_div3: int, n: int) -> int
    decreases n,
{
    if n <= 0 {
        0
    } else {
        let t = n - 1;
        let prev = best_ron_points(c, len_div3, n - 1);
        let v = if c.tehai[t] < 4 && spec_calc_all(
            c.tehai@.update(t, (c.tehai[t] + 1) as u8),
            len_div3,
        ) == -1 {
            win_points(ron_on(c, t))
        } else {
            0
        };
        if v > prev {
            v
        } else {
            prev
        }
    }
}

/// The calculator of a waiting hand before its winning tile, with no special circumstance.
pub open spec fn plain_calculator<'a>(
    tehai: &'a [u8; 27],
    pons: &'a [u8],
    minkans: &'a [u8],
    ankans: &'a [u8],
    ding_que: Option<Suit>,
    fan_config: FanConfig,
) -> AgariCalculator<'a> {
    AgariCalculator {
        tehai,
        pons,
        minkans,
        ankans,
        winning_tile: 0,
        is_ron: true,
        ding_que,
        is_after_kan: false,
        is_kan_discard: false,
        is_chankan: false,
        exclude_gen_tile: None,
        is_haidi: false,
        is_tianhu: false,
        is_dihu: false,
        fan_config,
    }
}

/// The tenpai value used at an exhaustive draw (查大叫): the most a ron could pay the hand,
/// over every tile that completes it, whether or not copies of it are left.
pub fn max_ron_points(
    tehai: &[u8; 27],
    pons: &[u8],
    minkans: &[u8],
    ankans: &[u8],
    ding_que: Option<Suit>,
    fan_config: FanConfig,
) -> (r: i32)
    requires
        crate::grp::range_sum(tehai@, 0, 27) <= 13,
    ensures
        0 <= r <= 16000,
        r == best_ron_points(
            plain_calculator(tehai, pons, minkans, ankans, ding_que, fan_config),
            (crate::grp::range_sum(tehai@, 0, 27) + 1) / 3,
            27,
        ),
{
    let ghost base = plain_calculator(tehai, pons, minkans, ankans, ding_que, fan_config);
    let mut sum: u8 = 0;
    let mut k: usize = 0;
    while k < 27
        invariant
            k <= 27,
            crate::grp::range_sum(tehai@, 0, 27) <= 13,
            sum == crate::grp::range_sum(tehai@, 0, k as int),
        decreases 27 - k,
    {
        proof {
            lemma_range_sum_mono(tehai@, k + 1, 27);
        }
        sum = sum + tehai[k];
        k += 1;
    }
    let len_div3 = (sum + 1) / 3;
    let mut max_points: i32 = 0;
    let mut tid: usize = 0;
    while tid < 27
        invariant
            tid <= 27,
            len_div3 <= 4,
            len_div3 as int == (crate::grp::range_sum(tehai@, 0, 27) + 1) / 3,
            base == plain_calculator(tehai, pons, minkans, ankans, ding_que, fan_config),
            max_points == best_ron_points(base, len_div3 as int, tid as int),
            0 <= max_points <= 16000,
        decreases 27 - tid,
    {
        if tehai[tid] < 4 {
            let mut temp: [u8; 27] = *tehai;
            temp[tid] = temp[tid] + 1;
            assert(temp@ =~= tehai@.update(tid as int, (tehai[tid as int] + 1) as u8));
            if calc_all(&temp, len_div3) == -1 {
                let calc = AgariCalculator {
                    tehai: &temp,
                    pons,
                    minkans,
                    ankans,
                    winning_tile: tid as u8,
                    is_ron: true,
                    ding_que,
                    is_after_kan: false,
                    is_kan_discard: false,
                    is_chankan: false,
                    exclude_gen_tile: None,
                    is_haidi: false,
                    is_tianhu: false,
                    is_dihu: false,
                    fan_config,
                };
                proof {
                    assert(temp == vstd::array::spec_array_update(
                        *tehai,
                        tid as int,
                        (tehai[tid as int] + 1) as u8,
                    ));
                    assert(calc == ron_on(base, tid as int));
                }
                match calc.agari() {
                    Some(agari) => {
                        let p = agari.point(false).ron;
                        proof {
                            crate::point::lemma_points_bound(match agari {
                                Agari::Fan(f) => f,
                            });
                        }
                        if p > max_points {
                            max_points = p;
                        }
                    },
                    None => {},
                }
            }
        }
        tid += 1;
    }
    max_points
}

proof fn lemma_range_sum_mono(h: Seq<u8>, n: int, m: int)
    requires
        0 <= n <= m,
    ensures
        crate::grp::range_sum(h, 0, n) <= crate::grp::range_sum(h, 0, m),
    decreases m - n,
{
    if n < m {
        lemma_range_sum_mono(h, n, m - 1);
    }
}


// ---------------------------------------------------------------------------------------------
// The scoring state of a hand in progress.

/// What the table keeps for scoring while a hand is played.
pub struct ScoreState {
    pub players_agari: [bool; 4],
    pub agari_count: u8,
    /// Winners in the order they won.
    pub agari_order: Vec<u8>,
    /// Points won (negative: lost) in this hand so far.
    pub kyoku_deltas: [i32; 4],
    /// The seat to draw next (or that just drew).
    pub tsumo_actor: u8,
    pub kans: u8,
    /// What the last kan earned, while it can still pass to a ron on the kan player's discard.
    pub last_kan_revenue: i32,
    pub last_kan_actor: Option<u8>,
    pub gang_history: Vec<GangRecord>,
    /// Discards so far (one means the dealer's first discard).
    pub dahai_count: u16,
    pub tiles_left: u8,
}

/// A kan payment record as the table makes them: each amount at most 6000 either way.
pub open spec fn record_ok(r: GangRecord) -> bool {
    &&& forall|i: int| 0 <= i < 4 ==> -6000 <= #[trigger] r.deltas[i] <= 6000
    &&& r.actor < 4
    &&& only_actor_gains(r)
}

/// Every score delta can still move by `m` without leaving `i32`.
pub open spec fn has_room(d: [i32; 4], m: int) -> bool {
    forall|i: int| 0 <= i < 4 ==> i32::MIN + m <= #[trigger] d[i] <= i32::MAX - m
}

impl ScoreState {
    /// Well-formed: the next seat exists, the win count matches the winners, the pending kan
    /// revenue and every kan record are amounts a kan can pay.
    pub open spec fn wf(&self) -> bool {
        &&& self.tsumo_actor < 4
        &&& self.agari_count == count4(self.players_agari)
        &&& 0 <= self.last_kan_revenue <= 6000
        &&& forall|k: int| 0 <= k < self.gang_history@.len() ==> record_ok(#[trigger] self.gang_history@[k])
    }

    /// A fresh hand: nobody has won, no points moved, 56 tiles in the wall.
    pub fn new() -> (r: Self)
        ensures
            r.wf(),
            forall|i: int| 0 <= i < 4 ==> !#[trigger] r.players_agari[i],
            r.agari_count == 0,
            r.agari_order@.len() == 0,
            forall|i: int| 0 <= i < 4 ==> #[trigger] r.kyoku_deltas[i] == 0,
            r.tsumo_actor == 0,
            r.kans == 0,
            r.last_kan_revenue == 0,
            r.last_kan_actor is None,
            r.gang_history@.len() == 0,
            r.dahai_count == 0,
            r.tiles_left == 56,
    {
        ScoreState {
            players_agari: [false; 4],
            agari_count: 0,
            agari_order: Vec::new(),
            kyoku_deltas: [0i32; 4],
            tsumo_actor: 0,
            kans: 0,
            last_kan_revenue: 0,
            last_kan_actor: None,
            gang_history: Vec::new(),
            dahai_count: 0,
            tiles_left: 56,
        }
    }
}

/// The payment of a kan by `actor` where each player still in the hand pays `per_person`
/// (concealed kan 2000, added kan 1000).
pub open spec fn spread_payment(agari: [bool; 4], actor: int, per_person: int, i: int) -> int {
    let payers = (if 0 != actor && !agari[0] {
        1int
    } else {
        0int
    }) + (if 1 != actor && !agari[1] {
        1int
    } else {
        0int
    }) + (if 2 != actor && !agari[2] {
        1int
    } else {
        0int
    }) + (if 3 != actor && !agari[3] {
        1int
    } else {
        0int
    });
    if i == actor {
        per_person * payers
    } else if !agari[i] {
        -per_person
    } else {
        0
    }
}

/// The payment of an open kan: the discarder pays 2000 to `actor`.
pub open spec fn open_kan_payment(actor: int, target: int, i: int) -> int {
    if i == actor {
        2000
    } else if i == target {
        -2000
    } else {
        0
    }
}

/// `after` is `before` after a kan by `actor` that paid `d` with revenue `rev`: `actor` draws
/// next, one more kan, the deltas added, the revenue pending and the payment recorded.
pub open spec fn kan_applied(before: ScoreState, after: ScoreState, actor: u8, d: [i32; 4], rev: int) -> bool {
    &&& after.tsumo_actor == actor
    &&& after.kans == before.kans + 1
    &&& forall|i: int| 0 <= i < 4 ==> #[trigger] after.kyoku_deltas[i] == before.kyoku_deltas[i] + d[i]
    &&& after.last_kan_actor == Some(actor)
    &&& after.last_kan_revenue == rev
    &&& after.gang_history@ == before.gang_history@.push(GangRecord { actor, deltas: d, valid: true })
    &&& after.players_agari == before.players_agari
    &&& after.agari_count == before.agari_count
    &&& after.agari_order@ == before.agari_order@
    &&& after.dahai_count == before.dahai_count
    &&& after.tiles_left == before.tiles_left
}

proof fn lemma_spread_gains(agari: [bool; 4], actor: u8, per_person: int, d: [i32; 4])
    requires
        actor < 4,
        per_person == 1000 || per_person == 2000,
        forall|i: int| 0 <= i < 4 ==> #[trigger] d[i] == spread_payment(agari, actor as int, per_person, i),
    ensures
        only_actor_gains(GangRecord { actor, deltas: d, valid: true }),
{
}

impl ScoreState {
    fn spread(&self, actor: u8, per_person: i32) -> (r: ([i32; 4], i32))
        requires
            actor < 4,
            per_person == 1000 || per_person == 2000,
        ensures
            forall|i: int| 0 <= i < 4 ==> #[trigger] r.0[i] == spread_payment(self.players_agari, actor as int, per_person as int, i),
            r.1 == spread_payment(self.players_agari, actor as int, per_person as int, actor as int),
            0 <= r.1 <= 6000,
            forall|i: int| 0 <= i < 4 ==> -6000 <= #[trigger] r.0[i] <= 6000,
    {
        let mut d: [i32; 4] = [0i32; 4];
        let mut total: i32 = 0;
        let mut i: usize = 0;
        while i < 4
            invariant
                i <= 4,
                actor < 4,
                per_person == 1000 || per_person == 2000,
                total == (if 0 < i && 0 != actor && !self.players_agari[0] {
                    per_person as int
                } else {
                    0int
                }) + (if 1 < i && 1 != actor && !self.players_agari[1] {
                    per_person as int
                } else {
                    0int
                }) + (if 2 < i && 2 != actor && !self.players_agari[2] {
                    per_person as int
                } else {
                    0int
                }) + (if 3 < i && 3 != actor && !self.players_agari[3] {
                    per_person as int
                } else {
                    0int
                }),
                forall|j: int|
                    0 <= j < i && j != actor ==> #[trigger] d[j] == spread_payment(
                        self.players_agari,
                        actor as int,
                        per_person as int,
                        j,
                    ),
                forall|j: int| i <= j < 4 || j == actor ==> #[trigger] d[j] == 0,
            decreases 4 - i,
        {
            if i != actor as usize && !self.players_agari[i] {
                d[i] = -per_person;
                total = total + per_person;
            }
            i += 1;
        }
        d[actor as usize] = total;
        (d, total)
    }

    /// A concealed kan by `actor`: each player still in the hand pays 2000 at once; returns the
    /// payment.
    pub fn ankan_payment(&mut self, actor: u8) -> (d: [i32; 4])
        requires
            old(self).wf(),
            actor < 4,
            old(self).kans < 255,
            has_room(old(self).kyoku_deltas, 6000),
        ensures
            final(self).wf(),
            forall|i: int| 0 <= i < 4 ==> #[trigger] d[i] == spread_payment(old(self).players_agari, actor as int, 2000, i),
            kan_applied(*old(self), *final(self), actor, d, d[actor as int] as int),
    {
        let (d, total) = self.spread(actor, 2000);
        proof {
            lemma_spread_gains(self.players_agari, actor, 2000, d);
        }
        self.apply_kan(actor, d, total);
        d
    }

    /// An added kan by `actor`: each player still in the hand pays 1000 at once; returns the
    /// payment.
    pub fn kakan_payment(&mut self, actor: u8) -> (d: [i32; 4])
        requires
            old(self).wf(),
            actor < 4,
            old(self).kans < 255,
            has_room(old(self).kyoku_deltas, 6000),
        ensures
            final(self).wf(),
            forall|i: int| 0 <= i < 4 ==> #[trigger] d[i] == spread_payment(old(self).players_agari, actor as int, 1000, i),
            kan_applied(*old(self), *final(self), actor, d, d[actor as int] as int),
    {
        let (d, total) = self.spread(actor, 1000);
        proof {
            lemma_spread_gains(self.players_agari, actor, 1000, d);
        }
        self.apply_kan(actor, d, total);
        d
    }

    /// An open kan by `actor` on the discard of `target`: the discarder pays 2000 at once;
    /// returns the payment.
    pub fn daiminkan_payment(&mut self, actor: u8, target: u8) -> (d: [i32; 4])
        requires
            old(self).wf(),
            actor < 4,
            target < 4,
            old(self).kans < 255,
            has_room(old(self).kyoku_deltas, 6000),
        ensures
            final(self).wf(),
            forall|i: int| 0 <= i < 4 ==> #[trigger] d[i] == open_kan_payment(actor as int, target as int, i),
            kan_applied(*old(self), *final(self), actor, d, 2000),
    {
        let mut d: [i32; 4] = [0i32; 4];
        d[target as usize] = -2000;
        d[actor as usize] = 2000;
        proof {
            let r = GangRecord { actor, deltas: d, valid: true };
            assert(only_actor_gains(r));
        }
        self.apply_kan(actor, d, 2000);
        d
    }

    fn apply_kan(&mut self, actor: u8, d: [i32; 4], rev: i32)
        requires
            old(self).wf(),
            actor < 4,
            old(self).kans < 255,
            has_room(old(self).kyoku_deltas, 6000),
            forall|i: int| 0 <= i < 4 ==> -6000 <= #[trigger] d[i] <= 6000,
            only_actor_gains(GangRecord { actor, deltas: d, valid: true }),
            0 <= rev <= 6000,
        ensures
            final(self).wf(),
            kan_applied(*old(self), *final(self), actor, d, rev as int),
    {
        self.tsumo_actor = actor;
        self.kans = self.kans + 1;
        let mut i: usize = 0;
        while i < 4
            invariant
                i <= 4,
                forall|j: int| 0 <= j < i ==> #[trigger] self.kyoku_deltas[j] == old(self).kyoku_deltas[j] + d[j],
                forall|j: int| i <= j < 4 ==> #[trigger] self.kyoku_deltas[j] == old(self).kyoku_deltas[j],
                has_room(old(self).kyoku_deltas, 6000),
                forall|j: int| 0 <= j < 4 ==> -6000 <= #[trigger] d[j] <= 6000,
                self.tsumo_actor == actor,
                self.kans == old(self).kans + 1,
                self.players_agari == old(self).players_agari,
                self.agari_count == old(self).agari_count,
                self.agari_order@ == old(self).agari_order@,
                self.gang_history@ == old(self).gang_history@,
                self.dahai_count == old(self).dahai_count,
                self.tiles_left == old(self).tiles_left,
                self.last_kan_revenue == old(self).last_kan_revenue,
            decreases 4 - i,
        {
            self.kyoku_deltas[i] = self.kyoku_deltas[i] + d[i];
            i += 1;
        }
        self.last_kan_actor = Some(actor);
        self.last_kan_revenue = rev;
        self.gang_history.push(GangRecord { actor, deltas: d, valid: true });
        proof {
            assert forall|k: int| 0 <= k < self.gang_history@.len() implies record_ok(#[trigger] self.gang_history@[k]) by {
                if k < old(self).gang_history@.len() {
                    assert(self.gang_history@[k] == old(self).gang_history@[k]);
                } else {
                    assert(self.gang_history@[k].deltas == d);
                }
            }
        }
    }

    /// A pon by `actor`: it plays next, and a pending kan revenue lapses.
    pub fn on_pon(&mut self, actor: u8)
        requires
            old(self).wf(),
            actor < 4,
        ensures
            final(self).wf(),
            final(self).tsumo_actor == actor,
            final(self).last_kan_actor is None,
            final(self).last_kan_revenue == 0,
            final(self).players_agari == old(self).players_agari,
            final(self).agari_count == old(self).agari_count,
            final(self).agari_order@ == old(self).agari_order@,
            final(self).kyoku_deltas == old(self).kyoku_deltas,
            final(self).kans == old(self).kans,
            final(self).gang_history@ == old(self).gang_history@,
            final(self).dahai_count == old(self).dahai_count,
            final(self).tiles_left == old(self).tiles_left,
    {
        self.tsumo_actor = actor;
        self.last_kan_actor = None;
        self.last_kan_revenue = 0;
    }
}


// ---------------------------------------------------------------------------------------------
// Turn order.

/// The first seat, trying `from + tries`, `from + tries + 1`, ... (mod 4) up to the fourth
/// try, that has not won.
pub open spec fn next_unwon(agari: [bool; 4], from: int, tries: int) -> Option<u8>
    decreases 4 - tries,
{
    if tries >= 4 || tries < 0 {
        None
    } else if !agari[(from + tries) % 4] {
        Some(((from + tries) % 4) as u8)
    } else {
        next_unwon(agari, from, tries + 1)
    }
}

fn next_unwon_exec(agari: &[bool; 4], from: u8) -> (r: Option<u8>)
    requires
        from < 4,
    ensures
        r == next_unwon(*agari, from as int, 0),
        r matches Some(x) ==> x < 4,
{
    let mut next = from;
    let mut attempts: u8 = 0;
    while agari[next as usize]
        invariant
            attempts < 4,
            next as int == (from + attempts) % 4,
            next_unwon(*agari, from as int, 0) == next_unwon(*agari, from as int, attempts as int),
        decreases 4 - attempts,
    {
        next = (next + 1) % 4;
        attempts += 1;
        if attempts >= 4 {
            return None;
        }
    }
    Some(next)
}

/// What happens when the next seat is to draw.
#[derive(Debug, Clone, Copy, PartialEq, Eq, Structural)]
pub enum DrawTurn {
    /// The wall is empty: the hand ends in an exhaustive draw.
    Exhausted,
    /// Everybody has won; the hand should have ended already.
    AllWon,
    /// This seat draws the next tile.
    Drawn(u8),
}

impl ScoreState {
    /// A discard by `actor`: one more discard, and the turn passes to the next seat that has not
    /// won. Returns false (the turn unchanged) when every seat has won.
    pub fn on_dahai(&mut self, actor: u8) -> (ok: bool)
        requires
            old(self).wf(),
            actor < 4,
            old(self).dahai_count < u16::MAX,
        ensures
            final(self).wf(),
            final(self).dahai_count == old(self).dahai_count + 1,
            ok == (next_unwon(old(self).players_agari, (actor + 1) % 4, 0) is Some),
            final(self).tsumo_actor == match next_unwon(old(self).players_agari, (actor + 1) % 4, 0) {
                Some(n) => n,
                None => old(self).tsumo_actor,
            },
            final(self).players_agari == old(self).players_agari,
            final(self).agari_count == old(self).agari_count,
            final(self).agari_order@ == old(self).agari_order@,
            final(self).kyoku_deltas == old(self).kyoku_deltas,
            final(self).kans == old(self).kans,
            final(self).last_kan_actor == old(self).last_kan_actor,
            final(self).last_kan_revenue == old(self).last_kan_revenue,
            final(self).gang_history@ == old(self).gang_history@,
            final(self).tiles_left == old(self).tiles_left,
    {
        self.dahai_count = self.dahai_count + 1;
        match next_unwon_exec(&self.players_agari, (actor + 1) % 4) {
            Some(n) => {
                self.tsumo_actor = n;
                true
            },
            None => false,
        }
    }

    /// The turn to draw: an exhaustive draw when the wall is empty; else the next seat from
    /// `tsumo_actor` that has not won draws, one tile leaves the wall, and a pending kan
    /// revenue lapses unless this is the kan player's replacement draw.
    pub fn draw_turn(&mut self) -> (r: DrawTurn)
        requires
            old(self).wf(),
        ensures
            final(self).wf(),
            old(self).tiles_left == 0 ==> r == DrawTurn::Exhausted && *final(self) == *old(self),
            old(self).tiles_left > 0 ==> match next_unwon(old(self).players_agari, old(self).tsumo_actor as int, 0) {
                None => r == DrawTurn::AllWon,
                Some(n) => {
                    &&& r == DrawTurn::Drawn(n)
                    &&& final(self).tsumo_actor == n
                    &&& final(self).tiles_left == old(self).tiles_left - 1
                    &&& if old(self).last_kan_actor == Some(n) {
                        final(self).last_kan_actor == old(self).last_kan_actor
                            && final(self).last_kan_revenue == old(self).last_kan_revenue
                    } else {
                        final(self).last_kan_actor is None && final(self).last_kan_revenue == 0
                    }
                },
            },
            final(self).players_agari == old(self).players_agari,
            final(self).agari_count == old(self).agari_count,
            final(self).agari_order@ == old(self).agari_order@,
            final(self).kyoku_deltas == old(self).kyoku_deltas,
            final(self).kans == old(self).kans,
            final(self).gang_history@ == old(self).gang_history@,
            final(self).dahai_count == old(self).dahai_count,
    {
        if self.tiles_left == 0 {
            return DrawTurn::Exhausted;
        }
        match next_unwon_exec(&self.players_agari, self.tsumo_actor) {
            None => DrawTurn::AllWon,
            Some(n) => {
                self.tsumo_actor = n;
                self.tiles_left = self.tiles_left - 1;
                let rinshan = match self.last_kan_actor {
                    Some(k) => k == n,
                    None => false,
                };
                if !rinshan {
                    self.last_kan_actor = None;
                    self.last_kan_revenue = 0;
                }
                DrawTurn::Drawn(n)
            },
        }
    }
}

/// The winner of a ron furthest from the discarder `target` in turn order (the first such
/// among `winners`), or `target` when no winner is past it.
pub open spec fn furthest_winner(winners: Seq<u8>, target: u8, n: int) -> (u8, int)
    decreases n,
{
    if n <= 0 {
        (target, 0)
    } else {
        let prev = furthest_winner(winners, target, n - 1);
        let a = winners[n - 1];
        let dist = (a + 4 - target) % 4;
        if dist > prev.1 {
            (a, dist)
        } else {
            prev
        }
    }
}

impl ScoreState {
    /// After the wins on one discard (or a tsumo win): the hand ends once three have won;
    /// otherwise the turn goes, from the seat after the winner furthest from the discarder
    /// (after a tsumo, from the winner), to the first seat that has not won. Returns whether
    /// the hand goes on.
    pub fn after_hora(&mut self, winners: &[u8], target: u8, is_ron: bool) -> (go_on: bool)
        requires
            old(self).wf(),
            target < 4,
            forall|i: int| 0 <= i < winners@.len() ==> #[trigger] winners@[i] < 4,
        ensures
            final(self).wf(),
            go_on == (old(self).agari_count < 3 && next_unwon(
                old(self).players_agari,
                if is_ron {
                    (furthest_winner(winners@, target, winners@.len() as int).0 + 1) % 4
                } else {
                    old(self).tsumo_actor as int
                },
                0,
            ) is Some),
            go_on ==> Some(final(self).tsumo_actor) == next_unwon(
                old(self).players_agari,
                if is_ron {
                    (furthest_winner(winners@, target, winners@.len() as int).0 + 1) % 4
                } else {
                    old(self).tsumo_actor as int
                },
                0,
            ),
            !go_on ==> final(self).tsumo_actor == old(self).tsumo_actor,
            final(self).players_agari == old(self).players_agari,
            final(self).agari_count == old(self).agari_count,
            final(self).agari_order@ == old(self).agari_order@,
            final(self).kyoku_deltas == old(self).kyoku_deltas,
            final(self).kans == old(self).kans,
            final(self).last_kan_actor == old(self).last_kan_actor,
            final(self).last_kan_revenue == old(self).last_kan_revenue,
            final(self).gang_history@ == old(self).gang_history@,
            final(self).dahai_count == old(self).dahai_count,
            final(self).tiles_left == old(self).tiles_left,
    {
        if self.agari_count >= 3 {
            return false;
        }
        let start_from = if is_ron {
            let mut furthest: u8 = target;
            let mut max_distance: u8 = 0;
            let mut i: usize = 0;
            while i < winners.len()
                invariant
                    i <= winners@.len(),
                    target < 4,
                    forall|j: int| 0 <= j < winners@.len() ==> #[trigger] winners@[j] < 4,
                    (furthest, max_distance as int) == furthest_winner(winners@, target, i as int),
                    furthest < 4,
                decreases winners.len() - i,
            {
                let actor = winners[i];
                let distance = (actor + 4 - target) % 4;
                if distance > max_distance {
                    max_distance = distance;
                    furthest = actor;
                }
                i += 1;
            }
            (furthest + 1) % 4
        } else {
            self.tsumo_actor
        };
        match next_unwon_exec(&self.players_agari, start_from) {
            Some(n) => {
                self.tsumo_actor = n;
                true
            },
            None => false,
        }
    }
}


// ---------------------------------------------------------------------------------------------
// Wins.

/// The index of the last valid kan record of `actor` among the first `n`, or -1.
pub open spec fn last_valid_gang(h: Seq<GangRecord>, actor: u8, n: int) -> int
    decreases n,
{
    if n <= 0 {
        -1
    } else if h[n - 1].valid && h[n - 1].actor == actor {
        n - 1
    } else {
        last_valid_gang(h, actor, n - 1)
    }
}

/// `h` with record `k` (if any) made void.
pub open spec fn invalidated(h: Seq<GangRecord>, k: int) -> Seq<GangRecord> {
    if 0 <= k < h.len() {
        h.update(k, GangRecord { valid: false, ..h[k] })
    } else {
        h
    }
}

/// `d` with record `k` (if any) reversed.
pub open spec fn minus_record(d: Seq<int>, h: Seq<GangRecord>, k: int) -> Seq<int> {
    if 0 <= k < h.len() {
        Seq::new(4, |i: int| d[i] - h[k].deltas[i])
    } else {
        d
    }
}

/// Players other than `target` still in the hand before the win.
pub open spec fn others_in(before: [bool; 4], target: int) -> int {
    (if 0 != target && !before[0] {
        1int
    } else {
        0int
    }) + (if 1 != target && !before[1] {
        1int
    } else {
        0int
    }) + (if 2 != target && !before[2] {
        1int
    } else {
        0int
    }) + (if 3 != target && !before[3] {
        1int
    } else {
        0int
    })
}

/// The deltas of a ron by `actor` on `target`'s discard worth `ron`.
pub open spec fn ron_base(actor: u8, target: u8, ron: int) -> Seq<int> {
    Seq::new(
        4,
        |i: int|
            if i == actor {
                ron
            } else if i == target {
                -ron
            } else {
                0
            },
    )
}

/// 抢杠 refund: the robbed kan's last valid record is reversed; without one, each other
/// player still in the hand (before the win) gets 1000 back from `target`.
pub open spec fn chankan_deltas(d: Seq<int>, h: Seq<GangRecord>, before: [bool; 4], target: u8) -> Seq<int> {
    let k = last_valid_gang(h, target, h.len() as int);
    if k >= 0 {
        minus_record(d, h, k)
    } else {
        Seq::new(
            4,
            |i: int|
                if i == target {
                    d[i] - 1000 * others_in(before, target as int)
                } else if !before[i] {
                    d[i] + 1000
                } else {
                    d[i]
                },
        )
    }
}

/// 杠上炮: with several winners on the discard the kan's last valid record is reversed; with
/// one, the revenue `rev` passes from `target` to `actor`.
pub open spec fn transfer_deltas(d: Seq<int>, h: Seq<GangRecord>, actor: u8, target: u8, rev: int, multi_ron: bool) -> Seq<int> {
    if multi_ron {
        minus_record(d, h, last_valid_gang(h, target, h.len() as int))
    } else {
        Seq::new(
            4,
            |i: int|
                if i == target {
                    d[i] - rev
                } else if i == actor {
                    d[i] + rev
                } else {
                    d[i]
                },
        )
    }
}

/// The deltas of a tsumo by `actor`: each player still in the hand (after the win) pays
/// `tsumo_ko` to the winner.
pub open spec fn tsumo_deltas(after: [bool; 4], actor: u8, tsumo_ko: int) -> Seq<int> {
    Seq::new(
        4,
        |i: int|
            if i == actor {
                tsumo_ko * spread_payment(after, actor as int, 1, actor as int)
            } else if !after[i] {
                -tsumo_ko
            } else {
                0
            },
    )
}

/// The result of a win: the deltas, the kan records, the pending kan revenue and its actor,
/// the seat to draw and the kan count.
pub open spec fn hora_result(
    s: ScoreState,
    actor: u8,
    target: u8,
    point: Point,
    chankan: bool,
    multi_ron: bool,
) -> (Seq<int>, Seq<GangRecord>, int, Option<u8>, int, int) {
    let h = s.gang_history@;
    let after = vstd::array::spec_array_update(s.players_agari, actor as int, true);
    if actor == target {
        (
            tsumo_deltas(after, actor, point.tsumo_ko as int),
            h,
            s.last_kan_revenue as int,
            s.last_kan_actor,
            s.tsumo_actor as int,
            s.kans as int,
        )
    } else {
        let d0 = ron_base(actor, target, point.ron as int);
        let c1 = chankan && s.last_kan_actor == Some(target) && s.last_kan_revenue > 0;
        let d1 = if c1 {
            chankan_deltas(d0, h, s.players_agari, target)
        } else {
            d0
        };
        let h1 = if c1 {
            invalidated(h, last_valid_gang(h, target, h.len() as int))
        } else {
            h
        };
        let rev1 = if c1 {
            0
        } else {
            s.last_kan_revenue as int
        };
        let ka1 = if c1 {
            None
        } else {
            s.last_kan_actor
        };
        let tsumo1 = if c1 {
            (target + 1) % 4
        } else {
            s.tsumo_actor as int
        };
        let kans1 = if c1 && s.kans > 0 {
            s.kans - 1
        } else {
            s.kans as int
        };
        let c2 = ka1 == Some(target) && rev1 > 0;
        let d2 = if c2 {
            transfer_deltas(d1, h1, actor, target, rev1, multi_ron)
        } else {
            d1
        };
        let h2 = if c2 {
            invalidated(h1, last_valid_gang(h1, target, h1.len() as int))
        } else {
            h1
        };
        (d2, h2, if c2 {
            0
        } else {
            rev1
        }, if c2 {
            None
        } else {
            ka1
        }, tsumo1, kans1)
    }
}

fn last_valid_gang_exec(h: &Vec<GangRecord>, actor: u8) -> (r: Option<usize>)
    ensures
        match r {
            Some(k) => k as int == last_valid_gang(h@, actor, h@.len() as int) && k < h@.len(),
            None => last_valid_gang(h@, actor, h@.len() as int) == -1,
        },
{
    let mut n: usize = h.len();
    while n > 0
        invariant
            n <= h@.len(),
            last_valid_gang(h@, actor, h@.len() as int) == last_valid_gang(h@, actor, n as int),
        decreases n,
    {
        let r = h[n - 1];
        if r.valid && r.actor == actor {
            return Some(n - 1);
        }
        n -= 1;
    }
    None
}

proof fn lemma_last_valid_range(h: Seq<GangRecord>, actor: u8, n: int)
    requires
        0 <= n <= h.len(),
    ensures
        -1 <= last_valid_gang(h, actor, n) < n,
    decreases n,
{
    if n > 0 {
        lemma_last_valid_range(h, actor, n - 1);
    }
}

impl ScoreState {
    fn void_record(&mut self, k: usize)
        requires
            old(self).wf(),
            k < old(self).gang_history@.len(),
        ensures
            final(self).wf(),
            final(self).gang_history@ == invalidated(old(self).gang_history@, k as int),
            final(self).players_agari == old(self).players_agari,
            final(self).agari_count == old(self).agari_count,
            final(self).agari_order@ == old(self).agari_order@,
            final(self).kyoku_deltas == old(self).kyoku_deltas,
            final(self).tsumo_actor == old(self).tsumo_actor,
            final(self).kans == old(self).kans,
            final(self).last_kan_actor == old(self).last_kan_actor,
            final(self).last_kan_revenue == old(self).last_kan_revenue,
            final(self).dahai_count == old(self).dahai_count,
            final(self).tiles_left == old(self).tiles_left,
    {
        self.gang_history[k].valid = false;
        proof {
            assert(self.gang_history@ =~= invalidated(old(self).gang_history@, k as int));
            assert forall|j: int| 0 <= j < self.gang_history@.len() implies record_ok(#[trigger] self.gang_history@[j]) by {
                assert(record_ok(old(self).gang_history@[j]));
                assert(self.gang_history@[j].deltas == old(self).gang_history@[j].deltas);
            }
        }
    }

    /// Reverses kan record `k` in `d`, and makes the record void.
    fn reverse_record(&mut self, d: &mut [i32; 4], k: usize)
        requires
            old(self).wf(),
            k < old(self).gang_history@.len(),
            forall|i: int| 0 <= i < 4 ==> -40000 <= #[trigger] old(d)[i] <= 40000,
        ensures
            final(self).wf(),
            forall|i: int| 0 <= i < 4 ==> #[trigger] final(d)[i] == minus_record(old(d)@.map_values(|x: i32| x as int), old(self).gang_history@, k as int)[i],
            final(self).gang_history@ == invalidated(old(self).gang_history@, k as int),
            final(self).players_agari == old(self).players_agari,
            final(self).agari_count == old(self).agari_count,
            final(self).agari_order@ == old(self).agari_order@,
            final(self).kyoku_deltas == old(self).kyoku_deltas,
            final(self).tsumo_actor == old(self).tsumo_actor,
            final(self).kans == old(self).kans,
            final(self).last_kan_actor == old(self).last_kan_actor,
            final(self).last_kan_revenue == old(self).last_kan_revenue,
            final(self).dahai_count == old(self).dahai_count,
            final(self).tiles_left == old(self).tiles_left,
    {
        let rec = self.gang_history[k];
        assert(record_ok(rec));
        let ghost d0 = *d;
        let mut i: usize = 0;
        while i < 4
            invariant
                i <= 4,
                record_ok(rec),
                forall|j: int| 0 <= j < i ==> #[trigger] d[j] == d0[j] - rec.deltas[j],
                forall|j: int| i <= j < 4 ==> #[trigger] d[j] == d0[j],
                forall|j: int| 0 <= j < 4 ==> -40000 <= #[trigger] d0[j] <= 40000,
            decreases 4 - i,
        {
            d[i] = d[i] - rec.deltas[i];
            i += 1;
        }
        self.void_record(k);
    }

    /// The 抢杠 refund (see `chankan_deltas`) applied to `d`; the kan state is reset.
    fn chankan_step(&mut self, d: &mut [i32; 4], target: u8, before: [bool; 4])
        requires
            old(self).wf(),
            target < 4,
            forall|i: int| 0 <= i < 4 ==> -20000 <= #[trigger] old(d)[i] <= 20000,
        ensures
            final(self).wf(),
            forall|i: int| 0 <= i < 4 ==> #[trigger] final(d)[i] == chankan_deltas(old(d)@.map_values(|x: i32| x as int), old(self).gang_history@, before, target)[i],
            forall|i: int| 0 <= i < 4 ==> -30000 <= #[trigger] final(d)[i] <= 30000,
            final(self).gang_history@ == invalidated(old(self).gang_history@, last_valid_gang(old(self).gang_history@, target, old(self).gang_history@.len() as int)),
            final(self).players_agari == old(self).players_agari,
            final(self).agari_count == old(self).agari_count,
            final(self).agari_order@ == old(self).agari_order@,
            final(self).kyoku_deltas == old(self).kyoku_deltas,
            final(self).tsumo_actor == old(self).tsumo_actor,
            final(self).kans == old(self).kans,
            final(self).last_kan_actor == old(self).last_kan_actor,
            final(self).last_kan_revenue == old(self).last_kan_revenue,
            final(self).dahai_count == old(self).dahai_count,
            final(self).tiles_left == old(self).tiles_left,
    {
        let ghost d0 = *d;
        let ghost h = self.gang_history@;
        match last_valid_gang_exec(&self.gang_history, target) {
            Some(k) => {
                self.reverse_record(d, k);
                proof {
                    let dv = d0@.map_values(|x: i32| x as int);
                    assert forall|i: int| 0 <= i < 4 implies -30000 <= #[trigger] d[i] <= 30000 by {
                        assert(record_ok(h[k as int]));
                        assert(-6000 <= h[k as int].deltas[i] <= 6000);
                    }
                }
            },
            None => {
                let mut total: i32 = 0;
                let mut i: usize = 0;
                while i < 4
                    invariant
                        i <= 4,
                        target < 4,
                        0 <= total <= 1000 * i,
                        total == (if 0 < i && 0 != target && !before[0] {
                            1000int
                        } else {
                            0int
                        }) + (if 1 < i && 1 != target && !before[1] {
                            1000int
                        } else {
                            0int
                        }) + (if 2 < i && 2 != target && !before[2] {
                            1000int
                        } else {
                            0int
                        }) + (if 3 < i && 3 != target && !before[3] {
                            1000int
                        } else {
                            0int
                        }),
                        forall|j: int| 0 <= j < i && j != target ==> #[trigger] d[j] == d0[j] + (if !before[j] {
                            1000int
                        } else {
                            0int
                        }),
                        forall|j: int| (i <= j < 4 || j == target) ==> #[trigger] d[j] == d0[j],
                        forall|j: int| 0 <= j < 4 ==> -20000 <= #[trigger] d0[j] <= 20000,
                    decreases 4 - i,
                {
                    if i != target as usize && !before[i] {
                        d[i] = d[i] + 1000;
                        total = total + 1000;
                    }
                    i += 1;
                }
                d[target as usize] = d[target as usize] - total;
                proof {
                    lemma_last_valid_range(h, target, h.len() as int);
                }
            },
        }
    }

    /// The 杠上炮 transfer or refund (see `transfer_deltas`) applied to `d`.
    fn transfer_step(&mut self, d: &mut [i32; 4], actor: u8, target: u8, rev: i32, multi_ron: bool)
        requires
            old(self).wf(),
            actor < 4,
            target < 4,
            actor != target,
            0 <= rev <= 6000,
            forall|i: int| 0 <= i < 4 ==> -30000 <= #[trigger] old(d)[i] <= 30000,
        ensures
            final(self).wf(),
            forall|i: int| 0 <= i < 4 ==> #[trigger] final(d)[i] == transfer_deltas(old(d)@.map_values(|x: i32| x as int), old(self).gang_history@, actor, target, rev as int, multi_ron)[i],
            forall|i: int| 0 <= i < 4 ==> -40000 <= #[trigger] final(d)[i] <= 40000,
            final(self).gang_history@ == invalidated(old(self).gang_history@, last_valid_gang(old(self).gang_history@, target, old(self).gang_history@.len() as int)),
            final(self).players_agari == old(self).players_agari,
            final(self).agari_count == old(self).agari_count,
            final(self).agari_order@ == old(self).agari_order@,
            final(self).kyoku_deltas == old(self).kyoku_deltas,
            final(self).tsumo_actor == old(self).tsumo_actor,
            final(self).kans == old(self).kans,
            final(self).last_kan_actor == old(self).last_kan_actor,
            final(self).last_kan_revenue == old(self).last_kan_revenue,
            final(self).dahai_count == old(self).dahai_count,
            final(self).tiles_left == old(self).tiles_left,
    {
        let ghost d0 = *d;
        let ghost h = self.gang_history@;
        proof {
            lemma_last_valid_range(h, target, h.len() as int);
        }
        if multi_ron {
            match last_valid_gang_exec(&self.gang_history, target) {
                Some(k) => {
                    self.reverse_record(d, k);
                    proof {
                        assert forall|i: int| 0 <= i < 4 implies -40000 <= #[trigger] d[i] <= 40000 by {
                            assert(record_ok(h[k as int]));
                            assert(-6000 <= h[k as int].deltas[i] <= 6000);
                        }
                    }
                },
                None => {
                    assert(d@.map_values(|x: i32| x as int) =~= minus_record(d0@.map_values(|x: i32| x as int), h, -1));
                },
            }
        } else {
            d[target as usize] = d[target as usize] - rev;
            d[actor as usize] = d[actor as usize] + rev;
            match last_valid_gang_exec(&self.gang_history, target) {
                Some(k) => {
                    self.void_record(k);
                },
                None => {},
            }
        }
    }

    /// A win by `actor` on the discard of `target` (a tsumo when they are the same), worth
    /// `point`; `chankan` when the winner robbed an added kan, `multi_ron` when several win on
    /// the same discard. The winner is marked, the win paid (with the kan refunds and transfers
    /// of `hora_result`) and added to the hand's deltas, which are returned.
    pub fn handle_hora(
        &mut self,
        actor: u8,
        target: u8,
        point: Point,
        chankan: bool,
        multi_ron: bool,
    ) -> (deltas: [i32; 4])
        requires
            old(self).wf(),
            actor < 4,
            target < 4,
            0 <= point.ron <= 16000,
            0 <= point.tsumo_ko <= 16000,
            has_room(old(self).kyoku_deltas, 50000),
        ensures
            final(self).wf(),
            final(self).players_agari == vstd::array::spec_array_update(old(self).players_agari, actor as int, true),
            final(self).agari_order@ == if old(self).players_agari[actor as int] {
                old(self).agari_order@
            } else {
                old(self).agari_order@.push(actor)
            },
            forall|i: int| 0 <= i < 4 ==> #[trigger] deltas[i] == hora_result(*old(self), actor, target, point, chankan, multi_ron).0[i],
            forall|i: int| 0 <= i < 4 ==> #[trigger] final(self).kyoku_deltas[i] == old(self).kyoku_deltas[i] + deltas[i],
            final(self).gang_history@ == hora_result(*old(self), actor, target, point, chankan, multi_ron).1,
            final(self).last_kan_revenue == hora_result(*old(self), actor, target, point, chankan, multi_ron).2,
            final(self).last_kan_actor == hora_result(*old(self), actor, target, point, chankan, multi_ron).3,
            final(self).tsumo_actor == hora_result(*old(self), actor, target, point, chankan, multi_ron).4,
            final(self).kans == hora_result(*old(self), actor, target, point, chankan, multi_ron).5,
            final(self).dahai_count == old(self).dahai_count,
            final(self).tiles_left == old(self).tiles_left,
    {
        let ghost s0 = *self;
        let ghost res = hora_result(s0, actor, target, point, chankan, multi_ron);
        let before = self.players_agari;
        if !self.players_agari[actor as usize] {
            self.players_agari[actor as usize] = true;
            self.agari_count = self.agari_count + 1;
            self.agari_order.push(actor);
        }
        assert(self.players_agari@ =~= vstd::array::spec_array_update(before, actor as int, true)@);
        assert(self.players_agari == vstd::array::spec_array_update(before, actor as int, true));
        let mut d: [i32; 4] = [0i32; 4];
        if actor != target {
            d[target as usize] = -point.ron;
            d[actor as usize] = point.ron;
            assert(d@.map_values(|x: i32| x as int) =~= ron_base(actor, target, point.ron as int));
            let c1 = chankan && self.last_kan_actor == Some(target) && self.last_kan_revenue > 0;
            if c1 {
                self.chankan_step(&mut d, target, before);
                self.last_kan_revenue = 0;
                self.last_kan_actor = None;
                self.tsumo_actor = (target + 1) % 4;
                self.kans = self.kans.saturating_sub(1);
            }
            assert(d@.map_values(|x: i32| x as int) =~= (if c1 {
                chankan_deltas(ron_base(actor, target, point.ron as int), s0.gang_history@, s0.players_agari, target)
            } else {
                ron_base(actor, target, point.ron as int)
            }));
            let c2 = self.last_kan_actor == Some(target) && self.last_kan_revenue > 0;
            if c2 {
                let rev = self.last_kan_revenue;
                self.transfer_step(&mut d, actor, target, rev, multi_ron);
                self.last_kan_revenue = 0;
                self.last_kan_actor = None;
            }
            assert(d@.map_values(|x: i32| x as int) =~= res.0);
        } else {
            d = tsumo_payment(&self.players_agari, actor, point.tsumo_ko);
            assert(d@.map_values(|x: i32| x as int) =~= res.0);
        }
        self.add_deltas(&d);
        d
    }
}


/// The deltas of a tsumo by `actor` worth `tsumo_ko` from each player not in `agari`.
fn tsumo_payment(agari: &[bool; 4], actor: u8, tsumo_ko: i32) -> (d: [i32; 4])
    requires
        actor < 4,
        0 <= tsumo_ko <= 16000,
    ensures
        forall|i: int| 0 <= i < 4 ==> #[trigger] d[i] == tsumo_deltas(*agari, actor, tsumo_ko as int)[i],
        forall|i: int| 0 <= i < 4 ==> -50000 <= #[trigger] d[i] <= 50000,
{
    let mut d: [i32; 4] = [0i32; 4];
    let mut n: i32 = 0;
    let mut i: usize = 0;
    while i < 4
        invariant
            i <= 4,
            actor < 4,
            0 <= tsumo_ko <= 16000,
            0 <= n <= i,
            n == (if 0 < i && 0 != actor && !agari[0] {
                1int
            } else {
                0int
            }) + (if 1 < i && 1 != actor && !agari[1] {
                1int
            } else {
                0int
            }) + (if 2 < i && 2 != actor && !agari[2] {
                1int
            } else {
                0int
            }) + (if 3 < i && 3 != actor && !agari[3] {
                1int
            } else {
                0int
            }),
            forall|j: int| 0 <= j < i && j != actor ==> #[trigger] d[j] == (if !agari[j] {
                -tsumo_ko
            } else {
                0
            }),
            forall|j: int| (i <= j < 4 || j == actor) ==> #[trigger] d[j] == 0,
        decreases 4 - i,
    {
        if i != actor as usize && !agari[i] {
            d[i] = -tsumo_ko;
            n = n + 1;
        }
        i += 1;
    }
    assert(0 <= tsumo_ko * n <= 48000) by (nonlinear_arith)
        requires
            0 <= tsumo_ko <= 16000,
            0 <= n <= 3,
    ;
    d[actor as usize] = tsumo_ko * n;
    d
}

impl ScoreState {
    /// Adds `d` to the hand's deltas.
    fn add_deltas(&mut self, d: &[i32; 4])
        requires
            forall|j: int| 0 <= j < 4 ==> -50000 <= #[trigger] d[j] <= 50000,
            has_room(old(self).kyoku_deltas, 50000),
        ensures
            forall|j: int| 0 <= j < 4 ==> #[trigger] final(self).kyoku_deltas[j] == old(self).kyoku_deltas[j] + d[j],
            final(self).players_agari == old(self).players_agari,
            final(self).agari_count == old(self).agari_count,
            final(self).agari_order@ == old(self).agari_order@,
            final(self).tsumo_actor == old(self).tsumo_actor,
            final(self).kans == old(self).kans,
            final(self).last_kan_actor == old(self).last_kan_actor,
            final(self).last_kan_revenue == old(self).last_kan_revenue,
            final(self).gang_history@ == old(self).gang_history@,
            final(self).dahai_count == old(self).dahai_count,
            final(self).tiles_left == old(self).tiles_left,
    {
        let mut i: usize = 0;
        while i < 4
            invariant
                i <= 4,
                forall|j: int| 0 <= j < 4 ==> -50000 <= #[trigger] d[j] <= 50000,
                has_room(old(self).kyoku_deltas, 50000),
                forall|j: int| 0 <= j < i ==> #[trigger] self.kyoku_deltas[j] == old(self).kyoku_deltas[j] + d[j],
                forall|j: int| i <= j < 4 ==> #[trigger] self.kyoku_deltas[j] == old(self).kyoku_deltas[j],
                self.players_agari == old(self).players_agari,
                self.agari_count == old(self).agari_count,
                self.agari_order@ == old(self).agari_order@,
                self.tsumo_actor == old(self).tsumo_actor,
                self.kans == old(self).kans,
                self.last_kan_actor == old(self).last_kan_actor,
                self.last_kan_revenue == old(self).last_kan_revenue,
                self.gang_history@ == old(self).gang_history@,
                self.dahai_count == old(self).dahai_count,
                self.tiles_left == old(self).tiles_left,
            decreases 4 - i,
        {
            self.kyoku_deltas[i] = self.kyoku_deltas[i] + d[i];
            i += 1;
        }
    }
}


impl ScoreState {
    /// The special circumstances of a win by `actor` on `target`'s discard (a tsumo when they
    /// are the same), with dealer `oya`: (海底: the wall is empty, 天胡: the dealer's tsumo before
    /// any discard, 地胡: a ron on the dealer's first discard with no kan).
    pub fn win_flags(&self, actor: u8, target: u8, oya: u8, wall_empty: bool) -> (r: (bool, bool, bool))
        ensures
            r.0 == (self.tiles_left == 0 || wall_empty),
            r.1 == (self.dahai_count == 0 && actor == target && actor == oya),
            r.2 == (self.dahai_count == 1 && self.kans == 0 && actor != target && target == oya),
    {
        let is_ron = actor != target;
        let is_haidi = self.tiles_left == 0 || wall_empty;
        let is_tianhu = self.dahai_count == 0 && !is_ron && actor == oya;
        let is_dihu = self.dahai_count == 1 && self.kans == 0 && is_ron && target == oya;
        (is_haidi, is_tianhu, is_dihu)
    }

    /// The settlement of an exhaustive draw (see `ryukyoku_deltas`), added to the hand's
    /// deltas and returned; `huazhu` and `tenpai_points` are per seat.
    pub fn exhaustive_ryukyoku(&mut self, huazhu: [bool; 4], tenpai_points: [Option<i32>; 4]) -> (d: [i32; 4])
        requires
            points_ok(tenpai_points),
            forall|i: int|
                0 <= i < 4 ==> i32::MIN <= #[trigger] spec_ryukyoku_delta(
                    old(self).players_agari,
                    huazhu,
                    tenpai_points,
                    old(self).gang_history@,
                    i,
                ) <= i32::MAX,
            forall|i: int|
                0 <= i < 4 ==> i32::MIN <= #[trigger] old(self).kyoku_deltas[i] + spec_ryukyoku_delta(
                    old(self).players_agari,
                    huazhu,
                    tenpai_points,
                    old(self).gang_history@,
                    i,
                ) <= i32::MAX,
        ensures
            forall|i: int|
                0 <= i < 4 ==> #[trigger] d[i] == spec_ryukyoku_delta(
                    old(self).players_agari,
                    huazhu,
                    tenpai_points,
                    old(self).gang_history@,
                    i,
                ),
            forall|i: int| 0 <= i < 4 ==> #[trigger] final(self).kyoku_deltas[i] == old(self).kyoku_deltas[i] + d[i],
            final(self).players_agari == old(self).players_agari,
            final(self).agari_count == old(self).agari_count,
            final(self).agari_order@ == old(self).agari_order@,
            final(self).tsumo_actor == old(self).tsumo_actor,
            final(self).kans == old(self).kans,
            final(self).last_kan_actor == old(self).last_kan_actor,
            final(self).last_kan_revenue == old(self).last_kan_revenue,
            final(self).gang_history@ == old(self).gang_history@,
            final(self).dahai_count == old(self).dahai_count,
            final(self).tiles_left == old(self).tiles_left,
    {
        let d = ryukyoku_deltas(self.players_agari, huazhu, tenpai_points, self.gang_history.as_slice());
        let mut i: usize = 0;
        while i < 4
            invariant
                i <= 4,
                forall|j: int|
                    0 <= j < 4 ==> i32::MIN <= #[trigger] old(self).kyoku_deltas[j] + d[j] <= i32::MAX,
                forall|j: int| 0 <= j < i ==> #[trigger] self.kyoku_deltas[j] == old(self).kyoku_deltas[j] + d[j],
                forall|j: int| i <= j < 4 ==> #[trigger] self.kyoku_deltas[j] == old(self).kyoku_deltas[j],
                self.players_agari == old(self).players_agari,
                self.agari_count == old(self).agari_count,
                self.agari_order@ == old(self).agari_order@,
                self.tsumo_actor == old(self).tsumo_actor,
                self.kans == old(self).kans,
                self.last_kan_actor == old(self).last_kan_actor,
                self.last_kan_revenue == old(self).last_kan_revenue,
                self.gang_history@ == old(self).gang_history@,
                self.dahai_count == old(self).dahai_count,
                self.tiles_left == old(self).tiles_left,
            decreases 4 - i,
        {
            self.kyoku_deltas[i] = self.kyoku_deltas[i] + d[i];
            i += 1;
        }
        d
    }
}


// ---------------------------------------------------------------------------------------------
// Every payment is zero-sum.

/// The sum of four deltas.
pub open spec fn sum4(d: Seq<int>) -> int {
    d[0] + d[1] + d[2] + d[3]
}

/// A kan record that moved no points in or out of the table.
pub open spec fn record_zero_sum(r: GangRecord) -> bool {
    r.deltas[0] + r.deltas[1] + r.deltas[2] + r.deltas[3] == 0
}

/// A kan record that still stands moved no points in or out of the table (a void one is
/// never refunded, so it may hold anything).
pub open spec fn valid_zero_sum(r: GangRecord) -> bool {
    r.valid ==> record_zero_sum(r)
}

proof fn lemma_last_valid_is_valid(h: Seq<GangRecord>, actor: u8, n: int)
    requires
        0 <= n <= h.len(),
        0 <= last_valid_gang(h, actor, n),
    ensures
        h[last_valid_gang(h, actor, n)].valid,
    decreases n,
{
    if n > 0 && !(h[n - 1].valid && h[n - 1].actor == actor) {
        lemma_last_valid_is_valid(h, actor, n - 1);
    }
}

/// A concealed or added kan payment takes from the payers exactly what the kan player gets.
pub proof fn lemma_kan_payment_zero_sum(agari: [bool; 4], actor: int, per_person: int)
    requires
        0 <= actor < 4,
    ensures
        spread_payment(agari, actor, per_person, 0) + spread_payment(agari, actor, per_person, 1)
            + spread_payment(agari, actor, per_person, 2) + spread_payment(agari, actor, per_person, 3) == 0,
{
    let payers = (if 0 != actor && !agari[0] {
        1int
    } else {
        0int
    }) + (if 1 != actor && !agari[1] {
        1int
    } else {
        0int
    }) + (if 2 != actor && !agari[2] {
        1int
    } else {
        0int
    }) + (if 3 != actor && !agari[3] {
        1int
    } else {
        0int
    });
    assert(0 <= payers <= 3);
    if payers == 0 {
        assert(per_person * payers == 0);
    } else if payers == 1 {
        assert(per_person * payers == per_person);
    } else if payers == 2 {
        assert(per_person * payers == per_person + per_person);
    } else {
        assert(payers == 3);
        assert(per_person * payers == per_person * 3);
    }
}

proof fn lemma_minus_record_sum(d: Seq<int>, h: Seq<GangRecord>, k: int)
    requires
        d.len() == 4,
        0 <= k < h.len() ==> record_zero_sum(h[k]),
    ensures
        sum4(minus_record(d, h, k)) == sum4(d),
{
}

proof fn lemma_invalidated_zero_sum(h: Seq<GangRecord>, k: int)
    requires
        forall|j: int| 0 <= j < h.len() ==> valid_zero_sum(#[trigger] h[j]),
    ensures
        forall|j: int| 0 <= j < invalidated(h, k).len() ==> valid_zero_sum(#[trigger] invalidated(h, k)[j]),
        invalidated(h, k).len() == h.len(),
{
    assert forall|j: int| 0 <= j < invalidated(h, k).len() implies valid_zero_sum(#[trigger] invalidated(h, k)[j]) by {
        assert(valid_zero_sum(h[j]));
        assert(invalidated(h, k)[j].deltas == h[j].deltas);
    }
}

/// A win moves points only between players: the deltas of `handle_hora` sum to zero when every
/// kan record that still stands does (as the table's kan payments do).
pub proof fn lemma_hora_zero_sum(s: ScoreState, actor: u8, target: u8, point: Point, chankan: bool, multi_ron: bool)
    requires
        actor < 4,
        target < 4,
        forall|j: int| 0 <= j < s.gang_history@.len() ==> valid_zero_sum(#[trigger] s.gang_history@[j]),
    ensures
        sum4(hora_result(s, actor, target, point, chankan, multi_ron).0) == 0,
{
    let h = s.gang_history@;
    let after = vstd::array::spec_array_update(s.players_agari, actor as int, true);
    if actor == target {
        lemma_kan_payment_zero_sum(after, actor as int, point.tsumo_ko as int);
        let d = tsumo_deltas(after, actor, point.tsumo_ko as int);
        assert(point.tsumo_ko * spread_payment(after, actor as int, 1, actor as int) == spread_payment(
            after,
            actor as int,
            point.tsumo_ko as int,
            actor as int,
        )) by (nonlinear_arith);
        assert(forall|i: int| 0 <= i < 4 && i != actor ==> #[trigger] d[i] == spread_payment(after, actor as int, point.tsumo_ko as int, i));
    } else {
        let d0 = ron_base(actor, target, point.ron as int);
        let c1 = chankan && s.last_kan_actor == Some(target) && s.last_kan_revenue > 0;
        let k1 = last_valid_gang(h, target, h.len() as int);
        lemma_last_valid_range(h, target, h.len() as int);
        if c1 {
            if k1 >= 0 {
                lemma_last_valid_is_valid(h, target, h.len() as int);
                assert(valid_zero_sum(h[k1]));
                lemma_minus_record_sum(d0, h, k1);
            }
        }
        let d1 = if c1 {
            chankan_deltas(d0, h, s.players_agari, target)
        } else {
            d0
        };
        assert(sum4(d1) == 0);
        let h1 = if c1 {
            invalidated(h, k1)
        } else {
            h
        };
        lemma_invalidated_zero_sum(h, k1);
        let rev1 = if c1 {
            0
        } else {
            s.last_kan_revenue as int
        };
        let ka1 = if c1 {
            None
        } else {
            s.last_kan_actor
        };
        let c2 = ka1 == Some(target) && rev1 > 0;
        let k2 = last_valid_gang(h1, target, h1.len() as int);
        lemma_last_valid_range(h1, target, h1.len() as int);
        if c2 && multi_ron {
            if k2 >= 0 {
                lemma_last_valid_is_valid(h1, target, h1.len() as int);
                assert(valid_zero_sum(h1[k2]));
            }
            lemma_minus_record_sum(d1, h1, k2);
        }
    }
}

proof fn lemma_refund_zero_sum(
    agari: [bool; 4],
    huazhu: [bool; 4],
    tenpai_points: [Option<i32>; 4],
    history: Seq<GangRecord>,
    n: int,
)
    requires
        0 <= n <= history.len(),
        forall|j: int| 0 <= j < history.len() ==> valid_zero_sum(#[trigger] history[j]),
    ensures
        refund_part(agari, huazhu, tenpai_points, history, n, 0) + refund_part(agari, huazhu, tenpai_points, history, n, 1)
            + refund_part(agari, huazhu, tenpai_points, history, n, 2) + refund_part(agari, huazhu, tenpai_points, history, n, 3) == 0,
    decreases n,
{
    if n > 0 {
        lemma_refund_zero_sum(agari, huazhu, tenpai_points, history, n - 1);
        assert(valid_zero_sum(history[n - 1]));
    }
}

/// Only the kan's actor gains from the kan payment `r`: every other player pays or is unaffected.
pub open spec fn only_actor_gains(r: GangRecord) -> bool {
    forall|j: int| 0 <= j < 4 && j != r.actor ==> #[trigger] r.deltas[j] <= 0
}

proof fn lemma_refund_to_winner(
    agari: [bool; 4],
    huazhu: [bool; 4],
    tenpai_points: [Option<i32>; 4],
    history: Seq<GangRecord>,
    n: int,
    i: int,
)
    requires
        0 <= i < 4,
        0 <= n <= history.len(),
        agari[i],
        forall|j: int| 0 <= j < history.len() ==> only_actor_gains(#[trigger] history[j]),
    ensures
        refund_part(agari, huazhu, tenpai_points, history, n, i) >= 0,
    decreases n,
{
    if n > 0 {
        lemma_refund_to_winner(agari, huazhu, tenpai_points, history, n - 1, i);
        let r = history[n - 1];
        assert(only_actor_gains(r));
        if r.valid && refunds(agari, huazhu, tenpai_points, r.actor as int) {
            assert(r.actor != i);
            assert(r.deltas[i] <= 0);
        }
    }
}

/// At an exhaustive draw a player who has won and is no 花猪 loses nothing: it receives the
/// 花猪 penalties, pays no 查大叫, and at most gets kan payments back, when every kan payment
/// went to its actor only.
pub proof fn lemma_ryukyoku_winner_gains(
    agari: [bool; 4],
    huazhu: [bool; 4],
    tenpai_points: [Option<i32>; 4],
    history: Seq<GangRecord>,
    i: int,
)
    requires
        0 <= i < 4,
        agari[i],
        !huazhu[i],
        points_ok(tenpai_points),
        forall|j: int| 0 <= j < history.len() ==> only_actor_gains(#[trigger] history[j]),
    ensures
        spec_ryukyoku_delta(agari, huazhu, tenpai_points, history, i) >= 0,
{
    lemma_refund_to_winner(agari, huazhu, tenpai_points, history, history.len() as int, i);
    assert(huazhu_part(huazhu, i) >= 0);
    assert(!is_noten_at_draw(agari, huazhu, tenpai_points, i));
    assert(tenpai_value(agari, huazhu, tenpai_points, i) == 0);
    assert(chadajiao_part(agari, huazhu, tenpai_points, i) == 0);
}

/// On a well-formed hand (whose kan records come from kan payments), a player who has won and
/// is no 花猪 loses nothing at an exhaustive draw.
pub proof fn lemma_draw_winner_gains(
    s: ScoreState,
    huazhu: [bool; 4],
    tenpai_points: [Option<i32>; 4],
    i: int,
)
    requires
        s.wf(),
        0 <= i < 4,
        s.players_agari[i],
        !huazhu[i],
        points_ok(tenpai_points),
    ensures
        spec_ryukyoku_delta(s.players_agari, huazhu, tenpai_points, s.gang_history@, i) >= 0,
{
    assert forall|j: int| 0 <= j < s.gang_history@.len() implies only_actor_gains(#[trigger] s.gang_history@[j]) by {
        assert(record_ok(s.gang_history@[j]));
    }
    lemma_ryukyoku_winner_gains(s.players_agari, huazhu, tenpai_points, s.gang_history@, i);
}

/// The settlement of an exhaustive draw moves points only between players: its deltas sum
/// to zero when every kan record that still stands does.
pub proof fn lemma_ryukyoku_zero_sum(
    agari: [bool; 4],
    huazhu: [bool; 4],
    tenpai_points: [Option<i32>; 4],
    history: Seq<GangRecord>,
)
    requires
        forall|j: int| 0 <= j < history.len() ==> valid_zero_sum(#[trigger] history[j]),
    ensures
        spec_ryukyoku_delta(agari, huazhu, tenpai_points, history, 0) + spec_ryukyoku_delta(agari, huazhu, tenpai_points, history, 1)
            + spec_ryukyoku_delta(agari, huazhu, tenpai_points, history, 2) + spec_ryukyoku_delta(agari, huazhu, tenpai_points, history, 3) == 0,
{
    lemma_refund_zero_sum(agari, huazhu, tenpai_points, history, history.len() as int);
    let h = count4(huazhu);
    assert(huazhu_part(huazhu, 0) + huazhu_part(huazhu, 1) + huazhu_part(huazhu, 2) + huazhu_part(huazhu, 3) == 0) by {
        if h == 1 {
        } else if h == 2 {
        } else if h == 3 {
        }
    }
    let total = tenpai_value(agari, huazhu, tenpai_points, 0) + tenpai_value(agari, huazhu, tenpai_points, 1)
        + tenpai_value(agari, huazhu, tenpai_points, 2) + tenpai_value(agari, huazhu, tenpai_points, 3);
    let noten = (if is_noten_at_draw(agari, huazhu, tenpai_points, 0) {
        1int
    } else {
        0int
    }) + (if is_noten_at_draw(agari, huazhu, tenpai_points, 1) {
        1int
    } else {
        0int
    }) + (if is_noten_at_draw(agari, huazhu, tenpai_points, 2) {
        1int
    } else {
        0int
    }) + (if is_noten_at_draw(agari, huazhu, tenpai_points, 3) {
        1int
    } else {
        0int
    });
    assert(chadajiao_part(agari, huazhu, tenpai_points, 0) + chadajiao_part(agari, huazhu, tenpai_points, 1)
        + chadajiao_part(agari, huazhu, tenpai_points, 2) + chadajiao_part(agari, huazhu, tenpai_points, 3) == 0) by {
        assert(forall|i: int| 0 <= i < 4 && is_noten_at_draw(agari, huazhu, tenpai_points, i) ==> tenpai_value(agari, huazhu, tenpai_points, i) == 0);
        let v0 = tenpai_value(agari, huazhu, tenpai_points, 0);
        let v1 = tenpai_value(agari, huazhu, tenpai_points, 1);
        let v2 = tenpai_value(agari, huazhu, tenpai_points, 2);
        let v3 = tenpai_value(agari, huazhu, tenpai_points, 3);
        let n0: int = if is_noten_at_draw(agari, huazhu, tenpai_points, 0) { 1 } else { 0 };
        let n1: int = if is_noten_at_draw(agari, huazhu, tenpai_points, 1) { 1 } else { 0 };
        let n2: int = if is_noten_at_draw(agari, huazhu, tenpai_points, 2) { 1 } else { 0 };
        let n3: int = if is_noten_at_draw(agari, huazhu, tenpai_points, 3) { 1 } else { 0 };
        let c0 = chadajiao_part(agari, huazhu, tenpai_points, 0);
        assert(c0 == (if n0 == 1 { -total } else { v0 * noten }));
        assert(c0 == -n0 * total + v0 * noten) by (nonlinear_arith)
            requires
                c0 == (if n0 == 1 { -total } else { v0 * noten }),
                n0 == 0 || n0 == 1,
                n0 == 1 ==> v0 == 0,
        ;
        let c1 = chadajiao_part(agari, huazhu, tenpai_points, 1);
        assert(c1 == (if n1 == 1 { -total } else { v1 * noten }));
        assert(c1 == -n1 * total + v1 * noten) by (nonlinear_arith)
            requires
                c1 == (if n1 == 1 { -total } else { v1 * noten }),
                n1 == 0 || n1 == 1,
                n1 == 1 ==> v1 == 0,
        ;
        let c2 = chadajiao_part(agari, huazhu, tenpai_points, 2);
        assert(c2 == (if n2 == 1 { -total } else { v2 * noten }));
        assert(c2 == -n2 * total + v2 * noten) by (nonlinear_arith)
            requires
                c2 == (if n2 == 1 { -total } else { v2 * noten }),
                n2 == 0 || n2 == 1,
                n2 == 1 ==> v2 == 0,
        ;
        let c3 = chadajiao_part(agari, huazhu, tenpai_points, 3);
        assert(c3 == (if n3 == 1 { -total } else { v3 * noten }));
        assert(c3 == -n3 * total + v3 * noten) by (nonlinear_arith)
            requires
                c3 == (if n3 == 1 { -total } else { v3 * noten }),
                n3 == 0 || n3 == 1,
                n3 == 1 ==> v3 == 0,
        ;
        assert((-n0 * total + v0 * noten) + (-n1 * total + v1 * noten) + (-n2 * total + v2 * noten) + (-n3 * total + v3 * noten) == 0) by (nonlinear_arith)
            requires
                total == v0 + v1 + v2 + v3,
                noten == n0 + n1 + n2 + n3,
        ;
    }
}


// ---------------------------------------------------------------------------------------------
// Choosing among the seats' reactions.

/// The rank of a reaction when the board takes one: a win first, then a call (pon or open
/// kan), then any other action, passing last.
pub open spec fn reaction_rank(ev: Event) -> int {
    match ev {
        Event::Hora { .. } => 0,
        Event::Daiminkan { .. } | Event::Pon { .. } => 1,
        Event::Empty => 3,
        _ => 2,
    }
}

/// Seat `i` has not won and its reaction ranks first: no seat that has not won ranks lower,
/// and none before it ranks the same.
pub open spec fn is_picked(reactions: Seq<Event>, agari: [bool; 4], i: int) -> bool {
    &&& 0 <= i < 4
    &&& !agari[i]
    &&& forall|j: int|
        0 <= j < 4 && !agari[j] ==> reaction_rank(reactions[i]) <= #[trigger] reaction_rank(
            reactions[j],
        )
    &&& forall|j: int|
        0 <= j < i && !agari[j] ==> reaction_rank(reactions[i]) < #[trigger] reaction_rank(
            reactions[j],
        )
}

/// The seats below `n` that have not won and react with a win, in seat order.
pub open spec fn hora_seats(reactions: Seq<Event>, agari: [bool; 4], n: int) -> Seq<u8>
    decreases n,
{
    if n <= 0 {
        Seq::empty()
    } else {
        let prev = hora_seats(reactions, agari, n - 1);
        if !agari[n - 1] && reactions[n - 1] is Hora {
            prev.push((n - 1) as u8)
        } else {
            prev
        }
    }
}

/// The rank of a reaction (see `reaction_rank`).
pub fn rank_of_reaction(ev: &Event) -> (r: u8)
    ensures
        r == reaction_rank(*ev),
{
    match ev {
        Event::Hora { .. } => 0,
        Event::Daiminkan { .. } | Event::Pon { .. } => 1,
        Event::Empty => 3,
        _ => 2,
    }
}

/// The reaction the board takes: the first of lowest rank among the seats that have not won
/// (see `is_picked`), or `None` when every seat has won.
pub fn pick_reaction(reactions: &[Event; 4], agari: [bool; 4]) -> (r: Option<usize>)
    ensures
        match r {
            Some(i) => is_picked(reactions@, agari, i as int),
            None => forall|i: int| 0 <= i < 4 ==> #[trigger] agari[i],
        },
{
    let mut best: Option<usize> = None;
    let mut best_rank: u8 = 4;
    let mut i: usize = 0;
    while i < 4
        invariant
            i <= 4,
            best_rank <= 4,
            match best {
                Some(b) => b < i && !agari[b as int] && best_rank == reaction_rank(reactions@[b as int])
                    && forall|j: int|
                    0 <= j < b && !agari[j] ==> best_rank < #[trigger] reaction_rank(reactions@[j]),
                None => best_rank == 4 && forall|j: int| 0 <= j < i ==> #[trigger] agari[j],
            },
            forall|j: int| 0 <= j < i && !agari[j] ==> best_rank <= #[trigger] reaction_rank(reactions@[j]),
        decreases 4 - i,
    {
        if !agari[i] {
            let k = rank_of_reaction(&reactions[i]);
            if k < best_rank {
                best = Some(i);
                best_rank = k;
            }
        }
        i += 1;
    }
    best
}

/// The seats that have not won and react with a win, in seat order (several on one discard
/// win together).
pub fn hora_reactions(reactions: &[Event; 4], agari: [bool; 4]) -> (r: Vec<u8>)
    ensures
        r@ == hora_seats(reactions@, agari, 4),
{
    let mut out: Vec<u8> = Vec::new();
    let mut i: usize = 0;
    while i < 4
        invariant
            i <= 4,
            out@ == hora_seats(reactions@, agari, i as int),
        decreases 4 - i,
    {
        if !agari[i] {
            if let Event::Hora { .. } = reactions[i] {
                out.push(i as u8);
            }
        }
        i += 1;
    }
    out
}


/// Seat `s` is a 花猪 at an exhaustive draw: it named a void suit and still holds (in hand
/// or melds) a tile of it.
pub open spec fn is_huazhu(s: PlayerState) -> bool {
    s.ding_que is Some && spec_has_ding_que_tiles_in_hand(s.tehai, s.pons@, s.minkans@, s.ankans@, s.ding_que)
}

/// Seat `s` is waiting at an exhaustive draw: it has not won, is no 花猪, named a void suit
/// and its hand is one tile from complete.
pub open spec fn waits_at_draw(s: PlayerState, won: bool) -> bool {
    !won && !is_huazhu(s) && s.shanten == 0 && s.ding_que is Some
}

/// The slice holding `v` (slices with the same elements are equal).
pub open spec fn slice_with<'a>(v: Seq<u8>) -> &'a [u8] {
    choose|sl: &'a [u8]| sl@ == v
}

/// The least a waiting hand is worth at an exhaustive draw: the points of a 1-fan win.
pub const MIN_TENPAI_POINTS: i32 = 1000;

/// The tenpai value of a waiting seat: the best ron points of its hand (see `max_ron_points`),
/// and never less than a 1-fan win.
pub open spec fn draw_tenpai_value(s: &PlayerState) -> int {
    let best = best_ron_points(
        plain_calculator(
            &s.tehai,
            slice_with(s.pons@),
            slice_with(s.minkans@),
            slice_with(s.ankans@),
            s.ding_que,
            s.fan_config,
        ),
        (crate::grp::range_sum(s.tehai@, 0, 27) + 1) / 3,
        27,
    );
    if best < MIN_TENPAI_POINTS {
        MIN_TENPAI_POINTS as int
    } else {
        best
    }
}

/// What an exhaustive draw settles on, from the four seats (absolute seats, `won[i]` whether
/// seat `i` has won): per seat whether it is a 花猪, and the tenpai value of each seat that is
/// waiting (`None` for every other seat), at least `MIN_TENPAI_POINTS`.
pub fn draw_inputs(states: &[PlayerState; 4], won: [bool; 4]) -> (r: ([bool; 4], [Option<i32>; 4]))
    requires
        forall|i: int|
            0 <= i < 4 && waits_at_draw(#[trigger] states[i], won[i]) ==> crate::grp::range_sum(
                states[i].tehai@,
                0,
                27,
            ) <= 13,
    ensures
        forall|i: int| 0 <= i < 4 ==> #[trigger] r.0[i] == is_huazhu(states[i]),
        forall|i: int|
            0 <= i < 4 ==> #[trigger] r.1[i] == if waits_at_draw(states[i], won[i]) {
                Some(draw_tenpai_value(&states[i]) as i32)
            } else {
                None
            },
        points_ok(r.1),
        forall|i: int| 0 <= i < 4 ==> (#[trigger] r.1[i] matches Some(p) ==> p >= MIN_TENPAI_POINTS),
{
    let mut huazhu = [false; 4];
    let mut points: [Option<i32>; 4] = [None; 4];
    let mut i: usize = 0;
    while i < 4
        invariant
            i <= 4,
            forall|j: int| 0 <= j < i ==> #[trigger] huazhu[j] == is_huazhu(states[j]),
            forall|j: int|
                0 <= j < i ==> #[trigger] points[j] == if waits_at_draw(states[j], won[j]) {
                    Some(draw_tenpai_value(&states[j]) as i32)
                } else {
                    None
                },
            forall|j: int| 0 <= j < 4 ==> (#[trigger] points[j] matches Some(p) ==> MIN_TENPAI_POINTS <= p <= 16000),
            forall|j: int| i <= j < 4 ==> #[trigger] points[j] is None,
            forall|j: int|
                0 <= j < 4 && waits_at_draw(#[trigger] states[j], won[j]) ==> crate::grp::range_sum(
                    states[j].tehai@,
                    0,
                    27,
                ) <= 13,
        decreases 4 - i,
    {
        let st = &states[i];
        let hz = st.ding_que.is_some() && !st.check_ding_que_complete();
        huazhu[i] = hz;
        if !won[i] && !hz && st.shanten == 0 && st.ding_que.is_some() {
            let pons = st.pons.as_slice();
            let minkans = st.minkans.as_slice();
            let ankans = st.ankans.as_slice();
            proof {
                broadcast use vstd::slice::group_slice_axioms;

                assert(exists|sl: &[u8]| #[trigger] sl@ == st.pons@) by {
                    assert(pons@ == st.pons@);
                }
                assert(exists|sl: &[u8]| #[trigger] sl@ == st.minkans@) by {
                    assert(minkans@ == st.minkans@);
                }
                assert(exists|sl: &[u8]| #[trigger] sl@ == st.ankans@) by {
                    assert(ankans@ == st.ankans@);
                }
                assert(slice_with(st.pons@) =~= pons);
                assert(slice_with(st.minkans@) =~= minkans);
                assert(slice_with(st.ankans@) =~= ankans);
                assert(slice_with(st.pons@) == pons);
                assert(slice_with(st.minkans@) == minkans);
                assert(slice_with(st.ankans@) == ankans);
            }
            let best = max_ron_points(&st.tehai, pons, minkans, ankans, st.ding_que, st.fan_config);
            let v = if best < MIN_TENPAI_POINTS {
                MIN_TENPAI_POINTS
            } else {
                best
            };
            assert(v == draw_tenpai_value(&states[i as int]));
            points[i] = Some(v);
        }
        i += 1;
    }
    (huazhu, points)
}
} // verus!
