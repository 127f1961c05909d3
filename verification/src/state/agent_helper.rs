//! What an agent reads off a seat's state before it acts: which tiles it may discard, which
//! discards keep a winning wait, what a win would pay, and the shanten number at this moment.
use crate::agari::{spec_agari, spec_has_yaku, Agari, AgariCalculator};
use crate::ding_que::{ding_que_forced_range, spec_ding_que_forced_range};
use crate::grp::range_sum;
use crate::mjai::Suit;
use crate::shanten::{calc_with_ding_que, spec_calc_with_ding_que};
use crate::state::player_state::{PlayerState, PlayerView, lemma_melds_view, lemma_seats_view};
use crate::point::{Point, spec_base_points};
use crate::state::rules::{calculator, slice_of, tehai_plus, tehai_sum};
use crate::state::update::{
    hand_ok, hand_sum, lemma_range_mono27, lemma_range_update, lemma_slice_of,
};
use crate::tile::Tile;
use vstd::array::spec_array_update;
use vstd::prelude::*;

verus! {

broadcast use vstd::array::group_array_axioms;

/// The kinds held and not forbidden.
pub open spec fn open_discards(tehai: [u8; 27], forbidden: Seq<bool>) -> Seq<bool> {
    Seq::new(27, |i: int| tehai[i] > 0 && !forbidden[i])
}

/// Some entry is set.
pub open spec fn any_set(s: Seq<bool>) -> bool {
    exists|i: int| 0 <= i < s.len() && #[trigger] s[i]
}

/// The discard mask: while the hand holds void-suit tiles, those of them not forbidden; if
/// every one is forbidden, any held kind not forbidden; if that is none either, any held kind.
/// Without void-suit tiles, the held kinds not forbidden.
pub open spec fn spec_discard_candidates(
    tehai: [u8; 27],
    forbidden: Seq<bool>,
    ding_que: Option<Suit>,
) -> Seq<bool> {
    match spec_ding_que_forced_range(tehai, ding_que) {
        Some((start, end)) => {
            let void = Seq::new(
                27,
                |i: int| start <= i < end && tehai[i] > 0 && !forbidden[i],
            );
            if any_set(void) {
                void
            } else if any_set(open_discards(tehai, forbidden)) {
                open_discards(tehai, forbidden)
            } else {
                Seq::new(27, |i: int| tehai[i] > 0)
            }
        },
        None => open_discards(tehai, forbidden),
    }
}

/// 1 when the hand holds kind `i`, else 0.
pub open spec fn held(tehai: [u8; 27], i: int) -> int {
    if tehai[i] > 0 {
        1
    } else {
        0
    }
}

/// How many of the six terminal kinds (1 and 9 of each suit) the hand holds.
pub open spec fn spec_yaokyuu_kind_count(tehai: [u8; 27]) -> int {
    held(tehai, 0) + held(tehai, 8) + held(tehai, 9) + held(tehai, 17) + held(tehai, 18) + held(
        tehai,
        26,
    )
}

/// The shanten number right now: at 3n+1 the stored one; at 3n+2 one less when some discard
/// lowers it; tenpai after a draw, -1 when the drawn tile is a wait and 0 otherwise; tenpai
/// after a pon, the shanten number of the hand itself.
pub open spec fn spec_real_time_shanten(v: PlayerView) -> int {
    if !v.last_cans.can_discard {
        v.shanten as int
    } else if v.shanten > 0 {
        if v.has_next_shanten_discard {
            v.shanten - 1
        } else {
            v.shanten as int
        }
    } else {
        match v.last_self_tsumo {
            Some(t) => if v.waits[t@ as int] {
                -1
            } else {
                0
            },
            None => spec_calc_with_ding_que(v.tehai@, tehai_sum(v) / 3, v.ding_que),
        }
    }
}

/// What `real_time_shanten` needs of the state where it reads the hand: a known drawn tile, or
/// a hand of at most fourteen tiles with at most four of a kind.
pub open spec fn real_time_shanten_ok(v: PlayerView) -> bool {
    v.last_cans.can_discard && v.shanten <= 0 ==> match v.last_self_tsumo {
        Some(t) => t@ < 27,
        None => hand_ok(v),
    }
}

/// The hand after discarding one tile of kind `d` and drawing one of kind `t`.
pub open spec fn swapped(tehai: [u8; 27], d: int, t: int) -> [u8; 27] {
    let h1 = spec_array_update(tehai, d, (tehai[d] - 1) as u8);
    spec_array_update(h1, t, (h1[t] + 1) as u8)
}

/// After discarding kind `d`, a draw of kind `t` (not `d`, with a copy left outside the hand
/// and not all four seen) completes a hand of 14 tiles counting melds, and that hand, taken as
/// a ron on `t`, wins.
pub open spec fn tenpai_draw(v: PlayerView, d: int, t: int) -> bool {
    let h2 = swapped(v.tehai, d, t);
    let s2 = range_sum(h2@, 0, 27);
    &&& 0 <= t < 27
    &&& t != d
    &&& v.tehai[t] != 4
    &&& spec_calc_with_ding_que(h2@, s2 / 3, v.ding_que) <= -1
    &&& v.tiles_seen[t] != 4
    &&& s2 == 14 - 3 * (v.pons.len() + v.minkans.len() + v.ankans.len())
    &&& spec_has_yaku(calculator(v, &h2, t as u8, true, false, false, false, false))
}

/// Discarding kind `d` leaves a hand with some winning draw (see `tenpai_draw`).
pub open spec fn tenpai_discard(v: PlayerView, d: int) -> bool {
    exists|t: int| #[trigger] tenpai_draw(v, d, t)
}

/// Nothing is looked for: no tile is left, or no discard can reach tenpai.
pub open spec fn no_tenpai_search(v: PlayerView) -> bool {
    v.tiles_left == 0 || v.shanten > 1 || (v.shanten == 1 && !v.has_next_shanten_discard)
}

/// The discards that the search tries: those lowering the shanten number at 1-shanten, those
/// keeping it otherwise.
pub open spec fn tried_discards(v: PlayerView) -> Seq<bool> {
    if v.shanten == 1 {
        v.next_shanten_discards
    } else {
        v.keep_shanten_discards
    }
}

/// The search over discards and draws runs (see `spec_unconditional_tenpai`).
pub open spec fn tenpai_search(v: PlayerView) -> bool {
    &&& !no_tenpai_search(v)
    &&& !(v.shanten == 0 && v.last_self_tsumo is Some)
    &&& !(v.shanten == 0 && spec_calc_with_ding_que(v.tehai@, tehai_sum(v) / 3, v.ding_que) == -1)
}

/// The discards after which the hand waits on a win that needs no incidental yaku. None when
/// nothing is looked for, or when the hand already wins (at 0-shanten after a draw on a wait,
/// or after a pon). At 0-shanten after any other draw, just the drawn tile. Otherwise each
/// tried discard not forbidden that leaves some winning draw.
pub open spec fn spec_unconditional_tenpai(v: PlayerView) -> Seq<bool> {
    let none = Seq::new(27, |i: int| false);
    if no_tenpai_search(v) {
        none
    } else if v.shanten == 0 && v.last_self_tsumo is Some {
        let w = v.last_self_tsumo.unwrap()@ as int;
        if v.waits[w] {
            none
        } else {
            none.update(w, true)
        }
    } else if !tenpai_search(v) {
        none
    } else {
        Seq::new(
            27,
            |d: int| tried_discards(v)[d] && !v.forbidden_tiles[d] && tenpai_discard(v, d),
        )
    }
}

/// What `discard_candidates_with_unconditional_tenpai` needs of the state where it reads it: a
/// known drawn tile, a hand of at most fourteen tiles with at most four of a kind, at most
/// four melds, and a tile of each kind it tries to discard.
pub open spec fn unconditional_tenpai_ok(v: PlayerView) -> bool {
    &&& !no_tenpai_search(v) && v.shanten == 0 ==> match v.last_self_tsumo {
        Some(t) => t@ < 27,
        None => hand_ok(v),
    }
    &&& tenpai_search(v) ==> {
        &&& hand_ok(v)
        &&& v.pons.len() + v.minkans.len() + v.ankans.len() <= 4
        &&& forall|d: int|
            0 <= d < 27 && tried_discards(v)[d] && !v.forbidden_tiles[d] ==> #[trigger] v.tehai[d]
                >= 1
    }
}

/// Why a win cannot be scored.
#[derive(Debug, Clone, Copy, PartialEq, Eq, Structural)]
pub enum AgariError {
    /// The state allows no such win.
    CannotAgari { is_ron: bool, can_ron: bool, can_tsumo: bool },
    /// No winning tile is recorded.
    NoWinningTile,
    /// The concealed tiles do not number fourteen less three per meld.
    TehaiTotal { expected: u8, fuuro_count: u8, got: u8, is_ron: bool },
    /// The hand does not win.
    NotHora,
}

/// The state allows a ron (or a self-drawn win).
pub open spec fn win_allowed(v: PlayerView, is_ron: bool) -> bool {
    if is_ron {
        v.last_cans.can_ron_agari
    } else {
        v.last_cans.can_tsumo_agari
    }
}

/// The tile won on: the last discard for a ron, the last draw otherwise.
pub open spec fn winning_tile(v: PlayerView, is_ron: bool) -> Option<Tile> {
    if is_ron {
        v.last_kawa_tile
    } else {
        v.last_self_tsumo
    }
}

/// The concealed tiles of the win: the hand plus the discard for a ron, the hand for a
/// self-drawn win.
pub open spec fn win_hand(v: PlayerView, is_ron: bool, w: Tile) -> [u8; 27] {
    if is_ron {
        tehai_plus(v, w@ as int, 1)
    } else {
        v.tehai
    }
}

/// The win on `w`: a self-drawn win on the replacement tile counts as after a kan, a ron
/// while a kakan is open as a robbed kan, any other ron on a discard made after a kan as a kan
/// discard; `exclude` does not count as a root.
pub open spec fn win_fan(
    v: PlayerView,
    is_ron: bool,
    w: Tile,
    exclude: Option<u8>,
    is_haidi: bool,
    is_tianhu: bool,
    is_dihu: bool,
) -> Option<Agari> {
    let chankan = is_ron && v.chankan_chance;
    spec_agari(
        AgariCalculator {
            tehai: &win_hand(v, is_ron, w),
            pons: slice_of(v.pons),
            minkans: slice_of(v.minkans),
            ankans: slice_of(v.ankans),
            winning_tile: w@,
            is_ron,
            ding_que: v.ding_que,
            is_after_kan: !is_ron && v.at_rinshan,
            is_kan_discard: is_ron && v.last_discard_was_after_kan && !chankan,
            is_chankan: chankan,
            exclude_gen_tile: exclude,
            is_haidi,
            is_tianhu,
            is_dihu,
            fan_config: v.fan_config,
        },
    )
}

/// The fan of the win the state allows, or why there is none.
pub open spec fn spec_agari_points(
    v: PlayerView,
    is_ron: bool,
    is_haidi: bool,
    is_tianhu: bool,
    is_dihu: bool,
) -> Result<u8, AgariError> {
    if !win_allowed(v, is_ron) {
        Err(
            AgariError::CannotAgari {
                is_ron,
                can_ron: v.last_cans.can_ron_agari,
                can_tsumo: v.last_cans.can_tsumo_agari,
            },
        )
    } else {
        match winning_tile(v, is_ron) {
            None => Err(AgariError::NoWinningTile),
            Some(w) => match win_fan(v, is_ron, w, None, is_haidi, is_tianhu, is_dihu) {
                Some(Agari::Fan(f)) => Ok(f),
                None => Err(AgariError::NotHora),
            },
        }
    }
}

/// Open and concealed melds.
pub open spec fn fuuro_count(v: PlayerView) -> int {
    (v.pons.len() + v.minkans.len() + v.ankans.len()) as int
}

/// Fourteen less three per meld, at least 0.
pub open spec fn expected_total(v: PlayerView) -> int {
    if 3 * fuuro_count(v) >= 14 {
        0
    } else {
        14 - 3 * fuuro_count(v)
    }
}

/// As `spec_agari_points` with `exclude_tile` not counted as a root and neither a heavenly nor
/// an earthly win, after checking that the concealed tiles of the win number
/// `expected_total`.
pub open spec fn spec_agari_points_exclude_gen(
    v: PlayerView,
    is_ron: bool,
    exclude_tile: u8,
    is_haidi: bool,
) -> Result<u8, AgariError> {
    if !win_allowed(v, is_ron) {
        Err(
            AgariError::CannotAgari {
                is_ron,
                can_ron: v.last_cans.can_ron_agari,
                can_tsumo: v.last_cans.can_tsumo_agari,
            },
        )
    } else {
        match winning_tile(v, is_ron) {
            None => Err(AgariError::NoWinningTile),
            Some(w) => {
                let got = range_sum(win_hand(v, is_ron, w)@, 0, 27);
                if got != expected_total(v) {
                    Err(
                        AgariError::TehaiTotal {
                            expected: expected_total(v) as u8,
                            fuuro_count: fuuro_count(v) as u8,
                            got: got as u8,
                            is_ron,
                        },
                    )
                } else {
                    match win_fan(v, is_ron, w, Some(exclude_tile), is_haidi, false, false) {
                        Some(Agari::Fan(f)) => Ok(f),
                        None => Err(AgariError::NotHora),
                    }
                }
            },
        }
    }
}

/// What the win scoring needs of the state where it reads it: for a ron, a known discard that
/// the hand holds fewer than 255 of.
pub open spec fn agari_points_ok(v: PlayerView, is_ron: bool) -> bool {
    win_allowed(v, is_ron) && is_ron ==> match v.last_kawa_tile {
        Some(w) => w@ < 27 && v.tehai[w@ as int] < 255,
        None => true,
    }
}

/// Besides `agari_points_ok`: at most 85 melds, and at most 255 concealed tiles in the win.
pub open spec fn agari_points_exclude_gen_ok(v: PlayerView, is_ron: bool) -> bool {
    &&& agari_points_ok(v, is_ron)
    &&& win_allowed(v, is_ron) ==> match winning_tile(v, is_ron) {
        Some(w) => fuuro_count(v) <= 85 && range_sum(win_hand(v, is_ron, w)@, 0, 27) <= 255,
        None => true,
    }
}

/// What the scoring returns for its outcome: the points of the fan, or the error.
pub open spec fn points_of(outcome: Result<u8, AgariError>, r: Result<Point, AgariError>) -> bool {
    match outcome {
        Ok(f) => r matches Ok(p) && p.ron == spec_base_points(f) && p.tsumo_ko == spec_base_points(f),
        Err(e) => r == Err::<Point, AgariError>(e),
    }
}

/// Sums the counts of a hand of at most 255 tiles.
fn tile_total(h: &[u8; 27]) -> (r: u8)
    requires
        range_sum(h@, 0, 27) <= 255,
    ensures
        r == range_sum(h@, 0, 27),
{
    let mut sum: u8 = 0;
    let mut i: usize = 0;
    while i < 27
        invariant
            i <= 27,
            range_sum(h@, 0, 27) <= 255,
            sum == range_sum(h@, 0, i as int),
        decreases 27 - i,
    {
        proof {
            lemma_range_mono27(h@, i + 1);
        }
        sum = sum + h[i];
        i += 1;
    }
    sum
}

/// How many tiles of `s` are of kind `t`.
pub open spec fn kind_count(s: Seq<Tile>, t: int) -> int
    decreases s.len(),
{
    if s.len() == 0 {
        0
    } else {
        kind_count(s.drop_last(), t) + if s.last()@ == t {
            1int
        } else {
            0int
        }
    }
}

/// How many tiles of kind `t` the lists of `p` hold together.
pub open spec fn lists_count(p: Seq<Seq<Tile>>, t: int) -> int
    decreases p.len(),
{
    if p.len() == 0 {
        0
    } else {
        lists_count(p.drop_last(), t) + kind_count(p.last(), t)
    }
}

/// How many tiles of kind `t` a meld holds besides its first.
pub open spec fn tail_count(m: Seq<Tile>, t: int) -> int {
    if m.len() == 0 {
        0
    } else {
        kind_count(m.subrange(1, m.len() as int), t)
    }
}

/// How many tiles of kind `t` the melds `ms` hold besides their first tiles.
pub open spec fn melds_count(ms: Seq<Seq<Tile>>, t: int) -> int
    decreases ms.len(),
{
    if ms.len() == 0 {
        0
    } else {
        melds_count(ms.drop_last(), t) + tail_count(ms.last(), t)
    }
}

/// Over every seat's melds (see `melds_count`).
pub open spec fn seats_melds_count(ss: Seq<Seq<Seq<Tile>>>, t: int) -> int
    decreases ss.len(),
{
    if ss.len() == 0 {
        0
    } else {
        seats_melds_count(ss.drop_last(), t) + melds_count(ss.last(), t)
    }
}

/// `x` raised by `k` sightings, each capped at four.
pub open spec fn raised(x: int, k: int) -> int {
    if k <= 0 {
        x
    } else if x + k >= 4 {
        4
    } else {
        x + k
    }
}

/// What the seat knows is out of the wall, by kind: its own hand raised by every discard and
/// every called meld tile but one per meld (that one is among the discards), capped at four;
/// four of any kind some seat has a concealed kan of.
pub open spec fn spec_partial_global_tiles_seen(v: PlayerView) -> Seq<u8> {
    Seq::new(
        27,
        |t: int| if lists_count(v.ankan_overview, t) > 0 {
            4u8
        } else {
            raised(
                v.tehai[t] as int,
                lists_count(v.kawa_overview, t) + seats_melds_count(v.fuuro_overview, t),
            ) as u8
        },
    )
}

/// Every tile the discards, melds and concealed kans show is a real tile.
pub open spec fn overviews_known(v: PlayerView) -> bool {
    &&& forall|r: int, i: int|
        0 <= r < 4 && 0 <= i < v.kawa_overview[r].len() ==> #[trigger] v.kawa_overview[r][i]@ < 27
    &&& forall|r: int, j: int, i: int|
        0 <= r < 4 && 0 <= j < v.fuuro_overview[r].len() && 0 <= i < v.fuuro_overview[r][j].len()
            ==> #[trigger] v.fuuro_overview[r][j][i]@ < 27
    &&& forall|r: int, i: int|
        0 <= r < 4 && 0 <= i < v.ankan_overview[r].len() ==> #[trigger] v.ankan_overview[r][i]@ < 27
}

proof fn lemma_kind_count_step(s: Seq<Tile>, i: int, t: int)
    requires
        0 <= i < s.len(),
    ensures
        kind_count(s.take(i + 1), t) == kind_count(s.take(i), t) + if s[i]@ == t {
            1int
        } else {
            0int
        },
{
    assert(s.take(i + 1).drop_last() =~= s.take(i));
}

proof fn lemma_tail_count_step(m: Seq<Tile>, i: int, t: int)
    requires
        1 <= i < m.len(),
    ensures
        kind_count(m.subrange(1, i + 1), t) == kind_count(m.subrange(1, i), t) + if m[i]@ == t {
            1int
        } else {
            0int
        },
{
    assert(m.subrange(1, i + 1).drop_last() =~= m.subrange(1, i));
}

proof fn lemma_lists_count_step(p: Seq<Seq<Tile>>, r: int, t: int)
    requires
        0 <= r < p.len(),
    ensures
        lists_count(p.take(r + 1), t) == lists_count(p.take(r), t) + kind_count(p[r], t),
{
    assert(p.take(r + 1).drop_last() =~= p.take(r));
}

proof fn lemma_melds_count_step(ms: Seq<Seq<Tile>>, j: int, t: int)
    requires
        0 <= j < ms.len(),
    ensures
        melds_count(ms.take(j + 1), t) == melds_count(ms.take(j), t) + tail_count(ms[j], t),
{
    assert(ms.take(j + 1).drop_last() =~= ms.take(j));
}

proof fn lemma_seats_melds_count_step(ss: Seq<Seq<Seq<Tile>>>, r: int, t: int)
    requires
        0 <= r < ss.len(),
    ensures
        seats_melds_count(ss.take(r + 1), t) == seats_melds_count(ss.take(r), t) + melds_count(
            ss[r],
            t,
        ),
{
    assert(ss.take(r + 1).drop_last() =~= ss.take(r));
}

proof fn lemma_kind_count_nonneg(s: Seq<Tile>, t: int)
    ensures
        0 <= kind_count(s, t),
    decreases s.len(),
{
    if s.len() > 0 {
        lemma_kind_count_nonneg(s.drop_last(), t);
    }
}

proof fn lemma_lists_count_nonneg(p: Seq<Seq<Tile>>, t: int)
    ensures
        0 <= lists_count(p, t),
    decreases p.len(),
{
    if p.len() > 0 {
        lemma_lists_count_nonneg(p.drop_last(), t);
        lemma_kind_count_nonneg(p.last(), t);
    }
}

proof fn lemma_melds_count_nonneg(ms: Seq<Seq<Tile>>, t: int)
    ensures
        0 <= melds_count(ms, t),
    decreases ms.len(),
{
    if ms.len() > 0 {
        lemma_melds_count_nonneg(ms.drop_last(), t);
        let m = ms.last();
        if m.len() > 0 {
            lemma_kind_count_nonneg(m.subrange(1, m.len() as int), t);
        }
    }
}

proof fn lemma_seats_melds_count_nonneg(ss: Seq<Seq<Seq<Tile>>>, t: int)
    ensures
        0 <= seats_melds_count(ss, t),
    decreases ss.len(),
{
    if ss.len() > 0 {
        lemma_seats_melds_count_nonneg(ss.drop_last(), t);
        lemma_melds_count_nonneg(ss.last(), t);
    }
}

/// The mask marks only held kinds; while the void-suit rule binds it is never empty (the hand
/// holds a void-suit tile).
proof fn lemma_discard_candidates_held(tehai: [u8; 27], forbidden: Seq<bool>, ding_que: Option<Suit>)
    ensures
        spec_discard_candidates(tehai, forbidden, ding_que).len() == 27,
        forall|t: int|
            0 <= t < 27 && #[trigger] spec_discard_candidates(tehai, forbidden, ding_que)[t]
                ==> tehai[t] > 0,
        spec_ding_que_forced_range(tehai, ding_que) is Some ==> any_set(
            spec_discard_candidates(tehai, forbidden, ding_que),
        ),
{
    if let Some((start, end)) = spec_ding_que_forced_range(tehai, ding_que) {
        let s = ding_que->0;
        let w = choose|i: int|
            9 * crate::ding_que::spec_suit_id(s) <= i < 9 * crate::ding_que::spec_suit_id(s) + 9
                && #[trigger] tehai[i] > 0;
        let all_held = Seq::new(27, |i: int| tehai[i] > 0);
        assert(all_held[w]);
    }
}

impl PlayerState {
    /// The counts raised by every discard (see `spec_partial_global_tiles_seen`).
    fn raise_by_discards(&self, out: &mut [u8; 27])
        requires
            overviews_known(self@),
            forall|t: int| 0 <= t < 27 ==> #[trigger] old(out)[t] == self.tehai[t],
        ensures
            forall|t: int|
                0 <= t < 27 ==> #[trigger] final(out)[t] == raised(
                    self.tehai[t] as int,
                    lists_count(self@.kawa_overview, t),
                ),
    {
        let ghost k = self@.kawa_overview;
        proof {
            lemma_seats_view(self.kawa_overview);
        }
        let mut r: usize = 0;
        while r < 4
            invariant
                r <= 4,
                k == self@.kawa_overview,
                k.len() == 4,
                forall|q: int| 0 <= q < 4 ==> #[trigger] k[q] == self.kawa_overview[q]@,
                overviews_known(self@),
                forall|t: int|
                    0 <= t < 27 ==> #[trigger] out[t] == raised(
                        self.tehai[t] as int,
                        lists_count(k.take(r as int), t),
                    ),
            decreases 4 - r,
        {
            let mut i: usize = 0;
            while i < self.kawa_overview[r].len()
                invariant
                    r < 4,
                    i <= self.kawa_overview[r as int]@.len(),
                    k == self@.kawa_overview,
                    k.len() == 4,
                    forall|q: int| 0 <= q < 4 ==> #[trigger] k[q] == self.kawa_overview[q]@,
                    overviews_known(self@),
                    forall|t: int|
                        0 <= t < 27 ==> #[trigger] out[t] == raised(
                            self.tehai[t] as int,
                            lists_count(k.take(r as int), t) + kind_count(k[r as int].take(i as int), t),
                        ),
                decreases self.kawa_overview[r as int]@.len() - i,
            {
                proof {
                    assert(k[r as int][i as int] == self.kawa_overview[r as int]@[i as int]);
                    assert(k[r as int][i as int]@ < 27);
                }
                let tid = self.kawa_overview[r][i].as_usize();
                let ghost before = *out;
                out[tid] = if out[tid] >= 4 {
                    4
                } else {
                    out[tid] + 1
                };
                proof {
                    assert forall|t: int| 0 <= t < 27 implies #[trigger] out[t] == raised(
                        self.tehai[t] as int,
                        lists_count(k.take(r as int), t) + kind_count(k[r as int].take(i + 1), t),
                    ) by {
                        lemma_kind_count_step(k[r as int], i as int, t);
                        lemma_lists_count_nonneg(k.take(r as int), t);
                        lemma_kind_count_nonneg(k[r as int].take(i as int), t);
                        assert(before[t] == raised(
                            self.tehai[t] as int,
                            lists_count(k.take(r as int), t) + kind_count(k[r as int].take(i as int), t),
                        ));
                    }
                }
                i += 1;
            }
            proof {
                assert(k[r as int].take(i as int) =~= k[r as int]);
                assert forall|t: int| 0 <= t < 27 implies #[trigger] out[t] == raised(
                    self.tehai[t] as int,
                    lists_count(k.take(r + 1), t),
                ) by {
                    lemma_lists_count_step(k, r as int, t);
                }
            }
            r += 1;
        }
        proof {
            assert(k.take(4) =~= k);
        }
    }

    /// The counts raised by every called meld tile but the first of each meld.
    fn raise_by_melds(&self, out: &mut [u8; 27])
        requires
            overviews_known(self@),
            forall|t: int|
                0 <= t < 27 ==> #[trigger] old(out)[t] == raised(
                    self.tehai[t] as int,
                    lists_count(self@.kawa_overview, t),
                ),
        ensures
            forall|t: int|
                0 <= t < 27 ==> #[trigger] final(out)[t] == raised(
                    self.tehai[t] as int,
                    lists_count(self@.kawa_overview, t) + seats_melds_count(self@.fuuro_overview, t),
                ),
    {
        let ghost k = self@.kawa_overview;
        let ghost f = self@.fuuro_overview;
        proof {
            lemma_melds_view(self.fuuro_overview);
        }
        let mut r: usize = 0;
        while r < 4
            invariant
                r <= 4,
                k == self@.kawa_overview,
                f == self@.fuuro_overview,
                f.len() == 4,
                forall|q: int| 0 <= q < 4 ==> #[trigger] f[q].len() == self.fuuro_overview[q]@.len(),
                forall|q: int, j: int|
                    0 <= q < 4 && 0 <= j < self.fuuro_overview[q]@.len() ==> #[trigger] f[q][j]
                        == self.fuuro_overview[q]@[j]@,
                overviews_known(self@),
                forall|t: int|
                    0 <= t < 27 ==> #[trigger] out[t] == raised(
                        self.tehai[t] as int,
                        lists_count(k, t) + seats_melds_count(f.take(r as int), t),
                    ),
            decreases 4 - r,
        {
            let mut j: usize = 0;
            while j < self.fuuro_overview[r].len()
                invariant
                    r < 4,
                    j <= self.fuuro_overview[r as int]@.len(),
                    k == self@.kawa_overview,
                    f == self@.fuuro_overview,
                    f.len() == 4,
                    forall|q: int| 0 <= q < 4 ==> #[trigger] f[q].len() == self.fuuro_overview[q]@.len(),
                    forall|q: int, jj: int|
                        0 <= q < 4 && 0 <= jj < self.fuuro_overview[q]@.len() ==> #[trigger] f[q][jj]
                            == self.fuuro_overview[q]@[jj]@,
                    overviews_known(self@),
                    forall|t: int|
                        0 <= t < 27 ==> #[trigger] out[t] == raised(
                            self.tehai[t] as int,
                            lists_count(k, t) + seats_melds_count(f.take(r as int), t) + melds_count(
                                f[r as int].take(j as int),
                                t,
                            ),
                        ),
                decreases self.fuuro_overview[r as int]@.len() - j,
            {
                let ghost m = f[r as int][j as int];
                let n = self.fuuro_overview[r][j].len();
                if n > 0 {
                    let mut i: usize = 1;
                    while i < n
                        invariant
                            r < 4,
                            j < self.fuuro_overview[r as int]@.len(),
                            1 <= i <= n,
                            n == m.len(),
                            f.len() == 4,
                            f[r as int].len() == self.fuuro_overview[r as int]@.len(),
                            m == f[r as int][j as int],
                            m == self.fuuro_overview[r as int]@[j as int]@,
                            k == self@.kawa_overview,
                            f == self@.fuuro_overview,
                            overviews_known(self@),
                            forall|t: int|
                                0 <= t < 27 ==> #[trigger] out[t] == raised(
                                    self.tehai[t] as int,
                                    lists_count(k, t) + seats_melds_count(f.take(r as int), t)
                                        + melds_count(f[r as int].take(j as int), t) + kind_count(
                                        m.subrange(1, i as int),
                                        t,
                                    ),
                                ),
                        decreases n - i,
                    {
                        proof {
                            assert(self@.fuuro_overview[r as int][j as int][i as int]@ < 27);
                            assert(m[i as int]@ < 27);
                        }
                        let tid = self.fuuro_overview[r][j][i].as_usize();
                        let ghost before = *out;
                        out[tid] = if out[tid] >= 4 {
                            4
                        } else {
                            out[tid] + 1
                        };
                        proof {
                            assert forall|t: int| 0 <= t < 27 implies #[trigger] out[t] == raised(
                                self.tehai[t] as int,
                                lists_count(k, t) + seats_melds_count(f.take(r as int), t)
                                    + melds_count(f[r as int].take(j as int), t) + kind_count(
                                    m.subrange(1, i + 1),
                                    t,
                                ),
                            ) by {
                                lemma_tail_count_step(m, i as int, t);
                                lemma_lists_count_nonneg(k, t);
                                lemma_seats_melds_count_nonneg(f.take(r as int), t);
                                lemma_melds_count_nonneg(f[r as int].take(j as int), t);
                                lemma_kind_count_nonneg(m.subrange(1, i as int), t);
                                assert(before[t] == raised(
                                    self.tehai[t] as int,
                                    lists_count(k, t) + seats_melds_count(f.take(r as int), t)
                                        + melds_count(f[r as int].take(j as int), t) + kind_count(
                                        m.subrange(1, i as int),
                                        t,
                                    ),
                                ));
                            }
                        }
                        i += 1;
                    }
                }
                proof {
                    assert forall|t: int| 0 <= t < 27 implies #[trigger] out[t] == raised(
                        self.tehai[t] as int,
                        lists_count(k, t) + seats_melds_count(f.take(r as int), t) + melds_count(
                            f[r as int].take(j + 1),
                            t,
                        ),
                    ) by {
                        lemma_melds_count_step(f[r as int], j as int, t);
                        if n > 0 {
                            assert(m.subrange(1, n as int) == m.subrange(1, m.len() as int));
                        }
                    }
                }
                j += 1;
            }
            proof {
                assert(f[r as int].take(j as int) =~= f[r as int]);
                assert forall|t: int| 0 <= t < 27 implies #[trigger] out[t] == raised(
                    self.tehai[t] as int,
                    lists_count(k, t) + seats_melds_count(f.take(r + 1), t),
                ) by {
                    lemma_seats_melds_count_step(f, r as int, t);
                }
            }
            r += 1;
        }
        proof {
            assert(f.take(4) =~= f);
        }
    }

    /// Four of every kind some seat has a concealed kan of.
    fn mark_ankans(&self, out: &mut [u8; 27])
        requires
            overviews_known(self@),
        ensures
            forall|t: int|
                0 <= t < 27 ==> #[trigger] final(out)[t] == if lists_count(self@.ankan_overview, t) > 0 {
                    4u8
                } else {
                    old(out)[t]
                },
    {
        let ghost a = self@.ankan_overview;
        let ghost start = *out;
        proof {
            lemma_seats_view(self.ankan_overview);
        }
        let mut r: usize = 0;
        while r < 4
            invariant
                r <= 4,
                a == self@.ankan_overview,
                a.len() == 4,
                forall|q: int| 0 <= q < 4 ==> #[trigger] a[q] == self.ankan_overview[q]@,
                overviews_known(self@),
                forall|t: int|
                    0 <= t < 27 ==> #[trigger] out[t] == if lists_count(a.take(r as int), t) > 0 {
                        4u8
                    } else {
                        start[t]
                    },
            decreases 4 - r,
        {
            let mut i: usize = 0;
            while i < self.ankan_overview[r].len()
                invariant
                    r < 4,
                    i <= self.ankan_overview[r as int]@.len(),
                    a == self@.ankan_overview,
                    a.len() == 4,
                    forall|q: int| 0 <= q < 4 ==> #[trigger] a[q] == self.ankan_overview[q]@,
                    overviews_known(self@),
                    forall|t: int|
                        0 <= t < 27 ==> #[trigger] out[t] == if lists_count(a.take(r as int), t)
                            + kind_count(a[r as int].take(i as int), t) > 0 {
                            4u8
                        } else {
                            start[t]
                        },
                decreases self.ankan_overview[r as int]@.len() - i,
            {
                proof {
                    assert(a[r as int][i as int] == self.ankan_overview[r as int]@[i as int]);
                    assert(a[r as int][i as int]@ < 27);
                }
                let tid = self.ankan_overview[r][i].as_usize();
                out[tid] = 4;
                proof {
                    assert forall|t: int| 0 <= t < 27 implies #[trigger] out[t] == if lists_count(
                        a.take(r as int),
                        t,
                    ) + kind_count(a[r as int].take(i + 1), t) > 0 {
                        4u8
                    } else {
                        start[t]
                    } by {
                        lemma_kind_count_step(a[r as int], i as int, t);
                        lemma_lists_count_nonneg(a.take(r as int), t);
                        lemma_kind_count_nonneg(a[r as int].take(i as int), t);
                    }
                }
                i += 1;
            }
            proof {
                assert(a[r as int].take(i as int) =~= a[r as int]);
                assert forall|t: int| 0 <= t < 27 implies #[trigger] out[t] == if lists_count(
                    a.take(r + 1),
                    t,
                ) > 0 {
                    4u8
                } else {
                    start[t]
                } by {
                    lemma_lists_count_step(a, r as int, t);
                }
            }
            r += 1;
        }
        proof {
            assert(a.take(4) =~= a);
        }
    }

    /// What this seat knows is out of the wall, by kind (see `spec_partial_global_tiles_seen`):
    /// the other seats' concealed tiles are not known to it.
    pub fn compute_partial_global_tiles_seen(&self) -> (r: [u8; 27])
        requires
            overviews_known(self@),
        ensures
            r@ == spec_partial_global_tiles_seen(self@),
    {
        let mut out = self.tehai;
        self.raise_by_discards(&mut out);
        self.raise_by_melds(&mut out);
        self.mark_ankans(&mut out);
        proof {
            assert forall|t: int| 0 <= t < 27 implies out@[t] == spec_partial_global_tiles_seen(
                self@,
            )[t] by {
                lemma_lists_count_nonneg(self@.kawa_overview, t);
                lemma_seats_melds_count_nonneg(self@.fuuro_overview, t);
            }
            assert(out@ =~= spec_partial_global_tiles_seen(self@));
        }
        out
    }

    /// The kans this seat has made, open and concealed.
    pub fn kans_count(&self) -> (r: usize)
        requires
            self.minkans@.len() + self.ankans@.len() <= usize::MAX,
        ensures
            r == self.minkans@.len() + self.ankans@.len(),
    {
        self.minkans.len() + self.ankans.len()
    }

    /// Which kinds may be discarded now (see `spec_discard_candidates`); only at 3n+2.
    pub fn discard_candidates(&self) -> (r: [bool; 27])
        requires
            self.last_cans.can_discard,
        ensures
            r@ == spec_discard_candidates(self.tehai, self.forbidden_tiles@, self.ding_que),
            forall|t: int| 0 <= t < 27 && #[trigger] r@[t] ==> self.tehai[t] > 0,
            spec_ding_que_forced_range(self.tehai, self.ding_que) is Some ==> any_set(r@),
    {
        let ghost tehai = self.tehai;
        let ghost forbidden = self.forbidden_tiles@;
        proof {
            lemma_discard_candidates_held(tehai, forbidden, self.ding_que);
        }
        let mut ret = [false; 27];
        if let Some((start, end)) = ding_que_forced_range(&self.tehai, self.ding_que) {
            let ghost void = Seq::new(
                27,
                |i: int| start <= i < end && tehai[i] > 0 && !forbidden[i],
            );
            assert(start <= end <= 27);
            let mut any = false;
            let mut i: usize = 0;
            while i < 27
                invariant
                    i <= 27,
                    tehai == self.tehai,
                    forbidden == self.forbidden_tiles@,
                    void == Seq::new(
                        27,
                        |j: int| start <= j < end && tehai[j] > 0 && !forbidden[j],
                    ),
                    forall|j: int| 0 <= j < i ==> ret[j] == void[j],
                    forall|j: int| i <= j < 27 ==> !ret[j],
                    any == (exists|j: int| 0 <= j < i && #[trigger] void[j]),
                decreases 27 - i,
            {
                if start <= i && i < end && self.tehai[i] > 0 && !self.forbidden_tiles[i] {
                    ret[i] = true;
                    any = true;
                }
                assert(ret[i as int] == void[i as int]);
                i += 1;
            }
            assert(ret@ =~= void);
            if !any {
                let ghost open = open_discards(tehai, forbidden);
                let mut any_open = false;
                let mut k: usize = 0;
                while k < 27
                    invariant
                        k <= 27,
                        tehai == self.tehai,
                        forbidden == self.forbidden_tiles@,
                        open == open_discards(tehai, forbidden),
                        forall|j: int| 0 <= j < k ==> ret[j] == open[j],
                        forall|j: int| k <= j < 27 ==> !ret[j],
                        any_open == (exists|j: int| 0 <= j < k && #[trigger] open[j]),
                    decreases 27 - k,
                {
                    if self.tehai[k] > 0 {
                        ret[k] = !self.forbidden_tiles[k];
                        any_open = any_open || ret[k];
                    }
                    assert(ret[k as int] == open[k as int]);
                    k += 1;
                }
                assert(ret@ =~= open);
                if !any_open {
                    let mut m: usize = 0;
                    while m < 27
                        invariant
                            m <= 27,
                            tehai == self.tehai,
                            forall|j: int| 0 <= j < m ==> ret[j] == (tehai[j] > 0),
                            forall|j: int| m <= j < 27 ==> !ret[j],
                        decreases 27 - m,
                    {
                        if self.tehai[m] > 0 {
                            ret[m] = true;
                        }
                        m += 1;
                    }
                    assert(ret@ =~= Seq::new(27, |j: int| tehai[j] > 0));
                }
            }
            return ret;
        }
        let mut i: usize = 0;
        while i < 27
            invariant
                i <= 27,
                tehai == self.tehai,
                forbidden == self.forbidden_tiles@,
                forall|j: int| 0 <= j < i ==> ret[j] == open_discards(tehai, forbidden)[j],
                forall|j: int| i <= j < 27 ==> !ret[j],
            decreases 27 - i,
        {
            if self.tehai[i] > 0 {
                ret[i] = !self.forbidden_tiles[i];
            }
            i += 1;
        }
        assert(ret@ =~= open_discards(tehai, forbidden));
        ret
    }

    /// Whether discarding kind `d` leaves some winning draw (see `tenpai_discard`).
    fn tenpai_after_discard(&self, d: usize, expected: u8) -> (r: bool)
        requires
            d < 27,
            hand_ok(self@),
            self.tehai[d as int] >= 1,
            expected == 14 - 3 * (self.pons@.len() + self.minkans@.len() + self.ankans@.len()),
        ensures
            r == tenpai_discard(self@, d as int),
    {
        let ghost v = self@;
        let mut h1 = self.tehai;
        h1[d] = h1[d] - 1;
        let mut found = false;
        let mut t: usize = 0;
        while t < 27
            invariant
                t <= 27,
                d < 27,
                v == self@,
                hand_ok(v),
                v.tehai[d as int] >= 1,
                h1 == spec_array_update(v.tehai, d as int, (v.tehai[d as int] - 1) as u8),
                expected == 14 - 3 * (v.pons.len() + v.minkans.len() + v.ankans.len()),
                found == (exists|j: int| 0 <= j < t && #[trigger] tenpai_draw(v, d as int, j)),
            decreases 27 - t,
        {
            let ghost hit = tenpai_draw(v, d as int, t as int);
            if !found && t != d && h1[t] != 4 {
                let mut h2 = h1;
                h2[t] = h2[t] + 1;
                proof {
                    assert(h2 =~= swapped(v.tehai, d as int, t as int));
                    lemma_range_update(v.tehai@, d as int, h1[d as int], 27);
                    lemma_range_update(h1@, t as int, h2[t as int], 27);
                    assert(forall|k: int| 0 <= k < 27 ==> #[trigger] h2[k] <= 4);
                }
                let s2 = hand_sum(&h2);
                let sh = calc_with_ding_que(&h2, s2 / 3, self.ding_que);
                if sh <= -1 && self.tiles_seen[t] != 4 && s2 == expected {
                    let c = self.calc(&h2, t as u8, true, false, false, false, false);
                    if c.has_yaku() {
                        found = true;
                    }
                }
                assert(found == (exists|j: int| 0 <= j < t + 1 && #[trigger] tenpai_draw(v, d as int, j)));
            } else {
                assert(found || !hit);
            }
            t += 1;
        }
        found
    }

    /// The discards after which the hand waits on a win needing no incidental yaku (see
    /// `spec_unconditional_tenpai`); only at 3n+2.
    pub fn discard_candidates_with_unconditional_tenpai(&self) -> (r: [bool; 27])
        requires
            self.last_cans.can_discard,
            unconditional_tenpai_ok(self@),
        ensures
            r@ == spec_unconditional_tenpai(self@),
    {
        let ghost v = self@;
        let mut ret = [false; 27];
        if self.tiles_left == 0 || self.shanten > 1 || (self.shanten == 1 && !self.has_next_shanten_discard) {
            assert(ret@ =~= Seq::new(27, |i: int| false));
            return ret;
        }
        if self.shanten == 0 {
            if let Some(last) = self.last_self_tsumo {
                let w = last.as_usize();
                if self.waits[w] {
                    assert(ret@ =~= Seq::new(27, |i: int| false));
                    return ret;
                }
                ret[w] = true;
                assert(ret@ =~= Seq::new(27, |i: int| false).update(w as int, true));
                return ret;
            } else {
                let sum = hand_sum(&self.tehai);
                if calc_with_ding_que(&self.tehai, sum / 3, self.ding_que) == -1 {
                    assert(ret@ =~= Seq::new(27, |i: int| false));
                    return ret;
                }
            }
        }
        assert(tenpai_search(v));
        let tried = if self.shanten == 1 {
            self.next_shanten_discards
        } else {
            self.keep_shanten_discards
        };
        let fuuro = self.pons.len() + self.minkans.len() + self.ankans.len();
        let expected: u8 = 14 - (fuuro as u8) * 3;
        let ghost want = Seq::new(
            27,
            |j: int| tried_discards(v)[j] && !v.forbidden_tiles[j] && tenpai_discard(v, j),
        );
        let mut d: usize = 0;
        while d < 27
            invariant
                d <= 27,
                v == self@,
                want == Seq::new(
                    27,
                    |j: int| tried_discards(v)[j] && !v.forbidden_tiles[j] && tenpai_discard(v, j),
                ),
                tenpai_search(v),
                unconditional_tenpai_ok(v),
                tried@ == tried_discards(v),
                expected == 14 - 3 * (v.pons.len() + v.minkans.len() + v.ankans.len()),
                forall|j: int| 0 <= j < d ==> ret[j] == want[j],
                forall|j: int| d <= j < 27 ==> !ret[j],
            decreases 27 - d,
        {
            let ghost before = ret;
            if tried[d] && !self.forbidden_tiles[d] {
                ret[d] = self.tenpai_after_discard(d, expected);
            }
            assert(forall|j: int| 0 <= j < 27 && j != d ==> ret[j] == before[j]);
            assert(ret[d as int] == want[d as int]);
            d += 1;
        }
        assert(ret@ =~= want);
        ret
    }

    /// The concealed tiles of the win on `w` (see `win_hand`).
    fn win_tehai(&self, is_ron: bool, w: Tile) -> (r: [u8; 27])
        requires
            is_ron ==> w@ < 27 && self.tehai[w@ as int] < 255,
        ensures
            r == win_hand(self@, is_ron, w),
    {
        let mut tehai = self.tehai;
        if is_ron {
            let tid = w.as_usize();
            tehai[tid] = tehai[tid] + 1;
            assert(tehai =~= tehai_plus(self@, w@ as int, 1));
        }
        tehai
    }

    /// The fan of the win on `w` with the concealed tiles `tehai` (see `win_fan`).
    fn win_agari(
        &self,
        tehai: &[u8; 27],
        is_ron: bool,
        w: Tile,
        exclude: Option<u8>,
        is_haidi: bool,
        is_tianhu: bool,
        is_dihu: bool,
    ) -> (r: Option<Agari>)
        requires
            *tehai == win_hand(self@, is_ron, w),
        ensures
            r == win_fan(self@, is_ron, w, exclude, is_haidi, is_tianhu, is_dihu),
    {
        let chankan = is_ron && self.chankan_chance.is_some();
        let c = AgariCalculator {
            tehai,
            pons: self.pons.as_slice(),
            minkans: self.minkans.as_slice(),
            ankans: self.ankans.as_slice(),
            winning_tile: w.as_u8(),
            is_ron,
            ding_que: self.ding_que,
            is_after_kan: !is_ron && self.at_rinshan,
            is_kan_discard: is_ron && self.last_discard_was_after_kan && !chankan,
            is_chankan: chankan,
            exclude_gen_tile: exclude,
            is_haidi,
            is_tianhu,
            is_dihu,
            fan_config: self.fan_config,
        };
        proof {
            lemma_slice_of(c.pons);
            lemma_slice_of(c.minkans);
            lemma_slice_of(c.ankans);
        }
        c.agari()
    }

    /// The points of the win the state allows (see `spec_agari_points`); the indicators are
    /// not used by this rule set.
    pub fn agari_points(
        &self,
        is_ron: bool,
        is_haidi: bool,
        is_tianhu: bool,
        is_dihu: bool,
        _ura_indicators: &[Tile],
    ) -> (r: Result<Point, AgariError>)
        requires
            agari_points_ok(self@, is_ron),
        ensures
            points_of(spec_agari_points(self@, is_ron, is_haidi, is_tianhu, is_dihu), r),
    {
        let allowed = if is_ron {
            self.last_cans.can_ron_agari
        } else {
            self.last_cans.can_tsumo_agari
        };
        if !allowed {
            return Err(
                AgariError::CannotAgari {
                    is_ron,
                    can_ron: self.last_cans.can_ron_agari,
                    can_tsumo: self.last_cans.can_tsumo_agari,
                },
            );
        }
        let w = match if is_ron {
            self.last_kawa_tile
        } else {
            self.last_self_tsumo
        } {
            Some(w) => w,
            None => return Err(AgariError::NoWinningTile),
        };
        let tehai = self.win_tehai(is_ron, w);
        match self.win_agari(&tehai, is_ron, w, None, is_haidi, is_tianhu, is_dihu) {
            Some(agari) => Ok(agari.point(false)),
            None => Err(AgariError::NotHora),
        }
    }

    /// The points of the win the state allows with `exclude_tile` not counted as a root, as
    /// owed by a seat whose kakan was robbed (see `spec_agari_points_exclude_gen`).
    pub fn agari_points_exclude_gen(
        &self,
        is_ron: bool,
        exclude_tile: u8,
        is_haidi: bool,
        _ura_indicators: &[Tile],
    ) -> (r: Result<Point, AgariError>)
        requires
            agari_points_exclude_gen_ok(self@, is_ron),
        ensures
            points_of(spec_agari_points_exclude_gen(self@, is_ron, exclude_tile, is_haidi), r),
    {
        let allowed = if is_ron {
            self.last_cans.can_ron_agari
        } else {
            self.last_cans.can_tsumo_agari
        };
        if !allowed {
            return Err(
                AgariError::CannotAgari {
                    is_ron,
                    can_ron: self.last_cans.can_ron_agari,
                    can_tsumo: self.last_cans.can_tsumo_agari,
                },
            );
        }
        let w = match if is_ron {
            self.last_kawa_tile
        } else {
            self.last_self_tsumo
        } {
            Some(w) => w,
            None => return Err(AgariError::NoWinningTile),
        };
        let tehai = self.win_tehai(is_ron, w);
        let fuuro_count = (self.pons.len() + self.minkans.len() + self.ankans.len()) as u8;
        let expected = 14u8.saturating_sub(fuuro_count * 3);
        let got = tile_total(&tehai);
        if got != expected {
            return Err(AgariError::TehaiTotal { expected, fuuro_count, got, is_ron });
        }
        match self.win_agari(&tehai, is_ron, w, Some(exclude_tile), is_haidi, false, false) {
            Some(agari) => Ok(agari.point(false)),
            None => Err(AgariError::NotHora),
        }
    }

    /// How many of the six terminal kinds (1 and 9 of each suit) the hand holds.
    pub fn yaokyuu_kind_count(&self) -> (r: u8)
        ensures
            r == spec_yaokyuu_kind_count(self.tehai),
    {
        let mut n: u8 = 0;
        if self.tehai[0] > 0 {
            n = n + 1;
        }
        if self.tehai[8] > 0 {
            n = n + 1;
        }
        if self.tehai[9] > 0 {
            n = n + 1;
        }
        if self.tehai[17] > 0 {
            n = n + 1;
        }
        if self.tehai[18] > 0 {
            n = n + 1;
        }
        if self.tehai[26] > 0 {
            n = n + 1;
        }
        n
    }

    /// Whether to call an abortive draw: this rule set has none.
    pub fn rule_based_ryukyoku(&self) -> (r: bool)
        ensures
            !r,
    {
        false
    }

    /// Whether to win: whenever a win is allowed.
    pub fn rule_based_agari(&self) -> (r: bool)
        ensures
            r == self.last_cans.spec_can_agari(),
    {
        self.last_cans.can_agari()
    }

    /// The shanten number right now (see `spec_real_time_shanten`).
    pub fn real_time_shanten(&self) -> (r: i8)
        requires
            real_time_shanten_ok(self@),
        ensures
            r == spec_real_time_shanten(self@),
    {
        if !self.last_cans.can_discard {
            return self.shanten;
        }
        if self.shanten > 0 {
            return if self.has_next_shanten_discard {
                self.shanten - 1
            } else {
                self.shanten
            };
        }
        if let Some(tile) = self.last_self_tsumo {
            return if self.waits[tile.as_usize()] {
                -1
            } else {
                0
            };
        }
        let sum = hand_sum(&self.tehai);
        calc_with_ding_que(&self.tehai, sum / 3, self.ding_que)
    }
}

} // verus!
