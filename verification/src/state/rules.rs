//! How a seat's state follows the events of a hand: one spec function per event kind, from
//! the state before to the state after and the outcome.
use crate::agari::{spec_agari, spec_has_yaku, Agari, AgariCalculator};
use crate::ding_que::{spec_ding_que_forced_range, spec_is_ding_que_tile};
use crate::grp::range_sum;
use crate::mjai::{Event, Suit, spec_actor};
use crate::shanten::spec_calc_with_ding_que;
use crate::state::action::{ActionCandidate, no_action};
use crate::state::item::Sutehai;
use crate::state::player_state::{KawaView, PlayerView};
use crate::tile::{Tile, spec_tile};
use vstd::array::spec_array_update;
use vstd::prelude::*;

verus! {

/// Why an event could not be applied to a seat's state.
#[derive(Debug, Clone, Copy, PartialEq, Eq, Structural)]
pub enum StateError {
    /// An unknown tile (`?`) was to be seen.
    UnknownTile,
    /// A fifth copy of a tile was to be seen.
    FifthTile(Tile),
    /// A tile not in the hand was to be discarded.
    DiscardNotInHand(Tile),
    /// A tile not in the hand was to be used in a meld.
    ConsumeNotInHand(Tile),
}

/// A state and how the step to it ended.
pub type Step = (PlayerView, Result<(), StateError>);

/// The seat of `actor` relative to the seat of `v` (0 is itself, then in turn order).
pub open spec fn rel(v: PlayerView, actor: u8) -> int {
    ((actor + 4 - v.player_id) % 4) as int
}

/// Tiles in the concealed hand.
pub open spec fn tehai_sum(v: PlayerView) -> int {
    range_sum(v.tehai@, 0, 27)
}

/// The all-zero counts.
pub open spec fn zeros27() -> [u8; 27] {
    choose|a: [u8; 27]| #[trigger] a@ == Seq::new(27, |i: int| 0u8)
}

/// The hand that `v` holds, with one more or one less tile of kind `t`.
pub open spec fn tehai_plus(v: PlayerView, t: int, d: int) -> [u8; 27] {
    spec_array_update(v.tehai, t, (v.tehai[t] + d) as u8)
}

// ---------------------------------------------------------------------------------------------
// Seeing and moving tiles.

/// The seat sees tile `t`: one more of its kind, unless it is unknown or four are seen.
pub open spec fn witness(v: PlayerView, t: Tile) -> Step {
    if t@ >= 27 {
        (v, Err(StateError::UnknownTile))
    } else if v.tiles_seen[t@ as int] >= 4 {
        (v, Err(StateError::FifthTile(t)))
    } else {
        (
            PlayerView {
                tiles_seen: spec_array_update(
                    v.tiles_seen,
                    t@ as int,
                    (v.tiles_seen[t@ as int] + 1) as u8,
                ),
                ..v
            },
            Ok(()),
        )
    }
}

/// The seat sees `tiles` in order, stopping at the first error.
pub open spec fn witness_all(v: PlayerView, tiles: Seq<Tile>) -> Step
    decreases tiles.len(),
{
    if tiles.len() == 0 {
        (v, Ok(()))
    } else {
        let (v1, r1) = witness_all(v, tiles.drop_last());
        if r1 is Err {
            (v1, r1)
        } else {
            witness(v1, tiles.last())
        }
    }
}

/// Tile `t` leaves the concealed hand (discarded, or else used in a meld); an error if the
/// hand holds none.
pub open spec fn take_out(v: PlayerView, t: Tile, discard: bool) -> Step {
    if v.tehai[t@ as int] == 0 {
        (
            v,
            Err(
                if discard {
                    StateError::DiscardNotInHand(t)
                } else {
                    StateError::ConsumeNotInHand(t)
                },
            ),
        )
    } else {
        (PlayerView { tehai: tehai_plus(v, t@ as int, -1), ..v }, Ok(()))
    }
}

/// `tiles` leave the concealed hand for a meld, in order, stopping at the first error.
pub open spec fn take_out_all(v: PlayerView, tiles: Seq<Tile>) -> Step
    decreases tiles.len(),
{
    if tiles.len() == 0 {
        (v, Ok(()))
    } else {
        let (v1, r1) = take_out_all(v, tiles.drop_last());
        if r1 is Err {
            (v1, r1)
        } else {
            take_out(v1, tiles.last(), false)
        }
    }
}

/// Every tile of `tiles` is a real tile (not `?`).
pub open spec fn known(tiles: Seq<Tile>) -> bool {
    forall|i: int| 0 <= i < tiles.len() ==> #[trigger] tiles[i]@ < 27
}

// ---------------------------------------------------------------------------------------------
// Scores.

/// `deltas` (by absolute seat) added to the scores (by relative seat).
pub open spec fn with_deltas(v: PlayerView, deltas: Option<[i32; 4]>) -> PlayerView {
    match deltas {
        Some(d) => PlayerView {
            scores: [
                (v.scores[0] + d[(v.player_id as int) % 4]) as i32,
                (v.scores[1] + d[(v.player_id + 1) as int % 4]) as i32,
                (v.scores[2] + d[(v.player_id + 2) as int % 4]) as i32,
                (v.scores[3] + d[(v.player_id + 3) as int % 4]) as i32,
            ],
            ..v
        },
        None => v,
    }
}

/// Adding `deltas` keeps every score within `i32`.
pub open spec fn deltas_fit(v: PlayerView, deltas: Option<[i32; 4]>) -> bool {
    match deltas {
        Some(d) => forall|i: int|
            0 <= i < 4 ==> i32::MIN <= #[trigger] v.scores[i] + d[(v.player_id + i) % 4]
                <= i32::MAX,
        None => true,
    }
}

// ---------------------------------------------------------------------------------------------
// Shanten bookkeeping.

/// The shanten number of the concealed hand with the void suit, never below 0.
pub open spec fn current_shanten(v: PlayerView) -> int {
    let s = spec_calc_with_ding_que(v.tehai@, tehai_sum(v) / 3, v.ding_que);
    if s < 0 {
        0
    } else {
        s
    }
}

/// The shanten number brought up to date.
#[verifier::opaque]
pub open spec fn with_shanten(v: PlayerView) -> PlayerView {
    PlayerView { shanten: current_shanten(v) as i8, ..v }
}

/// The shanten number of the hand after discarding one tile of kind `t`.
pub open spec fn shanten_after_discard(v: PlayerView, t: int) -> int {
    let m = if tehai_sum(v) >= 1 {
        (tehai_sum(v) - 1) / 3
    } else {
        0
    };
    spec_calc_with_ding_que(v.tehai@.update(t, (v.tehai[t] - 1) as u8), m, v.ding_que)
}

/// The discards that lower and that keep the shanten number, at 3n+2.
#[verifier::opaque]
pub open spec fn with_shanten_discards(v: PlayerView) -> PlayerView {
    let next = Seq::new(
        27,
        |t: int| v.tehai[t] > 0 && shanten_after_discard(v, t) < v.shanten,
    );
    let keep = Seq::new(
        27,
        |t: int| v.tehai[t] > 0 && shanten_after_discard(v, t) == v.shanten,
    );
    PlayerView {
        next_shanten_discards: next,
        keep_shanten_discards: keep,
        has_next_shanten_discard: exists|t: int| 0 <= t < 27 && #[trigger] next[t],
        ..v
    }
}

/// The hand with one more tile of kind `t` is complete (shanten -1).
pub open spec fn completes(v: PlayerView, t: int) -> bool {
    spec_calc_with_ding_que(v.tehai@.update(t, (v.tehai[t] + 1) as u8), (tehai_sum(v) + 1) / 3, v.ding_que)
        == -1
}

/// The waits of a tenpai hand at 3n+1: tiles not held four times that complete it and are
/// not all seen; none when the shanten number is above 0.
#[verifier::opaque]
pub open spec fn with_waits(v: PlayerView) -> PlayerView {
    PlayerView {
        waits: Seq::new(
            27,
            |t: int| v.shanten <= 0 && v.tehai[t] != 4 && completes(v, t) && v.tiles_seen[t] < 4,
        ),
        ..v
    }
}

/// While the hand holds the void suit, every other tile is forbidden too.
#[verifier::opaque]
pub open spec fn with_ding_que_forbidden(v: PlayerView) -> PlayerView {
    match spec_ding_que_forced_range(v.tehai, v.ding_que) {
        Some((s, e)) => PlayerView {
            forbidden_tiles: Seq::new(
                27,
                |i: int| if i < s || i >= e {
                    true
                } else {
                    v.forbidden_tiles[i]
                },
            ),
            ..v
        },
        None => v,
    }
}

/// The shanten number after discarding (or adding to a kan) a tile of kind `t`: one less when
/// `t` lowered it and no void tile is involved, unchanged when `t` kept it, else computed
/// again.
#[verifier::opaque]
pub open spec fn shanten_after_leaving(v: PlayerView, t: int, void_tile: bool) -> PlayerView {
    if v.next_shanten_discards[t] {
        if void_tile || spec_ding_que_forced_range(v.tehai, v.ding_que) is Some {
            with_shanten(v)
        } else {
            PlayerView { shanten: (v.shanten - 1) as i8, ..v }
        }
    } else if !v.keep_shanten_discards[t] {
        with_shanten(v)
    } else {
        v
    }
}

// ---------------------------------------------------------------------------------------------
// Wins and kans.

/// The slice holding `s`.
pub open spec fn slice_of<'a>(s: Seq<u8>) -> &'a [u8] {
    choose|x: &'a [u8]| x@ == s
}

/// The win check of the hand `tehai` (winning tile included) with the seat's melds, void suit
/// and rules.
pub open spec fn calculator<'a>(
    v: PlayerView,
    tehai: &'a [u8; 27],
    winning_tile: u8,
    is_ron: bool,
    is_after_kan: bool,
    is_kan_discard: bool,
    is_chankan: bool,
    is_haidi: bool,
) -> AgariCalculator<'a> {
    AgariCalculator {
        tehai,
        pons: slice_of(v.pons),
        minkans: slice_of(v.minkans),
        ankans: slice_of(v.ankans),
        winning_tile,
        is_ron,
        ding_que: v.ding_que,
        is_after_kan,
        is_kan_discard,
        is_chankan,
        exclude_gen_tile: None,
        is_haidi,
        is_tianhu: false,
        is_dihu: false,
        fan_config: v.fan_config,
    }
}

/// The fan of a ron on `t` (the hand plus `t`), if it wins.
#[verifier::opaque]
pub open spec fn ron_fan(v: PlayerView, t: Tile, is_kan_discard: bool, is_chankan: bool) -> Option<u8> {
    match spec_agari(
        calculator(
            v,
            &tehai_plus(v, t@ as int, 1),
            t@,
            true,
            false,
            is_kan_discard,
            is_chankan,
            v.tiles_left == 0,
        ),
    ) {
        Some(Agari::Fan(f)) => Some(f),
        None => None,
    }
}

/// A self-drawn win on `w` (the hand already holding it) has a yaku.
#[verifier::opaque]
pub open spec fn tsumo_yaku(v: PlayerView, w: Tile, is_after_kan: bool, is_haidi: bool) -> bool {
    spec_has_yaku(calculator(v, &v.tehai, w@, false, is_after_kan, false, false, is_haidi))
}

/// A ron of fan `f` is allowed: always, or, after a passed ron, only for more fan.
#[verifier::opaque]
pub open spec fn ron_allowed(v: PlayerView, f: u8) -> bool {
    !v.temporary_furiten || match v.furiten_passed_ron_fan {
        Some(p) => f > p,
        None => false,
    }
}

/// The seat holds 13 tiles counting melds, and fewer than four of kind `t`.
#[verifier::opaque]
pub open spec fn can_add(v: PlayerView, t: int) -> bool {
    tehai_sum(v) + 3 * (v.pons.len() + v.minkans.len() + v.ankans.len()) == 13 && v.tehai[t] < 4
}

/// Kinds below `n` held four times, outside the void suit.
pub open spec fn quad_tiles(v: PlayerView, n: int) -> Seq<Tile>
    decreases n,
{
    if n <= 0 {
        Seq::empty()
    } else {
        let p = quad_tiles(v, n - 1);
        if v.tehai[n - 1] == 4 && !spec_is_ding_que_tile(n - 1, v.ding_que) {
            p.push(spec_tile((n - 1) as u8))
        } else {
            p
        }
    }
}

/// Kinds below `n` held (but not four times) with a pon of them, outside the void suit.
pub open spec fn kakan_tiles(v: PlayerView, n: int) -> Seq<Tile>
    decreases n,
{
    if n <= 0 {
        Seq::empty()
    } else {
        let p = kakan_tiles(v, n - 1);
        if v.tehai[n - 1] > 0 && v.tehai[n - 1] != 4 && !spec_is_ding_que_tile(n - 1, v.ding_que)
            && v.pons.contains(
            (n - 1) as u8,
        ) {
            p.push(spec_tile((n - 1) as u8))
        } else {
            p
        }
    }
}

/// The kans the seat may declare now.
#[verifier::opaque]
pub open spec fn with_kan_candidates(v: PlayerView) -> PlayerView {
    let q = quad_tiles(v, 27);
    let k = kakan_tiles(v, 27);
    PlayerView {
        ankan_candidates: q,
        kakan_candidates: k,
        last_cans: ActionCandidate {
            can_ankan: v.last_cans.can_ankan || q.len() > 0,
            can_kakan: v.last_cans.can_kakan || k.len() > 0,
            ..v.last_cans
        },
        ..v
    }
}

// ---------------------------------------------------------------------------------------------
// Events.

/// Before any event: a ron on offer and not taken sets furiten (keeping the highest fan
/// passed); any event but a win clears the allowed actions, keeping only the void-suit choice
/// while none is named.
#[verifier::opaque]
pub open spec fn prologue(v: PlayerView, ev: Event) -> PlayerView {
    let passed = v.last_cans.can_ron_agari && !(ev matches Event::Hora { actor, .. } && actor
        == v.player_id);
    let v1 = if passed {
        PlayerView {
            temporary_furiten: true,
            furiten_passed_ron_fan: match (v.furiten_passed_ron_fan, v.current_ron_fan) {
                (Some(p), Some(c)) => Some(
                    if p >= c {
                        p
                    } else {
                        c
                    },
                ),
                (Some(p), None) => Some(p),
                (None, c) => c,
            },
            ..v
        }
    } else {
        v
    };
    if ev is Hora {
        v1
    } else {
        PlayerView {
            last_cans: ActionCandidate {
                target_actor: match spec_actor(ev) {
                    Some(a) => a,
                    None => v1.player_id,
                },
                can_ding_que: v1.ding_que is None,
                ..no_action()
            },
            ankan_candidates: Seq::empty(),
            kakan_candidates: Seq::empty(),
            current_ron_fan: None,
            chankan_chance: false,
            chankan_kakan_actor: None,
            chankan_kakan_tile: None,
            ..v1
        }
    }
}

/// The seat's own starting tiles go into its hand and are seen, one by one, stopping when a
/// fifth copy is seen.
pub open spec fn deal(v: PlayerView, tiles: Seq<Tile>) -> Step
    decreases tiles.len(),
{
    if tiles.len() == 0 {
        (v, Ok(()))
    } else {
        let (v1, r1) = deal(v, tiles.drop_last());
        if r1 is Err {
            (v1, r1)
        } else {
            let t = tiles.last();
            witness(PlayerView { tehai: tehai_plus(v1, t@ as int, 1), ..v1 }, t)
        }
    }
}

/// A new hand: everything of the last hand is cleared, and the scores and the dealer are
/// taken by relative seat.
#[verifier::opaque]
pub open spec fn cleared_for(v: PlayerView, kyoku: u8, oya: u8, scores: [i32; 4]) -> PlayerView {
    let p = v.player_id as int;
    PlayerView {
        tehai: zeros27(),
        waits: Seq::new(27, |i: int| false),
        temporary_furiten: false,
        furiten_passed_ron_fan: None,
        current_ron_fan: None,
        tiles_seen: zeros27(),
        keep_shanten_discards: Seq::new(27, |i: int| false),
        next_shanten_discards: Seq::new(27, |i: int| false),
        forbidden_tiles: Seq::new(27, |i: int| false),
        players_agari: [false, false, false, false],
        oya: rel(v, oya) as u8,
        kyoku: (kyoku - 1) as u8,
        scores: [scores[p % 4], scores[(p + 1) % 4], scores[(p + 2) % 4], scores[(p + 3) % 4]],
        ding_que: None,
        other_ding_que: [None, None, None],
        has_agari: false,
        last_self_tsumo: None,
        last_kawa_tile: None,
        ankan_candidates: Seq::empty(),
        kakan_candidates: Seq::empty(),
        chankan_chance: false,
        chankan_kakan_actor: None,
        chankan_kakan_tile: None,
        pending_kakan_tile: None,
        last_discard_was_after_kan: false,
        intermediate_kan: Seq::empty(),
        pons: Seq::empty(),
        minkans: Seq::empty(),
        ankans: Seq::empty(),
        kans_on_board: 0,
        at_rinshan: false,
        kawa: Seq::new(4, |r: int| Seq::<Option<KawaView>>::empty()),
        kawa_overview: Seq::new(4, |r: int| Seq::<Tile>::empty()),
        fuuro_overview: Seq::new(4, |r: int| Seq::<Seq<Tile>>::empty()),
        ankan_overview: Seq::new(4, |r: int| Seq::<Tile>::empty()),
        tiles_left: 56,
        at_turn: 0,
        ..v
    }
}

/// After the deal: the shanten number, and the seat is to name its void suit.
#[verifier::opaque]
pub open spec fn dealt(v1: PlayerView) -> PlayerView {
    let v2 = with_shanten(PlayerView { tehai_len_div3: (tehai_sum(v1) / 3) as u8, ..v1 });
    PlayerView { last_cans: ActionCandidate { can_ding_que: true, ..v2.last_cans }, ..v2 }
}

/// A hand starts (see `cleared_for`, `deal`, `dealt`).
pub open spec fn start_kyoku(
    v: PlayerView,
    kyoku: u8,
    oya: u8,
    scores: [i32; 4],
    tehais: [[Tile; 13]; 4],
) -> Step {
    let (v1, r1) = deal(cleared_for(v, kyoku, oya, scores), tehais[v.player_id as int]@);
    if r1 is Err {
        (v1, r1)
    } else {
        (dealt(v1), Ok(()))
    }
}

/// Every seat has named its void suit.
pub open spec fn all_named(v: PlayerView) -> bool {
    v.ding_que is Some && v.other_ding_que[0] is Some && v.other_ding_que[1] is Some
        && v.other_ding_que[2] is Some
}

/// Seat `actor` names `suit` as its void suit: this seat's own, or one of the others'.
#[verifier::opaque]
pub open spec fn named(v: PlayerView, actor: u8, suit: Suit) -> PlayerView {
    if actor == v.player_id {
        PlayerView {
            ding_que: Some(suit),
            last_cans: ActionCandidate { can_ding_que: false, ..v.last_cans },
            ..v
        }
    } else if rel(v, actor) > 0 {
        PlayerView {
            other_ding_que: spec_array_update(v.other_ding_que, rel(v, actor) - 1, Some(suit)),
            ..v
        }
    } else {
        v
    }
}

/// A seat names its void suit. Once all have, a dealer holding 3n+2 tiles is to discard
/// (see `dealer_ready`).
pub open spec fn ding_que(v: PlayerView, actor: u8, suit: Suit) -> PlayerView {
    let v1 = named(v, actor, suit);
    if all_named(v1) && v1.oya == 0 && tehai_sum(v1) % 3 == 2 {
        dealer_ready(v1)
    } else {
        v1
    }
}

/// The seat is to discard: the void-suit restriction, the shanten number and the discards that
/// lower or keep it are worked out.
#[verifier::opaque]
pub open spec fn start_discard_turn(v: PlayerView) -> PlayerView {
    with_shanten_discards(
        with_shanten(
            with_ding_que_forbidden(
                PlayerView {
                    last_cans: ActionCandidate {
                        target_actor: v.player_id,
                        can_discard: true,
                        ..v.last_cans
                    },
                    ..v
                },
            ),
        ),
    )
}

/// A self-drawn win on the drawn tile is allowed when it has a yaku.
#[verifier::opaque]
pub open spec fn with_drawn_win(v: PlayerView, is_after_kan: bool, is_haidi: bool) -> PlayerView {
    match v.last_self_tsumo {
        Some(w) => PlayerView {
            last_cans: ActionCandidate {
                can_tsumo_agari: tsumo_yaku(v, w, is_after_kan, is_haidi),
                ..v.last_cans
            },
            ..v
        },
        None => v,
    }
}

/// The kans the seat may declare, unless the wall is empty.
#[verifier::opaque]
pub open spec fn with_kans_unless_last(v: PlayerView) -> PlayerView {
    if v.tiles_left > 0 {
        with_kan_candidates(v)
    } else {
        v
    }
}

/// The dealer, holding 3n+2 tiles once every void suit is named, is to discard: its
/// discards, a win on its drawn tile and (unless the wall is empty) its kans are worked out.
pub open spec fn dealer_ready(v1: PlayerView) -> PlayerView {
    with_kans_unless_last(with_drawn_win(start_discard_turn(v1), false, false))
}

/// One tile less in the wall (none less once it is empty).
pub open spec fn count_draw(v: PlayerView) -> PlayerView {
    if v.tiles_left == 0 {
        v
    } else {
        PlayerView { tiles_left: (v.tiles_left - 1) as u8, ..v }
    }
}

/// This seat draws `pai`: no tile is forbidden, furiten ends, one more turn.
#[verifier::opaque]
pub open spec fn begin_draw(v: PlayerView, pai: Tile) -> PlayerView {
    PlayerView {
        forbidden_tiles: Seq::new(27, |i: int| false),
        temporary_furiten: false,
        furiten_passed_ron_fan: None,
        at_turn: (v.at_turn + 1) as u8,
        last_self_tsumo: Some(pai),
        pending_kakan_tile: None,
        ..v
    }
}

/// The seat is to discard: its shanten number and the discards that lower or keep it.
#[verifier::opaque]
pub open spec fn own_turn_shanten(v3: PlayerView) -> PlayerView {
    with_shanten_discards(
        with_shanten(
            PlayerView { last_cans: ActionCandidate { can_discard: true, ..v3.last_cans }, ..v3 },
        ),
    )
}

/// Unless the wall is empty: the kans the seat may declare and the void-suit restriction.
#[verifier::opaque]
pub open spec fn kans_and_void_unless_last(v5: PlayerView) -> PlayerView {
    if v5.tiles_left == 0 {
        v5
    } else {
        with_ding_que_forbidden(with_kan_candidates(v5))
    }
}

/// The seat is to discard after a draw: its discards, a win on the drawn tile and, unless the
/// wall is empty, its kans and the void-suit restriction are worked out.
pub open spec fn draw_discard_turn(v3: PlayerView) -> PlayerView {
    let v4 = own_turn_shanten(v3);
    kans_and_void_unless_last(with_drawn_win(v4, v4.at_rinshan, v4.tiles_left == 0))
}

/// The drawn tile `pai` goes into the hand.
#[verifier::opaque]
pub open spec fn take_in(v2: PlayerView, pai: Tile) -> PlayerView {
    PlayerView { tehai: tehai_plus(v2, pai@ as int, 1), ..v2 }
}

/// Before the void suit is named the seat is only to name it; its shanten number is brought up
/// to date.
#[verifier::opaque]
pub open spec fn await_void_choice(v3: PlayerView) -> PlayerView {
    with_shanten(
        PlayerView {
            last_cans: ActionCandidate { can_ding_que: true, can_discard: false, ..v3.last_cans },
            ..v3
        },
    )
}

/// The drawn tile goes into the hand; then `await_void_choice` or `draw_discard_turn`.
pub open spec fn after_draw(v2: PlayerView, pai: Tile) -> PlayerView {
    let v3 = take_in(v2, pai);
    if v3.ding_que is None {
        await_void_choice(v3)
    } else {
        draw_discard_turn(v3)
    }
}

/// A draw. Another seat's draw, or a draw after this seat has won, only counts the wall. On
/// its own draw the seat sees the tile (see `begin_draw`, `after_draw`).
pub open spec fn tsumo(v: PlayerView, actor: u8, pai: Tile) -> Step {
    let v0 = count_draw(v);
    if actor != v0.player_id || v0.has_agari {
        (v0, Ok(()))
    } else {
        let (v2, r2) = witness(begin_draw(v0, pai), pai);
        if r2 is Err {
            (v2, r2)
        } else {
            (after_draw(v2, pai), Ok(()))
        }
    }
}

/// A discard goes to the pile of relative seat `r`, with the kan declared before it.
#[verifier::opaque]
pub open spec fn to_kawa(v1: PlayerView, r: int, pai: Tile, tsumogiri: bool) -> PlayerView {
    let item: KawaView = (v1.intermediate_kan, Sutehai { tile: pai, is_tsumogiri: tsumogiri });
    PlayerView {
        last_discard_was_after_kan: v1.intermediate_kan.len() > 0,
        intermediate_kan: Seq::empty(),
        kawa: v1.kawa.update(r, v1.kawa[r].push(Some(item))),
        kawa_overview: v1.kawa_overview.update(r, v1.kawa_overview[r].push(pai)),
        last_kawa_tile: Some(pai),
        ..v1
    }
}

/// After this seat's own discard: nothing forbidden, no replacement draw.
#[verifier::opaque]
pub open spec fn discarded(v2: PlayerView) -> PlayerView {
    PlayerView { forbidden_tiles: Seq::new(27, |i: int| false), at_rinshan: false, ..v2 }
}

/// After this seat's own discard: `discarded`, and the shanten number and waits brought up to
/// date.
pub open spec fn after_own_discard(v2: PlayerView, pai: Tile) -> PlayerView {
    let v3 = discarded(v2);
    with_waits(
        shanten_after_leaving(v3, pai@ as int, spec_is_ding_que_tile(pai@ as int, v3.ding_que)),
    )
}

/// A ron on another seat's discard `pai`, if the hand wins with it (see `ron_allowed`).
#[verifier::opaque]
pub open spec fn ron_offer(v2: PlayerView, pai: Tile) -> PlayerView {
    let fan = if can_add(v2, pai@ as int) {
        ron_fan(v2, pai, v2.last_discard_was_after_kan, false)
    } else {
        None
    };
    PlayerView {
        current_ron_fan: if fan is Some {
            fan
        } else {
            v2.current_ron_fan
        },
        last_cans: ActionCandidate {
            can_ron_agari: match fan {
                Some(f) => ron_allowed(v2, f),
                None => false,
            },
            ..v2.last_cans
        },
        ..v2
    }
}

/// Unless the wall is empty, a pon or open kan of a discard outside the void suit.
#[verifier::opaque]
pub open spec fn call_options(v3: PlayerView, pai: Tile) -> PlayerView {
    if v3.tiles_left == 0 {
        v3
    } else {
        let void = spec_is_ding_que_tile(pai@ as int, v3.ding_que);
        PlayerView {
            last_cans: ActionCandidate {
                can_pon: !void && v3.tehai[pai@ as int] >= 2,
                can_daiminkan: !void && v3.tehai[pai@ as int] == 3,
                ..v3.last_cans
            },
            ..v3
        }
    }
}

/// Another seat's discard: a ron, then the calls (see `ron_offer`, `call_options`).
pub open spec fn react_to_discard(v2: PlayerView, pai: Tile) -> PlayerView {
    call_options(ron_offer(v2, pai), pai)
}

/// A discard. The tile leaves this seat's hand, or is seen from another's, and goes to the
/// discarder's pile (see `to_kawa`); then `after_own_discard`, or, unless this seat has won,
/// `react_to_discard`.
pub open spec fn dahai(v: PlayerView, actor: u8, pai: Tile, tsumogiri: bool) -> Step {
    let r = rel(v, actor);
    let (v1, r1) = if r == 0 {
        take_out(v, pai, true)
    } else {
        witness(v, pai)
    };
    if r1 is Err {
        (v1, r1)
    } else {
        let v2 = to_kawa(v1, r, pai, tsumogiri);
        if r == 0 {
            (after_own_discard(v2, pai), Ok(()))
        } else if v2.has_agari {
            (v2, Ok(()))
        } else {
            (react_to_discard(v2, pai), Ok(()))
        }
    }
}

/// The seat a call from `target` by `actor` skips: relative seats after the target's, up to
/// this seat (the caller) excluded.
pub open spec fn skipped(v: PlayerView, target: u8, k: int) -> bool {
    rel(v, target) < k <= 3
}

/// A call by this seat marks a skipped turn in the pile of each seat it skips.
#[verifier::opaque]
pub open spec fn pad_kawa(v: PlayerView, target: u8) -> PlayerView {
    PlayerView {
        kawa: Seq::new(
            4,
            |k: int| if skipped(v, target, k) {
                v.kawa[k].push(None)
            } else {
                v.kawa[k]
            },
        ),
        ..v
    }
}

/// The called tiles, the called tile last.
pub open spec fn called_set<const N: usize>(consumed: [Tile; N], pai: Tile) -> Seq<Tile> {
    consumed@.push(pai)
}

/// A meld added to the melds of relative seat `r`.
#[verifier::opaque]
pub open spec fn add_meld(v: PlayerView, r: int, meld: Seq<Tile>) -> PlayerView {
    PlayerView { fuuro_overview: v.fuuro_overview.update(r, v.fuuro_overview[r].push(meld)), ..v }
}

/// This seat calls a pon: nothing forbidden, furiten ends, it is to discard, one meld fewer
/// to make, and no drawn tile.
#[verifier::opaque]
pub open spec fn begin_own_pon(v: PlayerView) -> PlayerView {
    PlayerView {
        forbidden_tiles: Seq::new(27, |i: int| false),
        temporary_furiten: false,
        furiten_passed_ron_fan: None,
        last_cans: ActionCandidate { can_discard: true, ..v.last_cans },
        tehai_len_div3: if v.tehai_len_div3 > 0 {
            (v.tehai_len_div3 - 1) as u8
        } else {
            0
        },
        last_self_tsumo: None,
        ..v
    }
}

/// The pon is recorded, and the called kind may not be discarded now (while the hand holds
/// one).
#[verifier::opaque]
pub open spec fn record_pon(v4: PlayerView, pai: Tile) -> PlayerView {
    let v5 = PlayerView { pons: v4.pons.push(pai@), ..v4 };
    if v5.tehai[pai@ as int] > 0 {
        PlayerView { forbidden_tiles: v5.forbidden_tiles.update(pai@ as int, true), ..v5 }
    } else {
        v5
    }
}

/// The void-suit restriction, the shanten number and the discards are worked out.
#[verifier::opaque]
pub open spec fn void_shanten_discards(v: PlayerView) -> PlayerView {
    with_shanten_discards(with_shanten(with_ding_que_forbidden(v)))
}

/// The pon is recorded (see `record_pon`, `void_shanten_discards`).
pub open spec fn finish_pon(v4: PlayerView, pai: Tile) -> PlayerView {
    void_shanten_discards(record_pon(v4, pai))
}

/// A pon. The meld is recorded; another seat's consumed tiles are seen. On its own pon the
/// seat pads the skipped piles and takes the tiles from its hand (see `begin_own_pon`,
/// `finish_pon`).
pub open spec fn pon(v: PlayerView, actor: u8, target: u8, pai: Tile, consumed: [Tile; 2]) -> Step {
    let r = rel(v, actor);
    let v1 = add_meld(v, r, called_set(consumed, pai));
    if r != 0 {
        witness_all(v1, consumed@)
    } else {
        let (v4, r4) = take_out_all(begin_own_pon(pad_kawa(v1, target)), consumed@);
        if r4 is Err {
            (v4, r4)
        } else {
            (finish_pon(v4, pai), Ok(()))
        }
    }
}

/// A kan was declared: the only kan since the last discard, one more on the table.
pub open spec fn kan_declared(v: PlayerView, t: Tile) -> PlayerView {
    PlayerView { intermediate_kan: seq![t], kans_on_board: (v.kans_on_board + 1) as u8, ..v }
}

/// After this seat's own kan: it draws a replacement tile next, and furiten ends.
pub open spec fn after_own_kan(v: PlayerView) -> PlayerView {
    PlayerView {
        at_rinshan: true,
        temporary_furiten: false,
        furiten_passed_ron_fan: None,
        ..v
    }
}

/// This seat declares an open or concealed kan: `after_own_kan`, one meld fewer to make.
#[verifier::opaque]
pub open spec fn begin_own_kan(v: PlayerView) -> PlayerView {
    PlayerView {
        tehai_len_div3: if v.tehai_len_div3 > 0 {
            (v.tehai_len_div3 - 1) as u8
        } else {
            0
        },
        ..after_own_kan(v)
    }
}

/// The kan's kind added to `minkans` (open) or `ankans` (concealed), then the shanten number
/// and waits.
#[verifier::opaque]
pub open spec fn finish_kan(v: PlayerView, t: u8, open: bool) -> PlayerView {
    with_waits(
        with_shanten(
            if open {
                PlayerView { minkans: v.minkans.push(t), ..v }
            } else {
                PlayerView { ankans: v.ankans.push(t), ..v }
            },
        ),
    )
}

/// An open kan: its payment, the meld and the kan are recorded; another seat's consumed tiles
/// are seen. On its own kan the seat pads the skipped piles and takes the tiles from its hand.
pub open spec fn daiminkan(
    v: PlayerView,
    actor: u8,
    target: u8,
    pai: Tile,
    consumed: [Tile; 3],
    deltas: Option<[i32; 4]>,
) -> Step {
    let r = rel(v, actor);
    let v1 = add_meld(with_deltas(v, deltas), r, called_set(consumed, pai));
    if r != 0 {
        witness_all(kan_declared(v1, pai), consumed@)
    } else {
        let (v6, r6) = take_out_all(begin_own_kan(kan_declared(pad_kawa(v1, target), pai)), consumed@);
        if r6 is Err {
            (v6, r6)
        } else {
            (finish_kan(v6, pai@, true), Ok(()))
        }
    }
}

/// The first meld of `melds` that starts with `t`.
pub open spec fn first_meld_of(melds: Seq<Seq<Tile>>, t: Tile) -> Option<int> {
    if exists|j: int| 0 <= j < melds.len() && melds[j][0] == t {
        Some(choose|j: int| 0 <= j < melds.len() && melds[j][0] == t && forall|i: int| 0 <= i < j ==> melds[i][0] != t)
    } else {
        None
    }
}

/// `t` added to the first meld of relative seat `r` that starts with `t`.
#[verifier::opaque]
pub open spec fn kakan_meld(v: PlayerView, r: int, t: Tile) -> PlayerView {
    match first_meld_of(v.fuuro_overview[r], t) {
        Some(j) => PlayerView {
            fuuro_overview: v.fuuro_overview.update(
                r,
                v.fuuro_overview[r].update(j, v.fuuro_overview[r][j].push(t)),
            ),
            ..v
        },
        None => v,
    }
}

/// `s` without the entries equal to `x`.
pub open spec fn without(s: Seq<u8>, x: u8) -> Seq<u8>
    decreases s.len(),
{
    if s.len() == 0 {
        s
    } else {
        let p = without(s.drop_last(), x);
        if s.last() != x {
            p.push(s.last())
        } else {
            p
        }
    }
}

/// Another seat adds `pai` to a pon: it may be robbed (see `ron_allowed`).
#[verifier::opaque]
pub open spec fn chankan_check(v2: PlayerView, actor: u8, pai: Tile) -> PlayerView {
    chankan_offer(PlayerView { last_kawa_tile: Some(pai), ..v2 }, actor, pai)
}

/// A robbing win on `pai`, if the hand wins with it.
#[verifier::opaque]
pub open spec fn chankan_offer(v3: PlayerView, actor: u8, pai: Tile) -> PlayerView {
    let fan = if can_add(v3, pai@ as int) {
        ron_fan(v3, pai, false, true)
    } else {
        None
    };
    match fan {
        Some(f) => PlayerView {
            current_ron_fan: Some(f),
            last_cans: ActionCandidate { can_ron_agari: ron_allowed(v3, f), ..v3.last_cans },
            chankan_chance: true,
            chankan_kakan_actor: Some(actor),
            chankan_kakan_tile: Some(pai@),
            ..v3
        },
        None => v3,
    }
}

/// This seat's pon of `pai` becomes an open kan.
#[verifier::opaque]
pub open spec fn pon_to_kan(v3: PlayerView, pai: Tile) -> PlayerView {
    PlayerView { pons: without(v3.pons, pai@), minkans: v3.minkans.push(pai@), ..v3 }
}

/// This seat's added kan: its pon becomes a kan, and the shanten number and waits are brought
/// up to date.
pub open spec fn finish_kakan(v3: PlayerView, pai: Tile) -> PlayerView {
    with_waits(shanten_after_leaving(pon_to_kan(v3, pai), pai@ as int, false))
}

/// This seat adds `pai` to its pon: `after_own_kan`, and the kan is pending until it draws.
#[verifier::opaque]
pub open spec fn begin_own_kakan(v1: PlayerView, pai: Tile) -> PlayerView {
    PlayerView { pending_kakan_tile: Some(pai@), ..after_own_kan(v1) }
}

/// An added kan: its payment, the meld and the kan are recorded. Another seat's added tile is
/// seen (unless this seat has won) and may be robbed (see `chankan_check`). On its own added
/// kan the seat takes the tile from its hand (see `finish_kakan`).
pub open spec fn kakan(v: PlayerView, actor: u8, pai: Tile, deltas: Option<[i32; 4]>) -> Step {
    let r = rel(v, actor);
    let v1 = kan_declared(kakan_meld(with_deltas(v, deltas), r, pai), pai);
    if r != 0 {
        if v1.has_agari {
            (v1, Ok(()))
        } else {
            let (v2, r2) = witness(v1, pai);
            if r2 is Err {
                (v2, r2)
            } else {
                (chankan_check(v2, actor, pai), Ok(()))
            }
        }
    } else {
        let (v3, r3) = take_out(begin_own_kakan(v1, pai), pai, false);
        if r3 is Err {
            (v3, r3)
        } else {
            (finish_kakan(v3, pai), Ok(()))
        }
    }
}

/// A concealed kan of relative seat `r` on record.
#[verifier::opaque]
pub open spec fn add_ankan(v: PlayerView, r: int, t: Tile) -> PlayerView {
    PlayerView { ankan_overview: v.ankan_overview.update(r, v.ankan_overview[r].push(t)), ..v }
}

/// A concealed kan: its payment, the kan on the table and the kan are recorded; another
/// seat's tiles are seen. On its own kan the seat takes the tiles from its hand.
pub open spec fn ankan(v: PlayerView, actor: u8, consumed: [Tile; 4], deltas: Option<[i32; 4]>) -> Step {
    let r = rel(v, actor);
    let t = consumed[0];
    let v1 = kan_declared(add_ankan(with_deltas(v, deltas), r, t), t);
    if r != 0 {
        witness_all(v1, consumed@)
    } else {
        let (v3, r3) = take_out_all(begin_own_kan(v1), consumed@);
        if r3 is Err {
            (v3, r3)
        } else {
            (finish_kan(v3, t@, false), Ok(()))
        }
    }
}

/// The first index of `x` in `s`.
pub open spec fn index_of(s: Seq<u8>, x: u8) -> Option<int> {
    if s.contains(x) {
        Some(choose|j: int| 0 <= j < s.len() && s[j] == x && forall|i: int| 0 <= i < j ==> s[i] != x)
    } else {
        None
    }
}

/// The first four-tile meld of relative seat `r` starting with a tile of kind `t` back to
/// three tiles.
#[verifier::opaque]
pub open spec fn unkan_meld(v: PlayerView, r: int, t: int) -> PlayerView {
    let melds = v.fuuro_overview[r];
    if exists|j: int| 0 <= j < melds.len() && melds[j].len() > 0 && melds[j][0]@ == t && melds[j].len() == 4 {
        let j = choose|j: int|
            0 <= j < melds.len() && melds[j].len() > 0 && melds[j][0]@ == t && melds[j].len() == 4
                && forall|i: int|
                0 <= i < j ==> !(melds[i].len() > 0 && melds[i][0]@ == t && melds[i].len() == 4);
        PlayerView {
            fuuro_overview: v.fuuro_overview.update(r, melds.update(j, melds[j].drop_last())),
            ..v
        }
    } else {
        v
    }
}

/// This seat's added kan of kind `tile` was robbed: the kan goes back to a pon, the kan record
/// is cleared, and its shanten number and discards or waits are worked out again.
#[verifier::opaque]
pub open spec fn revert_kan(v1: PlayerView, tile: u8) -> PlayerView {
    let w1 = match index_of(v1.minkans, tile) {
        Some(pos) => PlayerView { minkans: v1.minkans.remove(pos), pons: v1.pons.push(tile), ..v1 },
        None => v1,
    };
    let w2 = unkan_meld(
        PlayerView {
            pending_kakan_tile: None,
            at_rinshan: false,
            intermediate_kan: Seq::empty(),
            kans_on_board: if w1.kans_on_board > 0 {
                (w1.kans_on_board - 1) as u8
            } else {
                0
            },
            ..w1
        },
        0,
        tile as int,
    );
    let w3 = with_shanten(w2);
    if w3.last_cans.can_discard {
        with_shanten_discards(w3)
    } else {
        with_waits(w3)
    }
}

/// Another seat's added kan was robbed by a third: the kan record is cleared and its meld goes
/// back to a pon.
#[verifier::opaque]
pub open spec fn undo_chankan(v2: PlayerView, target: u8) -> PlayerView {
    unkan_meld(
        PlayerView {
            intermediate_kan: Seq::empty(),
            kans_on_board: if v2.kans_on_board > 0 {
                (v2.kans_on_board - 1) as u8
            } else {
                0
            },
            ..v2
        },
        rel(v2, target),
        v2.intermediate_kan[0]@ as int,
    )
}

/// A win. The winner is marked (and has won, if it is this seat). When this seat's added kan
/// is robbed, the kan goes back to a pon and its shanten number and discards or waits are
/// worked out again; when another seat's added kan is robbed, that kan is undone; after a
/// self-drawn win the kan record is cleared. Then the payment.
pub open spec fn hora(v: PlayerView, actor: u8, target: u8, deltas: Option<[i32; 4]>) -> PlayerView {
    let r = rel(v, actor);
    let v1 = PlayerView {
        players_agari: spec_array_update(v.players_agari, r, true),
        has_agari: if r == 0 {
            true
        } else {
            v.has_agari
        },
        ..v
    };
    let v2 = if target == v1.player_id && actor != v1.player_id && v1.pending_kakan_tile is Some {
        revert_kan(v1, v1.pending_kakan_tile->0)
    } else {
        v1
    };
    let v3 = if target != v2.player_id && actor != target && v2.intermediate_kan.len() > 0 {
        undo_chankan(v2, target)
    } else {
        v2
    };
    let v4 = if actor == target && v3.intermediate_kan.len() > 0 {
        PlayerView { intermediate_kan: Seq::empty(), ..v3 }
    } else {
        v3
    };
    with_deltas(v4, deltas)
}

/// The effect of one event (after the prologue).
pub open spec fn on_event(v: PlayerView, ev: Event) -> Step {
    match ev {
        Event::StartKyoku { kyoku, oya, scores, tehais } => start_kyoku(v, kyoku, oya, scores, tehais),
        Event::DingQue { actor, suit } => (ding_que(v, actor, suit), Ok(())),
        Event::Tsumo { actor, pai } => tsumo(v, actor, pai),
        Event::Dahai { actor, pai, tsumogiri } => dahai(v, actor, pai, tsumogiri),
        Event::Pon { actor, target, pai, consumed } => pon(v, actor, target, pai, consumed),
        Event::Daiminkan { actor, target, pai, consumed, deltas } => daiminkan(
            v,
            actor,
            target,
            pai,
            consumed,
            deltas,
        ),
        Event::Kakan { actor, pai, deltas, .. } => kakan(v, actor, pai, deltas),
        Event::Ankan { actor, consumed, deltas } => ankan(v, actor, consumed, deltas),
        Event::Hora { actor, target, deltas } => (hora(v, actor, target, deltas), Ok(())),
        Event::Ryukyoku { deltas } => (with_deltas(v, deltas), Ok(())),
        _ => (v, Ok(())),
    }
}

/// The state after an event, and the outcome: the allowed actions, or why it failed.
pub open spec fn spec_update(v: PlayerView, ev: Event) -> (PlayerView, Result<ActionCandidate, StateError>) {
    let (v1, r) = on_event(prologue(v, ev), ev);
    (
        v1,
        match r {
            Ok(()) => Ok(v1.last_cans),
            Err(e) => Err(e),
        },
    )
}

// ---------------------------------------------------------------------------------------------
// What every state keeps, and the events a state can take.

/// What a seat's state keeps between events: four of a kind at most and never more held than
/// seen, at most fourteen tiles in hand, one kan record at most, four melds of each kind at
/// most, no empty meld, and a shanten number no further below the hand size than a run of
/// discards can take it.
pub open spec fn wf(v: PlayerView) -> bool {
    &&& v.player_id < 4
    &&& forall|t: int| 0 <= t < 27 ==> v.tehai[t] <= #[trigger] v.tiles_seen[t] <= 4
    &&& tehai_sum(v) <= 14
    &&& v.intermediate_kan.len() <= 1
    &&& v.pons.len() <= 4
    &&& v.minkans.len() <= 4
    &&& v.ankans.len() <= 4
    &&& v.waits.len() == 27
    &&& v.keep_shanten_discards.len() == 27
    &&& v.next_shanten_discards.len() == 27
    &&& v.forbidden_tiles.len() == 27
    &&& v.kawa.len() == 4
    &&& v.kawa_overview.len() == 4
    &&& v.fuuro_overview.len() == 4
    &&& v.ankan_overview.len() == 4
    &&& forall|r: int, j: int|
        0 <= r < 4 && 0 <= j < v.fuuro_overview[r].len() ==> #[trigger] v.fuuro_overview[r][j].len()
            >= 1
    &&& v.shanten >= tehai_sum(v) - 15
}

/// Every seat number of the event is 0 to 3, and a hand number is at least 1.
pub open spec fn seats_ok(ev: Event) -> bool {
    match ev {
        Event::StartKyoku { kyoku, oya, .. } => kyoku >= 1 && oya < 4,
        Event::Tsumo { actor, .. } => actor < 4,
        Event::Dahai { actor, .. } => actor < 4,
        Event::Pon { actor, target, .. } => actor < 4 && target < 4,
        Event::Daiminkan { actor, target, .. } => actor < 4 && target < 4,
        Event::Kakan { actor, .. } => actor < 4,
        Event::Ankan { actor, .. } => actor < 4,
        Event::DingQue { actor, .. } => actor < 4,
        Event::Hora { actor, target, .. } => actor < 4 && target < 4,
        _ => true,
    }
}

/// The skipped piles have room for one more entry.
pub open spec fn pad_room(v: PlayerView, target: u8) -> bool {
    forall|k: int| 0 <= k < 4 && skipped(v, target, k) ==> #[trigger] v.kawa[k].len() < 55
}

/// The event can be applied without breaking a limit of the state: piles of at most 55
/// discards, four melds and four kans, 255 turns and kans, 14 tiles in hand, scores within
/// `i32`; tiles taken from the hand must be real tiles.
pub open spec fn update_ok(v0: PlayerView, ev: Event) -> bool {
    let v = prologue(v0, ev);
    &&& seats_ok(ev)
    &&& match ev {
        Event::StartKyoku { tehais, .. } => known(tehais[v.player_id as int]@),
        Event::Tsumo { actor, .. } => actor == v.player_id && !v.has_agari ==> v.at_turn < 255
            && tehai_sum(v) <= 13,
        Event::Dahai { actor, pai, .. } => {
            let r = rel(v, actor);
            &&& r == 0 ==> pai@ < 27
            &&& (if r == 0 {
                take_out(v, pai, true).1
            } else {
                witness(v, pai).1
            }) is Ok ==> v.kawa[r].len() < 55 && v.kawa_overview[r].len() < 55
        },
        Event::Pon { actor, target, pai, consumed } => {
            let r = rel(v, actor);
            &&& v.fuuro_overview[r].len() < 4
            &&& r == 0 ==> pad_room(v, target) && known(consumed@)
            &&& r == 0 && take_out_all(v, consumed@).1 is Ok ==> v.pons.len() < 4 && pai@ < 27
        },
        Event::Daiminkan { actor, target, consumed, deltas, .. } => {
            let r = rel(v, actor);
            &&& deltas_fit(v, deltas)
            &&& v.fuuro_overview[r].len() < 4
            &&& v.kans_on_board < 255
            &&& r == 0 ==> pad_room(v, target) && known(consumed@)
            &&& r == 0 && take_out_all(v, consumed@).1 is Ok ==> v.minkans.len() < 4
        },
        Event::Kakan { actor, pai, deltas, .. } => {
            let r = rel(v, actor);
            &&& deltas_fit(v, deltas)
            &&& (match first_meld_of(v.fuuro_overview[r], pai) {
                Some(j) => v.fuuro_overview[r][j].len() < 4,
                None => true,
            })
            &&& v.kans_on_board < 255
            &&& r == 0 ==> pai@ < 27
            &&& r == 0 && take_out(v, pai, false).1 is Ok ==> v.minkans.len() < 4
        },
        Event::Ankan { actor, consumed, deltas } => {
            let r = rel(v, actor);
            &&& deltas_fit(v, deltas)
            &&& v.ankan_overview[r].len() < 4
            &&& v.kans_on_board < 255
            &&& r == 0 ==> known(consumed@)
            &&& r == 0 && take_out_all(v, consumed@).1 is Ok ==> v.ankans.len() < 4
        },
        Event::Hora { actor, target, deltas } => {
            &&& deltas_fit(v, deltas)
            &&& target == v.player_id && actor != v.player_id && v.pending_kakan_tile is Some ==> {
                let tile = v.pending_kakan_tile->0;
                &&& index_of(v.minkans, tile) is Some ==> !v.pons.contains(tile) && v.pons.len()
                    < 4
                &&& !v.last_cans.can_discard ==> tehai_sum(v) <= 13
            }
        },
        Event::Ryukyoku { deltas } => deltas_fit(v, deltas),
        _ => true,
    }
}

} // verus!
